//! Sound positions: positions in which every pseudo-legal move can be played
//! and taken back, and which stay sound under such moves.

use crate::attacks::{lemma_pawn_attack_members, pawn_attack_mask};
use crate::bitset::{is_set, lemma_bitwise_members, lemma_lowest, lemma_squares_of_members, lowest, squares_of};
use crate::generator::{
    ahead, attack_mask, castle_flag, castle_path, castle_target, castling_moves, castling_of,
    castling_on, four_promotions, moves_to, pawn_captures, pawn_en_passant, pawn_moves,
    pawn_moves_from, pawn_moves_over, pawn_pushes, piece_moves, piece_moves_from,
    piece_moves_over, promotion_rank, promotions_to, pseudo_legal, start_rank,
};
use crate::moves::{lemma_pack_fields, lemma_unpack_bounds, pack, Move, MoveType};
use crate::position::{
    castle_rook_from, castle_rook_to, en_passant_victim, lemma_make_keeps_layers_apart, Position,
};
use crate::types::{CastleRights, Color, Piece, Square};
use vstd::prelude::*;

verus! {

/// A member of a list made of two lists is a member of one of them.
pub proof fn lemma_concat_contains(a: Seq<Move>, b: Seq<Move>, m: Move)
    ensures
        (a + b).contains(m) <==> a.contains(m) || b.contains(m),
{
    if (a + b).contains(m) {
        let i = choose|i: int| 0 <= i < (a + b).len() && (a + b)[i] == m;
        if i < a.len() {
            assert(a[i] == m);
        } else {
            assert(b[i - a.len()] == m);
        }
    }
    if a.contains(m) {
        let i = choose|i: int| 0 <= i < a.len() && a[i] == m;
        assert((a + b)[i] == m);
    }
    if b.contains(m) {
        let i = choose|i: int| 0 <= i < b.len() && b[i] == m;
        assert((a + b)[a.len() + i] == m);
    }
}

/// A move among the normal moves from `from` to the squares of `targets`
/// is the normal move from `from` to one of those squares.
pub proof fn lemma_moves_to_members(from: Square, targets: u64, m: Move)
    requires
        from.valid(),
        moves_to(from, squares_of(targets)).contains(m),
    ensures
        m.spec_from() == from,
        m.spec_to().valid(),
        is_set(targets, m.spec_to().idx()),
        m.spec_move_type() == MoveType::Normal,
{
    let squares = squares_of(targets);
    let moves = moves_to(from, squares);
    let i = choose|i: int| 0 <= i < moves.len() && moves[i] == m;
    let t = squares[i];
    crate::bitset::lemma_squares_of_sorted(targets);
    assert(squares.contains(t));
    lemma_squares_of_members(targets, t);
    lemma_pack_fields(from.0 as u16, t as u16, 0, 0);
    assert(m == Move(pack(from, Square(t as u8), MoveType::Normal, 0)));
}

/// A move among the four promotions from `from` to `to` is a promotion
/// from `from` to `to`.
pub proof fn lemma_four_promotions_members(from: Square, to: Square, m: Move)
    requires
        from.valid(),
        to.valid(),
        four_promotions(from, to).contains(m),
    ensures
        m.spec_from() == from,
        m.spec_to() == to,
        m.spec_move_type() == MoveType::Promotion,
{
    let four = four_promotions(from, to);
    let i = choose|i: int| 0 <= i < four.len() && four[i] == m;
    lemma_pack_fields(from.0 as u16, to.0 as u16, 1, 0);
    lemma_pack_fields(from.0 as u16, to.0 as u16, 1, 1);
    lemma_pack_fields(from.0 as u16, to.0 as u16, 1, 2);
    lemma_pack_fields(from.0 as u16, to.0 as u16, 1, 3);
}

/// A move among the promotions from `from` to the squares of `targets` is
/// a promotion from `from` to one of those squares.
pub proof fn lemma_promotions_to_members(from: Square, targets: Seq<u64>, m: Move)
    requires
        from.valid(),
        forall|k: int| 0 <= k < targets.len() ==> targets[k] < 64,
        promotions_to(from, targets).contains(m),
    ensures
        m.spec_from() == from,
        m.spec_to().valid(),
        targets.contains(m.spec_to().idx()),
        m.spec_move_type() == MoveType::Promotion,
    decreases targets.len(),
{
    if targets.len() > 0 {
        let before = promotions_to(from, targets.drop_last());
        let last = four_promotions(from, Square(targets.last() as u8));
        lemma_concat_contains(before, last, m);
        if before.contains(m) {
            lemma_promotions_to_members(from, targets.drop_last(), m);
            let k = choose|k: int|
                0 <= k < targets.drop_last().len() && targets.drop_last()[k]
                    == m.spec_to().idx();
            assert(targets[k] == m.spec_to().idx());
        } else {
            lemma_four_promotions_members(from, Square(targets.last() as u8), m);
            assert(targets[targets.len() - 1] == m.spec_to().idx());
        }
    }
}

/// A move among the moves of the pawns on `squares` is a move of one of them.
pub proof fn lemma_pawn_moves_over_members(
    squares: Seq<u64>,
    occ: u64,
    enemies: u64,
    color: Color,
    en_passant: Option<Square>,
    m: Move,
) -> (sq: u64)
    requires
        pawn_moves_over(squares, occ, enemies, color, en_passant).contains(m),
    ensures
        squares.contains(sq),
        pawn_moves_from(Square(sq as u8), occ, enemies, color, en_passant).contains(m),
    decreases squares.len(),
{
    let before = pawn_moves_over(squares.drop_last(), occ, enemies, color, en_passant);
    let last = pawn_moves_from(Square(squares.last() as u8), occ, enemies, color, en_passant);
    lemma_concat_contains(before, last, m);
    if before.contains(m) {
        let sq = lemma_pawn_moves_over_members(
            squares.drop_last(),
            occ,
            enemies,
            color,
            en_passant,
            m,
        );
        let k = choose|k: int| 0 <= k < squares.drop_last().len() && squares.drop_last()[k] == sq;
        assert(squares[k] == sq);
        sq
    } else {
        assert(squares[squares.len() - 1] == squares.last());
        squares.last()
    }
}

/// A move among the moves of the pieces on `squares` is a move of one of them.
pub proof fn lemma_piece_moves_over_members(
    kind: Piece,
    squares: Seq<u64>,
    occ: u64,
    enemies: u64,
    m: Move,
) -> (sq: u64)
    requires
        piece_moves_over(kind, squares, occ, enemies).contains(m),
    ensures
        squares.contains(sq),
        piece_moves_from(kind, Square(sq as u8), occ, enemies).contains(m),
    decreases squares.len(),
{
    let before = piece_moves_over(kind, squares.drop_last(), occ, enemies);
    let last = piece_moves_from(kind, Square(squares.last() as u8), occ, enemies);
    lemma_concat_contains(before, last, m);
    if before.contains(m) {
        let sq = lemma_piece_moves_over_members(kind, squares.drop_last(), occ, enemies, m);
        let k = choose|k: int| 0 <= k < squares.drop_last().len() && squares.drop_last()[k] == sq;
        assert(squares[k] == sq);
        sq
    } else {
        assert(squares[squares.len() - 1] == squares.last());
        squares.last()
    }
}

/// Whether `m` is a move that the pawn of the side to move on `sq` has.
pub open spec fn pawn_has(pos: Position, sq: u64, m: Move) -> bool {
    let us = pos.side_to_move;
    sq < 64 && is_set(pos.layer(Piece::Pawn, us), sq) && pawn_moves_from(
        Square(sq as u8),
        pos.occupied(),
        pos.occupancy(us.spec_opposite()),
        us,
        pos.en_passant,
    ).contains(m)
}

/// Whether `m` is a move that the piece of `kind` of the side to move on `sq` has.
pub open spec fn piece_has(pos: Position, kind: Piece, sq: u64, m: Move) -> bool {
    let us = pos.side_to_move;
    sq < 64 && kind != Piece::Pawn && is_set(pos.layer(kind, us), sq) && piece_moves_from(
        kind,
        Square(sq as u8),
        pos.occupied(),
        pos.occupancy(us.spec_opposite()),
    ).contains(m)
}

/// Where a pseudo-legal move comes from: it is a move of a pawn, or of a
/// piece of another kind, of the side to move, or a castling move.
pub proof fn lemma_pseudo_legal_origin(pos: Position, m: Move)
    requires
        pseudo_legal(pos).contains(m),
    ensures
        (exists|sq: u64| pawn_has(pos, sq, m)) || (exists|kind: Piece, sq: u64|
            piece_has(pos, kind, sq, m)) || castling_of(pos).contains(m),
{
    reveal(pseudo_legal);
    let us = pos.side_to_move;
    let occ = pos.occupied();
    let enemies = pos.occupancy(us.spec_opposite());
    let a = pawn_moves(pos.layer(Piece::Pawn, us), occ, enemies, us, pos.en_passant);
    let b = piece_moves(Piece::Knight, pos.layer(Piece::Knight, us), occ, enemies);
    let c = piece_moves(Piece::Bishop, pos.layer(Piece::Bishop, us), occ, enemies);
    let d = piece_moves(Piece::Rook, pos.layer(Piece::Rook, us), occ, enemies);
    let e = piece_moves(Piece::Queen, pos.layer(Piece::Queen, us), occ, enemies);
    let f = piece_moves(Piece::King, pos.layer(Piece::King, us), occ, enemies);
    let g = castling_of(pos);
    lemma_concat_contains(a + b + c + d + e + f, g, m);
    lemma_concat_contains(a + b + c + d + e, f, m);
    lemma_concat_contains(a + b + c + d, e, m);
    lemma_concat_contains(a + b + c, d, m);
    lemma_concat_contains(a + b, c, m);
    lemma_concat_contains(a, b, m);
    if a.contains(m) {
        let sq = lemma_pawn_moves_over_members(
            squares_of(pos.layer(Piece::Pawn, us)),
            occ,
            enemies,
            us,
            pos.en_passant,
            m,
        );
        lemma_squares_of_members(pos.layer(Piece::Pawn, us), sq);
        assert(pawn_has(pos, sq, m));
    } else if b.contains(m) {
        lemma_piece_origin(pos, Piece::Knight, m);
    } else if c.contains(m) {
        lemma_piece_origin(pos, Piece::Bishop, m);
    } else if d.contains(m) {
        lemma_piece_origin(pos, Piece::Rook, m);
    } else if e.contains(m) {
        lemma_piece_origin(pos, Piece::Queen, m);
    } else if f.contains(m) {
        lemma_piece_origin(pos, Piece::King, m);
    }
}

/// A move among the moves of the pieces of `kind` is a move of one of them.
proof fn lemma_piece_origin(pos: Position, kind: Piece, m: Move)
    requires
        kind != Piece::Pawn,
        piece_moves(
            kind,
            pos.layer(kind, pos.side_to_move),
            pos.occupied(),
            pos.occupancy(pos.side_to_move.spec_opposite()),
        ).contains(m),
    ensures
        exists|k: Piece, sq: u64| piece_has(pos, k, sq, m),
{
    let us = pos.side_to_move;
    let sq = lemma_piece_moves_over_members(
        kind,
        squares_of(pos.layer(kind, us)),
        pos.occupied(),
        pos.occupancy(us.spec_opposite()),
        m,
    );
    lemma_squares_of_members(pos.layer(kind, us), sq);
    assert(piece_has(pos, kind, sq, m));
}

/// The number of the square where the king of `color` starts: e1 or e8.
pub open spec fn king_home(color: Color) -> u64 {
    if color == Color::White {
        4
    } else {
        60
    }
}

/// The number of the corner where the rook of `color` on the wing that
/// `kingside` names starts.
pub open spec fn rook_home(color: Color, kingside: bool) -> u64 {
    match (color, kingside) {
        (Color::White, true) => 7,
        (Color::White, false) => 0,
        (Color::Black, true) => 63,
        (Color::Black, false) => 56,
    }
}

/// Whether a castle right of `color` that is held is backed by the pieces:
/// the side has no king off its home square and a rook in the corner.
pub open spec fn right_is_backed(pos: Position, color: Color, kingside: bool) -> bool {
    pos.castling_rights.0 & castle_flag(color, kingside) != 0 ==> (forall|s: u64|
        is_set(pos.layer(Piece::King, color), s) ==> s == king_home(color)) && is_set(
        pos.layer(Piece::Rook, color),
        rook_home(color, kingside),
    )
}

/// The number of the square behind the en-passant target `target` as the
/// side `mover` that may capture sees it: the square of the pawn that has
/// just passed the target.
pub open spec fn passed_pawn_square(target: Square, mover: Color) -> int {
    if mover == Color::White {
        target.0 - 8
    } else {
        target.0 + 8
    }
}

/// Whether the en-passant target, if there is one, is backed by the
/// pieces: it is an empty square of the board, and behind it stands a pawn
/// of the side that has just moved.
pub open spec fn target_is_backed(pos: Position) -> bool {
    pos.en_passant matches Some(target) ==> {
        let behind = passed_pawn_square(target, pos.side_to_move);
        &&& target.valid()
        &&& !is_set(pos.occupied(), target.idx())
        &&& 0 <= behind < 64
        &&& is_set(pos.layer(Piece::Pawn, pos.side_to_move.spec_opposite()), behind as u64)
    }
}

/// A position is sound when no square is in two layers, every castle right
/// that is held is backed by the pieces (no king of that side stands off
/// its home square, and its rook stands in the corner), and the en-passant
/// target, if there is one, is backed by the pieces (it is empty, and the
/// pawn that passed it stands behind it).
pub open spec fn sound(pos: Position) -> bool {
    &&& pos.disjoint()
    &&& right_is_backed(pos, Color::White, true)
    &&& right_is_backed(pos, Color::White, false)
    &&& right_is_backed(pos, Color::Black, true)
    &&& right_is_backed(pos, Color::Black, false)
    &&& target_is_backed(pos)
}

/// A side holds a square exactly when one of its layers does, which is
/// when it has a piece there.
pub proof fn lemma_occupancy_members(pos: Position, color: Color, sq: Square)
    ensures
        is_set(pos.occupancy(color), sq.idx()) <==> pos.piece_at(color, sq).is_some(),
        is_set(pos.occupancy(color), sq.idx()) ==> is_set(pos.occupied(), sq.idx()),
        is_set(pos.occupied(), sq.idx()) <==> is_set(pos.occupancy(Color::White), sq.idx())
            || is_set(pos.occupancy(Color::Black), sq.idx()),
        forall|kind: Piece|
            is_set(#[trigger] pos.layer(kind, color), sq.idx()) ==> is_set(
                pos.occupancy(color),
                sq.idx(),
            ),
{
    lemma_bitwise_members();
}

/// In a position whose layers are apart, no square is held by both sides,
/// and the piece on a square of a layer is of the layer's kind.
pub proof fn lemma_apart(pos: Position, kind: Piece, color: Color, sq: Square)
    requires
        pos.disjoint(),
        is_set(pos.layer(kind, color), sq.idx()),
    ensures
        pos.piece_at(color, sq) == Some(kind),
        !is_set(pos.occupancy(color.spec_opposite()), sq.idx()),
{
    lemma_bitwise_members();
    let other = color.spec_opposite();
    assert(!is_set(pos.layer(Piece::Pawn, other), sq.idx()));
    assert(!is_set(pos.layer(Piece::Knight, other), sq.idx()));
    assert(!is_set(pos.layer(Piece::Bishop, other), sq.idx()));
    assert(!is_set(pos.layer(Piece::Rook, other), sq.idx()));
    assert(!is_set(pos.layer(Piece::Queen, other), sq.idx()));
    assert(!is_set(pos.layer(Piece::King, other), sq.idx()));
}

/// A square that the side to move holds is held by no enemy, in a position
/// whose layers are apart.
proof fn lemma_own_is_not_enemy(pos: Position, color: Color, sq: Square)
    requires
        pos.disjoint(),
        is_set(pos.occupancy(color.spec_opposite()), sq.idx()),
    ensures
        pos.piece_at(color, sq).is_none(),
{
    lemma_bitwise_members();
    let other = color.spec_opposite();
    if pos.piece_at(color, sq).is_some() {
        let kind = pos.piece_at(color, sq).unwrap();
        assert(is_set(pos.layer(kind, color), sq.idx()));
        lemma_apart(pos, kind, color, sq);
    }
}

/// A pawn move of a sound position can be played and taken back, and
/// lands clear.
proof fn lemma_pawn_move_is_playable(pos: Position, sq: u64, m: Move)
    requires
        sound(pos),
        pawn_has(pos, sq, m),
    ensures
        pos.admits(m),
        pos.lands_clear(m),
{
    lemma_bitwise_members();
    let us = pos.side_to_move;
    let them = us.spec_opposite();
    let from = Square(sq as u8);
    let occ = pos.occupied();
    let enemies = pos.occupancy(them);
    let pushes = pawn_pushes(from, occ, us);
    let captures = pawn_captures(from, enemies, us);
    let passing = pawn_en_passant(from, us, pos.en_passant);
    lemma_concat_contains(pushes + captures, passing, m);
    lemma_concat_contains(pushes, captures, m);
    assert(from.idx() == sq);
    if pushes.contains(m) {
        let one = ahead(from, us, 1);
        let two = ahead(from, us, 2);
        let to1 = Square(one as u8);
        let i = choose|i: int| 0 <= i < pushes.len() && pushes[i] == m;
        lemma_pack_fields(from.0 as u16, to1.0 as u16, 0, 0);
        lemma_pack_fields(from.0 as u16, to1.0 as u16, 1, 0);
        lemma_pack_fields(from.0 as u16, to1.0 as u16, 1, 1);
        lemma_pack_fields(from.0 as u16, to1.0 as u16, 1, 2);
        lemma_pack_fields(from.0 as u16, to1.0 as u16, 1, 3);
        if 0 <= two < 64 {
            lemma_pack_fields(from.0 as u16, two as u16, 0, 0);
        }
        assert(m.spec_from() == from);
        assert(!is_set(occ, m.spec_to().idx()));
        lemma_occupancy_members(pos, us, m.spec_to());
        assert(m.spec_move_type() == MoveType::Normal || m.spec_move_type()
            == MoveType::Promotion);
    } else if captures.contains(m) {
        let targets = pawn_attack_mask(from, us) & enemies;
        crate::bitset::lemma_squares_of_sorted(targets);
        if from.spec_rank() == promotion_rank(us) {
            lemma_promotions_to_members(from, squares_of(targets), m);
            lemma_squares_of_members(targets, m.spec_to().idx());
        } else {
            lemma_moves_to_members(from, targets, m);
        }
        assert(is_set(enemies, m.spec_to().idx()));
        lemma_own_is_not_enemy(pos, us, m.spec_to());
    } else {
        let target = pos.en_passant.unwrap();
        lemma_pack_fields(from.0 as u16, target.0 as u16, 2, 0);
        assert(m == Move(pack(from, target, MoveType::EnPassant, 0)));
        assert(m.spec_from() == from && m.spec_to() == target);
        lemma_pawn_attack_members(from, us, target);
        lemma_occupancy_members(pos, us, target);
        lemma_occupancy_members(pos, them, target);
    }
}

/// A move of a piece that is no pawn can be played and taken back, and
/// lands clear, in a position whose layers are apart.
proof fn lemma_piece_move_is_playable(pos: Position, kind: Piece, sq: u64, m: Move)
    requires
        pos.disjoint(),
        piece_has(pos, kind, sq, m),
    ensures
        pos.admits(m),
        pos.lands_clear(m),
{
    lemma_bitwise_members();
    let us = pos.side_to_move;
    let them = us.spec_opposite();
    let from = Square(sq as u8);
    let occ = pos.occupied();
    let enemies = pos.occupancy(them);
    let targets = attack_mask(kind, Color::White, from, occ) & !(occ & !enemies);
    assert(from.idx() == sq);
    lemma_moves_to_members(from, targets, m);
    let to = m.spec_to();
    lemma_occupancy_members(pos, us, from);
    lemma_occupancy_members(pos, us, to);
    assert(!is_set(occ & !enemies, to.idx()));
    if is_set(enemies, to.idx()) {
        lemma_own_is_not_enemy(pos, us, to);
    }
}

/// Which squares lie between king and rook on each wing.
proof fn lemma_castle_paths()
    by (bit_vector)
    ensures
        forall|occ: u64|
            #[trigger] (occ & 0x60) == 0 ==> occ & (1u64 << 5) == 0 && occ & (1u64 << 6) == 0,
        forall|occ: u64|
            #[trigger] (occ & 0x0E) == 0 ==> occ & (1u64 << 2) == 0 && occ & (1u64 << 3) == 0,
        forall|occ: u64|
            #[trigger] (occ & (0x60u64 << 56)) == 0 ==> occ & (1u64 << 61) == 0 && occ & (1u64
                << 62) == 0,
        forall|occ: u64|
            #[trigger] (occ & (0x0Eu64 << 56)) == 0 ==> occ & (1u64 << 58) == 0 && occ & (1u64
                << 59) == 0,
{
}

/// A castling move of a sound position can be played and taken back, and
/// lands clear.
proof fn lemma_castling_is_playable(pos: Position, m: Move)
    requires
        sound(pos),
        castling_of(pos).contains(m),
    ensures
        pos.admits(m),
        pos.lands_clear(m),
{
    lemma_bitwise_members();
    lemma_castle_paths();
    let us = pos.side_to_move;
    let them = us.spec_opposite();
    let kings = pos.layer(Piece::King, us);
    let king_sq = Square(lowest(kings) as u8);
    let occ = pos.occupied();
    let short = castling_on(king_sq, pos.castling_rights, occ, us, true);
    let long = castling_on(king_sq, pos.castling_rights, occ, us, false);
    lemma_concat_contains(short, long, m);
    let kingside = short.contains(m);
    let to = castle_target(us, kingside);
    assert(m == Move(pack(king_sq, to, MoveType::Castling, 0))) by {
        if kingside {
            assert(short[0] == m);
        } else {
            assert(long[0] == m);
        }
    }
    assert(pos.castling_rights.0 & castle_flag(us, kingside) != 0);
    assert(occ & castle_path(us, kingside) == 0);
    assert(right_is_backed(pos, us, kingside));
    lemma_lowest(kings);
    assert(lowest(kings) == king_home(us));
    lemma_pack_fields(king_sq.0 as u16, to.0 as u16, 3, 0);
    assert(m.spec_from() == king_sq && m.spec_to() == to);
    lemma_apart(pos, Piece::King, us, king_sq);
    let rook_to = castle_rook_to(m);
    assert(!is_set(occ, to.idx()));
    assert(!is_set(occ, rook_to.idx()));
    lemma_occupancy_members(pos, us, to);
    lemma_occupancy_members(pos, them, to);
    lemma_occupancy_members(pos, us, rook_to);
    lemma_occupancy_members(pos, them, rook_to);
    assert(castle_rook_from(m).idx() == rook_home(us, kingside));
}

/// Every pseudo-legal move of a sound position can be played and taken
/// back, and lands clear.
pub proof fn lemma_pseudo_legal_is_playable(pos: Position, m: Move)
    requires
        sound(pos),
        pseudo_legal(pos).contains(m),
    ensures
        pos.admits(m),
        pos.lands_clear(m),
{
    lemma_pseudo_legal_origin(pos, m);
    if exists|sq: u64| pawn_has(pos, sq, m) {
        let sq = choose|sq: u64| pawn_has(pos, sq, m);
        lemma_pawn_move_is_playable(pos, sq, m);
    } else if exists|kind: Piece, sq: u64| piece_has(pos, kind, sq, m) {
        let (kind, sq) = choose|kind: Piece, sq: u64| piece_has(pos, kind, sq, m);
        lemma_piece_move_is_playable(pos, kind, sq, m);
    } else {
        lemma_castling_is_playable(pos, m);
    }
}

/// The number of the square midway between origin and destination of `m`
/// on the file of the origin.
pub open spec fn skipped_square(m: Move) -> u64 {
    (((m.spec_from().spec_rank() + m.spec_to().spec_rank()) / 2) * 8 + m.spec_from().spec_file()) as u64
}

/// A pseudo-legal pawn move over two ranks is a double push: it skips an
/// empty square and lands on an empty square of the same file.
proof fn lemma_two_rank_pawn_move(pos: Position, sq: u64, m: Move)
    requires
        sound(pos),
        pawn_has(pos, sq, m),
        m.spec_from().spec_rank() - m.spec_to().spec_rank() == 2 || m.spec_to().spec_rank()
            - m.spec_from().spec_rank() == 2,
    ensures
        m.spec_move_type() == MoveType::Normal,
        skipped_square(m) < 64,
        !is_set(pos.occupied(), skipped_square(m)),
        !is_set(pos.occupied(), m.spec_to().idx()),
        skipped_square(m) != m.spec_from().idx(),
        skipped_square(m) != m.spec_to().idx(),
        skipped_square(m) == ahead(m.spec_from(), pos.side_to_move, 1),
        m.spec_to().0 == ahead(m.spec_from(), pos.side_to_move, 2),
{
    lemma_bitwise_members();
    let us = pos.side_to_move;
    let them = us.spec_opposite();
    let from = Square(sq as u8);
    let occ = pos.occupied();
    let enemies = pos.occupancy(them);
    let pushes = pawn_pushes(from, occ, us);
    let captures = pawn_captures(from, enemies, us);
    let passing = pawn_en_passant(from, us, pos.en_passant);
    lemma_concat_contains(pushes + captures, passing, m);
    lemma_concat_contains(pushes, captures, m);
    assert(from.idx() == sq);
    if pushes.contains(m) {
        let one = ahead(from, us, 1);
        let two = ahead(from, us, 2);
        let to1 = Square(one as u8);
        let i = choose|i: int| 0 <= i < pushes.len() && pushes[i] == m;
        lemma_pack_fields(from.0 as u16, to1.0 as u16, 0, 0);
        lemma_pack_fields(from.0 as u16, to1.0 as u16, 1, 0);
        lemma_pack_fields(from.0 as u16, to1.0 as u16, 1, 1);
        lemma_pack_fields(from.0 as u16, to1.0 as u16, 1, 2);
        lemma_pack_fields(from.0 as u16, to1.0 as u16, 1, 3);
        if 0 <= two < 64 {
            lemma_pack_fields(from.0 as u16, two as u16, 0, 0);
        }
        assert(m.spec_from() == from);
        assert(m.spec_to().0 == two);
        assert(skipped_square(m) == one);
    } else if captures.contains(m) {
        let targets = pawn_attack_mask(from, us) & enemies;
        crate::bitset::lemma_squares_of_sorted(targets);
        if from.spec_rank() == promotion_rank(us) {
            lemma_promotions_to_members(from, squares_of(targets), m);
            lemma_squares_of_members(targets, m.spec_to().idx());
        } else {
            lemma_moves_to_members(from, targets, m);
        }
        lemma_pawn_attack_members(from, us, m.spec_to());
    } else {
        let target = pos.en_passant.unwrap();
        lemma_pack_fields(from.0 as u16, target.0 as u16, 2, 0);
        assert(m == Move(pack(from, target, MoveType::EnPassant, 0)));
        lemma_pawn_attack_members(from, us, target);
    }
}

/// What it takes for a right to survive the masks of a move.
proof fn lemma_right_survives(r: u8, a: u8, b: u8, f: u8)
    by (bit_vector)
    ensures
        ((r & a) & b) & f != 0 ==> r & f != 0 && a & f != 0 && b & f != 0,
        12u8 & 1 == 0 && 12u8 & 2 == 0 && 3u8 & 4 == 0 && 3u8 & 8 == 0,
        13u8 & 2 == 0 && 14u8 & 1 == 0 && 7u8 & 8 == 0 && 11u8 & 4 == 0,
{
}

/// A castle right that is held after a pseudo-legal move of a sound
/// position is still backed by the pieces.
proof fn lemma_right_stays_backed(pos: Position, m: Move, after: Position, color: Color, kingside: bool)
    requires
        sound(pos),
        pos.admits(m),
        pos.leads_to(m, after),
    ensures
        right_is_backed(after, color, kingside),
{
    lemma_bitwise_members();
    lemma_unpack_bounds(m.0);
    let flag = castle_flag(color, kingside);
    let from = m.spec_from();
    let to = m.spec_to();
    let us = pos.side_to_move;
    lemma_right_survives(
        pos.castling_rights.0,
        crate::position::rights_kept_leaving(from),
        crate::position::rights_kept_arriving(to),
        flag,
    );
    if after.castling_rights.0 & flag != 0 {
        assert(right_is_backed(pos, color, kingside));
        assert(from.idx() != king_home(color));
        assert(from.idx() != rook_home(color, kingside));
        assert(to.idx() != rook_home(color, kingside));
        let corner = rook_home(color, kingside);
        assert(after.layer(Piece::King, color) == pos.layer_after(m, Piece::King, color));
        assert(after.layer(Piece::Rook, color) == pos.layer_after(m, Piece::Rook, color));
        if color == us {
            if pos.moving_piece(m) == Some(Piece::King) {
                assert(is_set(pos.layer(Piece::King, us), from.idx()));
            }
        }
        assert forall|s: u64| is_set(after.layer(Piece::King, color), s) implies s == king_home(
            color,
        ) by {
            assert(is_set(pos.layer(Piece::King, color), s));
        }
        assert(is_set(after.layer(Piece::Rook, color), corner));
    }
}

/// A pseudo-legal move of a sound position leads to a sound position.
pub proof fn lemma_sound_is_kept(pos: Position, m: Move, after: Position)
    requires
        sound(pos),
        pseudo_legal(pos).contains(m),
        pos.leads_to(m, after),
    ensures
        sound(after),
{
    lemma_pseudo_legal_is_playable(pos, m);
    lemma_make_keeps_layers_apart(pos, m, after);
    lemma_right_stays_backed(pos, m, after, Color::White, true);
    lemma_right_stays_backed(pos, m, after, Color::White, false);
    lemma_right_stays_backed(pos, m, after, Color::Black, true);
    lemma_right_stays_backed(pos, m, after, Color::Black, false);
    if after.en_passant.is_some() {
        lemma_target_is_empty(pos, m, after);
    }
}

/// The en-passant target that a pseudo-legal move of a sound position
/// sets is backed by the pieces.
proof fn lemma_target_is_empty(pos: Position, m: Move, after: Position)
    requires
        sound(pos),
        pseudo_legal(pos).contains(m),
        pos.admits(m),
        pos.leads_to(m, after),
        after.en_passant.is_some(),
    ensures
        target_is_backed(after),
{
    lemma_bitwise_members();
    lemma_unpack_bounds(m.0);
    let us = pos.side_to_move;
    let from = m.spec_from();
    let to = m.spec_to();
    assert(pos.moving_piece(m) == Some(Piece::Pawn));
    lemma_pseudo_legal_origin(pos, m);
    if exists|kind: Piece, sq: u64| piece_has(pos, kind, sq, m) {
        let (kind, sq) = choose|kind: Piece, sq: u64| piece_has(pos, kind, sq, m);
        let origin = Square(sq as u8);
        assert(origin.idx() == sq);
        let targets = attack_mask(kind, Color::White, origin, pos.occupied()) & !(pos.occupied()
            & !pos.occupancy(us.spec_opposite()));
        lemma_moves_to_members(origin, targets, m);
        lemma_apart(pos, kind, us, origin);
        assert(false);
    }
    if castling_of(pos).contains(m) && !(exists|sq: u64| pawn_has(pos, sq, m)) {
        lemma_castling_is_playable(pos, m);
        let kings = pos.layer(Piece::King, us);
        let king_sq = Square(lowest(kings) as u8);
        let short = castling_on(king_sq, pos.castling_rights, pos.occupied(), us, true);
        let long = castling_on(king_sq, pos.castling_rights, pos.occupied(), us, false);
        lemma_concat_contains(short, long, m);
        let to_short = castle_target(us, true);
        let to_long = castle_target(us, false);
        lemma_pack_fields(king_sq.0 as u16, to_short.0 as u16, 3, 0);
        lemma_pack_fields(king_sq.0 as u16, to_long.0 as u16, 3, 0);
        assert(m.spec_move_type() == MoveType::Castling) by {
            if short.contains(m) {
                assert(short[0] == m);
            } else {
                assert(long[0] == m);
            }
        }
        assert(pos.moving_piece(m) == Some(Piece::King));
        assert(false);
    }
    let sq = choose|sq: u64| pawn_has(pos, sq, m);
    lemma_two_rank_pawn_move(pos, sq, m);
    let mid = skipped_square(m);
    let target = after.en_passant.unwrap();
    assert(target.idx() == mid);
    assert forall|p: Piece, c: Color| !is_set(#[trigger] after.layer(p, c), mid) by {
        assert(after.layer(p, c) == pos.layer_after(m, p, c));
        lemma_occupancy_members(pos, c, Square(mid as u8));
        assert(!is_set(pos.layer(p, c), mid)) by {
            assert(Square(mid as u8).idx() == mid);
        }
    }
    assert(after.layer(Piece::Pawn, us) == pos.layer_after(m, Piece::Pawn, us));
    assert(is_set(after.layer(Piece::Pawn, us), to.idx()));
    assert(passed_pawn_square(target, after.side_to_move) == to.idx());
}

/// The start of a game is a sound position.
pub proof fn lemma_start_is_sound(pos: Position)
    requires
        pos.has_start_placement(),
        pos.disjoint(),
        pos.en_passant.is_none(),
    ensures
        sound(pos),
{
    lemma_bitwise_members();
    lemma_start_squares();
}

/// Where kings and rooks stand at the start of a game.
proof fn lemma_start_squares()
    by (bit_vector)
    ensures
        forall|s: u64| s < 64 ==> (0x10u64 & (1u64 << s) != 0 <==> s == 4),
        forall|s: u64| s < 64 ==> (0x1000_0000_0000_0000u64 & (1u64 << s) != 0 <==> s == 60),
        0x81u64 & (1u64 << 0) != 0,
        0x81u64 & (1u64 << 7) != 0,
        0x8100_0000_0000_0000u64 & (1u64 << 56) != 0,
        0x8100_0000_0000_0000u64 & (1u64 << 63) != 0,
{
}

/// Every legal move is a pseudo-legal move.
pub proof fn lemma_legal_is_pseudo_legal(pos: Position, m: Move)
    requires
        crate::legal::legal_moves_of(pos).contains(m),
    ensures
        pseudo_legal(pos).contains(m),
{
    let all = pseudo_legal(pos);
    let fit = crate::generator::bounded(all);
    let keep = |mv: Move| crate::legal::is_legal(pos, mv);
    fit.lemma_filter_contains_rev(keep, m);
    let i = choose|i: int| 0 <= i < fit.len() && fit[i] == m;
    assert(all[i] == m);
}

/// Taking back a legal move of a sound position gives the position back,
/// bit for bit, the fingerprint included; and the position that the move
/// leads to is sound again, so that the pieces of the two sides share no
/// square in it.
pub proof fn lemma_legal_move_can_be_taken_back(pos: Position, m: Move)
    requires
        sound(pos),
        pos.hash_consistent(),
        crate::legal::legal_moves_of(pos).contains(m),
    ensures
        pos.after(m).undone(pos.undo_record(m)) == pos,
        sound(pos.after(m)),
        pos.after(m).hash_consistent(),
        pos.after(m).occupancy(Color::White) & pos.after(m).occupancy(Color::Black) == 0,
{
    lemma_legal_is_pseudo_legal(pos, m);
    lemma_pseudo_legal_is_playable(pos, m);
    crate::position::lemma_undone_after_is_start(pos, m);
    crate::position::lemma_after_is_led_to(pos, m);
    lemma_sound_is_kept(pos, m, pos.after(m));
    crate::position::lemma_disjoint_sides(pos.after(m));
}

/// Two lists without a move twice and without a move in common make a
/// list without a move twice.
pub proof fn lemma_concat_is_a_set(a: Seq<Move>, b: Seq<Move>)
    requires
        a.no_duplicates(),
        b.no_duplicates(),
        forall|m: Move| !(a.contains(m) && b.contains(m)),
    ensures
        (a + b).no_duplicates(),
{
    assert forall|i: int, j: int| 0 <= i < a.len() && 0 <= j < b.len() implies a[i] != b[j] by {
        assert(a.contains(a[i]));
        assert(b.contains(b[j]));
    }
    vstd::seq_lib::lemma_no_dup_in_concat(a, b);
}

/// The moves that are kept of a list without a move twice have no move twice.
pub proof fn lemma_filter_is_a_set(s: Seq<Move>, keep: spec_fn(Move) -> bool)
    requires
        s.no_duplicates(),
    ensures
        s.filter(keep).no_duplicates(),
    decreases s.len(),
{
    reveal(Seq::filter);
    if s.len() > 0 {
        let front = s.drop_last();
        assert(front.no_duplicates()) by {
            assert forall|i: int, j: int|
                0 <= i < front.len() && 0 <= j < front.len() && i != j implies front[i]
                != front[j] by {
                assert(front[i] == s[i] && front[j] == s[j]);
            }
        }
        lemma_filter_is_a_set(front, keep);
        if keep(s.last()) {
            let last = seq![s.last()];
            assert forall|m: Move| !(front.filter(keep).contains(m) && last.contains(m)) by {
                if front.filter(keep).contains(m) && last.contains(m) {
                    front.lemma_filter_contains_rev(keep, m);
                    let i = choose|i: int| 0 <= i < front.len() && front[i] == m;
                    let j = choose|j: int| 0 <= j < last.len() && last[j] == m;
                    assert(s[i] == s[s.len() - 1]);
                }
            }
            lemma_concat_is_a_set(front.filter(keep), last);
            assert(front.filter(keep).push(s.last()) =~= front.filter(keep) + last);
        }
    }
}

/// The normal moves from one square to the squares of a set have no move twice.
proof fn lemma_moves_to_is_a_set(from: Square, targets: u64)
    requires
        from.valid(),
    ensures
        moves_to(from, squares_of(targets)).no_duplicates(),
{
    let squares = squares_of(targets);
    let moves = moves_to(from, squares);
    crate::bitset::lemma_squares_of_sorted(targets);
    assert forall|i: int, j: int|
        0 <= i < moves.len() && 0 <= j < moves.len() && i != j implies moves[i] != moves[j] by {
        lemma_pack_fields(from.0 as u16, squares[i] as u16, 0, 0);
        lemma_pack_fields(from.0 as u16, squares[j] as u16, 0, 0);
        if i < j {
            assert(squares[i] < squares[j]);
        } else {
            assert(squares[j] < squares[i]);
        }
        assert(moves[i].spec_to().0 == squares[i]);
        assert(moves[j].spec_to().0 == squares[j]);
    }
}

/// The four promotions to one square are four moves.
proof fn lemma_four_promotions_is_a_set(from: Square, to: Square)
    requires
        from.valid(),
        to.valid(),
    ensures
        four_promotions(from, to).no_duplicates(),
{
    lemma_pack_fields(from.0 as u16, to.0 as u16, 1, 0);
    lemma_pack_fields(from.0 as u16, to.0 as u16, 1, 1);
    lemma_pack_fields(from.0 as u16, to.0 as u16, 1, 2);
    lemma_pack_fields(from.0 as u16, to.0 as u16, 1, 3);
    let four = four_promotions(from, to);
    assert forall|i: int, j: int|
        0 <= i < four.len() && 0 <= j < four.len() && i != j implies four[i] != four[j] by {
        assert((four[i].0 >> 14) & 0x3 == i);
        assert((four[j].0 >> 14) & 0x3 == j);
    }
}

/// The promotions from one square to the squares of a rising list have no
/// move twice.
proof fn lemma_promotions_to_is_a_set(from: Square, targets: Seq<u64>)
    requires
        from.valid(),
        forall|a: int, b: int| 0 <= a < b < targets.len() ==> targets[a] < targets[b],
        forall|k: int| 0 <= k < targets.len() ==> targets[k] < 64,
    ensures
        promotions_to(from, targets).no_duplicates(),
    decreases targets.len(),
{
    if targets.len() > 0 {
        let front = targets.drop_last();
        let before = promotions_to(from, front);
        let last_sq = Square(targets.last() as u8);
        let last = four_promotions(from, last_sq);
        lemma_promotions_to_is_a_set(from, front);
        lemma_four_promotions_is_a_set(from, last_sq);
        assert forall|m: Move| !(before.contains(m) && last.contains(m)) by {
            if before.contains(m) && last.contains(m) {
                lemma_promotions_to_members(from, front, m);
                lemma_four_promotions_members(from, last_sq, m);
                let k = choose|k: int| 0 <= k < front.len() && front[k] == m.spec_to().idx();
                assert(targets[k] < targets[targets.len() - 1]);
            }
        }
        lemma_concat_is_a_set(before, last);
    }
}

/// What every move of a pawn is like: it leaves the pawn's square for a
/// square of the board and is no castling move; a push stays on the file,
/// a capture leaves it.
proof fn lemma_pawn_move_shape(
    from: Square,
    occ: u64,
    enemies: u64,
    color: Color,
    en_passant: Option<Square>,
    m: Move,
)
    requires
        from.valid(),
        pawn_moves_from(from, occ, enemies, color, en_passant).contains(m),
    ensures
        m.spec_from() == from,
        m.spec_to().valid(),
        m.spec_move_type() != MoveType::Castling,
        pawn_pushes(from, occ, color).contains(m) ==> m.spec_to().spec_file() == from.spec_file()
            && m.spec_move_type() != MoveType::EnPassant,
        pawn_captures(from, enemies, color).contains(m) ==> m.spec_to().spec_file()
            != from.spec_file() && m.spec_move_type() != MoveType::EnPassant,
        pawn_en_passant(from, color, en_passant).contains(m) ==> m.spec_move_type()
            == MoveType::EnPassant,
{
    lemma_bitwise_members();
    let pushes = pawn_pushes(from, occ, color);
    let captures = pawn_captures(from, enemies, color);
    let passing = pawn_en_passant(from, color, en_passant);
    lemma_concat_contains(pushes + captures, passing, m);
    lemma_concat_contains(pushes, captures, m);
    if pushes.contains(m) {
        let one = ahead(from, color, 1);
        let two = ahead(from, color, 2);
        let to1 = Square(one as u8);
        let i = choose|i: int| 0 <= i < pushes.len() && pushes[i] == m;
        lemma_pack_fields(from.0 as u16, to1.0 as u16, 0, 0);
        lemma_pack_fields(from.0 as u16, to1.0 as u16, 1, 0);
        lemma_pack_fields(from.0 as u16, to1.0 as u16, 1, 1);
        lemma_pack_fields(from.0 as u16, to1.0 as u16, 1, 2);
        lemma_pack_fields(from.0 as u16, to1.0 as u16, 1, 3);
        if 0 <= two < 64 {
            lemma_pack_fields(from.0 as u16, two as u16, 0, 0);
        }
    }
    if captures.contains(m) {
        let targets = pawn_attack_mask(from, color) & enemies;
        crate::bitset::lemma_squares_of_sorted(targets);
        if from.spec_rank() == promotion_rank(color) {
            lemma_promotions_to_members(from, squares_of(targets), m);
            lemma_squares_of_members(targets, m.spec_to().idx());
        } else {
            lemma_moves_to_members(from, targets, m);
        }
        lemma_pawn_attack_members(from, color, m.spec_to());
    }
    if passing.contains(m) {
        let target = en_passant.unwrap();
        lemma_pack_fields(from.0 as u16, target.0 as u16, 2, 0);
        assert(passing[0] == m);
    }
}

/// The pushes of a pawn have no move twice.
proof fn lemma_pawn_pushes_is_a_set(from: Square, occ: u64, color: Color)
    requires
        from.valid(),
    ensures
        pawn_pushes(from, occ, color).no_duplicates(),
{
    let pushes = pawn_pushes(from, occ, color);
    let one = ahead(from, color, 1);
    let two = ahead(from, color, 2);
    if 0 <= one < 64 && !is_set(occ, one as u64) {
        let to1 = Square(one as u8);
        lemma_four_promotions_is_a_set(from, to1);
        lemma_pack_fields(from.0 as u16, to1.0 as u16, 0, 0);
        lemma_pack_fields(from.0 as u16, to1.0 as u16, 1, 0);
        lemma_pack_fields(from.0 as u16, to1.0 as u16, 1, 1);
        lemma_pack_fields(from.0 as u16, to1.0 as u16, 1, 2);
        lemma_pack_fields(from.0 as u16, to1.0 as u16, 1, 3);
        if 0 <= two < 64 {
            lemma_pack_fields(from.0 as u16, two as u16, 0, 0);
        }
        assert forall|i: int, j: int|
            0 <= i < pushes.len() && 0 <= j < pushes.len() && i != j implies pushes[i]
            != pushes[j] by {
            if from.spec_rank() == promotion_rank(color) {
                let four = four_promotions(from, to1);
                if i < 4 && j < 4 {
                    assert(pushes[i] == four[i] && pushes[j] == four[j]);
                }
            } else {
                if i == 0 {
                    assert(pushes[0].spec_to().0 == one);
                    assert(pushes[j].spec_to().0 == two);
                } else {
                    assert(pushes[0].spec_to().0 == one);
                    assert(pushes[i].spec_to().0 == two);
                }
            }
        }
    }
}

/// The moves of one pawn have no move twice.
proof fn lemma_pawn_moves_from_is_a_set(
    from: Square,
    occ: u64,
    enemies: u64,
    color: Color,
    en_passant: Option<Square>,
)
    requires
        from.valid(),
    ensures
        pawn_moves_from(from, occ, enemies, color, en_passant).no_duplicates(),
{
    let pushes = pawn_pushes(from, occ, color);
    let captures = pawn_captures(from, enemies, color);
    let passing = pawn_en_passant(from, color, en_passant);
    lemma_pawn_pushes_is_a_set(from, occ, color);
    let targets = pawn_attack_mask(from, color) & enemies;
    crate::bitset::lemma_squares_of_sorted(targets);
    if from.spec_rank() == promotion_rank(color) {
        lemma_promotions_to_is_a_set(from, squares_of(targets));
    } else {
        lemma_moves_to_is_a_set(from, targets);
    }
    assert forall|m: Move| !(pushes.contains(m) && captures.contains(m)) by {
        if pushes.contains(m) && captures.contains(m) {
            lemma_concat_contains(pushes, captures, m);
            lemma_concat_contains(pushes + captures, passing, m);
            lemma_pawn_move_shape(from, occ, enemies, color, en_passant, m);
        }
    }
    lemma_concat_is_a_set(pushes, captures);
    assert forall|m: Move| !((pushes + captures).contains(m) && passing.contains(m)) by {
        if (pushes + captures).contains(m) && passing.contains(m) {
            lemma_concat_contains(pushes, captures, m);
            lemma_concat_contains(pushes + captures, passing, m);
            lemma_pawn_move_shape(from, occ, enemies, color, en_passant, m);
        }
    }
    lemma_concat_is_a_set(pushes + captures, passing);
}

/// The moves of the pawns on a rising list of squares have no move twice.
proof fn lemma_pawn_moves_over_is_a_set(
    squares: Seq<u64>,
    occ: u64,
    enemies: u64,
    color: Color,
    en_passant: Option<Square>,
)
    requires
        forall|a: int, b: int| 0 <= a < b < squares.len() ==> squares[a] < squares[b],
        forall|k: int| 0 <= k < squares.len() ==> squares[k] < 64,
    ensures
        pawn_moves_over(squares, occ, enemies, color, en_passant).no_duplicates(),
    decreases squares.len(),
{
    if squares.len() > 0 {
        let front = squares.drop_last();
        let before = pawn_moves_over(front, occ, enemies, color, en_passant);
        let from = Square(squares.last() as u8);
        let last = pawn_moves_from(from, occ, enemies, color, en_passant);
        lemma_pawn_moves_over_is_a_set(front, occ, enemies, color, en_passant);
        lemma_pawn_moves_from_is_a_set(from, occ, enemies, color, en_passant);
        assert forall|m: Move| !(before.contains(m) && last.contains(m)) by {
            if before.contains(m) && last.contains(m) {
                let sq = lemma_pawn_moves_over_members(front, occ, enemies, color, en_passant, m);
                let k = choose|k: int| 0 <= k < front.len() && front[k] == sq;
                assert(squares[k] < squares[squares.len() - 1]);
                lemma_pawn_move_shape(Square(sq as u8), occ, enemies, color, en_passant, m);
                lemma_pawn_move_shape(from, occ, enemies, color, en_passant, m);
            }
        }
        lemma_concat_is_a_set(before, last);
    }
}

/// The moves of the pieces of one kind on a rising list of squares have no
/// move twice.
proof fn lemma_piece_moves_over_is_a_set(kind: Piece, squares: Seq<u64>, occ: u64, enemies: u64)
    requires
        forall|a: int, b: int| 0 <= a < b < squares.len() ==> squares[a] < squares[b],
        forall|k: int| 0 <= k < squares.len() ==> squares[k] < 64,
    ensures
        piece_moves_over(kind, squares, occ, enemies).no_duplicates(),
    decreases squares.len(),
{
    if squares.len() > 0 {
        let front = squares.drop_last();
        let before = piece_moves_over(kind, front, occ, enemies);
        let from = Square(squares.last() as u8);
        let last = piece_moves_from(kind, from, occ, enemies);
        let targets = attack_mask(kind, Color::White, from, occ) & !(occ & !enemies);
        lemma_piece_moves_over_is_a_set(kind, front, occ, enemies);
        lemma_moves_to_is_a_set(from, targets);
        assert forall|m: Move| !(before.contains(m) && last.contains(m)) by {
            if before.contains(m) && last.contains(m) {
                let sq = lemma_piece_moves_over_members(kind, front, occ, enemies, m);
                let k = choose|k: int| 0 <= k < front.len() && front[k] == sq;
                assert(squares[k] < squares[squares.len() - 1]);
                let origin = Square(sq as u8);
                lemma_moves_to_members(
                    origin,
                    attack_mask(kind, Color::White, origin, occ) & !(occ & !enemies),
                    m,
                );
                lemma_moves_to_members(from, targets, m);
            }
        }
        lemma_concat_is_a_set(before, last);
    }
}

/// Where the moves of a part of the pseudo-legal list start, and of what
/// kind they are.
pub open spec fn part_of(pos: Position, kind: Piece, m: Move) -> bool {
    let us = pos.side_to_move;
    m.spec_from().valid() && is_set(pos.layer(kind, us), m.spec_from().idx())
        && m.spec_move_type() != MoveType::Castling
}

/// The moves of the pawns come from squares of pawns and are no castling moves.
proof fn lemma_pawn_part(pos: Position, m: Move)
    requires
        pawn_moves(
            pos.layer(Piece::Pawn, pos.side_to_move),
            pos.occupied(),
            pos.occupancy(pos.side_to_move.spec_opposite()),
            pos.side_to_move,
            pos.en_passant,
        ).contains(m),
    ensures
        part_of(pos, Piece::Pawn, m),
{
    let us = pos.side_to_move;
    let occ = pos.occupied();
    let enemies = pos.occupancy(us.spec_opposite());
    let layer = pos.layer(Piece::Pawn, us);
    crate::bitset::lemma_squares_of_sorted(layer);
    let sq = lemma_pawn_moves_over_members(squares_of(layer), occ, enemies, us, pos.en_passant, m);
    lemma_squares_of_members(layer, sq);
    let from = Square(sq as u8);
    assert(from.idx() == sq);
    lemma_pawn_move_shape(from, occ, enemies, us, pos.en_passant, m);
}

/// The moves of the pieces of one kind come from squares of that kind and
/// are normal moves.
proof fn lemma_piece_part(pos: Position, kind: Piece, m: Move)
    requires
        piece_moves(
            kind,
            pos.layer(kind, pos.side_to_move),
            pos.occupied(),
            pos.occupancy(pos.side_to_move.spec_opposite()),
        ).contains(m),
    ensures
        part_of(pos, kind, m),
{
    let us = pos.side_to_move;
    let occ = pos.occupied();
    let enemies = pos.occupancy(us.spec_opposite());
    let layer = pos.layer(kind, us);
    crate::bitset::lemma_squares_of_sorted(layer);
    let sq = lemma_piece_moves_over_members(kind, squares_of(layer), occ, enemies, m);
    lemma_squares_of_members(layer, sq);
    let from = Square(sq as u8);
    assert(from.idx() == sq);
    lemma_moves_to_members(from, attack_mask(kind, Color::White, from, occ) & !(occ & !enemies), m);
}

/// The castling moves are castling moves, and there is none twice.
proof fn lemma_castling_part(pos: Position)
    ensures
        castling_of(pos).no_duplicates(),
        forall|m: Move| castling_of(pos).contains(m) ==> m.spec_move_type() == MoveType::Castling,
{
    let us = pos.side_to_move;
    let kings = pos.layer(Piece::King, us);
    if kings != 0 {
        lemma_lowest(kings);
        let king_sq = Square(lowest(kings) as u8);
        let short = castling_on(king_sq, pos.castling_rights, pos.occupied(), us, true);
        let long = castling_on(king_sq, pos.castling_rights, pos.occupied(), us, false);
        let to_short = castle_target(us, true);
        let to_long = castle_target(us, false);
        lemma_pack_fields(king_sq.0 as u16, to_short.0 as u16, 3, 0);
        lemma_pack_fields(king_sq.0 as u16, to_long.0 as u16, 3, 0);
        assert forall|m: Move| !(short.contains(m) && long.contains(m)) by {
            if short.contains(m) && long.contains(m) {
                assert(short[0] == m);
                assert(long[0] == m);
                assert(m.spec_to() == to_short);
                assert(m.spec_to() == to_long);
            }
        }
        lemma_concat_is_a_set(short, long);
        assert forall|m: Move| castling_of(pos).contains(m) implies m.spec_move_type()
            == MoveType::Castling by {
            lemma_concat_contains(short, long, m);
            if short.contains(m) {
                assert(short[0] == m);
            } else {
                assert(long[0] == m);
            }
        }
    }
}

/// The pseudo-legal moves of a position whose layers are apart are a set:
/// no move occurs twice among them.
pub proof fn lemma_pseudo_legal_is_a_set(pos: Position)
    requires
        pos.disjoint(),
    ensures
        pseudo_legal(pos).no_duplicates(),
{
    reveal(pseudo_legal);
    let us = pos.side_to_move;
    let occ = pos.occupied();
    let enemies = pos.occupancy(us.spec_opposite());
    let a = pawn_moves(pos.layer(Piece::Pawn, us), occ, enemies, us, pos.en_passant);
    let b = piece_moves(Piece::Knight, pos.layer(Piece::Knight, us), occ, enemies);
    let c = piece_moves(Piece::Bishop, pos.layer(Piece::Bishop, us), occ, enemies);
    let d = piece_moves(Piece::Rook, pos.layer(Piece::Rook, us), occ, enemies);
    let e = piece_moves(Piece::Queen, pos.layer(Piece::Queen, us), occ, enemies);
    let f = piece_moves(Piece::King, pos.layer(Piece::King, us), occ, enemies);
    let g = castling_of(pos);
    crate::bitset::lemma_squares_of_sorted(pos.layer(Piece::Pawn, us));
    crate::bitset::lemma_squares_of_sorted(pos.layer(Piece::Knight, us));
    crate::bitset::lemma_squares_of_sorted(pos.layer(Piece::Bishop, us));
    crate::bitset::lemma_squares_of_sorted(pos.layer(Piece::Rook, us));
    crate::bitset::lemma_squares_of_sorted(pos.layer(Piece::Queen, us));
    crate::bitset::lemma_squares_of_sorted(pos.layer(Piece::King, us));
    lemma_pawn_moves_over_is_a_set(
        squares_of(pos.layer(Piece::Pawn, us)),
        occ,
        enemies,
        us,
        pos.en_passant,
    );
    lemma_piece_moves_over_is_a_set(Piece::Knight, squares_of(pos.layer(Piece::Knight, us)), occ, enemies);
    lemma_piece_moves_over_is_a_set(Piece::Bishop, squares_of(pos.layer(Piece::Bishop, us)), occ, enemies);
    lemma_piece_moves_over_is_a_set(Piece::Rook, squares_of(pos.layer(Piece::Rook, us)), occ, enemies);
    lemma_piece_moves_over_is_a_set(Piece::Queen, squares_of(pos.layer(Piece::Queen, us)), occ, enemies);
    lemma_piece_moves_over_is_a_set(Piece::King, squares_of(pos.layer(Piece::King, us)), occ, enemies);
    lemma_castling_part(pos);
    assert forall|m: Move| a.contains(m) implies part_of(pos, Piece::Pawn, m) by {
        lemma_pawn_part(pos, m);
    }
    assert forall|m: Move| b.contains(m) implies part_of(pos, Piece::Knight, m) by {
        lemma_piece_part(pos, Piece::Knight, m);
    }
    assert forall|m: Move| c.contains(m) implies part_of(pos, Piece::Bishop, m) by {
        lemma_piece_part(pos, Piece::Bishop, m);
    }
    assert forall|m: Move| d.contains(m) implies part_of(pos, Piece::Rook, m) by {
        lemma_piece_part(pos, Piece::Rook, m);
    }
    assert forall|m: Move| e.contains(m) implies part_of(pos, Piece::Queen, m) by {
        lemma_piece_part(pos, Piece::Queen, m);
    }
    assert forall|m: Move| f.contains(m) implies part_of(pos, Piece::King, m) by {
        lemma_piece_part(pos, Piece::King, m);
    }
    assert forall|m: Move| !(a.contains(m) && b.contains(m)) by {}
    lemma_concat_is_a_set(a, b);
    assert forall|m: Move| !((a + b).contains(m) && c.contains(m)) by {
        lemma_concat_contains(a, b, m);
    }
    lemma_concat_is_a_set(a + b, c);
    assert forall|m: Move| !((a + b + c).contains(m) && d.contains(m)) by {
        lemma_concat_contains(a, b, m);
        lemma_concat_contains(a + b, c, m);
    }
    lemma_concat_is_a_set(a + b + c, d);
    assert forall|m: Move| !((a + b + c + d).contains(m) && e.contains(m)) by {
        lemma_concat_contains(a, b, m);
        lemma_concat_contains(a + b, c, m);
        lemma_concat_contains(a + b + c, d, m);
    }
    lemma_concat_is_a_set(a + b + c + d, e);
    assert forall|m: Move| !((a + b + c + d + e).contains(m) && f.contains(m)) by {
        lemma_concat_contains(a, b, m);
        lemma_concat_contains(a + b, c, m);
        lemma_concat_contains(a + b + c, d, m);
        lemma_concat_contains(a + b + c + d, e, m);
    }
    lemma_concat_is_a_set(a + b + c + d + e, f);
    assert forall|m: Move| !((a + b + c + d + e + f).contains(m) && g.contains(m)) by {
        lemma_concat_contains(a, b, m);
        lemma_concat_contains(a + b, c, m);
        lemma_concat_contains(a + b + c, d, m);
        lemma_concat_contains(a + b + c + d, e, m);
        lemma_concat_contains(a + b + c + d + e, f, m);
    }
    lemma_concat_is_a_set(a + b + c + d + e + f, g);
}

/// The legal moves of a position whose layers are apart are a set.
pub proof fn lemma_legal_moves_are_a_set(pos: Position)
    requires
        pos.disjoint(),
    ensures
        crate::legal::legal_moves_of(pos).no_duplicates(),
{
    lemma_pseudo_legal_is_a_set(pos);
    let all = pseudo_legal(pos);
    let fit = crate::generator::bounded(all);
    assert(fit.no_duplicates()) by {
        assert forall|i: int, j: int|
            0 <= i < fit.len() && 0 <= j < fit.len() && i != j implies fit[i] != fit[j] by {
            assert(fit[i] == all[i] && fit[j] == all[j]);
        }
    }
    lemma_filter_is_a_set(fit, |mv: Move| crate::legal::is_legal(pos, mv));
}

/// A castling move of the list of castling moves is of the castling kind.
pub proof fn lemma_castling_kind(pos: Position, m: Move)
    requires
        castling_of(pos).contains(m),
    ensures
        m.spec_move_type() == MoveType::Castling,
{
    lemma_castling_part(pos);
}

/// An en-passant capture of the pawn on `from` in a sound position lands on
/// the empty target and takes the pawn that stands behind it.
pub proof fn lemma_passing_move(pos: Position, from: Square, m: Move)
    requires
        sound(pos),
        pawn_has(pos, from.idx(), m),
        from.valid(),
        m.spec_move_type() == MoveType::EnPassant,
    ensures
        pos.en_passant == Some(m.spec_to()),
        m.spec_from() == from,
        !is_set(pos.occupied(), m.spec_to().idx()),
        pos.captured_piece(m) == Some(Piece::Pawn),
        en_passant_victim(m).valid(),
        en_passant_victim(m) != m.spec_from(),
{
    lemma_bitwise_members();
    let us = pos.side_to_move;
    let them = us.spec_opposite();
    let occ = pos.occupied();
    let enemies = pos.occupancy(them);
    assert(Square(from.idx() as u8) == from);
    lemma_pawn_move_shape(from, occ, enemies, us, pos.en_passant, m);
    let pushes = pawn_pushes(from, occ, us);
    let captures = pawn_captures(from, enemies, us);
    let passing = pawn_en_passant(from, us, pos.en_passant);
    lemma_concat_contains(pushes + captures, passing, m);
    lemma_concat_contains(pushes, captures, m);
    assert(passing.contains(m));
    let target = pos.en_passant.unwrap();
    lemma_pack_fields(from.0 as u16, target.0 as u16, 2, 0);
    assert(passing[0] == m);
    assert(m.spec_to() == target);
    lemma_pawn_attack_members(from, us, target);
    assert(en_passant_victim(m).0 == passed_pawn_square(target, us));
}

} // verus!
