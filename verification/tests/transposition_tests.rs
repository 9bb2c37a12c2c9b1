use m4k::moves::Move;
use m4k::transposition::{NodeType, TTEntry, TranspositionTable};
use m4k::types::Square;

#[test]
fn test_tt_creation() {
    let tt = TranspositionTable::new();
    assert!(tt.size() > 0);
}

#[test]
fn test_tt_store_probe() {
    let mut tt = TranspositionTable::new();
    let hash = 12345u64;
    let entry = TTEntry {
        score: 100,
        best_move: Move::new(Square(Square::E2), Square(Square::E4)),
        depth: 5,
        node_type: NodeType::Exact,
    };

    tt.store(hash, entry);
    let retrieved = tt.probe(hash);

    assert!(retrieved.is_some());
    let retrieved_entry = retrieved.unwrap();
    assert_eq!(retrieved_entry.score, 100);
    assert_eq!(retrieved_entry.depth, 5);
}

#[test]
fn test_tt_clear() {
    let mut tt = TranspositionTable::new();
    let hash = 12345u64;
    let entry = TTEntry {
        score: 100,
        best_move: Move::new(Square(Square::E2), Square(Square::E4)),
        depth: 5,
        node_type: NodeType::Exact,
    };

    tt.store(hash, entry);
    assert!(tt.probe(hash).is_some());

    tt.clear();
    assert!(tt.probe(hash).is_none());
}

#[test]
fn capacity_follows_the_size() {
    assert_eq!(TranspositionTable::new().size(), 16 * 1024 * 1024 / 32);
    assert_eq!(TranspositionTable::with_size(1).size(), 32768);
    assert_eq!(TranspositionTable::with_size(0).size(), 1);
}

#[test]
fn a_probe_answers_only_for_the_fingerprint_that_was_stored() {
    let mut tt = TranspositionTable::with_size(1);
    let capacity = tt.size() as u64;
    let mv = Move::new(Square(1), Square(18));
    let entry = TTEntry { score: -7, best_move: mv, depth: 3, node_type: NodeType::Lower };
    tt.store(5, entry);
    assert_eq!(tt.hash_index(5), 5);
    assert_eq!(tt.hash_index(5 + capacity), 5);
    let found = tt.probe(5).unwrap();
    assert_eq!((found.score, found.best_move, found.depth, found.node_type), (-7, mv, 3, NodeType::Lower));
    // Another fingerprint of the same slot finds nothing, and replaces the entry when stored.
    assert!(tt.probe(5 + capacity).is_none());
    assert!(tt.probe(6).is_none());
    tt.store(5 + capacity, TTEntry { score: 9, best_move: mv, depth: 1, node_type: NodeType::Upper });
    assert!(tt.probe(5).is_none());
    assert_eq!(tt.probe(5 + capacity).unwrap().score, 9);
}

#[test]
fn stats_count_the_filled_slots() {
    let mut tt = TranspositionTable::with_size(1);
    let mv = Move::new(Square(1), Square(18));
    let entry = TTEntry { score: 0, best_move: mv, depth: 0, node_type: NodeType::Exact };
    let empty = tt.stats();
    assert_eq!((empty.total_entries, empty.used_entries, empty.usage_percent), (32768, 0, 0));
    for hash in 0..16384u64 {
        tt.store(hash, entry);
    }
    tt.store(3, entry);
    let half = tt.stats();
    assert_eq!((half.total_entries, half.used_entries, half.usage_percent), (32768, 16384, 50));
}
