//! A chess engine core: board representation, move generation, evaluation,
//! search and the decisions of the line protocol.
//!
//! The board is a set of 64-bit occupancy words (`types`, `bitset`, `bits`,
//! `scan`). Attack sets come from step tables and from hashed lookup tables
//! for the sliding pieces (`attacks`, `classical`, `magic`). A position
//! (`position`, `fen`, `zobrist`) changes by moves (`moves`) that are
//! generated (`generator`), filtered for legality (`legal`) and shown to be
//! playable (`sound`). Positions are scored (`material`, `pst`, `pawn`,
//! `king_safety`, `evaluator`) and searched (`negamax`, `alphabeta`, `pvs`,
//! `quiescence`, `ordering`, `transposition`) under a time manager (`time`,
//! `cancel`). Commands are read (`text`, `commands`) and acted on (`protocol`).

pub mod alphabeta;
pub mod attacks;
pub mod bits;
pub mod bitset;
pub mod cancel;
pub mod classical;
pub mod commands;
pub mod evaluator;
pub mod fen;
pub mod generator;
pub mod horizon;
pub mod king_safety;
pub mod legal;
pub mod magic;
pub mod material;
pub mod moves;
pub mod negamax;
pub mod ordering;
pub mod pawn;
pub mod position;
pub mod protocol;
pub mod pst;
pub mod pvs;
pub mod quiescence;
pub mod scan;
pub mod sound;
pub mod text;
pub mod time;
pub mod transposition;
pub mod types;
pub mod zobrist;
