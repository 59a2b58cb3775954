//! Conversion of lc0 V6 training records into Stockfish binpack entries:
//! record decoding, FEN reconstruction, policy move table, move handling,
//! tablebase result propagation and run bookkeeping.

pub mod record;
pub mod text;
pub mod bindings;
pub mod binpack;
pub mod fen;
pub mod moves;
pub mod syzygy;
pub mod tables;
pub mod progress;
pub mod printer;
pub mod args;
pub mod stats;
pub mod scan;

