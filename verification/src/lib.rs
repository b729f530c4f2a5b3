pub mod chessembly;
pub mod engine;
pub mod protocol;
