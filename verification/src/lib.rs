pub mod types;
pub mod board;
pub mod attack;
pub mod piece_moves;
pub mod movegen;
pub mod legal_moves;
pub mod evaluation;
pub mod perft;
pub mod minimax;
pub mod probe;
pub mod fen;
pub mod scheduling;
pub mod recovery;
pub mod parallel;
pub mod text;
