pub mod backend;
pub mod heads;
pub mod move_ordering;
pub mod nnue;
pub mod optimism;
