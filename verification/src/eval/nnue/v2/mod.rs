//! The v10 networks: a big one with threat features and a small one for
//! lopsided positions. They share positions, features and queues with v16.

pub mod arch;
pub mod eval;
pub mod inference;
pub mod loader;
pub mod models;
pub mod threats;

pub use crate::eval::nnue::v16::arch::{material_bucket, simple_eval};
pub use crate::eval::nnue::v16::eval::{note_add, note_remove, SfnnEvent, SfnnPending};
pub use crate::eval::nnue::v16::evaluate::SfnnEval;
pub use crate::eval::nnue::v16::loader::SfnnTransformer;
pub use crate::eval::nnue::v16::position::{append_halfka, halfka_index, SfnnPosition};
pub use crate::eval::nnue::v16::threats::for_each_threat;
