//! The v16 network: position features, incremental accumulators, file formats
//! and inference.

pub mod accumulate;
pub mod arch;
pub mod eval;
pub mod evaluate;
pub mod freshen;
pub mod inference;
pub mod lists;
pub mod loader;
pub mod pairs;
pub mod position;
pub mod threats;
