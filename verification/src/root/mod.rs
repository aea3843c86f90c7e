//! Decisions at the root of a search.

pub mod attack;
pub mod learned;
pub mod metrics;
pub mod multipv;
