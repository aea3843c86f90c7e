//! What a position looks like at a glance.

pub mod strategic;
