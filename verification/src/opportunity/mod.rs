//! Chances that the opponent gives.

pub mod concession;
