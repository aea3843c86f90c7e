//! The opponent's resources.

pub mod model;
pub mod plans;
