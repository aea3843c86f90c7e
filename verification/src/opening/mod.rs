//! Known openings.

pub mod book;
