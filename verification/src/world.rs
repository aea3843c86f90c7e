//! What a search believes about the position and what it wants.

use vstd::prelude::*;

verus! {

#[derive(Debug, Clone, Copy, PartialEq, Eq, Structural)]
pub enum PositionState {
    Defend,
    Stabilize,
    Improve,
    Press,
    Attack,
    Reset,
    Crush,
    Convert,
}

#[derive(Debug, Clone, Copy, PartialEq, Eq, Structural)]
pub enum SearchIntent {
    Survival,
    Stabilization,
    Improvement,
    Pressure,
    Attack,
    Verification,
    Recovery,
    Conversion,
}

#[derive(Debug, Clone, Copy, PartialEq, Eq, Structural)]
pub enum VolatilityLevel {
    Low,
    Medium,
    High,
    Extreme,
}

/// Pressure on the opponent and for how long it has been kept up.
#[derive(Debug, Clone, Copy, PartialEq, Eq, Structural)]
pub struct PressureState {
    pub pressure: i32,
    pub sustained_plies: u32,
}

} // verus!
