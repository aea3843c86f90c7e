//! Chess evaluation: network feature extraction, incremental accumulators,
//! quantised inference, and the decision rules around them.

use vstd::prelude::*;

use crate::eval::nnue::state::{default_chosen, try_load_default, EvalState};

pub mod bits;
pub mod board;
pub mod cli;
pub mod eval;
pub mod math;
pub mod nnue_pipeline;
pub mod opening;
pub mod opponent;
pub mod opportunity;
pub mod perception;
pub mod risk;
pub mod root;
pub mod text;
pub mod world;

verus! {

/// Puts a default network to use, where one can be found among the contents of
/// the default files.
pub fn init(state: &mut EvalState, files: &Vec<Option<Vec<u8>>>)
    requires
        old(state).wf(),
        old(state).generation < u64::MAX,
        files.len() == 10,
    ensures
        final(state).wf(),
        exists|p: Option<&'static str>| default_chosen(old(state), final(state), files@, p),
{
    let _ = try_load_default(state, files);
}

} // verus!
