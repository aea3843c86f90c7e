//! Evaluation backends by name.

use vstd::prelude::*;

use crate::board::BoardState;
use crate::eval::nnue::dcn::conditioned_on;
use crate::eval::nnue::refresh::sums_ensured;
use crate::eval::nnue::state::EvalState;
use crate::eval::nnue::{
    evaluable_with, evaluate, evaluate_fast, evaluate_with_depth, evaluated, fast_score,
};
use crate::text::{eq_ignore_ascii_case, same_ignoring_case, small_code};

verus! {

#[derive(Debug, Clone, Copy, PartialEq, Eq, Default, Structural)]
pub enum EvaluationBackend {
    #[default]
    ClassicalNNUE,
    SFNN,
    HybridNNUE,
    WDIN,
    FutureModel,
}

impl EvaluationBackend {
    /// The name that a backend is announced by.
    pub open spec fn name_of(self) -> Seq<char> {
        match self {
            EvaluationBackend::ClassicalNNUE => "classical-nnue"@,
            EvaluationBackend::SFNN => "sfnn"@,
            EvaluationBackend::HybridNNUE => "hybrid-nnue"@,
            EvaluationBackend::WDIN => "wdin"@,
            EvaluationBackend::FutureModel => "future"@,
        }
    }

    /// The backend that a name stands for, whatever the case of its letters.
    pub open spec fn named(name: Seq<char>) -> Option<EvaluationBackend> {
        if same_ignoring_case(name, "classical"@) || same_ignoring_case(name, "classical-nnue"@)
            || same_ignoring_case(name, "nnue"@) {
            Some(EvaluationBackend::ClassicalNNUE)
        } else if same_ignoring_case(name, "sfnn"@) || same_ignoring_case(name, "sfnn16"@)
            || same_ignoring_case(name, "v16"@) {
            Some(EvaluationBackend::SFNN)
        } else if same_ignoring_case(name, "hybrid"@) || same_ignoring_case(name, "hybrid-nnue"@)
            || same_ignoring_case(name, "dcn"@) {
            Some(EvaluationBackend::HybridNNUE)
        } else if same_ignoring_case(name, "wdin"@) {
            Some(EvaluationBackend::WDIN)
        } else if same_ignoring_case(name, "future"@) {
            Some(EvaluationBackend::FutureModel)
        } else {
            None
        }
    }

    pub fn name(self) -> (r: &'static str)
        ensures
            r@ == self.name_of(),
    {
        match self {
            EvaluationBackend::ClassicalNNUE => "classical-nnue",
            EvaluationBackend::SFNN => "sfnn",
            EvaluationBackend::HybridNNUE => "hybrid-nnue",
            EvaluationBackend::WDIN => "wdin",
            EvaluationBackend::FutureModel => "future",
        }
    }

    pub fn from_name(name: &str) -> (r: Option<Self>)
        ensures
            r == EvaluationBackend::named(name@),
    {
        if eq_ignore_ascii_case(name, "classical") || eq_ignore_ascii_case(name, "classical-nnue")
            || eq_ignore_ascii_case(name, "nnue") {
            Some(EvaluationBackend::ClassicalNNUE)
        } else if eq_ignore_ascii_case(name, "sfnn") || eq_ignore_ascii_case(name, "sfnn16")
            || eq_ignore_ascii_case(name, "v16") {
            Some(EvaluationBackend::SFNN)
        } else if eq_ignore_ascii_case(name, "hybrid") || eq_ignore_ascii_case(name, "hybrid-nnue")
            || eq_ignore_ascii_case(name, "dcn") {
            Some(EvaluationBackend::HybridNNUE)
        } else if eq_ignore_ascii_case(name, "wdin") {
            Some(EvaluationBackend::WDIN)
        } else if eq_ignore_ascii_case(name, "future") {
            Some(EvaluationBackend::FutureModel)
        } else {
            None
        }
    }
}

/// The announced name of a backend stands for that backend.
pub proof fn law_names_roundtrip(backend: EvaluationBackend)
    ensures
        EvaluationBackend::named(backend.name_of()) == Some(backend),
{
    reveal_strlit("classical");
    reveal_strlit("classical-nnue");
    reveal_strlit("nnue");
    reveal_strlit("sfnn");
    reveal_strlit("sfnn16");
    reveal_strlit("v16");
    reveal_strlit("hybrid");
    reveal_strlit("hybrid-nnue");
    reveal_strlit("dcn");
    reveal_strlit("wdin");
    reveal_strlit("future");
    match backend {
        EvaluationBackend::ClassicalNNUE => {},
        EvaluationBackend::SFNN => {
            let a = "sfnn"@;
            let b = "nnue"@;
            assert(crate::text::small_code(a[0]) != crate::text::small_code(b[0]));
        },
        EvaluationBackend::HybridNNUE => {},
        EvaluationBackend::WDIN => {
            let a = "wdin"@;
            let b = "nnue"@;
            let c = "sfnn"@;
            assert(crate::text::small_code(a[0]) != crate::text::small_code(b[0]));
            assert(crate::text::small_code(a[0]) != crate::text::small_code(c[0]));
        },
        EvaluationBackend::FutureModel => {
            let a = "future"@;
            let b = "sfnn16"@;
            let c = "hybrid"@;
            assert(crate::text::small_code(a[0]) != crate::text::small_code(b[0]));
            assert(crate::text::small_code(a[0]) != crate::text::small_code(c[0]));
        },
    }
}

/// Scores a position with a backend, given the checkers and the squares where
/// a queen of either side is attacked by a lesser piece.
pub fn evaluate_with_backend(
    board: &mut BoardState,
    state: &mut EvalState,
    backend: EvaluationBackend,
    checkers: u64,
    queen_danger_us: u64,
    queen_danger_them: u64,
) -> (r: i16)
    requires
        evaluable_with(old(board), old(state)),
    ensures
        match backend {
            EvaluationBackend::ClassicalNNUE => {
                &&& r == fast_score(old(board), &old(state).network, 0)
                &&& sums_ensured(old(board), final(board), &old(state).network)
                &&& *final(state) == *old(state)
            },
            EvaluationBackend::HybridNNUE => exists|base: i16|
                #[trigger] evaluated(
                    old(board),
                    final(board),
                    old(state),
                    final(state),
                    0,
                    base as int,
                ) && r == conditioned_on(
                    base,
                    8,
                    old(board),
                    checkers,
                    queen_danger_us,
                    queen_danger_them,
                ),
            _ => evaluated(
                old(board),
                final(board),
                old(state),
                final(state),
                0,
                r as int,
            ),
        },
        -29_000 <= r <= 29_000,
{
    match backend {
        EvaluationBackend::ClassicalNNUE => evaluate_fast(board, &state.network, 0),
        EvaluationBackend::SFNN => evaluate(board, state),
        EvaluationBackend::HybridNNUE => evaluate_with_depth(
            board,
            state,
            0,
            8,
            checkers,
            queen_danger_us,
            queen_danger_them,
        ),
        EvaluationBackend::WDIN => evaluate(board, state),
        EvaluationBackend::FutureModel => evaluate(board, state),
    }
}

/// Case does not matter in the name of a backend.
pub proof fn law_case_of_names(a: Seq<char>, b: Seq<char>)
    requires
        same_ignoring_case(a, b),
    ensures
        EvaluationBackend::named(a) == EvaluationBackend::named(b),
{
    assert forall|c: Seq<char>| #[trigger] same_ignoring_case(a, c) == same_ignoring_case(
        b,
        c,
    ) by {
        if a.len() == c.len() {
            assert forall|i: int| 0 <= i < a.len() implies small_code(a[i]) == #[trigger] small_code(
                b[i],
            ) by {
                assert(small_code(a[i]) == small_code(b[i]));
            }
            if same_ignoring_case(a, c) {
                assert forall|i: int| 0 <= i < b.len() implies #[trigger] small_code(b[i])
                    == small_code(c[i]) by {
                    assert(small_code(a[i]) == small_code(c[i]));
                }
            }
            if same_ignoring_case(b, c) {
                assert forall|i: int| 0 <= i < a.len() implies #[trigger] small_code(a[i])
                    == small_code(c[i]) by {
                    assert(small_code(b[i]) == small_code(c[i]));
                }
            }
        }
    }
}

} // verus!
