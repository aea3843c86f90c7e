//! Facts about finished searches, and how often each kind occurs in a batch.
//! Rates and means are taken from the counts by the application.

use vstd::prelude::*;

use crate::bits::{chosen, lemma_chosen_empty, lemma_chosen_step};
use crate::opportunity::concession::Concession;
use crate::root::multipv::MultipvLine;
use crate::world::{PositionState, PressureState, SearchIntent};

verus! {

/// What a finished search leaves behind.
pub struct SearchState {
    pub score: i16,
    pub last_state: PositionState,
    pub last_intent: SearchIntent,
    pub prev_opp_cpi: Option<i32>,
    pub prev_own_cpi: Option<i32>,
    pub prev_opp_freedom: Option<u32>,
    pub prev_opp_breaks: Option<u32>,
    pub last_risk: i32,
    pub pressure_state: PressureState,
    pub last_concession: Option<Concession>,
    pub last_musttry: bool,
    pub last_verified: Option<i16>,
    pub simplify_bias: bool,
    pub reset_mode: bool,
    pub multipv_lines: Vec<MultipvLine>,
}

impl SearchState {
    /// The state before a search: improving, with nothing known.
    pub fn new() -> (r: SearchState)
        ensures
            r.score == 0,
            r.last_state is Improve,
            r.last_intent is Improvement,
            r.prev_opp_cpi is None,
            r.prev_own_cpi is None,
            r.prev_opp_freedom is None,
            r.prev_opp_breaks is None,
            r.last_risk == 0,
            r.pressure_state.pressure == 0,
            r.pressure_state.sustained_plies == 0,
            r.last_concession is None,
            !r.last_musttry,
            r.last_verified is None,
            !r.simplify_bias,
            !r.reset_mode,
            r.multipv_lines.len() == 0,
    {
        SearchState {
            score: 0,
            last_state: PositionState::Improve,
            last_intent: SearchIntent::Improvement,
            prev_opp_cpi: None,
            prev_own_cpi: None,
            prev_opp_freedom: None,
            prev_opp_breaks: None,
            last_risk: 0,
            pressure_state: PressureState { pressure: 0, sustained_plies: 0 },
            last_concession: None,
            last_musttry: false,
            last_verified: None,
            simplify_bias: false,
            reset_mode: false,
            multipv_lines: Vec::new(),
        }
    }
}

#[derive(Debug, Clone, Copy)]
pub struct SearchMetrics {
    pub score: i16,
    pub state: PositionState,
    pub intent: SearchIntent,
    pub opp_cpi: i32,
    pub own_cpi: i32,
    pub opp_freedom: u32,
    pub opp_breaks: u32,
    pub risk: i32,
    pub pressure: i32,
    pub sustained_plies: u32,
    pub concession_swing: Option<i16>,
    pub musttry_fired: bool,
    pub verified: Option<i16>,
    pub simplify: bool,
    pub reset: bool,
    pub multipv_count: usize,
}

/// A known number, or zero.
pub open spec fn or_zero_i32(v: Option<i32>) -> i32 {
    match v {
        Some(x) => x,
        None => 0,
    }
}

/// A known number, or zero.
pub open spec fn or_zero_u32(v: Option<u32>) -> u32 {
    match v {
        Some(x) => x,
        None => 0,
    }
}

/// Whether facts are those of a search; what was never measured counts as zero.
pub open spec fn facts_of(r: SearchMetrics, state: &SearchState) -> bool {
    &&& r.score == state.score
    &&& r.state == state.last_state
    &&& r.intent == state.last_intent
    &&& r.opp_cpi == or_zero_i32(state.prev_opp_cpi)
    &&& r.own_cpi == or_zero_i32(state.prev_own_cpi)
    &&& r.opp_freedom == or_zero_u32(state.prev_opp_freedom)
    &&& r.opp_breaks == or_zero_u32(state.prev_opp_breaks)
    &&& r.risk == state.last_risk
    &&& r.pressure == state.pressure_state.pressure
    &&& r.sustained_plies == state.pressure_state.sustained_plies
    &&& r.concession_swing == (match state.last_concession {
        Some(c) => Some(c.swing_cp),
        None => None,
    })
    &&& r.musttry_fired == state.last_musttry
    &&& r.verified == state.last_verified
    &&& r.simplify == state.simplify_bias
    &&& r.reset == (state.reset_mode || state.last_state is Reset)
    &&& r.multipv_count == state.multipv_lines.len()
}

/// The facts about a search that the batch statistics use.
pub fn collect(state: &SearchState) -> (r: SearchMetrics)
    ensures
        facts_of(r, state),
{
    SearchMetrics {
        score: state.score,
        state: state.last_state,
        intent: state.last_intent,
        opp_cpi: match state.prev_opp_cpi {
            Some(x) => x,
            None => 0,
        },
        own_cpi: match state.prev_own_cpi {
            Some(x) => x,
            None => 0,
        },
        opp_freedom: match state.prev_opp_freedom {
            Some(x) => x,
            None => 0,
        },
        opp_breaks: match state.prev_opp_breaks {
            Some(x) => x,
            None => 0,
        },
        risk: state.last_risk,
        pressure: state.pressure_state.pressure,
        sustained_plies: state.pressure_state.sustained_plies,
        concession_swing: match state.last_concession {
            Some(c) => Some(c.swing_cp),
            None => None,
        },
        musttry_fired: state.last_musttry,
        verified: state.last_verified,
        simplify: state.simplify_bias,
        reset: state.reset_mode || state.last_state == PositionState::Reset,
        multipv_count: state.multipv_lines.len(),
    }
}

#[derive(Debug, Clone, Copy, PartialEq, Eq, Structural)]
pub enum SuiteCategory {
    Defensive,
    Quiet,
    Opportunity,
    MustTry,
    Pressure,
    Conversion,
}

/// What is counted in a batch.
#[derive(Debug, Clone, Copy, PartialEq, Eq, Structural)]
pub enum Tally {
    MustTry,
    MustTryFired,
    MustTryVerified,
    Quiet,
    QuietAttacked,
    Conversion,
    ConversionTaken,
    Defensive,
    DefenceHeld,
    DefenceReset,
    Opportunity,
    OpportunitySeen,
    OpportunityAmplified,
    CounterplayDenied,
    InitiativeOwned,
    Constrained,
    PlanBlocked,
}

impl Tally {
    /// Whether a sample counts.
    pub open spec fn counts(self, m: SearchMetrics, c: SuiteCategory) -> bool {
        match self {
            Tally::MustTry => c is MustTry,
            Tally::MustTryFired => c is MustTry && m.musttry_fired,
            Tally::MustTryVerified => c is MustTry && m.verified is Some,
            Tally::Quiet => c is Quiet,
            Tally::QuietAttacked => c is Quiet && (m.state is Attack || m.state is Crush),
            Tally::Conversion => c is Conversion,
            Tally::ConversionTaken => c is Conversion && m.simplify,
            Tally::Defensive => c is Defensive,
            Tally::DefenceHeld => c is Defensive && m.state is Defend,
            Tally::DefenceReset => c is Defensive && m.reset,
            Tally::Opportunity => c is Opportunity,
            Tally::OpportunitySeen => c is Opportunity && m.concession_swing is Some,
            Tally::OpportunityAmplified => c is Opportunity && (m.simplify || m.state is Convert
                || m.state is Crush),
            Tally::CounterplayDenied => m.opp_cpi <= 40,
            Tally::InitiativeOwned => m.opp_cpi <= m.own_cpi,
            Tally::Constrained => m.opp_freedom <= 16,
            Tally::PlanBlocked => m.opp_breaks == 0,
        }
    }

    fn applies(self, m: &SearchMetrics, c: SuiteCategory) -> (r: bool)
        ensures
            r == self.counts(*m, c),
    {
        match self {
            Tally::MustTry => c == SuiteCategory::MustTry,
            Tally::MustTryFired => c == SuiteCategory::MustTry && m.musttry_fired,
            Tally::MustTryVerified => c == SuiteCategory::MustTry && m.verified.is_some(),
            Tally::Quiet => c == SuiteCategory::Quiet,
            Tally::QuietAttacked => c == SuiteCategory::Quiet && (m.state == PositionState::Attack
                || m.state == PositionState::Crush),
            Tally::Conversion => c == SuiteCategory::Conversion,
            Tally::ConversionTaken => c == SuiteCategory::Conversion && m.simplify,
            Tally::Defensive => c == SuiteCategory::Defensive,
            Tally::DefenceHeld => c == SuiteCategory::Defensive && m.state == PositionState::Defend,
            Tally::DefenceReset => c == SuiteCategory::Defensive && m.reset,
            Tally::Opportunity => c == SuiteCategory::Opportunity,
            Tally::OpportunitySeen => c == SuiteCategory::Opportunity
                && m.concession_swing.is_some(),
            Tally::OpportunityAmplified => c == SuiteCategory::Opportunity && (m.simplify || m.state
                == PositionState::Convert || m.state == PositionState::Crush),
            Tally::CounterplayDenied => m.opp_cpi <= 40,
            Tally::InitiativeOwned => m.opp_cpi <= m.own_cpi,
            Tally::Constrained => m.opp_freedom <= 16,
            Tally::PlanBlocked => m.opp_breaks == 0,
        }
    }
}

/// How many of the first `n` samples count.
pub open spec fn tally_spec(samples: Seq<(SearchMetrics, SuiteCategory)>, what: Tally, n: int) -> int
    decreases n,
{
    if n <= 0 {
        0
    } else {
        tally_spec(samples, what, n - 1) + if what.counts(samples[n - 1].0, samples[n - 1].1) {
            1int
        } else {
            0int
        }
    }
}

/// How many samples count.
pub fn tally(samples: &[(SearchMetrics, SuiteCategory)], what: Tally) -> (r: usize)
    ensures
        r == tally_spec(samples@, what, samples.len() as int),
        r <= samples.len(),
{
    let mut i: usize = 0;
    let mut n: usize = 0;
    while i < samples.len()
        invariant
            i <= samples.len(),
            n <= i,
            n == tally_spec(samples@, what, i as int),
        decreases samples.len() - i,
    {
        if what.applies(&samples[i].0, samples[i].1) {
            n = n + 1;
        }
        i = i + 1;
    }
    n
}

/// A part of a category is never larger than the category: every rate taken
/// from two tallies lies between zero and one.
pub proof fn law_rates_bounded(samples: Seq<(SearchMetrics, SuiteCategory)>, n: int)
    requires
        0 <= n <= samples.len(),
    ensures
        0 <= tally_spec(samples, Tally::MustTryFired, n) <= tally_spec(samples, Tally::MustTry, n),
        0 <= tally_spec(samples, Tally::MustTryVerified, n) <= tally_spec(
            samples,
            Tally::MustTry,
            n,
        ),
        0 <= tally_spec(samples, Tally::QuietAttacked, n) <= tally_spec(samples, Tally::Quiet, n),
        0 <= tally_spec(samples, Tally::ConversionTaken, n) <= tally_spec(
            samples,
            Tally::Conversion,
            n,
        ),
        0 <= tally_spec(samples, Tally::DefenceHeld, n) <= tally_spec(samples, Tally::Defensive, n),
        0 <= tally_spec(samples, Tally::DefenceReset, n) <= tally_spec(
            samples,
            Tally::Defensive,
            n,
        ),
        0 <= tally_spec(samples, Tally::OpportunitySeen, n) <= tally_spec(
            samples,
            Tally::Opportunity,
            n,
        ),
        0 <= tally_spec(samples, Tally::OpportunityAmplified, n) <= tally_spec(
            samples,
            Tally::Opportunity,
            n,
        ),
    decreases n,
{
    if n > 0 {
        law_rates_bounded(samples, n - 1);
    }
}

/// The gain and risk of each must-try that fired.
pub open spec fn tries_spec(samples: Seq<(SearchMetrics, SuiteCategory)>, n: int) -> Seq<(i32, i32)>
    decreases n,
{
    if n <= 0 {
        Seq::empty()
    } else {
        let m = samples[n - 1].0;
        let before = tries_spec(samples, n - 1);
        if samples[n - 1].1 is MustTry && m.musttry_fired {
            before.push(
                (
                    if m.score > 0 {
                        m.score as i32
                    } else {
                        0i32
                    },
                    if m.risk > 1 {
                        m.risk
                    } else {
                        1i32
                    },
                ),
            )
        } else {
            before
        }
    }
}

pub fn tries(samples: &[(SearchMetrics, SuiteCategory)]) -> (r: Vec<(i32, i32)>)
    ensures
        r@ == tries_spec(samples@, samples.len() as int),
{
    let mut r: Vec<(i32, i32)> = Vec::new();
    let mut i: usize = 0;
    while i < samples.len()
        invariant
            i <= samples.len(),
            r@ == tries_spec(samples@, i as int),
        decreases samples.len() - i,
    {
        let m: SearchMetrics = samples[i].0;
        if samples[i].1 == SuiteCategory::MustTry && m.musttry_fired {
            let gain: i32 = if m.score > 0 {
                m.score as i32
            } else {
                0
            };
            let risk: i32 = if m.risk > 1 {
                m.risk
            } else {
                1
            };
            r.push((gain, risk));
        }
        i = i + 1;
    }
    r
}

/// How long pressure was kept up in each pressure sample.
pub open spec fn sustained_spec(samples: Seq<(SearchMetrics, SuiteCategory)>, n: int) -> Seq<u32>
    decreases n,
{
    if n <= 0 {
        Seq::empty()
    } else {
        let before = sustained_spec(samples, n - 1);
        if samples[n - 1].1 is Pressure {
            before.push(samples[n - 1].0.sustained_plies)
        } else {
            before
        }
    }
}

pub fn sustained(samples: &[(SearchMetrics, SuiteCategory)]) -> (r: Vec<u32>)
    ensures
        r@ == sustained_spec(samples@, samples.len() as int),
{
    let mut r: Vec<u32> = Vec::new();
    let mut i: usize = 0;
    while i < samples.len()
        invariant
            i <= samples.len(),
            r@ == sustained_spec(samples@, i as int),
        decreases samples.len() - i,
    {
        if samples[i].1 == SuiteCategory::Pressure {
            r.push(samples[i].0.sustained_plies);
        }
        i = i + 1;
    }
    r
}

/// Pressure and risk of every sample with a risk.
pub open spec fn efforts_spec(samples: Seq<(SearchMetrics, SuiteCategory)>, n: int) -> Seq<
    (i32, i32),
>
    decreases n,
{
    if n <= 0 {
        Seq::empty()
    } else {
        let m = samples[n - 1].0;
        let before = efforts_spec(samples, n - 1);
        if m.risk > 0 {
            before.push((m.pressure, m.risk))
        } else {
            before
        }
    }
}

pub fn efforts(samples: &[(SearchMetrics, SuiteCategory)]) -> (r: Vec<(i32, i32)>)
    ensures
        r@ == efforts_spec(samples@, samples.len() as int),
{
    let mut r: Vec<(i32, i32)> = Vec::new();
    let mut i: usize = 0;
    while i < samples.len()
        invariant
            i <= samples.len(),
            r@ == efforts_spec(samples@, i as int),
        decreases samples.len() - i,
    {
        let m: SearchMetrics = samples[i].0;
        if m.risk > 0 {
            r.push((m.pressure, m.risk));
        }
        i = i + 1;
    }
    r
}

/// A tally is the number of samples that count.
pub proof fn law_tally_counts_samples(
    samples: Seq<(SearchMetrics, SuiteCategory)>,
    what: Tally,
    n: int,
)
    requires
        0 <= n <= samples.len(),
    ensures
        tally_spec(samples, what, n) == chosen(
            |i: int| what.counts(samples[i].0, samples[i].1),
            n,
        ).len(),
    decreases n,
{
    let fits = |i: int| what.counts(samples[i].0, samples[i].1);
    if n > 0 {
        law_tally_counts_samples(samples, what, n - 1);
        lemma_chosen_step(fits, n);
    } else {
        lemma_chosen_empty(fits);
    }
}

/// What counts for the position as a whole does so in every category: an
/// opponent held to 40 points of counterplay, to no more counterplay than one's
/// own, to 16 moves, or to no pawn break.
pub proof fn law_general_tallies(m: SearchMetrics, c: SuiteCategory)
    ensures
        Tally::CounterplayDenied.counts(m, c) <==> !(m.opp_cpi > 40),
        Tally::InitiativeOwned.counts(m, c) <==> !(m.opp_cpi > m.own_cpi),
        Tally::Constrained.counts(m, c) <==> !(m.opp_freedom > 16),
        Tally::PlanBlocked.counts(m, c) <==> !(m.opp_breaks > 0),
        !(c is Quiet) ==> !Tally::QuietAttacked.counts(m, c) && !Tally::Quiet.counts(m, c),
        c is Quiet ==> (Tally::QuietAttacked.counts(m, c) <==> m.state is Attack || m.state
            is Crush),
        c is MustTry ==> (Tally::MustTryFired.counts(m, c) <==> m.musttry_fired)
            && (Tally::MustTryVerified.counts(m, c) <==> m.verified is Some),
        c is Defensive ==> (Tally::DefenceHeld.counts(m, c) <==> m.state is Defend)
            && (Tally::DefenceReset.counts(m, c) <==> m.reset),
        c is Conversion ==> (Tally::ConversionTaken.counts(m, c) <==> m.simplify),
        c is Opportunity ==> (Tally::OpportunitySeen.counts(m, c) <==> m.concession_swing is Some)
            && (Tally::OpportunityAmplified.counts(m, c) <==> m.simplify || m.state is Convert
            || m.state is Crush),
        Tally::MustTry.counts(m, c) <==> c is MustTry,
        Tally::Quiet.counts(m, c) <==> c is Quiet,
        Tally::Conversion.counts(m, c) <==> c is Conversion,
        Tally::Defensive.counts(m, c) <==> c is Defensive,
        Tally::Opportunity.counts(m, c) <==> c is Opportunity,
{
}

/// Each sample of its kind adds one item to its list, in order, and no other
/// does: a forced try its gain and its risk, at least zero and one; a sample
/// under pressure the plies it lasted; a risky one its pressure and its risk.
pub proof fn law_lists_follow_samples(samples: Seq<(SearchMetrics, SuiteCategory)>, n: int)
    requires
        0 < n <= samples.len(),
    ensures
        ({
            let m = samples[n - 1].0;
            let c = samples[n - 1].1;
            let tries = tries_spec(samples, n);
            let plies = sustained_spec(samples, n);
            let efforts = efforts_spec(samples, n);
            &&& c is MustTry && m.musttry_fired ==> tries.drop_last() == tries_spec(samples, n - 1)
                && tries.last().0 >= 0 && tries.last().0 >= m.score && (m.score >= 0
                ==> tries.last().0 == m.score) && tries.last().1 >= 1 && (m.risk >= 1
                ==> tries.last().1 == m.risk)
            &&& !(c is MustTry) || !m.musttry_fired ==> tries == tries_spec(samples, n - 1)
            &&& c is Pressure ==> plies == sustained_spec(samples, n - 1).push(m.sustained_plies)
            &&& !(c is Pressure) ==> plies == sustained_spec(samples, n - 1)
            &&& m.risk > 0 ==> efforts == efforts_spec(samples, n - 1).push((m.pressure, m.risk))
            &&& m.risk <= 0 ==> efforts == efforts_spec(samples, n - 1)
        }),
        tries_spec(samples, 0).len() == 0,
        sustained_spec(samples, 0).len() == 0,
        efforts_spec(samples, 0).len() == 0,
{
    let tries = tries_spec(samples, n);
    if samples[n - 1].1 is MustTry && samples[n - 1].0.musttry_fired {
        assert(tries.drop_last() =~= tries_spec(samples, n - 1));
    }
}

/// The facts are taken over as they are: each side's counterplay as its own, a
/// concession by its size, and a reset from the mode or from the state.
pub proof fn law_facts_are_taken_over(r: SearchMetrics, state: &SearchState)
    requires
        facts_of(r, state),
    ensures
        state.prev_opp_cpi == Some(r.opp_cpi) || (state.prev_opp_cpi is None && r.opp_cpi == 0),
        state.prev_own_cpi == Some(r.own_cpi) || (state.prev_own_cpi is None && r.own_cpi == 0),
        state.prev_opp_freedom == Some(r.opp_freedom) || (state.prev_opp_freedom is None
            && r.opp_freedom == 0),
        state.prev_opp_breaks == Some(r.opp_breaks) || (state.prev_opp_breaks is None
            && r.opp_breaks == 0),
        state.last_concession is Some <==> r.concession_swing is Some,
        state.last_concession matches Some(c) ==> r.concession_swing == Some(c.swing_cp),
        !r.reset <==> !state.reset_mode && !(state.last_state is Reset),
        r.risk == state.last_risk && r.score == state.score && r.musttry_fired
            == state.last_musttry && r.verified == state.last_verified && r.simplify
            == state.simplify_bias,
        r.pressure == state.pressure_state.pressure && r.sustained_plies
            == state.pressure_state.sustained_plies,
{
}

} // verus!
