//! How much risk an attempt is worth.

use vstd::prelude::*;

use crate::math::{clamp, clamp_i32, div_toward_zero};

verus! {

#[derive(Debug, Clone, Copy, PartialEq, Eq, PartialOrd, Ord, Structural)]
pub enum Urgency {
    Low,
    Medium,
    High,
    MustTry,
}

#[derive(Debug, Clone, Copy, PartialEq, Eq, Structural)]
pub enum RiskLevel {
    Normal,
    Elevated,
    MustTry,
    Forcing,
}

/// Upper limits of the risk levels, and the least gain worth a must-try.
#[derive(Debug, Clone, Copy)]
pub struct RiskEnvelope {
    pub normal_max: i32,
    pub elevated_max: i32,
    pub must_try_max: i32,
    pub min_gain_cp: i32,
}

impl Default for RiskEnvelope {
    fn default() -> (r: Self)
        ensures
            r.normal_max == 30,
            r.elevated_max == 70,
            r.must_try_max == 120,
            r.min_gain_cp == 30,
    {
        RiskEnvelope { normal_max: 30, elevated_max: 70, must_try_max: 120, min_gain_cp: 30 }
    }
}

impl RiskEnvelope {
    /// The first level whose limit holds the risk.
    pub open spec fn level(&self, risk: int) -> RiskLevel {
        if risk <= self.normal_max {
            RiskLevel::Normal
        } else if risk <= self.elevated_max {
            RiskLevel::Elevated
        } else if risk <= self.must_try_max {
            RiskLevel::MustTry
        } else {
            RiskLevel::Forcing
        }
    }

    pub fn level_for(&self, risk: i32) -> (r: RiskLevel)
        ensures
            r == self.level(risk as int),
    {
        if risk <= self.normal_max {
            RiskLevel::Normal
        } else if risk <= self.elevated_max {
            RiskLevel::Elevated
        } else if risk <= self.must_try_max {
            RiskLevel::MustTry
        } else {
            RiskLevel::Forcing
        }
    }
}

/// More risk never means a lower level.
pub proof fn law_levels_monotone(env: &RiskEnvelope, a: int, b: int)
    requires
        a <= b,
    ensures
        env.level(a) as int <= env.level(b) as int,
{
}

/// Risk of an attempt: counterplay and king danger within limits, and a
/// surcharge for what cannot be undone.
pub open spec fn risk_of(cpi_created: int, king_danger: int, irreversible: bool) -> int {
    clamp(cpi_created, 0, 200) + clamp(king_danger, 0, 100) + if irreversible {
        25int
    } else {
        0int
    }
}

pub fn risk_score(cpi_created: i32, king_danger: i32, irreversible: bool) -> (r: i32)
    ensures
        r == risk_of(cpi_created as int, king_danger as int, irreversible),
        0 <= r <= 325,
{
    let base: i32 = clamp_i32(cpi_created, 0, 200) + clamp_i32(king_danger, 0, 100);
    let total: i32 = if irreversible {
        base + 25
    } else {
        base
    };
    clamp_i32(total, 0, 400)
}

#[derive(Debug, Clone, Copy)]
pub struct MustTryInput {
    pub gain_cp: i32,
    pub urgency: Urgency,
    pub risk: i32,
    pub opp_cpi_after: i32,
}

/// Whether an attempt must be made: enough gain, enough urgency, bearable risk
/// and not too much counterplay left.
pub open spec fn must_try(input: &MustTryInput, env: &RiskEnvelope) -> bool {
    &&& input.gain_cp >= env.min_gain_cp
    &&& input.urgency is High || input.urgency is MustTry
    &&& input.risk <= env.must_try_max
    &&& input.opp_cpi_after <= 150
}

pub fn must_try_gate(input: &MustTryInput, env: &RiskEnvelope) -> (r: bool)
    ensures
        r == must_try(input, env),
{
    if input.gain_cp < env.min_gain_cp {
        return false;
    }
    if input.urgency == Urgency::Low || input.urgency == Urgency::Medium {
        return false;
    }
    if input.risk > env.must_try_max {
        return false;
    }
    if input.opp_cpi_after > 150 {
        return false;
    }
    true
}

/// Whether the gain outweighs the damage and half the risk.
pub open spec fn worth_it(gain_cp: int, damage_cp: int, risk: int) -> bool {
    gain_cp > damage_cp + div_toward_zero(risk, 2)
}

/// Whether the gain outweighs the damage and half the risk.
pub fn controlled_aggression_ok(gain_cp: i32, damage_cp: i32, risk: i32) -> (r: bool)
    requires
        i32::MIN <= damage_cp + div_toward_zero(risk as int, 2) <= i32::MAX,
    ensures
        r == worth_it(gain_cp as int, damage_cp as int, risk as int),
{
    gain_cp > damage_cp + risk / 2
}

/// The levels meet at the limits of the envelope: what is within the normal
/// limit is normal, what is beyond the last one forcing.
pub proof fn law_levels_by_limits(env: &RiskEnvelope, risk: int)
    requires
        env.normal_max < env.elevated_max < env.must_try_max,
    ensures
        env.level(risk) is Normal <==> risk <= env.normal_max,
        env.level(risk) is Elevated <==> env.normal_max < risk <= env.elevated_max,
        env.level(risk) is MustTry <==> env.elevated_max < risk <= env.must_try_max,
        env.level(risk) is Forcing <==> risk > env.must_try_max,
{
}

/// Risk is counterplay up to 200 and king danger up to 100, neither below zero,
/// and 25 more for what cannot be undone; it never falls when one of them rises.
pub proof fn law_risk_adds_up(cpi: int, danger: int, more_cpi: int, more_danger: int, lasting: bool)
    requires
        cpi <= more_cpi,
        danger <= more_danger,
    ensures
        0 <= cpi <= 200 && 0 <= danger <= 100 ==> risk_of(cpi, danger, false) == cpi + danger,
        risk_of(cpi, danger, true) == risk_of(cpi, danger, false) + 25,
        risk_of(cpi, danger, lasting) <= risk_of(more_cpi, more_danger, lasting),
        cpi <= 0 && danger <= 0 ==> risk_of(cpi, danger, false) == 0,
        cpi >= 200 && danger >= 100 ==> risk_of(cpi, danger, false) == 300,
{
}

/// An attempt that must be made still must be with more gain, less risk and
/// less counterplay; and none must be that lacks gain or urgency, or brings too
/// much risk or more than 150 points of counterplay.
pub proof fn law_must_try_needs_all(a: &MustTryInput, b: &MustTryInput, env: &RiskEnvelope)
    requires
        a.gain_cp <= b.gain_cp,
        a.urgency as int <= b.urgency as int,
        a.risk >= b.risk,
        a.opp_cpi_after >= b.opp_cpi_after,
    ensures
        must_try(a, env) ==> must_try(b, env),
        a.gain_cp < env.min_gain_cp ==> !must_try(a, env),
        a.urgency is Low || a.urgency is Medium ==> !must_try(a, env),
        a.risk > env.must_try_max ==> !must_try(a, env),
        a.opp_cpi_after > 150 ==> !must_try(a, env),
        a.gain_cp >= env.min_gain_cp && a.urgency is High && a.risk <= env.must_try_max
            && a.opp_cpi_after <= 150 ==> must_try(a, env),
{
}

/// An attempt is worth it where twice the gain is more than twice the damage
/// and the risk; more gain, less damage and less risk keep it so.
pub proof fn law_worth_it(gain: int, damage: int, risk: int, more: int, less: int, safer: int)
    requires
        gain <= more,
        less <= damage,
        safer <= risk,
    ensures
        risk >= 0 ==> (worth_it(gain, damage, risk) <==> 2 * gain - 2 * damage > risk),
        worth_it(gain, damage, 2 * risk) <==> gain - damage > risk,
        worth_it(gain, damage, risk) ==> worth_it(more, less, safer),
{
}

} // verus!
