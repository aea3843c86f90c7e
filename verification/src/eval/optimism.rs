//! Optimism: how much a side believes in its own position, from the running
//! average of its scores.

use vstd::prelude::*;

use crate::eval::nnue::leb128::low_i32;
use crate::math::{abs, abs_i32, div_toward_zero, is_quotient, law_quotient, wrap32};

verus! {

pub const OPTIMISM_GAIN: i32 = 114;
pub const OPTIMISM_DIVISOR: i32 = 85;
pub const INTERNAL_TO_SF_NUM: i32 = 208;
pub const INTERNAL_TO_SF_DEN: i32 = 100;

/// Optimism for an average score: grows with it and levels off.
pub open spec fn optimism_spec(avg: int) -> int {
    div_toward_zero(114 * avg, abs(avg) + 85)
}

pub fn optimism_from_average(avg_sf: i32) -> (r: i32)
    requires
        i32::MIN <= 114 * avg_sf <= i32::MAX,
    ensures
        r == optimism_spec(avg_sf as int),
{
    if avg_sf == 0 {
        0
    } else {
        proof {
            law_optimism_bounded(avg_sf as int);
        }
        OPTIMISM_GAIN * avg_sf / (abs_i32(avg_sf) + OPTIMISM_DIVISOR)
    }
}

/// Optimism stays below the gain in size.
pub proof fn law_optimism_bounded(avg: int)
    ensures
        -114 < optimism_spec(avg) < 114,
{
    let a = abs(avg);
    let d = a + 85;
    let q = (114 * a) / d;
    assert(0 <= q < 114) by (nonlinear_arith)
        requires
            d == a + 85,
            a >= 0,
            q == (114 * a) / d,
    ;
}

/// A higher average never gives less optimism.
pub proof fn law_optimism_monotone(low: int, high: int)
    requires
        low <= high,
    ensures
        optimism_spec(low) <= optimism_spec(high),
{
    if low >= 0 {
        lemma_optimism_grows(low, high);
    } else if high < 0 {
        lemma_optimism_grows(-high, -low);
    } else {
        lemma_optimism_grows(0, high);
        lemma_optimism_grows(0, -low);
    }
}

proof fn lemma_optimism_grows(low: int, high: int)
    requires
        0 <= low <= high,
    ensures
        0 <= 114 * low / (low + 85) <= 114 * high / (high + 85),
{
    let q = 114 * low / (low + 85);
    assert(0 <= q && q * (low + 85) <= 114 * low) by (nonlinear_arith)
        requires
            q == 114 * low / (low + 85),
            0 <= low,
    ;
    assert(q <= 114) by (nonlinear_arith)
        requires
            q * (low + 85) <= 114 * low,
            0 <= low,
    ;
    assert(q * (high + 85) <= 114 * high) by (nonlinear_arith)
        requires
            q * (low + 85) <= 114 * low,
            0 <= q <= 114,
            0 <= low <= high,
    ;
    assert(q <= 114 * high / (high + 85)) by (nonlinear_arith)
        requires
            q * (high + 85) <= 114 * high,
            0 <= high,
    ;
}

/// Optimism is odd: a mirrored average gives a mirrored optimism.
pub proof fn law_optimism_odd(avg: int)
    ensures
        optimism_spec(-avg) == -optimism_spec(avg),
{
    if avg == 0 {
        assert(optimism_spec(0) == 0);
    }
}

/// A score on the scale of the network.
pub open spec fn to_sf_spec(internal: int) -> int {
    div_toward_zero(internal * 208, 100)
}

pub fn to_sf_scale(internal_cp: i32) -> (r: i32)
    requires
        i32::MIN <= internal_cp * 208 <= i32::MAX,
    ensures
        r == to_sf_spec(internal_cp as int),
{
    internal_cp * INTERNAL_TO_SF_NUM / INTERNAL_TO_SF_DEN
}

/// Optimism of both sides, ours first.
pub fn mirrored_pair(opt_us: i32) -> (r: [i32; 2])
    requires
        opt_us > i32::MIN,
    ensures
        r@ == seq![opt_us, (-opt_us) as i32],
{
    let r: [i32; 2] = [opt_us, -opt_us];
    assert(r@ =~= seq![opt_us, (-opt_us) as i32]);
    r
}

/// Sum and number of the scores seen so far.
pub struct ScoreAverage {
    pub sum: i64,
    pub count: u32,
}

impl ScoreAverage {
    /// The average so far, rounded toward zero; zero before the first score.
    pub open spec fn mean(&self) -> int {
        if self.count == 0 {
            0
        } else {
            wrap32(div_toward_zero(self.sum as int, self.count as int))
        }
    }

    /// Whether the optimism of the average can be computed in 32 bits.
    pub open spec fn in_scale(&self) -> bool {
        &&& i32::MIN <= self.mean() * 208 <= i32::MAX
        &&& i32::MIN <= 114 * to_sf_spec(self.mean()) <= i32::MAX
    }

    pub fn new() -> (r: ScoreAverage)
        ensures
            r.sum == 0,
            r.count == 0,
    {
        ScoreAverage { sum: 0, count: 0 }
    }

    pub fn push(&mut self, score_cp: i32)
        requires
            i64::MIN <= old(self).sum + score_cp <= i64::MAX,
        ensures
            final(self).sum == old(self).sum + score_cp,
            final(self).count == (if old(self).count == u32::MAX {
                u32::MAX as int
            } else {
                old(self).count + 1
            }),
    {
        self.sum = self.sum + score_cp as i64;
        self.count = self.count.saturating_add(1);
    }

    pub fn average(&self) -> (r: i32)
        ensures
            r == self.mean(),
    {
        if self.count == 0 {
            0
        } else {
            proof {
                let s = abs(self.sum as int);
                let c = self.count as int;
                assert(0 <= s / c <= s) by (nonlinear_arith)
                    requires
                        s >= 0,
                        c >= 1,
                ;
            }
            low_i32(self.sum / self.count as i64)
        }
    }

    pub fn optimism(&self) -> (r: i32)
        requires
            self.in_scale(),
        ensures
            r == optimism_spec(to_sf_spec(self.mean())),
    {
        optimism_from_average(to_sf_scale(self.average()))
    }

    pub fn pair(&self) -> (r: [i32; 2])
        requires
            self.in_scale(),
        ensures
            r@[0] == optimism_spec(to_sf_spec(self.mean())),
            r@[1] == -optimism_spec(to_sf_spec(self.mean())),
    {
        proof {
            law_optimism_bounded(to_sf_spec(self.mean()));
        }
        mirrored_pair(self.optimism())
    }
}

impl Default for ScoreAverage {
    fn default() -> (r: Self)
        ensures
            r.sum == 0,
            r.count == 0,
    {
        ScoreAverage::new()
    }
}

/// Mirrored scores give a mirrored average.
pub proof fn law_average_odd(a: &ScoreAverage, b: &ScoreAverage)
    requires
        b.sum == -a.sum,
        b.count == a.count,
        a.count > 0,
        -0x8000_0000 < div_toward_zero(a.sum as int, a.count as int) < 0x8000_0000,
    ensures
        b.mean() == -a.mean(),
{
}

/// Optimism has the sign of the average and is 114 times the average over its
/// size and 85, without the fraction.
pub proof fn law_optimism_value(avg: int, r: int)
    requires
        is_quotient(
            114 * avg,
            85 + if avg >= 0 {
                avg
            } else {
                -avg
            },
            r,
        ),
    ensures
        optimism_spec(avg) == r,
        avg >= 0 ==> optimism_spec(avg) >= 0,
        avg <= 0 ==> optimism_spec(avg) <= 0,
{
    law_quotient(114 * avg, abs(avg) + 85, r);
}

/// A hundred points of the engine are 208 of the network's scale.
pub proof fn law_scales(internal: int, r: int)
    requires
        is_quotient(208 * internal, 100, r),
    ensures
        to_sf_spec(internal) == r,
        to_sf_spec(100 * internal) == 208 * internal,
{
}

/// The average is the sum over the number of scores, without the fraction, and
/// zero without scores; equal scores have themselves as their average.
pub proof fn law_average_value(a: &ScoreAverage, r: i32, v: int)
    requires
        a.count > 0,
        is_quotient(a.sum as int, a.count as int, r as int),
    ensures
        a.mean() == r,
        a.sum == v * a.count ==> r == v,
{
    law_quotient(a.sum as int, a.count as int, r as int);
    if a.sum == v * a.count {
        let n = a.count as int;
        let m = a.sum as int;
        assert(n * v == v * n) by (nonlinear_arith);
        assert(n * v - n < m <= n * v && n * v <= m < n * v + n);
        assert(m >= 0 ==> v >= 0) by (nonlinear_arith)
            requires
                m == n * v,
                n > 0,
        ;
        assert(m <= 0 ==> v <= 0) by (nonlinear_arith)
            requires
                m == n * v,
                n > 0,
        ;
        law_quotient(m, n, v);
    }
}

} // verus!
