//! Concessions: lasting score swings, told apart from noise.

use vstd::prelude::*;

use crate::math::{
    abs, clamp, div_toward_zero, is_quotient, law_quotient, max, min, saturating_add_i16,
    saturating_sub_i16, saturating_sub_i16_spec,
};
use crate::world::VolatilityLevel;

verus! {

#[derive(Debug, Clone, Copy, PartialEq, Eq, PartialOrd, Ord, Structural)]
pub enum WeaknessKind {
    Temporary,
    Latent,
    Structure,
    Permanent,
}

/// How long a weakness has to last for each kind.
pub open spec fn weakness_of(persistence_plies: u32) -> WeaknessKind {
    if persistence_plies >= 12 {
        WeaknessKind::Permanent
    } else if persistence_plies >= 6 {
        WeaknessKind::Structure
    } else if persistence_plies >= 2 {
        WeaknessKind::Latent
    } else {
        WeaknessKind::Temporary
    }
}

pub fn classify_weakness(persistence_plies: u32) -> (r: WeaknessKind)
    ensures
        r == weakness_of(persistence_plies),
{
    if persistence_plies >= 12 {
        WeaknessKind::Permanent
    } else if persistence_plies >= 6 {
        WeaknessKind::Structure
    } else if persistence_plies >= 2 {
        WeaknessKind::Latent
    } else {
        WeaknessKind::Temporary
    }
}

/// A weakness that lasts longer is never of a lesser kind.
pub proof fn law_weakness_monotone(a: u32, b: u32)
    requires
        a <= b,
    ensures
        weakness_of(a) as int <= weakness_of(b) as int,
{
}

#[derive(Debug, Clone, Copy, PartialEq, Eq, Structural)]
pub struct Concession {
    pub swing_cp: i16,
    pub kind: WeaknessKind,
}

/// A swing this large needs no second look.
pub const IMMEDIATE_CONFIRM_SWING: i16 = 300;

/// Extra swing asked for in volatile positions.
pub open spec fn volatility_bonus(volatility: VolatilityLevel) -> int {
    match volatility {
        VolatilityLevel::Low => 0,
        VolatilityLevel::Medium => 15,
        VolatilityLevel::High => 30,
        VolatilityLevel::Extreme => 60,
    }
}

/// The swing that has to be reached.
pub open spec fn threshold_of(base_cp: i16, volatility: VolatilityLevel) -> int {
    clamp(base_cp + volatility_bonus(volatility), i16::MIN as int, i16::MAX as int)
}

pub fn confirmation_threshold(base_cp: i16, volatility: VolatilityLevel) -> (r: i16)
    ensures
        r == threshold_of(base_cp, volatility),
{
    let bonus: i16 = match volatility {
        VolatilityLevel::Low => 0,
        VolatilityLevel::Medium => 15,
        VolatilityLevel::High => 30,
        VolatilityLevel::Extreme => 60,
    };
    saturating_add_i16(base_cp, bonus)
}

/// The swing waiting for confirmation, and the last one confirmed.
#[derive(Debug, Clone, Copy, PartialEq, Eq)]
pub struct ConcessionTracker {
    pub pending_swing: i16,
    pub confirmed: Option<Concession>,
}

impl Default for ConcessionTracker {
    fn default() -> (r: Self)
        ensures
            r.pending_swing == 0,
            r.confirmed is None,
    {
        ConcessionTracker { pending_swing: 0, confirmed: None }
    }
}

/// Whether a swing is confirmed: large enough by itself, or over the threshold
/// and at least half of a swing that waits.
pub open spec fn confirms(pending: i16, swing: int, threshold: i16) -> bool {
    swing >= 300 || (swing >= threshold && pending > 0 && swing >= pending as int / 2)
}

/// A tracker after one more score change: a confirmed swing is kept, one over
/// the threshold waits, and a swing in the other direction ends the wait.
pub open spec fn observed(
    before: ConcessionTracker,
    prev: i16,
    curr: i16,
    threshold: i16,
) -> ConcessionTracker {
    let swing = saturating_sub_i16_spec(curr, prev);
    if confirms(before.pending_swing, swing, threshold) {
        ConcessionTracker {
            pending_swing: 0,
            confirmed: Some(Concession { swing_cp: swing as i16, kind: WeaknessKind::Latent }),
        }
    } else {
        ConcessionTracker {
            pending_swing: if swing >= threshold {
                swing as i16
            } else if swing <= 0 {
                0
            } else {
                before.pending_swing
            },
            confirmed: before.confirmed,
        }
    }
}

/// While nothing waits, a single swing below the limit for immediate
/// confirmation confirms nothing.
pub proof fn law_single_blip_does_not_confirm(
    before: ConcessionTracker,
    prev: i16,
    curr: i16,
    threshold: i16,
)
    requires
        before.pending_swing <= 0,
        saturating_sub_i16_spec(curr, prev) < 300,
    ensures
        observed(before, prev, curr, threshold).confirmed == before.confirmed,
{
}

/// A swing that waits is confirmed by the next one, if that is over the
/// threshold and at least half as large.
pub proof fn law_repeated_swing_confirms(
    before: ConcessionTracker,
    prev: i16,
    curr: i16,
    threshold: i16,
    next_prev: i16,
    next_curr: i16,
)
    requires
        0 < threshold <= saturating_sub_i16_spec(curr, prev) < 300,
        before.pending_swing <= 0,
        threshold <= saturating_sub_i16_spec(next_curr, next_prev),
        saturating_sub_i16_spec(next_curr, next_prev) >= saturating_sub_i16_spec(curr, prev) / 2,
    ensures
        observed(observed(before, prev, curr, threshold), next_prev, next_curr, threshold)
            == (ConcessionTracker {
            pending_swing: 0,
            confirmed: Some(
                Concession {
                    swing_cp: saturating_sub_i16_spec(next_curr, next_prev) as i16,
                    kind: WeaknessKind::Latent,
                },
            ),
        }),
{
}

/// A swing that has faded is no longer waited for.
pub proof fn law_faded_swing_is_dropped(
    before: ConcessionTracker,
    prev: i16,
    curr: i16,
    threshold: i16,
)
    requires
        curr <= prev,
        threshold > 0,
    ensures
        observed(before, prev, curr, threshold).pending_swing == 0,
        observed(before, prev, curr, threshold).confirmed == before.confirmed,
{
}

impl ConcessionTracker {
    /// Looks at one score change and returns the last confirmed concession.
    pub fn observe(&mut self, prev: i16, curr: i16, threshold: i16) -> (r: Option<Concession>)
        ensures
            *final(self) == observed(*old(self), prev, curr, threshold),
            r == final(self).confirmed,
    {
        let swing: i16 = saturating_sub_i16(curr, prev);
        if swing >= IMMEDIATE_CONFIRM_SWING {
            let confirmed: Concession = Concession { swing_cp: swing, kind: WeaknessKind::Latent };
            self.confirmed = Some(confirmed);
            self.pending_swing = 0;
            return Some(confirmed);
        }
        if swing >= threshold {
            if self.pending_swing > 0 && swing >= self.pending_swing / 2 {
                let confirmed: Concession = Concession {
                    swing_cp: swing,
                    kind: WeaknessKind::Latent,
                };
                self.confirmed = Some(confirmed);
                self.pending_swing = 0;
                return Some(confirmed);
            }
            self.pending_swing = swing;
            return self.confirmed;
        }
        if swing <= 0 {
            self.pending_swing = 0;
        }
        self.confirmed
    }
}

/// The next worse kind, up to the worst.
pub open spec fn worse(kind: WeaknessKind) -> WeaknessKind {
    match kind {
        WeaknessKind::Temporary => WeaknessKind::Latent,
        WeaknessKind::Latent => WeaknessKind::Structure,
        WeaknessKind::Structure => WeaknessKind::Permanent,
        WeaknessKind::Permanent => WeaknessKind::Permanent,
    }
}

/// What becomes of a weakness when the number of its defenders changes.
pub open spec fn amplified(kind: WeaknessKind, before: u32, after: u32) -> WeaknessKind {
    if after >= before {
        kind
    } else {
        worse(kind)
    }
}

/// A weakness gets one step worse when it loses a defender.
pub fn amplify_on_defender_drop(
    kind: WeaknessKind,
    defenders_before: u32,
    defenders_after: u32,
) -> (r: WeaknessKind)
    ensures
        r == amplified(kind, defenders_before, defenders_after),
{
    if defenders_after >= defenders_before {
        return kind;
    }
    match kind {
        WeaknessKind::Temporary => WeaknessKind::Latent,
        WeaknessKind::Latent => WeaknessKind::Structure,
        WeaknessKind::Structure => WeaknessKind::Permanent,
        WeaknessKind::Permanent => WeaknessKind::Permanent,
    }
}

/// A concession seen in one score change: swings under twelve are noise, a
/// large fresh one counts as latent.
pub open spec fn concession_of(prev: i16, curr: i16, persistence_plies: u32) -> Option<
    Concession,
> {
    let swing = saturating_sub_i16_spec(curr, prev);
    if swing < 12 {
        None
    } else {
        Some(
            Concession {
                swing_cp: swing as i16,
                kind: if swing >= 80 && persistence_plies == 0 {
                    WeaknessKind::Latent
                } else {
                    weakness_of(persistence_plies)
                },
            },
        )
    }
}

pub fn detect_concession(prev: i16, curr: i16, persistence_plies: u32) -> (r: Option<Concession>)
    ensures
        r == concession_of(prev, curr, persistence_plies),
{
    let swing: i16 = saturating_sub_i16(curr, prev);
    if swing < 12 {
        return None;
    }
    let kind: WeaknessKind = if swing >= 80 && persistence_plies == 0 {
        WeaknessKind::Latent
    } else {
        classify_weakness(persistence_plies)
    };
    Some(Concession { swing_cp: swing, kind })
}

/// The last four scores, in a ring.
#[derive(Debug, Clone, Copy, PartialEq, Eq)]
pub struct ScoreTrend {
    pub recent: [i16; 4],
    pub depths: [u8; 4],
    pub len: u8,
}

impl Default for ScoreTrend {
    fn default() -> (r: Self)
        ensures
            r.recent@ == seq![0i16, 0i16, 0i16, 0i16],
            r.depths@ == seq![0u8, 0u8, 0u8, 0u8],
            r.len == 0,
    {
        let r: ScoreTrend = ScoreTrend { recent: [0i16; 4], depths: [0u8; 4], len: 0 };
        assert(r.recent@ =~= seq![0i16, 0i16, 0i16, 0i16]);
        assert(r.depths@ =~= seq![0u8, 0u8, 0u8, 0u8]);
        r
    }
}

impl ScoreTrend {
    /// Number of scores held.
    pub open spec fn held(&self) -> int {
        if self.len < 4 {
            self.len as int
        } else {
            4
        }
    }

    /// The `k`-th score held, oldest first.
    pub open spec fn nth(&self, k: int) -> i16 {
        let start = if self.len > 4 {
            self.len as int % 4
        } else {
            0
        };
        self.recent@[(start + k) % 4]
    }

    /// Sum of the first `n` scores held.
    pub open spec fn sum(&self, n: int) -> int
        decreases n,
    {
        if n <= 0 {
            0
        } else {
            self.sum(n - 1) + self.nth(n - 1)
        }
    }

    /// Sum of the first `n` steps between neighbouring scores, in size.
    pub open spec fn step_sum(&self, n: int) -> int
        decreases n,
    {
        if n <= 1 {
            0
        } else {
            self.step_sum(n - 1) + abs(saturating_sub_i16_spec(self.nth(n - 1), self.nth(n - 2)))
        }
    }

    /// The average score, rounded toward zero.
    pub open spec fn mean(&self) -> int {
        div_toward_zero(self.sum(self.held()), self.held())
    }

    /// The average size of a step; nothing without a step.
    pub open spec fn noise(&self) -> int {
        if self.held() < 2 {
            0
        } else {
            self.step_sum(self.held()) / (self.held() - 1)
        }
    }

    /// A threshold that follows the noise up to a limit, but is never less than
    /// what is asked for.
    pub open spec fn threshold(&self, base: int) -> int {
        max(base, min(self.noise() * 3 / 2, 80))
    }

    /// No step falls by more than the largest positive score.
    pub open spec fn steps_in_range(&self) -> bool {
        forall|k: int|
            1 <= k < self.held() ==> saturating_sub_i16_spec(#[trigger] self.nth(k), self.nth(k - 1))
                > i16::MIN
    }

    pub fn push(&mut self, white_pov: i16, depth: u8)
        ensures
            final(self).recent@ == old(self).recent@.update(old(self).len as int % 4, white_pov),
            final(self).depths@ == old(self).depths@.update(old(self).len as int % 4, depth),
            final(self).len == (if old(self).len == 255 {
                255int
            } else {
                old(self).len + 1
            }),
    {
        let i: usize = (self.len % 4) as usize;
        self.recent[i] = white_pov;
        self.depths[i] = depth;
        self.len = self.len.saturating_add(1);
    }

    pub fn count(&self) -> (r: usize)
        ensures
            r == self.held(),
    {
        if self.len < 4 {
            self.len as usize
        } else {
            4
        }
    }

    pub fn ordered(&self, k: usize) -> (r: i16)
        requires
            k + 4 <= usize::MAX,
        ensures
            r == self.nth(k as int),
    {
        let start: usize = if self.len > 4 {
            (self.len % 4) as usize
        } else {
            0
        };
        self.recent[(start + k) % 4]
    }

    /// The average score, rounded toward zero.
    pub fn smoothed(&self) -> (r: Option<i16>)
        ensures
            r is None <==> self.held() == 0,
            r matches Some(v) ==> v == self.mean(),
    {
        let n: usize = self.count();
        if n == 0 {
            return None;
        }
        let mut sum: i32 = 0;
        let mut k: usize = 0;
        while k < n
            invariant
                k <= n <= 4,
                sum == self.sum(k as int),
                -32_768 * k <= sum <= 32_767 * k,
            decreases n - k,
        {
            sum = sum + self.ordered(k) as i32;
            k = k + 1;
        }
        proof {
            let s = abs(sum as int);
            let m = n as int;
            assert(s / m <= 32_768) by (nonlinear_arith)
                requires
                    0 <= s <= 32_768 * m,
                    1 <= m,
            ;
            assert(sum >= 0 ==> s / m <= 32_767) by (nonlinear_arith)
                requires
                    sum >= 0 ==> s <= 32_767 * m,
                    1 <= m,
                    0 <= s,
            ;
            assert(0 <= s / m) by (nonlinear_arith)
                requires
                    0 <= s,
                    1 <= m,
            ;
        }
        Some((sum / n as i32) as i16)
    }

    /// The average size of a step between neighbouring scores.
    pub fn noise_floor(&self) -> (r: i16)
        requires
            self.steps_in_range(),
        ensures
            r == self.noise(),
            r >= 0,
    {
        let n: usize = self.count();
        if n < 2 {
            return 0;
        }
        let mut sum: i32 = 0;
        let mut k: usize = 1;
        while k < n
            invariant
                1 <= k <= n <= 4,
                n == self.held(),
                self.steps_in_range(),
                sum == self.step_sum(k as int),
                0 <= sum <= 32_767 * (k - 1),
            decreases n - k,
        {
            let a: i16 = self.ordered(k);
            let b: i16 = self.ordered(k - 1);
            let d: i32 = saturating_sub_i16(a, b) as i32;
            assert(saturating_sub_i16_spec(self.nth(k as int), self.nth(k - 1)) > i16::MIN);
            sum = sum + if d < 0 {
                -d
            } else {
                d
            };
            k = k + 1;
        }
        proof {
            let s = sum as int;
            let m = n - 1;
            assert(0 <= s / m <= 32_767) by (nonlinear_arith)
                requires
                    0 <= s <= 32_767 * m,
                    1 <= m,
            ;
        }
        (sum / (n as i32 - 1)) as i16
    }

    /// A threshold that rises with the noise, up to a limit.
    pub fn adaptive_threshold(&self, base: i16) -> (r: i16)
        requires
            self.steps_in_range(),
        ensures
            r == self.threshold(base as int),
    {
        let floor: i32 = self.noise_floor() as i32;
        let raised: i32 = floor * 3 / 2;
        let limited: i16 = if raised < 80 {
            raised as i16
        } else {
            80
        };
        if base >= limited {
            base
        } else {
            limited
        }
    }
}

/// A new score becomes the newest one held, and once the ring is full the
/// others move up by one.
pub proof fn law_ring_keeps_order(before: &ScoreTrend, after: &ScoreTrend, v: i16, k: int)
    requires
        before.len < 255,
        after.recent@ == before.recent@.update(before.len as int % 4, v),
        after.len == before.len + 1,
        0 <= k < after.held() - 1,
    ensures
        after.nth(after.held() - 1) == v,
        before.held() < 4 ==> after.nth(k) == before.nth(k),
        before.held() == 4 ==> after.nth(k) == before.nth(k + 1),
{
}

/// A weakness counts as latent from two plies on, as one of structure from six,
/// as permanent from twelve.
pub proof fn law_weakness_by_persistence(plies: u32)
    ensures
        weakness_of(plies) is Temporary <==> plies <= 1,
        weakness_of(plies) is Latent <==> 2 <= plies <= 5,
        weakness_of(plies) is Structure <==> 6 <= plies <= 11,
        weakness_of(plies) is Permanent <==> plies >= 12,
{
}

/// Only the loss of a defender makes a weakness worse, by one step, and nothing
/// is worse than a permanent one.
pub proof fn law_lost_defenders_amplify(kind: WeaknessKind, before: u32, after: u32)
    ensures
        after >= before ==> amplified(kind, before, after) == kind,
        after < before && !(kind is Permanent) ==> amplified(kind, before, after) as int == kind
            as int + 1,
        amplified(WeaknessKind::Permanent, before, after) is Permanent,
{
}

/// The more volatile a position is, the larger a swing has to be: 15, 30 or 60
/// points more, as far as the numbers go.
pub proof fn law_volatility_asks_for_more(base: i16)
    requires
        base <= 32_000,
    ensures
        threshold_of(base, VolatilityLevel::Low) == base,
        threshold_of(base, VolatilityLevel::Medium) == base + 15,
        threshold_of(base, VolatilityLevel::High) == base + 30,
        threshold_of(base, VolatilityLevel::Extreme) == base + 60,
{
}

/// A swing of 300 is confirmed at once, one below it needs the threshold and a
/// waiting swing of at most twice its size; a larger swing is confirmed where a
/// smaller one is, and a higher threshold confirms no more.
pub proof fn law_confirmation(pending: i16, swing: int, larger: int, threshold: i16, higher: i16)
    requires
        swing <= larger,
        threshold <= higher,
    ensures
        swing >= 300 ==> confirms(pending, swing, threshold),
        swing < 300 && swing < threshold ==> !confirms(pending, swing, threshold),
        swing < 300 && pending <= 0 ==> !confirms(pending, swing, threshold),
        pending > 0 && threshold <= swing && 2 * swing >= pending ==> confirms(
            pending,
            swing,
            threshold,
        ),
        swing < 300 && 2 * swing + 1 < pending ==> !confirms(pending, swing, threshold),
        confirms(pending, swing, threshold) ==> confirms(pending, larger, threshold),
        confirms(pending, swing, higher) ==> confirms(pending, swing, threshold),
{
}

/// A confirmed swing is noted with its size and nothing waits any more; a swing
/// over the threshold that is not confirmed waits.
#[verifier::rlimit(60)]
pub proof fn law_observed_swing(
    before: ConcessionTracker,
    prev: i16,
    curr: i16,
    threshold: i16,
)
    requires
        -0x8000 <= curr - prev < 0x8000,
    ensures
        ({
            let after = observed(before, prev, curr, threshold);
            &&& curr - prev >= 300 ==> after.pending_swing == 0 && (after.confirmed matches Some(c)
                && c.swing_cp == curr - prev && c.kind is Latent)
            &&& threshold <= curr - prev < 300 && before.pending_swing <= 0 ==> after.pending_swing
                == curr - prev && after.confirmed == before.confirmed
            &&& 0 < curr - prev < threshold && curr - prev < 300 ==> after.pending_swing
                == before.pending_swing && after.confirmed == before.confirmed
        }),
{
}

/// A concession is seen exactly where the score rose by twelve or more, with
/// that rise as its size. A fresh one of 80 or more is latent, any other is as
/// old as it has lasted.
pub proof fn law_concession_is_a_rise(prev: i16, curr: i16, plies: u32)
    requires
        -0x8000 <= curr - prev < 0x8000,
    ensures
        concession_of(prev, curr, plies) is Some <==> curr - prev >= 12,
        concession_of(prev, curr, plies) matches Some(c) ==> c.swing_cp == curr - prev && (plies > 0
            || curr - prev < 80 ==> c.kind == weakness_of(plies)) && (plies == 0 && curr - prev
            >= 80 ==> c.kind is Latent),
{
}

/// The average of the scores held lies between the lowest and the highest of
/// them, and is the sum over their number without the fraction.
#[verifier::rlimit(60)]
pub proof fn law_mean_is_between(trend: &ScoreTrend, low: int, high: int)
    requires
        trend.held() > 0,
        forall|k: int| 0 <= k < trend.held() ==> low <= #[trigger] trend.nth(k) <= high,
    ensures
        is_quotient(trend.sum(trend.held()), trend.held(), trend.mean()),
        low <= 0 <= high || low == high ==> low <= trend.mean() <= high,
        low == high ==> trend.mean() == low,
{
    let n = trend.held();
    lemma_sum_between(trend, low, high, n);
    let s = trend.sum(n);
    law_quotient(s, n, trend.mean());
    let m = trend.mean();
    assert(low <= 0 ==> m >= low) by (nonlinear_arith)
        requires
            s >= low * n,
            n > 0,
            s >= 0 ==> m >= 0,
            s <= 0 ==> n * m - n < s && s <= n * m,
    ;
    assert(high >= 0 ==> m <= high) by (nonlinear_arith)
        requires
            s <= high * n,
            n > 0,
            s <= 0 ==> m <= 0,
            s >= 0 ==> n * m <= s,
    ;
    if low == high {
        assert(s == low * n);
        assert(n * low == low * n) by (nonlinear_arith);
        assert(low >= 0 ==> low * n >= 0) by (nonlinear_arith)
            requires
                n > 0,
        ;
        assert(low <= 0 ==> low * n <= 0) by (nonlinear_arith)
            requires
                n > 0,
        ;
        assert(low > 0 ==> low * n > 0) by (nonlinear_arith)
            requires
                n > 0,
        ;
        assert(low < 0 ==> low * n < 0) by (nonlinear_arith)
            requires
                n > 0,
        ;
        law_quotient(s, n, low);
    }
}

proof fn lemma_sum_between(trend: &ScoreTrend, low: int, high: int, n: int)
    requires
        0 <= n,
        forall|k: int| 0 <= k < n ==> low <= #[trigger] trend.nth(k) <= high,
    ensures
        low * n <= trend.sum(n) <= high * n,
    decreases n,
{
    if n > 0 {
        lemma_sum_between(trend, low, high, n - 1);
        let v = trend.nth(n - 1);
        assert(low * (n - 1) + low == low * n) by (nonlinear_arith);
        assert(high * (n - 1) + high == high * n) by (nonlinear_arith);
    }
}

/// Scores that move by the same distance at every step have that distance as
/// their noise; scores that do not move have none.
#[verifier::rlimit(60)]
pub proof fn law_noise_is_the_step(trend: &ScoreTrend, d: int)
    requires
        trend.held() >= 2,
        0 <= d < 0x8000,
        forall|k: int|
            1 <= k < trend.held() ==> trend.nth(k - 1) + d == #[trigger] trend.nth(k) || trend.nth(
                k - 1,
            ) - d == trend.nth(k),
    ensures
        trend.noise() == d,
{
    let n = trend.held();
    lemma_steps_of_one_size(trend, d, n);
    assert((d * (n - 1)) / (n - 1) == d) by (nonlinear_arith)
        requires
            n >= 2,
    ;
}

proof fn lemma_steps_of_one_size(trend: &ScoreTrend, d: int, n: int)
    requires
        1 <= n <= trend.held(),
        0 <= d < 0x8000,
        forall|k: int|
            1 <= k < trend.held() ==> trend.nth(k - 1) + d == #[trigger] trend.nth(k) || trend.nth(
                k - 1,
            ) - d == trend.nth(k),
    ensures
        trend.step_sum(n) == d * (n - 1),
    decreases n,
{
    if n > 1 {
        lemma_steps_of_one_size(trend, d, n - 1);
        let v = trend.nth(n - 1);
        assert(trend.nth(n - 1 - 1) == trend.nth(n - 2));
        assert(d * (n - 2) + d == d * (n - 1)) by (nonlinear_arith);
    } else {
        assert(d * 0 == 0);
    }
}

/// A threshold is never below what is asked for, follows one and a half times
/// the noise, and the noise never takes it beyond 80.
pub proof fn law_threshold_follows_noise(trend: &ScoreTrend, base: int)
    requires
        trend.noise() >= 0,
    ensures
        trend.threshold(base) >= base,
        base >= 80 ==> trend.threshold(base) == base,
        trend.threshold(base) <= 80 || trend.threshold(base) == base,
        base <= 0 && trend.noise() <= 53 ==> 2 * trend.threshold(base) <= 3 * trend.noise() <= 2
            * trend.threshold(base) + 1,
        base <= 80 && trend.noise() >= 54 ==> trend.threshold(base) == 80,
{
}

} // verus!
