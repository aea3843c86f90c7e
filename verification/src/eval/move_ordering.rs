//! Move ordering: killers, counter moves and histories that search results
//! keep up to date.

use vstd::prelude::*;

use crate::bits::{bit, is_set};
use crate::board::{
    BoardState, Move, MoveType, Piece, ScoredMove, Side, Square, MAX_PLY, PIECES, SQUARES,
};
use crate::math::{abs, abs_i32, clamp, clamp_i32, div_toward_zero, is_quotient, law_quotient};

verus! {

pub struct MoveOrdering {
    pub killer_moves: [[Move; 64]; 2],
    pub history_moves: [[i32; 64]; 12],
    pub quiet_history: [[[i16; 64]; 64]; 2],
    pub continuation_history: [[[i16; 64]; 64]; 12],
    pub counter_moves: [[[Move; 64]; 6]; 2],
    pub capture_history: [[[i16; 6]; 64]; 12],
}

/// Largest value of most histories.
pub const MAX_HISTORY: i32 = 16_384;

/// What a check may lose in the exchange on its target square and still be
/// preferred.
pub const CHECK_EXCHANGE_MARGIN: i32 = -75;

/// Most valuable victim first, by the least valuable attacker: rows are
/// victims, columns attackers.
pub const MVV_LVA: [[i32; 7]; 7] = [
    [15_000, 14_000, 13_000, 12_000, 11_000, 10_000, 0],
    [25_000, 24_000, 23_000, 22_000, 21_000, 20_000, 0],
    [35_000, 34_000, 33_000, 32_000, 31_000, 30_000, 0],
    [45_000, 44_000, 43_000, 42_000, 41_000, 40_000, 0],
    [55_000, 54_000, 53_000, 52_000, 51_000, 50_000, 0],
    [65_000, 64_000, 63_000, 62_000, 61_000, 60_000, 0],
    [0, 0, 0, 0, 0, 0, 0],
];

/// A history value after a bonus: it moves by the bonus, the less the closer
/// it already is to the limit.
pub open spec fn gravity(score: int, bonus: int, limit: int) -> int {
    let b = clamp(bonus, -limit, limit);
    score + b - div_toward_zero(score * abs(b), limit)
}

/// A history value never leaves its limits.
pub proof fn law_gravity_bounded(score: int, bonus: int, limit: int)
    requires
        limit > 0,
        -limit <= score <= limit,
    ensures
        -limit <= gravity(score, bonus, limit) <= limit,
{
    let b = clamp(bonus, -limit, limit);
    let s = abs(score);
    let a = abs(b);
    let q = (s * a) / limit;
    assert(s * a >= 0) by (nonlinear_arith)
        requires
            s >= 0,
            a >= 0,
    ;
    assert(score * a == s * a || score * a == -(s * a)) by (nonlinear_arith)
        requires
            score == s || score == -s,
    ;
    if score < 0 {
        assert(score * a == -(s * a)) by (nonlinear_arith)
            requires
                score == -s,
        ;
    }
    assert(q * limit <= s * a < q * limit + limit) by (nonlinear_arith)
        requires
            q == (s * a) / limit,
            limit > 0,
            s * a >= 0,
    ;
    assert(0 <= q <= s) by (nonlinear_arith)
        requires
            q * limit <= s * a < q * limit + limit,
            0 <= a <= limit,
            0 <= s,
            s * a >= 0,
            limit > 0,
    ;
    assert(q <= a) by (nonlinear_arith)
        requires
            q * limit <= s * a,
            0 <= a,
            0 <= s <= limit,
            limit > 0,
    ;
    assert(s + a - q <= limit) by (nonlinear_arith)
        requires
            s * a < q * limit + limit,
            0 <= a <= limit,
            0 <= s <= limit,
            limit > 0,
    ;
    assert(div_toward_zero(score * a, limit) == if score >= 0 {
        q
    } else {
        -q
    });
}

/// A full bonus takes a history value to its limit at once.
pub proof fn law_full_bonus_saturates(score: int, limit: int)
    requires
        limit > 0,
    ensures
        gravity(score, limit, limit) == limit,
{
    assert((score * limit) / limit == score) by (nonlinear_arith)
        requires
            limit > 0,
    ;
    assert(((-score) * limit) / limit == -score) by (nonlinear_arith)
        requires
            limit > 0,
    ;
    assert(-(score * limit) == (-score) * limit) by (nonlinear_arith);
    assert(score >= 0 ==> score * limit >= 0) by (nonlinear_arith)
        requires
            limit > 0,
    ;
    assert(score < 0 ==> score * limit < 0) by (nonlinear_arith)
        requires
            limit > 0,
    ;
}

fn update_gravity(score: &mut i32, bonus: i32, limit: i32)
    requires
        0 < limit <= 32_767,
        -32_768 <= *old(score) <= 32_767,
    ensures
        *final(score) == gravity(*old(score) as int, bonus as int, limit as int),
        -65_536 <= *final(score) <= 65_536,
{
    let b: i32 = clamp_i32(bonus, -limit, limit);
    let s: i32 = *score;
    let a: i32 = abs_i32(b);
    assert(-1_073_741_824 <= s * a <= 1_073_741_824) by (nonlinear_arith)
        requires
            -32_768 <= s <= 32_768,
            0 <= a <= 32_767,
    ;
    proof {
        let p = abs(s as int) * a;
        let q = p / (limit as int);
        assert(abs(s as int) * a == s * a || abs(s as int) * a == -(s * a)) by (nonlinear_arith)
            requires
                abs(s as int) == s || abs(s as int) == -s,
        ;
        assert(0 <= p <= 32_768 * a) by (nonlinear_arith)
            requires
                p == abs(s as int) * a,
                0 <= abs(s as int) <= 32_768,
                0 <= a,
        ;
        assert(0 <= q <= 32_768) by (nonlinear_arith)
            requires
                q == p / (limit as int),
                0 <= p <= 32_768 * a,
                0 <= a <= limit,
                limit > 0,
        ;
        assert(s >= 0 ==> s * a >= 0) by (nonlinear_arith)
            requires
                a >= 0,
        ;
        assert(s <= 0 ==> s * a <= 0) by (nonlinear_arith)
            requires
                a >= 0,
        ;
        assert(-32_768 <= div_toward_zero(s * a, limit as int) <= 32_768);
    }
    *score = s + (b - s * a / limit);
}

fn update_gravity_i16(score: &mut i16, bonus: i32, limit: i32)
    requires
        0 < limit <= 32_767,
    ensures
        *final(score) == clamp(
            gravity(*old(score) as int, bonus as int, limit as int),
            -32_768,
            32_767,
        ),
{
    let mut value: i32 = *score as i32;
    update_gravity(&mut value, bonus, limit);
    *score = clamp_i32(value, -32_768, 32_767) as i16;
}

fn halve_row(row: &mut [i16; 64])
    ensures
        forall|t: int|
            0 <= t < 64 ==> #[trigger] final(row)@[t] == div_toward_zero(old(row)@[t] as int, 2),
{
    let mut t: usize = 0;
    while t < 64
        invariant
            t <= 64,
            forall|k: int|
                0 <= k < t ==> #[trigger] row@[k] == div_toward_zero(old(row)@[k] as int, 2),
            forall|k: int| t <= k < 64 ==> #[trigger] row@[k] == old(row)@[k],
        decreases 64 - t,
    {
        row[t] = row[t] / 2;
        t = t + 1;
    }
}

fn halve_short_row(row: &mut [i16; 6])
    ensures
        forall|t: int|
            0 <= t < 6 ==> #[trigger] final(row)@[t] == div_toward_zero(old(row)@[t] as int, 2),
{
    let mut t: usize = 0;
    while t < 6
        invariant
            t <= 6,
            forall|k: int|
                0 <= k < t ==> #[trigger] row@[k] == div_toward_zero(old(row)@[k] as int, 2),
            forall|k: int| t <= k < 6 ==> #[trigger] row@[k] == old(row)@[k],
        decreases 6 - t,
    {
        row[t] = row[t] / 2;
        t = t + 1;
    }
}

fn halve_wide_row(row: &mut [i32; 64])
    ensures
        forall|t: int|
            0 <= t < 64 ==> #[trigger] final(row)@[t] == div_toward_zero(old(row)@[t] as int, 2),
{
    let mut t: usize = 0;
    while t < 64
        invariant
            t <= 64,
            forall|k: int|
                0 <= k < t ==> #[trigger] row@[k] == div_toward_zero(old(row)@[k] as int, 2),
            forall|k: int| t <= k < 64 ==> #[trigger] row@[k] == old(row)@[k],
        decreases 64 - t,
    {
        row[t] = row[t] / 2;
        t = t + 1;
    }
}

fn halve_plane(plane: &mut [[i16; 64]; 64])
    ensures
        forall|s: int, t: int|
            0 <= s < 64 && 0 <= t < 64 ==> #[trigger] final(plane)@[s]@[t] == div_toward_zero(
                old(plane)@[s]@[t] as int,
                2,
            ),
{
    let mut s: usize = 0;
    while s < 64
        invariant
            s <= 64,
            forall|k: int, t: int|
                0 <= k < s && 0 <= t < 64 ==> #[trigger] plane@[k]@[t] == div_toward_zero(
                    old(plane)@[k]@[t] as int,
                    2,
                ),
            forall|k: int| s <= k < 64 ==> #[trigger] plane@[k] == old(plane)@[k],
        decreases 64 - s,
    {
        halve_row(&mut plane[s]);
        s = s + 1;
    }
}

fn halve_short_plane(plane: &mut [[i16; 6]; 64])
    ensures
        forall|s: int, t: int|
            0 <= s < 64 && 0 <= t < 6 ==> #[trigger] final(plane)@[s]@[t] == div_toward_zero(
                old(plane)@[s]@[t] as int,
                2,
            ),
{
    let mut s: usize = 0;
    while s < 64
        invariant
            s <= 64,
            forall|k: int, t: int|
                0 <= k < s && 0 <= t < 6 ==> #[trigger] plane@[k]@[t] == div_toward_zero(
                    old(plane)@[k]@[t] as int,
                    2,
                ),
            forall|k: int| s <= k < 64 ==> #[trigger] plane@[k] == old(plane)@[k],
        decreases 64 - s,
    {
        halve_short_row(&mut plane[s]);
        s = s + 1;
    }
}

fn plane_is_zero(plane: &[[i16; 64]; 64]) -> (r: bool)
    ensures
        r == (forall|s: int, t: int|
            0 <= s < 64 && 0 <= t < 64 ==> #[trigger] plane@[s]@[t] == 0),
{
    let mut s: usize = 0;
    while s < 64
        invariant
            s <= 64,
            forall|k: int, t: int| 0 <= k < s && 0 <= t < 64 ==> #[trigger] plane@[k]@[t] == 0,
        decreases 64 - s,
    {
        let mut t: usize = 0;
        while t < 64
            invariant
                t <= 64,
                s < 64,
                forall|k: int| 0 <= k < t ==> #[trigger] plane@[s as int]@[k] == 0,
            decreases 64 - t,
        {
            if plane[s][t] != 0 {
                assert(plane@[s as int]@[t as int] != 0);
                return false;
            }
            t = t + 1;
        }
        s = s + 1;
    }
    true
}

fn short_plane_is_zero(plane: &[[i16; 6]; 64]) -> (r: bool)
    ensures
        r == (forall|s: int, t: int|
            0 <= s < 64 && 0 <= t < 6 ==> #[trigger] plane@[s]@[t] == 0),
{
    let mut s: usize = 0;
    while s < 64
        invariant
            s <= 64,
            forall|k: int, t: int| 0 <= k < s && 0 <= t < 6 ==> #[trigger] plane@[k]@[t] == 0,
        decreases 64 - s,
    {
        let mut t: usize = 0;
        while t < 6
            invariant
                t <= 6,
                s < 64,
                forall|k: int| 0 <= k < t ==> #[trigger] plane@[s as int]@[k] == 0,
            decreases 6 - t,
        {
            if plane[s][t] != 0 {
                assert(plane@[s as int]@[t as int] != 0);
                return false;
            }
            t = t + 1;
        }
        s = s + 1;
    }
    true
}

fn row_is_absent(row: &[Move; 64]) -> (r: bool)
    ensures
        r == (forall|t: int| 0 <= t < 64 ==> #[trigger] row@[t] == Move::absent()),
{
    let none: Move = Move::no_move();
    let mut t: usize = 0;
    while t < 64
        invariant
            t <= 64,
            none == Move::absent(),
            forall|k: int| 0 <= k < t ==> #[trigger] row@[k] == Move::absent(),
        decreases 64 - t,
    {
        if row[t] != none {
            assert(row@[t as int] != Move::absent());
            return false;
        }
        t = t + 1;
    }
    true
}

fn wide_row_is_zero(row: &[i32; 64]) -> (r: bool)
    ensures
        r == (forall|t: int| 0 <= t < 64 ==> #[trigger] row@[t] == 0),
{
    let mut t: usize = 0;
    while t < 64
        invariant
            t <= 64,
            forall|k: int| 0 <= k < t ==> #[trigger] row@[k] == 0,
        decreases 64 - t,
    {
        if row[t] != 0 {
            assert(row@[t as int] != 0);
            return false;
        }
        t = t + 1;
    }
    true
}

/// A killer was noted for a ply: it is the newest one, and the one before it is
/// the older one. The newest one again, or a ply too deep, changes nothing.
pub open spec fn killer_noted(
    before: &MoveOrdering,
    after: &MoveOrdering,
    mv: Move,
    ply: int,
) -> bool {
    &&& ply >= MAX_PLY || before.killer_moves@[0]@[ply] == mv ==> *after == *before
    &&& ply < MAX_PLY && before.killer_moves@[0]@[ply] != mv ==> {
        &&& after.killer_moves@[0]@ == before.killer_moves@[0]@.update(ply, mv)
        &&& after.killer_moves@[1]@ == before.killer_moves@[1]@.update(
            ply,
            before.killer_moves@[0]@[ply],
        )
        &&& after.history_moves == before.history_moves
        &&& after.quiet_history == before.quiet_history
        &&& after.continuation_history == before.continuation_history
        &&& after.counter_moves == before.counter_moves
        &&& after.capture_history == before.capture_history
    }
}

/// A bonus was given to a piece moving to a square.
pub open spec fn piece_rewarded(
    before: &MoveOrdering,
    after: &MoveOrdering,
    piece: int,
    t: int,
    bonus: int,
) -> bool {
    if piece < 12 && t < 64 {
        &&& after.history_moves@[piece]@[t] == gravity(
            before.history_moves@[piece]@[t] as int,
            bonus,
            16_384,
        )
        &&& forall|p: int, k: int|
            0 <= p < 12 && 0 <= k < 64 && (p != piece || k != t)
                ==> #[trigger] after.history_moves@[p]@[k] == before.history_moves@[p]@[k]
    } else {
        after.history_moves == before.history_moves
    }
}

/// A bonus was given to a move of one side between two squares.
pub open spec fn squares_rewarded(
    before: &MoveOrdering,
    after: &MoveOrdering,
    c: int,
    s: int,
    t: int,
    bonus: int,
) -> bool {
    if s < 64 && t < 64 {
        &&& after.quiet_history@[c]@[s]@[t] == clamp(
            gravity(before.quiet_history@[c]@[s]@[t] as int, bonus, 16_384),
            -32_768,
            32_767,
        )
        &&& forall|i: int, j: int, k: int|
            0 <= i < 2 && 0 <= j < 64 && 0 <= k < 64 && (i != c || j != s || k != t)
                ==> #[trigger] after.quiet_history@[i]@[j]@[k] == before.quiet_history@[i]@[j]@[k]
    } else {
        after.quiet_history == before.quiet_history
    }
}

/// A bonus was given to a piece taking a kind of piece on a square.
pub open spec fn capture_rewarded(
    before: &MoveOrdering,
    after: &MoveOrdering,
    m: int,
    t: int,
    c: int,
    bonus: int,
) -> bool {
    if m < 12 && t < 64 && c < 6 {
        &&& after.capture_history@[m]@[t]@[c] == clamp(
            gravity(before.capture_history@[m]@[t]@[c] as int, bonus, 16_384),
            -32_768,
            32_767,
        )
        &&& forall|i: int, j: int, k: int|
            0 <= i < 12 && 0 <= j < 64 && 0 <= k < 6 && (i != m || j != t || k != c)
                ==> #[trigger] after.capture_history@[i]@[j]@[k]
                == before.capture_history@[i]@[j]@[k]
    } else {
        after.capture_history == before.capture_history
    }
}

/// A bonus was given to a move that answers a piece going to a square.
pub open spec fn answer_rewarded(
    before: &MoveOrdering,
    after: &MoveOrdering,
    p: int,
    s: int,
    t: int,
    bonus: int,
) -> bool {
    if p < 6 && s < 64 && t < 64 {
        &&& after.continuation_history@[p]@[s]@[t] == clamp(
            gravity(before.continuation_history@[p]@[s]@[t] as int, bonus, 32_767),
            -32_768,
            32_767,
        )
        &&& forall|i: int, j: int, k: int|
            0 <= i < 12 && 0 <= j < 64 && 0 <= k < 64 && (i != p || j != s || k != t)
                ==> #[trigger] after.continuation_history@[i]@[j]@[k]
                == before.continuation_history@[i]@[j]@[k]
    } else {
        after.continuation_history == before.continuation_history
    }
}

/// The move that refuted a piece going to a square was noted.
pub open spec fn counter_noted(
    before: &MoveOrdering,
    after: &MoveOrdering,
    c: int,
    p: int,
    s: int,
    counter_move: Move,
) -> bool {
    if p < 6 && s < 64 {
        &&& after.counter_moves@[c]@[p]@[s] == counter_move
        &&& forall|i: int, j: int, k: int|
            0 <= i < 2 && 0 <= j < 6 && 0 <= k < 64 && (i != c || j != p || k != s)
                ==> #[trigger] after.counter_moves@[i]@[j]@[k] == before.counter_moves@[i]@[j]@[k]
    } else {
        after.counter_moves == before.counter_moves
    }
}

/// Half of a history value, rounded toward zero.
pub open spec fn halved(v: int) -> int {
    div_toward_zero(v, 2)
}

impl MoveOrdering {
    /// The histories are within their limits.
    pub open spec fn wf(&self) -> bool {
        &&& forall|p: int, t: int|
            0 <= p < 12 && 0 <= t < 64 ==> -16_384 <= #[trigger] self.history_moves@[p]@[t]
                <= 16_384
        &&& forall|c: int, s: int, t: int|
            0 <= c < 2 && 0 <= s < 64 && 0 <= t < 64 ==> -16_384
                <= #[trigger] self.quiet_history@[c]@[s]@[t] <= 16_384
        &&& forall|p: int, s: int, t: int|
            0 <= p < 12 && 0 <= s < 64 && 0 <= t < 64 ==> -32_767
                <= #[trigger] self.continuation_history@[p]@[s]@[t] <= 32_767
        &&& forall|p: int, s: int, t: int|
            0 <= p < 12 && 0 <= s < 64 && 0 <= t < 6 ==> -16_384
                <= #[trigger] self.capture_history@[p]@[s]@[t] <= 16_384
    }

    /// No killer is known.
    pub open spec fn killers_empty(&self) -> bool {
        forall|k: int, t: int|
            0 <= k < 2 && 0 <= t < 64 ==> #[trigger] self.killer_moves@[k]@[t] == Move::absent()
    }

    /// No counter move is known.
    pub open spec fn counters_empty(&self) -> bool {
        forall|c: int, p: int, t: int|
            0 <= c < 2 && 0 <= p < 6 && 0 <= t < 64 ==> #[trigger] self.counter_moves@[c]@[p]@[t]
                == Move::absent()
    }

    /// Every history is zero.
    pub open spec fn histories_zero(&self) -> bool {
        &&& forall|p: int, t: int|
            0 <= p < 12 && 0 <= t < 64 ==> #[trigger] self.history_moves@[p]@[t] == 0
        &&& forall|c: int, s: int, t: int|
            0 <= c < 2 && 0 <= s < 64 && 0 <= t < 64
                ==> #[trigger] self.quiet_history@[c]@[s]@[t] == 0
        &&& forall|p: int, s: int, t: int|
            0 <= p < 12 && 0 <= s < 64 && 0 <= t < 64
                ==> #[trigger] self.continuation_history@[p]@[s]@[t] == 0
        &&& forall|p: int, s: int, t: int|
            0 <= p < 12 && 0 <= s < 64 && 0 <= t < 6
                ==> #[trigger] self.capture_history@[p]@[s]@[t] == 0
    }

    /// Nothing is known.
    pub open spec fn is_empty(&self) -> bool {
        self.killers_empty() && self.counters_empty() && self.histories_zero()
    }

    pub fn new() -> (r: MoveOrdering)
        ensures
            r.is_empty(),
            r.wf(),
    {
        let none: Move = Move::no_move();
        MoveOrdering {
            killer_moves: [[none; 64]; 2],
            history_moves: [[0i32; 64]; 12],
            quiet_history: [[[0i16; 64]; 64]; 2],
            continuation_history: [[[0i16; 64]; 64]; 12],
            counter_moves: [[[none; 64]; 6]; 2],
            capture_history: [[[0i16; 6]; 64]; 12],
        }
    }

    /// Notes a killer; the one before it moves to second place.
    pub fn add_killer_move(&mut self, move_obj: Move, ply: usize)
        ensures
            killer_noted(old(self), final(self), move_obj, ply as int),
    {
        if ply >= MAX_PLY || self.killer_moves[0][ply] == move_obj {
            return;
        }
        self.killer_moves[1][ply] = self.killer_moves[0][ply];
        self.killer_moves[0][ply] = move_obj;
    }

    /// Gives a bonus to a piece moving to a square.
    pub fn update_history(&mut self, piece: usize, move_obj: Move, bonus: i32)
        requires
            old(self).wf(),
        ensures
            final(self).wf(),
            piece_rewarded(
                old(self),
                final(self),
                piece as int,
                move_obj.target as int,
                bonus as int,
            ),
            final(self).killer_moves == old(self).killer_moves,
            final(self).quiet_history == old(self).quiet_history,
            final(self).continuation_history == old(self).continuation_history,
            final(self).counter_moves == old(self).counter_moves,
            final(self).capture_history == old(self).capture_history,
    {
        let target: usize = move_obj.target as usize;
        if piece < PIECES * 2 && target < SQUARES {
            proof {
                let s = self.history_moves@[piece as int]@[target as int];
                law_gravity_bounded(s as int, bonus as int, 16_384);
            }
            update_gravity(&mut self.history_moves[piece][target], bonus, MAX_HISTORY);
        }
    }

    /// Forgets everything.
    pub fn reset(&mut self)
        ensures
            final(self).is_empty(),
            final(self).wf(),
    {
        let none: Move = Move::no_move();
        self.killer_moves = [[none; 64]; 2];
        self.history_moves = [[0i32; 64]; 12];
        self.quiet_history = [[[0i16; 64]; 64]; 2];
        self.continuation_history = [[[0i16; 64]; 64]; 12];
        self.counter_moves = [[[none; 64]; 6]; 2];
        self.capture_history = [[[0i16; 6]; 64]; 12];
    }

    /// Halves every history.
    pub fn decay_history(&mut self)
        ensures
            forall|p: int, t: int|
                0 <= p < 12 && 0 <= t < 64 ==> #[trigger] final(self).history_moves@[p]@[t]
                    == halved(old(self).history_moves@[p]@[t] as int),
            forall|c: int, s: int, t: int|
                0 <= c < 2 && 0 <= s < 64 && 0 <= t < 64
                    ==> #[trigger] final(self).quiet_history@[c]@[s]@[t] == halved(
                    old(self).quiet_history@[c]@[s]@[t] as int,
                ),
            forall|p: int, s: int, t: int|
                0 <= p < 12 && 0 <= s < 64 && 0 <= t < 64
                    ==> #[trigger] final(self).continuation_history@[p]@[s]@[t] == halved(
                    old(self).continuation_history@[p]@[s]@[t] as int,
                ),
            forall|p: int, s: int, t: int|
                0 <= p < 12 && 0 <= s < 64 && 0 <= t < 6
                    ==> #[trigger] final(self).capture_history@[p]@[s]@[t] == halved(
                    old(self).capture_history@[p]@[s]@[t] as int,
                ),
            final(self).killer_moves == old(self).killer_moves,
            final(self).counter_moves == old(self).counter_moves,
            old(self).wf() ==> final(self).wf(),
    {
        let mut p: usize = 0;
        while p < 12
            invariant
                p <= 12,
                forall|k: int, t: int|
                    0 <= k < p && 0 <= t < 64 ==> #[trigger] self.history_moves@[k]@[t]
                        == div_toward_zero(old(self).history_moves@[k]@[t] as int, 2),
                forall|k: int|
                    p <= k < 12 ==> #[trigger] self.history_moves@[k] == old(self).history_moves@[k],
                forall|k: int, s: int, t: int|
                    0 <= k < p && 0 <= s < 64 && 0 <= t < 64
                        ==> #[trigger] self.continuation_history@[k]@[s]@[t] == div_toward_zero(
                        old(self).continuation_history@[k]@[s]@[t] as int,
                        2,
                    ),
                forall|k: int|
                    p <= k < 12 ==> #[trigger] self.continuation_history@[k]
                        == old(self).continuation_history@[k],
                forall|k: int, s: int, t: int|
                    0 <= k < p && 0 <= s < 64 && 0 <= t < 6
                        ==> #[trigger] self.capture_history@[k]@[s]@[t] == div_toward_zero(
                        old(self).capture_history@[k]@[s]@[t] as int,
                        2,
                    ),
                forall|k: int|
                    p <= k < 12 ==> #[trigger] self.capture_history@[k]
                        == old(self).capture_history@[k],
                self.quiet_history == old(self).quiet_history,
                self.killer_moves == old(self).killer_moves,
                self.counter_moves == old(self).counter_moves,
            decreases 12 - p,
        {
            halve_wide_row(&mut self.history_moves[p]);
            halve_plane(&mut self.continuation_history[p]);
            halve_short_plane(&mut self.capture_history[p]);
            p = p + 1;
        }
        halve_plane(&mut self.quiet_history[0]);
        halve_plane(&mut self.quiet_history[1]);
    }

    /// Whether nothing is known.
    pub fn is_move_heuristic_empty(&self) -> (r: bool)
        ensures
            r == self.is_empty(),
    {
        let mut c: usize = 0;
        while c < 2
            invariant
                c <= 2,
                forall|k: int, t: int|
                    0 <= k < c && 0 <= t < 64 ==> #[trigger] self.killer_moves@[k]@[t]
                        == Move::absent(),
                forall|k: int, s: int, t: int|
                    0 <= k < c && 0 <= s < 64 && 0 <= t < 64
                        ==> #[trigger] self.quiet_history@[k]@[s]@[t] == 0,
                forall|k: int, p: int, t: int|
                    0 <= k < c && 0 <= p < 6 && 0 <= t < 64
                        ==> #[trigger] self.counter_moves@[k]@[p]@[t] == Move::absent(),
            decreases 2 - c,
        {
            if !row_is_absent(&self.killer_moves[c]) || !plane_is_zero(&self.quiet_history[c]) {
                return false;
            }
            let mut p: usize = 0;
            while p < 6
                invariant
                    p <= 6,
                    c < 2,
                    forall|k: int, t: int|
                        0 <= k < p && 0 <= t < 64
                            ==> #[trigger] self.counter_moves@[c as int]@[k]@[t] == Move::absent(),
                decreases 6 - p,
            {
                if !row_is_absent(&self.counter_moves[c][p]) {
                    return false;
                }
                p = p + 1;
            }
            c = c + 1;
        }
        let mut p: usize = 0;
        while p < 12
            invariant
                p <= 12,
                forall|k: int, t: int|
                    0 <= k < p && 0 <= t < 64 ==> #[trigger] self.history_moves@[k]@[t] == 0,
                forall|k: int, s: int, t: int|
                    0 <= k < p && 0 <= s < 64 && 0 <= t < 64
                        ==> #[trigger] self.continuation_history@[k]@[s]@[t] == 0,
                forall|k: int, s: int, t: int|
                    0 <= k < p && 0 <= s < 64 && 0 <= t < 6
                        ==> #[trigger] self.capture_history@[k]@[s]@[t] == 0,
            decreases 12 - p,
        {
            if !wide_row_is_zero(&self.history_moves[p]) || !plane_is_zero(
                &self.continuation_history[p],
            ) || !short_plane_is_zero(&self.capture_history[p]) {
                return false;
            }
            p = p + 1;
        }
        true
    }

    /// Gives a bonus to a move of one side.
    pub fn update_quiet_history(&mut self, side: Side, move_obj: Move, bonus: i32)
        requires
            !(side is Both),
        ensures
            squares_rewarded(
                old(self),
                final(self),
                side as int,
                move_obj.source as int,
                move_obj.target as int,
                bonus as int,
            ),
            final(self).killer_moves == old(self).killer_moves,
            final(self).history_moves == old(self).history_moves,
            final(self).continuation_history == old(self).continuation_history,
            final(self).counter_moves == old(self).counter_moves,
            final(self).capture_history == old(self).capture_history,
            old(self).wf() ==> final(self).wf(),
    {
        let source: usize = move_obj.source as usize;
        let target: usize = move_obj.target as usize;
        if source < SQUARES && target < SQUARES {
            let c: usize = side as usize;
            proof {
                let v = self.quiet_history@[c as int]@[source as int]@[target as int] as int;
                if self.wf() {
                    law_gravity_bounded(v, bonus as int, 16_384);
                }
            }
            update_gravity_i16(&mut self.quiet_history[c][source][target], bonus, 16_384);
        }
    }

    /// Gives a bonus to a piece taking a kind of piece on a square.
    pub fn update_capture_history(
        &mut self,
        moved_piece: usize,
        target_square: Square,
        captured_piece: Piece,
        bonus: i32,
    )
        ensures
            capture_rewarded(
                old(self),
                final(self),
                moved_piece as int,
                target_square as int,
                captured_piece as int,
                bonus as int,
            ),
            final(self).killer_moves == old(self).killer_moves,
            final(self).history_moves == old(self).history_moves,
            final(self).quiet_history == old(self).quiet_history,
            final(self).continuation_history == old(self).continuation_history,
            final(self).counter_moves == old(self).counter_moves,
            old(self).wf() ==> final(self).wf(),
    {
        let target: usize = target_square as usize;
        if moved_piece < PIECES * 2 && target < SQUARES && captured_piece != Piece::NoPiece {
            let cap_idx: usize = captured_piece as usize;
            if cap_idx < PIECES {
                proof {
                    let v = self.capture_history@[moved_piece as int]@[target as int]@[cap_idx as int] as int;
                    if self.wf() {
                        law_gravity_bounded(v, bonus as int, 16_384);
                    }
                }
                update_gravity_i16(
                    &mut self.capture_history[moved_piece][target][cap_idx],
                    bonus,
                    16_384,
                );
            }
        }
    }

    /// Gives a bonus to a move that answers a piece going to a square.
    pub fn update_continuation_history(
        &mut self,
        previous_piece: Piece,
        previous_target: Square,
        move_obj: Move,
        bonus: i32,
    )
        ensures
            answer_rewarded(
                old(self),
                final(self),
                previous_piece as int,
                previous_target as int,
                move_obj.target as int,
                bonus as int,
            ),
            final(self).killer_moves == old(self).killer_moves,
            final(self).history_moves == old(self).history_moves,
            final(self).quiet_history == old(self).quiet_history,
            final(self).counter_moves == old(self).counter_moves,
            final(self).capture_history == old(self).capture_history,
            old(self).wf() ==> final(self).wf(),
    {
        let target: usize = move_obj.target as usize;
        let prev_target: usize = previous_target as usize;
        let prev_piece: usize = previous_piece as usize;
        if prev_piece < PIECES && prev_target < SQUARES && target < SQUARES {
            proof {
                let v = self.continuation_history@[prev_piece as int]@[prev_target as int]@[target as int] as int;
                if self.wf() {
                    law_gravity_bounded(v, bonus as int, 32_767);
                }
            }
            update_gravity_i16(
                &mut self.continuation_history[prev_piece][prev_target][target],
                bonus,
                32_767,
            );
        }
    }

    /// Notes the move that refuted a piece going to a square.
    pub fn add_counter_move(
        &mut self,
        prev_side: Side,
        prev_piece: Piece,
        prev_square: Square,
        counter_move: Move,
    )
        requires
            !(prev_side is Both),
        ensures
            counter_noted(
                old(self),
                final(self),
                prev_side as int,
                prev_piece as int,
                prev_square as int,
                counter_move,
            ),
            final(self).killer_moves == old(self).killer_moves,
            final(self).history_moves == old(self).history_moves,
            final(self).quiet_history == old(self).quiet_history,
            final(self).continuation_history == old(self).continuation_history,
            final(self).capture_history == old(self).capture_history,
    {
        let prev_p: usize = prev_piece as usize;
        let prev_sq: usize = prev_square as usize;
        if prev_p < PIECES && prev_sq < SQUARES {
            self.counter_moves[prev_side as usize][prev_p][prev_sq] = counter_move;
        }
    }
}

/// The first move with the highest score among those from `start` to `n`.
pub open spec fn best_of(moves: Seq<ScoredMove>, start: int, n: int) -> int
    decreases n - start,
{
    if n <= start + 1 {
        start
    } else {
        let b = best_of(moves, start, n - 1);
        if moves[n - 1].score > moves[b].score {
            n - 1
        } else {
            b
        }
    }
}

/// A list with two items in each other's place.
pub open spec fn swapped(moves: Seq<ScoredMove>, a: int, b: int) -> Seq<ScoredMove> {
    moves.update(a, moves[b]).update(b, moves[a])
}

/// No move from `start` on scores higher than the best one, and no earlier one
/// scores as high.
pub proof fn law_best_is_first_maximum(moves: Seq<ScoredMove>, start: int, n: int)
    requires
        0 <= start < n <= moves.len(),
    ensures
        start <= best_of(moves, start, n) < n,
        forall|i: int|
            start <= i < n ==> (#[trigger] moves[i]).score <= moves[best_of(moves, start, n)].score,
        forall|i: int|
            start <= i < best_of(moves, start, n) ==> (#[trigger] moves[i]).score < moves[best_of(
                moves,
                start,
                n,
            )].score,
    decreases n,
{
    if n > start + 1 {
        law_best_is_first_maximum(moves, start, n - 1);
    }
}

impl MoveOrdering {
    /// Brings the best move from `starting_index` on to that place.
    pub fn sort_next_best_move(moves: &mut [ScoredMove], starting_index: usize)
        requires
            starting_index < usize::MAX,
        ensures
            starting_index >= old(moves).len() ==> final(moves)@ == old(moves)@,
            starting_index < old(moves).len() ==> {
                &&& final(moves)@ == swapped(
                    old(moves)@,
                    best_of(old(moves)@, starting_index as int, old(moves).len() as int),
                    starting_index as int,
                )
                &&& forall|i: int|
                    starting_index <= i < final(moves).len() ==> (#[trigger] final(moves)@[i]).score
                        <= final(moves)@[starting_index as int].score
            },
            final(moves).len() == old(moves).len(),
    {
        let mut best_index: usize = starting_index;
        let mut index: usize = starting_index + 1;
        while index < moves.len()
            invariant
                starting_index < index,
                index <= moves.len() || index == starting_index + 1,
                moves@ == old(moves)@,
                best_index == best_of(moves@, starting_index as int, index as int),
                starting_index <= best_index,
                best_index < index,
            decreases moves.len() - index,
        {
            if moves[index].score > moves[best_index].score {
                best_index = index;
            }
            index = index + 1;
        }
        proof {
            if starting_index < moves.len() {
                law_best_is_first_maximum(moves@, starting_index as int, moves.len() as int);
            }
        }
        if best_index != starting_index {
            let a: ScoredMove = moves[best_index];
            let b: ScoredMove = moves[starting_index];
            moves[best_index] = b;
            moves[starting_index] = a;
        }
        assert(starting_index < moves.len() ==> moves@ =~= swapped(
            old(moves)@,
            best_of(old(moves)@, starting_index as int, old(moves).len() as int),
            starting_index as int,
        ));
    }

    /// What the continuation history says of a target square.
    pub open spec fn continuation(
        &self,
        board: &BoardState,
        previous: Option<Move>,
        target: int,
    ) -> int {
        match previous {
            Some(m) => if !(m.target is NoSquare) && !(board.piece_mapping@[m.target as int]
                is NoPiece) {
                self.continuation_history@[board.piece_mapping@[m.target as int] as int]@[m.target as int]@[target] as int
            } else {
                0
            },
            None => 0,
        }
    }

    fn continuation_score(&self, board: &BoardState, previous: Option<Move>, target: usize) -> (r:
        i32)
        requires
            target < 64,
        ensures
            r == self.continuation(board, previous, target as int),
            -32_768 <= r <= 32_767,
    {
        match previous {
            Some(m) => {
                let prev_target: usize = m.target as usize;
                if prev_target < SQUARES {
                    let prev_piece: Piece = board.piece_mapping[prev_target];
                    if (prev_piece as usize) < PIECES {
                        return self.continuation_history[prev_piece as usize][prev_target][target] as i32;
                    }
                }
                0
            },
            None => 0,
        }
    }

    /// What the histories say of a quiet move: zero without a piece to move.
    pub open spec fn quiet_history_score(
        &self,
        board: &BoardState,
        mv: Move,
        previous: Option<Move>,
    ) -> int {
        if mv.source is NoSquare || mv.target is NoSquare || board.piece_on(mv.source) < 0 {
            0
        } else {
            self.history_moves@[board.piece_on(mv.source)]@[mv.target as int]
                + self.quiet_history@[board.side_to_move as int]@[mv.source as int]@[mv.target as int]
                + self.continuation(board, previous, mv.target as int)
        }
    }

    pub fn get_quiet_history_score(
        &self,
        board_state: &BoardState,
        move_obj: Move,
        previous_move: Option<Move>,
    ) -> (r: i32)
        requires
            self.wf(),
            !(board_state.side_to_move is Both),
        ensures
            r == self.quiet_history_score(board_state, move_obj, previous_move),
    {
        let source: usize = move_obj.source as usize;
        let target: usize = move_obj.target as usize;
        if source >= SQUARES || target >= SQUARES {
            return 0;
        }
        let piece: i32 = board_state.get_piece_on(move_obj.source);
        if piece < 0 || piece as usize >= PIECES * 2 {
            return 0;
        }
        let history_score: i32 = self.history_moves[piece as usize][target];
        let from_to_score: i16 = self.quiet_history[board_state.side_to_move as usize][source][target];
        assert(-16_384 <= self.history_moves@[piece as int]@[target as int] <= 16_384);
        history_score + from_to_score as i32 + self.continuation_score(
            board_state,
            previous_move,
            target,
        )
    }

    /// The move that refuted the previous one before.
    pub open spec fn counter_of(&self, board: &BoardState, previous: Option<Move>) -> Move {
        match previous {
            Some(m) => if !(m.target is NoSquare) && !(board.piece_mapping@[m.target as int]
                is NoPiece) {
                self.counter_moves@[board.side_to_move.other_spec() as int]@[board.piece_mapping@[m.target as int] as int]@[m.target as int]
            } else {
                Move::absent()
            },
            None => Move::absent(),
        }
    }

    fn find_counter(&self, board: &BoardState, previous: Option<Move>) -> (r: Move)
        requires
            !(board.side_to_move is Both),
        ensures
            r == self.counter_of(board, previous),
    {
        match previous {
            Some(m) => {
                let prev_target: usize = m.target as usize;
                if prev_target < SQUARES {
                    let prev_side: Side = board.side_to_move.other();
                    let prev_piece: Piece = board.piece_mapping[prev_target];
                    if (prev_piece as usize) < PIECES {
                        return self.counter_moves[prev_side as usize][prev_piece as usize][prev_target];
                    }
                }
                Move::no_move()
            },
            None => Move::no_move(),
        }
    }

    /// Score of a quiet move that neither promotes nor is known as an answer:
    /// histories, safe checks, and leaving or entering attacked squares. A move
    /// is `safe` where the exchange on its target square is worth at least
    /// `CHECK_EXCHANGE_MARGIN`.
    pub open spec fn plain_score(
        &self,
        board: &BoardState,
        mv: Move,
        previous: Option<Move>,
        threats: Seq<u64>,
        check_squares: Seq<u64>,
        safe: bool,
    ) -> int {
        let s = mv.source as int;
        let t = mv.target as int;
        let piece = board.piece_on(mv.source);
        let kind = piece % 6;
        2 * self.history_moves@[piece]@[t]
            + self.quiet_history@[board.side_to_move as int]@[s]@[t] + self.continuation(
            board,
            previous,
            t,
        ) + (if bit(check_squares[kind], t) && safe {
            16_384int
        } else {
            0int
        }) + threat_shift(kind, bit(threats[kind], s), bit(threats[kind], t))
    }

    /// Score of a quiet move; a move that no piece can make keeps its own.
    pub open spec fn quiet_score(
        &self,
        board: &BoardState,
        ply: int,
        previous: Option<Move>,
        threats: Seq<u64>,
        check_squares: Seq<u64>,
        m: ScoredMove,
        safe: bool,
    ) -> int {
        let mv = m.mv;
        let counter = self.counter_of(board, previous);
        if mv.move_type.promotion() is Queen {
            25_000
        } else if ply < 64 && mv == self.killer_moves@[0]@[ply] {
            22_000
        } else if ply < 64 && mv == self.killer_moves@[1]@[ply] {
            21_000
        } else if counter != Move::absent() && mv == counter {
            20_000
        } else if !(mv.move_type.promotion() is NoPiece) {
            -20_000
        } else if mv.source is NoSquare || mv.target is NoSquare || board.piece_on(mv.source) < 0 {
            m.score as int
        } else {
            self.plain_score(board, mv, previous, threats, check_squares, safe)
        }
    }

    fn score_plain(
        &self,
        board: &BoardState,
        mv: Move,
        piece: usize,
        previous: Option<Move>,
        threats: &[u64; 6],
        check_squares: &[u64; 6],
        safe: bool,
    ) -> (r: i32)
        requires
            self.wf(),
            !(board.side_to_move is Both),
            !(mv.source is NoSquare),
            !(mv.target is NoSquare),
            piece < 12,
            piece == board.piece_on(mv.source),
        ensures
            r == self.plain_score(board, mv, previous, threats@, check_squares@, safe),
    {
        let source: usize = mv.source as usize;
        let target: usize = mv.target as usize;
        let history_score: i32 = self.history_moves[piece][target];
        let from_to_score: i16 = self.quiet_history[board.side_to_move as usize][source][target];
        assert(-16_384 <= self.history_moves@[piece as int]@[target as int] <= 16_384);
        let mut score: i32 = 2 * history_score + from_to_score as i32 + self.continuation_score(
            board,
            previous,
            target,
        );
        let pt: usize = piece % PIECES;
        if is_set(check_squares[pt], target) && safe {
            score = score + 16_384;
        }
        score + shift_of(pt, is_set(threats[pt], source), is_set(threats[pt], target))
    }

    /// Scores quiet moves for one ply. `see[i]` is the answer to whether the
    /// exchange on the target square of move `i` is worth at least
    /// `CHECK_EXCHANGE_MARGIN` to the side that moves.
    pub fn populate_quiet_scores(
        &self,
        moves: &mut [ScoredMove],
        board_state: &BoardState,
        ply: usize,
        previous_move: Option<Move>,
        threats: &[u64; 6],
        check_squares: &[u64; 6],
        see: &[bool],
    )
        requires
            self.wf(),
            !(board_state.side_to_move is Both),
            see.len() == old(moves).len(),
        ensures
            final(moves).len() == old(moves).len(),
            forall|i: int|
                0 <= i < old(moves).len() ==> (#[trigger] final(moves)@[i]).mv == old(
                    moves)@[i].mv && final(moves)@[i].score == self.quiet_score(
                    board_state,
                    ply as int,
                    previous_move,
                    threats@,
                    check_squares@,
                    old(moves)@[i],
                    see@[i],
                ),
    {
        let counter_move: Move = self.find_counter(board_state, previous_move);
        let absent: Move = Move::no_move();
        let mut i: usize = 0;
        while i < moves.len()
            invariant
                i <= moves.len(),
                moves.len() == old(moves).len(),
                see.len() == moves.len(),
                self.wf(),
                !(board_state.side_to_move is Both),
                absent == Move::absent(),
                counter_move == self.counter_of(board_state, previous_move),
                forall|k: int|
                    0 <= k < i ==> (#[trigger] moves@[k]).mv == old(moves)@[k].mv && moves@[k].score
                        == self.quiet_score(
                        board_state,
                        ply as int,
                        previous_move,
                        threats@,
                        check_squares@,
                        old(moves)@[k],
                        see@[k],
                    ),
                forall|k: int| i <= k < moves.len() ==> #[trigger] moves@[k] == old(moves)@[k],
            decreases moves.len() - i,
        {
            let m: ScoredMove = moves[i];
            let mv: Move = m.mv;
            let prom_piece: Piece = mv.move_type.promotion_piece();
            let mut score: i32 = m.score;
            if prom_piece == Piece::Queen {
                score = 25_000;
            } else if ply < MAX_PLY && mv == self.killer_moves[0][ply] {
                score = 22_000;
            } else if ply < MAX_PLY && mv == self.killer_moves[1][ply] {
                score = 21_000;
            } else if counter_move != absent && mv == counter_move {
                score = 20_000;
            } else if prom_piece != Piece::NoPiece {
                score = -20_000;
            } else if mv.source != Square::NoSquare && mv.target != Square::NoSquare {
                let piece: i32 = board_state.get_piece_on(mv.source);
                if piece >= 0 {
                    score = self.score_plain(
                        board_state,
                        mv,
                        piece as usize,
                        previous_move,
                        threats,
                        check_squares,
                        see[i],
                    );
                }
            }
            moves[i] = ScoredMove { mv, score };
            i = i + 1;
        }
    }
}

/// What leaving or entering an attacked square is worth, by the piece kind.
pub open spec fn threat_shift(kind: int, was: bool, is: bool) -> int {
    let value = if kind == 0 {
        100int
    } else if kind == 1 || kind == 2 {
        300
    } else if kind == 3 {
        500
    } else if kind == 4 {
        900
    } else {
        0
    };
    if was == is {
        0
    } else if was {
        20 * value
    } else {
        -20 * value
    }
}

fn shift_of(pt: usize, was_threatened: bool, is_threatened: bool) -> (r: i32)
    ensures
        r == threat_shift(pt as int, was_threatened, is_threatened),
        -18_000 <= r <= 18_000,
{
    let pt_val: i32 = match pt {
        0 => 100,
        1 => 300,
        2 => 300,
        3 => 500,
        4 => 900,
        _ => 0,
    };
    if was_threatened == is_threatened {
        0
    } else if was_threatened {
        20 * pt_val
    } else {
        -20 * pt_val
    }
}

/// The piece that a move takes: a pawn where it takes in passing.
pub open spec fn victim_of(board: &BoardState, mv: Move) -> Piece {
    if mv.move_type is EnPassant {
        Piece::Pawn
    } else {
        board.piece_mapping@[mv.target as int]
    }
}

/// Score of a capture: victim and attacker, promotion, history. A move off the
/// board keeps its own score.
pub open spec fn capture_score(board: &BoardState, ordering: &MoveOrdering, m: ScoredMove) -> int {
    let mv = m.mv;
    if mv.source is NoSquare || mv.target is NoSquare {
        m.score as int
    } else {
        let victim = victim_of(board, mv);
        let attacker = board.piece_of_side_on(mv.source, board.side_to_move);
        let mover = board.piece_on(mv.source);
        (if victim is NoPiece {
            0int
        } else {
            MVV_LVA@[victim as int]@[attacker] as int
        }) + (if mv.move_type.promotion() is Queen {
            50_000int
        } else if !(mv.move_type.promotion() is NoPiece) {
            -20_000int
        } else {
            0int
        }) + (if mover >= 0 && !(victim is NoPiece) {
            ordering.capture_history@[mover]@[mv.target as int]@[victim as int] as int
        } else {
            0int
        })
    }
}

fn victim_value(victim: usize, attacker: usize) -> (r: i32)
    requires
        victim < 7,
        attacker < 7,
    ensures
        r == MVV_LVA@[victim as int]@[attacker as int],
        0 <= r <= 65_000,
{
    let r: i32 = MVV_LVA[victim][attacker];
    r
}

/// Scores captures.
pub fn populate_capture_scores(
    moves: &mut [ScoredMove],
    board_state: &BoardState,
    move_ordering: &MoveOrdering,
)
    ensures
        final(moves).len() == old(moves).len(),
        forall|i: int|
            0 <= i < old(moves).len() ==> (#[trigger] final(moves)@[i]).mv == old(moves)@[i].mv
                && final(moves)@[i].score == capture_score(
                board_state,
                move_ordering,
                old(moves)@[i],
            ),
{
    let mut i: usize = 0;
    while i < moves.len()
        invariant
            i <= moves.len(),
            moves.len() == old(moves).len(),
            forall|k: int|
                0 <= k < i ==> (#[trigger] moves@[k]).mv == old(moves)@[k].mv && moves@[k].score
                    == capture_score(board_state, move_ordering, old(moves)@[k]),
            forall|k: int| i <= k < moves.len() ==> #[trigger] moves@[k] == old(moves)@[k],
        decreases moves.len() - i,
    {
        let m: ScoredMove = moves[i];
        let mv: Move = m.mv;
        if mv.source != Square::NoSquare && mv.target != Square::NoSquare {
            let target: usize = mv.target as usize;
            let source_piece: usize = board_state.get_piece_on_side(
                mv.source,
                board_state.side_to_move,
            );
            let target_piece: Piece = if mv.move_type == MoveType::EnPassant {
                Piece::Pawn
            } else {
                board_state.piece_mapping[target]
            };
            let mut score: i32 = if target_piece != Piece::NoPiece {
                victim_value(target_piece as usize, source_piece)
            } else {
                0
            };
            let prom_piece: Piece = mv.move_type.promotion_piece();
            if prom_piece == Piece::Queen {
                score = score + 50_000;
            } else if prom_piece != Piece::NoPiece {
                score = score - 20_000;
            }
            let moved_piece: i32 = board_state.get_piece_on(mv.source);
            if moved_piece >= 0 && target_piece != Piece::NoPiece {
                let hist: i16 = move_ordering.capture_history[moved_piece as usize][target][target_piece as usize];
                score = score + hist as i32;
            }
            moves[i] = ScoredMove { mv, score };
        }
        i = i + 1;
    }
}

/// A queen promotion goes before every killer, a killer before the counter
/// move, and any of them before a lesser promotion.
pub proof fn law_quiet_ranks(
    ordering: &MoveOrdering,
    board: &BoardState,
    ply: int,
    previous: Option<Move>,
    threats: Seq<u64>,
    check_squares: Seq<u64>,
    queening: ScoredMove,
    killer: ScoredMove,
    lesser: ScoredMove,
    safe: bool,
)
    requires
        0 <= ply < 64,
        queening.mv.move_type.promotion() is Queen,
        killer.mv == ordering.killer_moves@[0]@[ply],
        !(killer.mv.move_type.promotion() is Queen),
        lesser.mv != ordering.killer_moves@[0]@[ply],
        lesser.mv != ordering.killer_moves@[1]@[ply],
        lesser.mv != ordering.counter_of(board, previous),
        !(lesser.mv.move_type.promotion() is Queen),
        !(lesser.mv.move_type.promotion() is NoPiece),
    ensures
        ordering.quiet_score(board, ply, previous, threats, check_squares, queening, safe)
            > ordering.quiet_score(board, ply, previous, threats, check_squares, killer, safe)
            > ordering.quiet_score(board, ply, previous, threats, check_squares, lesser, safe),
{
}

impl Default for MoveOrdering {
    fn default() -> (r: Self)
        ensures
            r.is_empty(),
            r.wf(),
    {
        MoveOrdering::new()
    }
}

/// A move from one square to another that is scored by the histories: no
/// promotion, no killer of its ply and not the counter move, of a piece on the
/// board.
pub open spec fn plain(
    ordering: &MoveOrdering,
    board: &BoardState,
    ply: int,
    previous: Option<Move>,
    mv: Move,
    from: int,
    to: int,
) -> bool {
    &&& mv.move_type.promotion() is NoPiece
    &&& 0 <= ply
    &&& ply < 64 ==> mv != ordering.killer_moves@[0]@[ply] && mv
        != ordering.killer_moves@[1]@[ply]
    &&& mv != ordering.counter_of(board, previous)
    &&& !(mv.source is NoSquare)
    &&& !(mv.target is NoSquare)
    &&& from == mv.source as int
    &&& to == mv.target as int
    &&& !(board.piece_mapping@[from] is NoPiece)
}

/// Index of the coloured piece on a square: its kind, six more for Black.
pub open spec fn mover(board: &BoardState, from: int) -> int {
    board.piece_mapping@[from] as int + if bit(board.occupancies@[1], from) {
        6int
    } else {
        0int
    }
}

/// The piece that moves, by its index and its kind.
proof fn lemma_mover(board: &BoardState, sq: Square, from: int)
    requires
        !(sq is NoSquare),
        from == sq as int,
        !(board.piece_mapping@[from] is NoPiece),
    ensures
        board.piece_on(sq) == mover(board, from),
        0 <= mover(board, from) < 12,
        mover(board, from) % 6 == board.piece_mapping@[from] as int,
        0 <= board.piece_mapping@[from] as int <= 5,
        0 <= from < 64,
{
}

/// What is known of answering a move that went to a square.
pub open spec fn answer_entry(
    ordering: &MoveOrdering,
    board: &BoardState,
    at: int,
    to: int,
) -> int {
    ordering.continuation_history@[board.piece_mapping@[at] as int]@[at]@[to] as int
}

/// A plain move is scored by the histories, and by checks and threats.
#[verifier::spinoff_prover]
#[verifier::rlimit(60)]
proof fn lemma_plain_is_scored(
    ordering: &MoveOrdering,
    board: &BoardState,
    ply: int,
    previous: Option<Move>,
    threats: Seq<u64>,
    check_squares: Seq<u64>,
    m: ScoredMove,
    safe: bool,
    from: int,
    to: int,
    p: int,
    kind: int,
)
    requires
        plain(ordering, board, ply, previous, m.mv, from, to),
        p == mover(board, from),
        kind == board.piece_mapping@[from] as int,
    ensures
        ordering.quiet_score(board, ply, previous, threats, check_squares, m, safe) == 2
            * ordering.history_moves@[p]@[to]
            + ordering.quiet_history@[board.side_to_move as int]@[from]@[to]
            + ordering.continuation(board, previous, to) + (if bit(check_squares[kind], to) && safe {
            16_384int
        } else {
            0int
        }) + threat_shift(kind, bit(threats[kind], from), bit(threats[kind], to)),
        ordering.quiet_history_score(board, m.mv, previous) == ordering.history_moves@[p]@[to]
            + ordering.quiet_history@[board.side_to_move as int]@[from]@[to]
            + ordering.continuation(board, previous, to),
{
    lemma_mover(board, m.mv.source, from);
    assert(ordering.quiet_score(board, ply, previous, threats, check_squares, m, safe)
        == ordering.plain_score(board, m.mv, previous, threats, check_squares, safe));
}

/// Better histories give better scores: every point that the moving piece has
/// for the target square counts twice, and every point that the side has for
/// the two squares once. Other entries do not matter.
#[verifier::spinoff_prover]
#[verifier::rlimit(60)]
pub proof fn law_histories_raise_quiet_scores(
    a: &MoveOrdering,
    b: &MoveOrdering,
    board: &BoardState,
    ply: int,
    previous: Option<Move>,
    threats: Seq<u64>,
    check_squares: Seq<u64>,
    m: ScoredMove,
    safe: bool,
    from: int,
    to: int,
    by_piece: int,
    by_squares: int,
)
    requires
        plain(a, board, ply, previous, m.mv, from, to),
        plain(b, board, ply, previous, m.mv, from, to),
        b.history_moves@[mover(board, from)]@[to] == a.history_moves@[mover(board, from)]@[to]
            + by_piece,
        b.quiet_history@[board.side_to_move as int]@[from]@[to]
            == a.quiet_history@[board.side_to_move as int]@[from]@[to] + by_squares,
        a.continuation_history == b.continuation_history,
    ensures
        b.quiet_score(board, ply, previous, threats, check_squares, m, safe) - a.quiet_score(
            board,
            ply,
            previous,
            threats,
            check_squares,
            m,
            safe,
        ) == 2 * by_piece + by_squares,
        b.quiet_history_score(board, m.mv, previous) - a.quiet_history_score(
            board,
            m.mv,
            previous,
        ) == by_piece + by_squares,
{
    let p = mover(board, from);
    let kind = board.piece_mapping@[from] as int;
    lemma_plain_is_scored(
        a,
        board,
        ply,
        previous,
        threats,
        check_squares,
        m,
        safe,
        from,
        to,
        p,
        kind,
    );
    lemma_plain_is_scored(
        b,
        board,
        ply,
        previous,
        threats,
        check_squares,
        m,
        safe,
        from,
        to,
        p,
        kind,
    );
}

/// Every point that is known of answering the previous move, by the piece that
/// stands on its target square, counts once; without a previous move, or with
/// nothing on its target square, nothing of the kind counts.
#[verifier::spinoff_prover]
#[verifier::rlimit(60)]
pub proof fn law_answers_raise_quiet_scores(
    a: &MoveOrdering,
    b: &MoveOrdering,
    board: &BoardState,
    ply: int,
    previous: Option<Move>,
    threats: Seq<u64>,
    check_squares: Seq<u64>,
    m: ScoredMove,
    safe: bool,
    from: int,
    to: int,
    at: int,
)
    requires
        plain(a, board, ply, previous, m.mv, from, to),
        plain(b, board, ply, previous, m.mv, from, to),
        a.history_moves == b.history_moves,
        a.quiet_history == b.quiet_history,
        previous matches Some(prev) ==> !(prev.target is NoSquare) && at == prev.target as int,
    ensures
        b.quiet_score(board, ply, previous, threats, check_squares, m, safe) - a.quiet_score(
            board,
            ply,
            previous,
            threats,
            check_squares,
            m,
            safe,
        ) == if previous is Some && !(board.piece_mapping@[at] is NoPiece) {
            answer_entry(b, board, at, to) - answer_entry(a, board, at, to)
        } else {
            0
        },
{
    let p = mover(board, from);
    let kind = board.piece_mapping@[from] as int;
    lemma_plain_is_scored(
        a,
        board,
        ply,
        previous,
        threats,
        check_squares,
        m,
        safe,
        from,
        to,
        p,
        kind,
    );
    lemma_plain_is_scored(
        b,
        board,
        ply,
        previous,
        threats,
        check_squares,
        m,
        safe,
        from,
        to,
        p,
        kind,
    );
    lemma_answer(a, board, previous, to, at);
    lemma_answer(b, board, previous, to, at);
}

proof fn lemma_answer(
    ordering: &MoveOrdering,
    board: &BoardState,
    previous: Option<Move>,
    to: int,
    at: int,
)
    requires
        previous matches Some(prev) ==> !(prev.target is NoSquare) && at == prev.target as int,
    ensures
        ordering.continuation(board, previous, to) == if previous is Some
            && !(board.piece_mapping@[at] is NoPiece) {
            answer_entry(ordering, board, at, to)
        } else {
            0
        },
{
}

/// A move of which nothing is known, that gives no check and neither leaves nor
/// enters an attacked square, scores nothing.
#[verifier::spinoff_prover]
#[verifier::rlimit(60)]
pub proof fn law_unknown_move_scores_nothing(
    ordering: &MoveOrdering,
    board: &BoardState,
    ply: int,
    previous: Option<Move>,
    threats: Seq<u64>,
    check_squares: Seq<u64>,
    m: ScoredMove,
    safe: bool,
    from: int,
    to: int,
    at: int,
)
    requires
        ordering.is_empty(),
        plain(ordering, board, ply, previous, m.mv, from, to),
        !(board.side_to_move is Both),
        previous matches Some(prev) ==> !(prev.target is NoSquare) && at == prev.target as int,
        ({
            let kind = board.piece_mapping@[from] as int;
            &&& !bit(check_squares[kind], to)
            &&& bit(threats[kind], from) == bit(threats[kind], to)
        }),
    ensures
        ordering.quiet_score(board, ply, previous, threats, check_squares, m, safe) == 0,
        ordering.quiet_history_score(board, m.mv, previous) == 0,
{
    let p = mover(board, from);
    let kind = board.piece_mapping@[from] as int;
    lemma_mover(board, m.mv.source, from);
    lemma_plain_is_scored(
        ordering,
        board,
        ply,
        previous,
        threats,
        check_squares,
        m,
        safe,
        from,
        to,
        p,
        kind,
    );
    lemma_answer(ordering, board, previous, to, at);
    assert(0 <= to < 64);
    assert(ordering.history_moves@[p]@[to] == 0);
    let side = board.side_to_move as int;
    assert(ordering.quiet_history@[side]@[from]@[to] == 0);
    if previous is Some && !(board.piece_mapping@[at] is NoPiece) {
        let q = board.piece_mapping@[at] as int;
        assert(0 <= at < 64);
        assert(0 <= q < 6);
        assert(ordering.continuation_history@[q]@[at]@[to] == 0);
    }
}

/// A safe check is worth 16384 more than one that loses too much; where the
/// piece gives no check, safety does not matter.
#[verifier::spinoff_prover]
#[verifier::rlimit(60)]
pub proof fn law_safe_checks_score_higher(
    ordering: &MoveOrdering,
    board: &BoardState,
    ply: int,
    previous: Option<Move>,
    threats: Seq<u64>,
    check_squares: Seq<u64>,
    m: ScoredMove,
    from: int,
    to: int,
    kind: int,
)
    requires
        plain(ordering, board, ply, previous, m.mv, from, to),
        kind == board.piece_mapping@[from] as int,
    ensures
        ordering.quiet_score(board, ply, previous, threats, check_squares, m, true)
            - ordering.quiet_score(board, ply, previous, threats, check_squares, m, false) == if bit(
            check_squares[kind],
            to,
        ) {
            16_384int
        } else {
            0int
        },
{
    let p = mover(board, from);
    lemma_plain_is_scored(
        ordering,
        board,
        ply,
        previous,
        threats,
        check_squares,
        m,
        true,
        from,
        to,
        p,
        kind,
    );
    lemma_plain_is_scored(
        ordering,
        board,
        ply,
        previous,
        threats,
        check_squares,
        m,
        false,
        from,
        to,
        p,
        kind,
    );
}

/// What leaving an attacked square is worth: twenty times the piece, for pawns,
/// minor pieces, rooks and queens; the way back costs as much, and two squares
/// of one kind change nothing.
pub proof fn law_threat_shift_values(kind: int, was: bool, will: bool)
    ensures
        was == will ==> threat_shift(kind, was, will) == 0,
        threat_shift(kind, false, true) == -threat_shift(kind, true, false),
        threat_shift(0, true, false) == 20 * 100,
        threat_shift(1, true, false) == 20 * 300,
        threat_shift(2, true, false) == 20 * 300,
        threat_shift(3, true, false) == 20 * 500,
        threat_shift(4, true, false) == 20 * 900,
        threat_shift(5, true, false) == 0,
{
}

/// Leaving an attacked square for a safe one raises a score, the way back
/// lowers it, by what the piece is worth.
#[verifier::spinoff_prover]
#[verifier::rlimit(60)]
pub proof fn law_threats_move_quiet_scores(
    ordering: &MoveOrdering,
    board: &BoardState,
    ply: int,
    previous: Option<Move>,
    threats: Seq<u64>,
    none: Seq<u64>,
    check_squares: Seq<u64>,
    m: ScoredMove,
    safe: bool,
    from: int,
    to: int,
    kind: int,
)
    requires
        plain(ordering, board, ply, previous, m.mv, from, to),
        kind == board.piece_mapping@[from] as int,
        !bit(none[kind], from),
        !bit(none[kind], to),
    ensures
        ordering.quiet_score(board, ply, previous, threats, check_squares, m, safe)
            - ordering.quiet_score(board, ply, previous, none, check_squares, m, safe)
            == threat_shift(kind, bit(threats[kind], from), bit(threats[kind], to)),
{
    let p = mover(board, from);
    lemma_plain_is_scored(
        ordering,
        board,
        ply,
        previous,
        threats,
        check_squares,
        m,
        safe,
        from,
        to,
        p,
        kind,
    );
    lemma_plain_is_scored(
        ordering,
        board,
        ply,
        previous,
        none,
        check_squares,
        m,
        safe,
        from,
        to,
        p,
        kind,
    );
    law_threat_shift_values(kind, false, false);
}

/// The moves known as answers rank by how they are known: the newest killer,
/// the older one, the counter move; and a promotion to less than a queen goes
/// behind all of them.
#[verifier::spinoff_prover]
#[verifier::rlimit(60)]
pub proof fn law_answers_rank(
    ordering: &MoveOrdering,
    board: &BoardState,
    ply: int,
    previous: Option<Move>,
    threats: Seq<u64>,
    check_squares: Seq<u64>,
    newest: ScoredMove,
    older: ScoredMove,
    counter: ScoredMove,
    lesser: ScoredMove,
    safe: bool,
)
    requires
        0 <= ply < 64,
        newest.mv == ordering.killer_moves@[0]@[ply],
        !(newest.mv.move_type.promotion() is Queen),
        older.mv == ordering.killer_moves@[1]@[ply],
        older.mv != newest.mv,
        !(older.mv.move_type.promotion() is Queen),
        counter.mv == ordering.counter_of(board, previous),
        counter.mv != Move::absent(),
        counter.mv != newest.mv,
        counter.mv != older.mv,
        !(counter.mv.move_type.promotion() is Queen),
        lesser.mv != newest.mv,
        lesser.mv != older.mv,
        lesser.mv != counter.mv,
        !(lesser.mv.move_type.promotion() is Queen),
        !(lesser.mv.move_type.promotion() is NoPiece),
    ensures
        ({
            let score = |m: ScoredMove|
                ordering.quiet_score(board, ply, previous, threats, check_squares, m, safe);
            score(newest) > score(older) > score(counter) > 0 > score(lesser)
        }),
{
}

/// The counter move is looked up by the side that moved before, the kind of
/// piece that stands on its target square, and that square.
pub proof fn law_counter_is_found_again(
    ordering: &MoveOrdering,
    board: &BoardState,
    prev: Move,
    answer: Move,
)
    requires
        !(prev.target is NoSquare),
        !(board.piece_mapping@[prev.target as int] is NoPiece),
        board.side_to_move is White ==> ordering.counter_moves@[1]@[board.piece_mapping@[
            prev.target as int] as int]@[prev.target as int] == answer,
        board.side_to_move is Black ==> ordering.counter_moves@[0]@[board.piece_mapping@[
            prev.target as int] as int]@[prev.target as int] == answer,
        !(board.side_to_move is Both),
    ensures
        ordering.counter_of(board, Some(prev)) == answer,
        ordering.counter_of(board, None) == Move::absent(),
{
}

/// Only the four kinds of promotion promote, each to its own piece, whether
/// they take something or not.
pub proof fn law_promotions(kind: MoveType)
    ensures
        kind.promotion() is Queen <==> kind is QueenPromotion || kind is QueenPromotionCapture,
        kind.promotion() is Rook <==> kind is RookPromotion || kind is RookPromotionCapture,
        kind.promotion() is Bishop <==> kind is BishopPromotion || kind is BishopPromotionCapture,
        kind.promotion() is Knight <==> kind is KnightPromotion || kind is KnightPromotionCapture,
        !(kind.promotion() is Pawn) && !(kind.promotion() is King),
        kind is QueenPromotionCapture || kind is RookPromotionCapture
            || kind is BishopPromotionCapture || kind is KnightPromotionCapture || kind is Capture
            || kind is EnPassant <==> kind.captures(),
{
}

/// What a capture is worth: a better victim always beats a lesser one, whoever
/// takes it, and of two that take the same piece the lesser one goes first.
#[verifier::rlimit(60)]
pub proof fn law_best_victim_first(victim: int, lesser: int, attacker: int, other: int)
    requires
        0 <= victim < 6,
        0 <= lesser < 6,
        0 <= attacker < 6,
        0 <= other < 6,
    ensures
        lesser < victim ==> MVV_LVA@[victim]@[attacker] > MVV_LVA@[lesser]@[other],
        attacker < other ==> MVV_LVA@[victim]@[attacker] > MVV_LVA@[victim]@[other],
        MVV_LVA@[victim]@[attacker] == 15_000 + 10_000 * victim - 1000 * attacker,
{
}

/// Every point of the history that a piece has for taking a kind of piece on a
/// square counts once.
#[verifier::spinoff_prover]
#[verifier::rlimit(60)]
pub proof fn law_histories_raise_capture_scores(
    a: &MoveOrdering,
    b: &MoveOrdering,
    board: &BoardState,
    m: ScoredMove,
    victim: Piece,
    from: int,
    to: int,
    gain: int,
)
    requires
        !(m.mv.source is NoSquare),
        !(m.mv.target is NoSquare),
        from == m.mv.source as int,
        to == m.mv.target as int,
        m.mv.move_type.promotion() is NoPiece,
        !(board.side_to_move is Both),
        bit(board.occupancies@[board.side_to_move as int], from),
        !(board.piece_mapping@[from] is NoPiece),
        !(victim is NoPiece),
        victim == if m.mv.move_type is EnPassant {
            Piece::Pawn
        } else {
            board.piece_mapping@[to]
        },
        b.capture_history@[mover(board, from)]@[to]@[victim as int] == a.capture_history@[mover(
            board,
            from,
        )]@[to]@[victim as int] + gain,
    ensures
        capture_score(board, b, m) - capture_score(board, a, m) == gain,
{
    lemma_mover(board, m.mv.source, from);
}

/// A capture without a history scores by its victim and its attacker. A move in
/// passing takes a pawn.
#[verifier::spinoff_prover]
#[verifier::rlimit(60)]
pub proof fn law_captures_score_by_victim(
    ordering: &MoveOrdering,
    board: &BoardState,
    m: ScoredMove,
    victim: Piece,
    from: int,
    to: int,
    attacker: int,
)
    requires
        !(m.mv.source is NoSquare),
        !(m.mv.target is NoSquare),
        from == m.mv.source as int,
        to == m.mv.target as int,
        m.mv.move_type.promotion() is NoPiece,
        !(board.side_to_move is Both),
        bit(board.occupancies@[board.side_to_move as int], from),
        !(board.piece_mapping@[from] is NoPiece),
        !(victim is NoPiece),
        victim == if m.mv.move_type is EnPassant {
            Piece::Pawn
        } else {
            board.piece_mapping@[to]
        },
        attacker == board.piece_mapping@[from] as int,
        ordering.capture_history@[mover(board, from)]@[to]@[victim as int] == 0,
    ensures
        capture_score(board, ordering, m) == 15_000 + 10_000 * (victim as int) - 1000 * attacker,
{
    lemma_mover(board, m.mv.source, from);
    law_best_victim_first(victim as int, victim as int, attacker, attacker);
    assert(board.piece_of_side_on(m.mv.source, board.side_to_move) == attacker);
    assert(capture_score(board, ordering, m) == MVV_LVA@[victim as int]@[attacker]);
}

/// Taking nothing scores nothing, a promotion to a queen is worth 50000 more
/// than the move without it, and one to less costs 20000.
#[verifier::spinoff_prover]
#[verifier::rlimit(60)]
pub proof fn law_promotions_move_capture_scores(
    ordering: &MoveOrdering,
    board: &BoardState,
    m: ScoredMove,
    promoting: ScoredMove,
)
    requires
        !(m.mv.source is NoSquare),
        !(m.mv.target is NoSquare),
        m.mv.source == promoting.mv.source,
        m.mv.target == promoting.mv.target,
        m.mv.move_type.promotion() is NoPiece,
        !(m.mv.move_type is EnPassant),
        !(promoting.mv.move_type.promotion() is NoPiece),
    ensures
        capture_score(board, ordering, promoting) - capture_score(board, ordering, m) == if
            promoting.mv.move_type is QueenPromotion
            || promoting.mv.move_type is QueenPromotionCapture {
            50_000int
        } else {
            -20_000int
        },
        board.piece_mapping@[m.mv.target as int] is NoPiece ==> capture_score(board, ordering, m)
            == 0,
{
}

/// A bonus moves a history value by as much, less the share of the value that
/// the bonus is of the limit; bonuses beyond the limit count as the limit.
pub proof fn law_gravity_value(score: int, bonus: int, limit: int, pull: int)
    requires
        limit > 0,
        -limit <= bonus <= limit,
        is_quotient(
            if bonus >= 0 {
                score * bonus
            } else {
                score * -bonus
            },
            limit,
            pull,
        ),
    ensures
        gravity(score, bonus, limit) == score + bonus - pull,
        bonus == limit ==> (forall|more: int| more >= limit ==> #[trigger] gravity(
            score,
            more,
            limit,
        ) == gravity(score, limit, limit)),
        bonus == -limit ==> (forall|less: int| less <= -limit ==> #[trigger] gravity(
            score,
            less,
            limit,
        ) == gravity(score, -limit, limit)),
{
    law_quotient(score * abs(bonus), limit, pull);
}

/// A good bonus never lowers a history value, a bad one never raises it, no
/// bonus leaves it, and a first bonus is kept in full. Both directions are
/// alike.
#[verifier::rlimit(60)]
pub proof fn law_gravity_follows_the_bonus(score: int, bonus: int, limit: int)
    requires
        limit > 0,
        -limit <= score <= limit,
    ensures
        bonus >= 0 ==> gravity(score, bonus, limit) >= score,
        bonus <= 0 ==> gravity(score, bonus, limit) <= score,
        gravity(score, 0, limit) == score,
        -limit <= bonus <= limit ==> gravity(0, bonus, limit) == bonus,
        gravity(-score, -bonus, limit) == -gravity(score, bonus, limit),
{
    let b = clamp(bonus, -limit, limit);
    let a = abs(b);
    let p = score * a;
    let q = div_toward_zero(p, limit);
    law_quotient(p, limit, q);
    assert(-(limit * a) <= p <= limit * a) by (nonlinear_arith)
        requires
            p == score * a,
            -limit <= score <= limit,
            a >= 0,
    ;
    assert(-a <= q <= a) by (nonlinear_arith)
        requires
            -(limit * a) <= p <= limit * a,
            limit * q <= p || q <= 0,
            limit * q >= p || q >= 0,
            a >= 0,
            limit > 0,
    ;
    assert(score * 0 == 0);
    law_quotient(0, limit, 0);
    assert(0 * a == 0);
    assert((-score) * a == -p) by (nonlinear_arith)
        requires
            p == score * a,
    ;
    assert(limit * (-q) == -(limit * q)) by (nonlinear_arith);
    law_quotient(-p, limit, -q);
    assert(clamp(-bonus, -limit, limit) == -b);
    assert(limit * 0 == 0);
}

/// Two moves change places and no other moves: nothing is lost or doubled.
pub proof fn law_swapping_keeps_all_moves(moves: Seq<ScoredMove>, a: int, b: int, k: int)
    requires
        0 <= a < moves.len(),
        0 <= b < moves.len(),
        0 <= k < moves.len(),
    ensures
        swapped(moves, a, b).len() == moves.len(),
        swapped(moves, a, b)[a] == moves[b],
        swapped(moves, a, b)[b] == moves[a],
        k != a && k != b ==> swapped(moves, a, b)[k] == moves[k],
{
}

/// A new killer is the newest one of its ply, and the newest one before it the
/// older one; other plies keep theirs.
#[verifier::rlimit(60)]
pub proof fn law_killers_move_down(
    before: &MoveOrdering,
    after: &MoveOrdering,
    mv: Move,
    ply: int,
    other: int,
)
    requires
        killer_noted(before, after, mv, ply),
        0 <= ply < 64,
        0 <= other < 64,
        other != ply,
    ensures
        after.killer_moves@[0]@[ply] == mv,
        before.killer_moves@[0]@[ply] != mv ==> after.killer_moves@[1]@[ply]
            == before.killer_moves@[0]@[ply],
        before.killer_moves@[0]@[ply] == mv ==> after.killer_moves@[1]@[ply]
            == before.killer_moves@[1]@[ply],
        after.killer_moves@[0]@[other] == before.killer_moves@[0]@[other],
        after.killer_moves@[1]@[other] == before.killer_moves@[1]@[other],
        after.history_moves == before.history_moves,
{
}

/// A good bonus never lowers what is known of a move and a bad one never raises
/// it; a first bonus is kept in full, up to the limit of the history.
#[verifier::rlimit(60)]
pub proof fn law_bonuses_move_histories(
    before: &MoveOrdering,
    after: &MoveOrdering,
    a: int,
    b: int,
    c: int,
    bonus: int,
)
    requires
        before.wf(),
        0 <= a,
        0 <= b < 64,
        0 <= c < 64,
    ensures
        a < 12 && piece_rewarded(before, after, a, b, bonus) ==> {
            let old_value = before.history_moves@[a]@[b];
            let value = after.history_moves@[a]@[b];
            &&& bonus >= 0 ==> value >= old_value
            &&& bonus <= 0 ==> value <= old_value
            &&& old_value == 0 && -16_384 <= bonus <= 16_384 ==> value == bonus
            &&& -16_384 <= value <= 16_384
        },
        a < 2 && squares_rewarded(before, after, a, b, c, bonus) ==> {
            let old_value = before.quiet_history@[a]@[b]@[c];
            let value = after.quiet_history@[a]@[b]@[c];
            &&& bonus >= 0 ==> value >= old_value
            &&& bonus <= 0 ==> value <= old_value
            &&& old_value == 0 && -16_384 <= bonus <= 16_384 ==> value == bonus
        },
        a < 12 && c < 6 && capture_rewarded(before, after, a, b, c, bonus) ==> {
            let old_value = before.capture_history@[a]@[b]@[c];
            let value = after.capture_history@[a]@[b]@[c];
            &&& bonus >= 0 ==> value >= old_value
            &&& bonus <= 0 ==> value <= old_value
            &&& old_value == 0 && -16_384 <= bonus <= 16_384 ==> value == bonus
        },
        a < 6 && answer_rewarded(before, after, a, b, c, bonus) ==> {
            let old_value = before.continuation_history@[a]@[b]@[c];
            let value = after.continuation_history@[a]@[b]@[c];
            &&& bonus >= 0 ==> value >= old_value
            &&& bonus <= 0 ==> value <= old_value
            &&& old_value == 0 && -32_767 <= bonus <= 32_767 ==> value == bonus
        },
{
    if a < 12 {
        let v = before.history_moves@[a]@[b];
        assert(-16_384 <= before.history_moves@[a]@[b] <= 16_384);
        law_gravity_follows_the_bonus(v as int, bonus, 16_384);
        law_gravity_bounded(v as int, bonus, 16_384);
    }
    if a < 2 {
        let v = before.quiet_history@[a]@[b]@[c];
        assert(-16_384 <= before.quiet_history@[a]@[b]@[c] <= 16_384);
        law_gravity_follows_the_bonus(v as int, bonus, 16_384);
        law_gravity_bounded(v as int, bonus, 16_384);
    }
    if a < 12 && c < 6 {
        let v = before.capture_history@[a]@[b]@[c];
        assert(-16_384 <= before.capture_history@[a]@[b]@[c] <= 16_384);
        law_gravity_follows_the_bonus(v as int, bonus, 16_384);
        law_gravity_bounded(v as int, bonus, 16_384);
    }
    if a < 6 {
        let v = before.continuation_history@[a]@[b]@[c];
        assert(-32_767 <= before.continuation_history@[a]@[b]@[c] <= 32_767);
        law_gravity_follows_the_bonus(v as int, bonus, 32_767);
        law_gravity_bounded(v as int, bonus, 32_767);
    }
}

/// A noted counter move is found for the same piece on the same square, and no
/// other place changes.
pub proof fn law_counters_are_noted(
    before: &MoveOrdering,
    after: &MoveOrdering,
    c: int,
    p: int,
    s: int,
    mv: Move,
    i: int,
    j: int,
    k: int,
)
    requires
        counter_noted(before, after, c, p, s, mv),
        0 <= c < 2,
        0 <= p < 6,
        0 <= s < 64,
        0 <= i < 2,
        0 <= j < 6,
        0 <= k < 64,
    ensures
        after.counter_moves@[c]@[p]@[s] == mv,
        i != c || j != p || k != s ==> after.counter_moves@[i]@[j]@[k]
            == before.counter_moves@[i]@[j]@[k],
{
}

/// Halving takes a value half the way to zero and never past it.
pub proof fn law_halving(v: int)
    ensures
        is_quotient(v, 2, halved(v)),
        halved(-v) == -halved(v),
        v > 0 ==> 0 <= halved(v) < v,
{
}

} // verus!
