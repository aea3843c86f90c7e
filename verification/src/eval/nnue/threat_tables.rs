//! Threat features: which attacked piece each attack is indexed by, and the
//! lookup tables that turn an attack into a feature index.

use vstd::prelude::*;

use crate::bits::{
    bit, chosen, count_below, is_set, lemma_chosen_empty, lemma_chosen_step, lemma_xor64,
};
use crate::board::Side;
use crate::eval::nnue::geometry::{
    hits_below, king_attacks_sf, king_step, knight_attacks_sf, knight_step, lemma_hits_bound,
    lemma_hits_count, pawn_attacks_sf, pawn_step, pseudo_attacks_sf, pseudo_hits,
    slider_attacks_sf, slider_hits,
};
use crate::eval::nnue::v16::position::SfnnPosition;

verus! {

/// Which attacks count, and how many features there are.
#[derive(Clone, Copy, Debug)]
pub struct ThreatScheme {
    /// Number of victims, both colours together, that each piece code indexes.
    pub targets: [usize; 16],
    /// Place of a victim kind among those of an attacker kind; negative when
    /// the attack is no feature.
    pub map: [[i32; 6]; 6],
    /// Number of threat features.
    pub dims: usize,
}

impl ThreatScheme {
    pub open spec fn wf(&self) -> bool {
        &&& forall|c: int| 0 <= c < 16 ==> #[trigger] self.targets@[c] <= 12
        &&& forall|i: int, j: int|
            0 <= i < 6 && 0 <= j < 6 ==> -1 <= #[trigger] self.map@[i]@[j] <= 5
        &&& self.dims <= 0x10_0000
    }

    /// Place of the victim among the attacker's victims.
    pub open spec fn place(&self, attacker: int, attacked: int) -> int {
        self.map@[attacker % 8 - 1]@[attacked % 8 - 1] as int
    }

    /// Whether an attack is never a feature.
    pub open spec fn excluded(&self, attacker: int, attacked: int) -> bool {
        is_code(attacker) && is_code(attacked) && self.place(attacker, attacked) < 0
    }

    /// Whether an attack is a feature in one direction only: two pieces of a
    /// kind always attack each other.
    pub open spec fn mutual(&self, attacker: int, attacked: int) -> bool {
        &&& is_code(attacker)
        &&& is_code(attacked)
        &&& self.place(attacker, attacked) >= 0
        &&& attacker % 8 == attacked % 8
        &&& (attacker != attacked || attacker % 8 != 1)
    }

    /// Features of all attackers with a smaller code.
    pub open spec fn cumulative(&self, code: int) -> int
        decreases code,
    {
        if code <= 0 {
            0
        } else if is_code(code - 1) {
            self.cumulative(code - 1) + self.targets@[code - 1] as int * offset_below(code - 1, 64)
        } else {
            self.cumulative(code - 1)
        }
    }

    /// First feature of an attacker and victim pair.
    pub open spec fn pair_base(&self, attacker: int, attacked: int) -> int {
        if is_code(attacker) && is_code(attacked) {
            self.cumulative(attacker) + (attacked / 8 * (self.targets@[attacker] as int / 2)
                + self.place(attacker, attacked)) * offset_below(attacker, 64)
        } else {
            0
        }
    }

    /// Feature of an attack in a board already turned to its perspective.
    pub open spec fn slot(&self, attacker: int, from: int, to: int, attacked: int) -> Option<int> {
        let index = self.pair_base(attacker, attacked) + code_offset(attacker, from) + code_rank(
            attacker,
            from,
            to,
        );
        if self.excluded(attacker, attacked) || (self.mutual(attacker, attacked) && from < to) {
            None
        } else if index >= self.dims {
            None
        } else {
            Some(index)
        }
    }

    /// Feature of an attack as one side sees it.
    pub open spec fn feature(
        &self,
        perspective: Side,
        attacker: usize,
        from: usize,
        to: usize,
        attacked: usize,
        ksq: usize,
    ) -> Option<int> {
        let turn = threat_turn(perspective, ksq as int);
        self.slot(
            recoloured(perspective, attacker) as int,
            (from ^ turn) as int,
            (to ^ turn) as int,
            recoloured(perspective, attacked) as int,
        )
    }

    /// Features of the first `n` edges of a list, in order.
    pub open spec fn features(
        &self,
        perspective: Side,
        ksq: usize,
        edges: Seq<(usize, usize, usize, usize)>,
        n: int,
    ) -> Seq<int>
        decreases n,
    {
        if n <= 0 {
            Seq::empty()
        } else {
            let e = edges[n - 1];
            let rest = self.features(perspective, ksq, edges, n - 1);
            match self.feature(perspective, e.0, e.1, e.2, e.3, ksq) {
                Some(f) => rest.push(f),
                None => rest,
            }
        }
    }
}

/// Whether a number is the code of a coloured piece.
pub open spec fn is_code(code: int) -> bool {
    1 <= code <= 6 || 9 <= code <= 14
}

/// Attacks counted for one square: pawns have none on the outer ranks.
pub open spec fn counted_hits(code: int, s: int) -> int {
    if code % 8 != 1 || 8 <= s < 56 {
        hits_below(code, s, 64)
    } else {
        0
    }
}

/// Attacks from all squares below `n`.
pub open spec fn offset_below(code: int, n: int) -> int
    decreases n,
{
    if n <= 0 {
        0
    } else {
        offset_below(code, n - 1) + counted_hits(code, n - 1)
    }
}

pub open spec fn code_offset(code: int, from: int) -> int {
    if is_code(code) {
        offset_below(code, from)
    } else {
        0
    }
}

pub open spec fn code_rank(code: int, from: int, to: int) -> int {
    if is_code(code) {
        hits_below(code, from, to)
    } else {
        0
    }
}

/// How one side turns the board: rank flip for Black, file mirror while the
/// king stands on files e to h.
pub open spec fn threat_turn(perspective: Side, ksq: int) -> usize {
    match perspective {
        Side::White => if ksq % 8 < 4 {
            0
        } else {
            7
        },
        Side::Black => if ksq % 8 < 4 {
            56
        } else {
            63
        },
        Side::Both => 0,
    }
}

/// A piece code with colours named from one side.
pub open spec fn recoloured(perspective: Side, code: usize) -> usize {
    if perspective is Black {
        code ^ 8
    } else {
        code
    }
}

pub proof fn lemma_offset_bound(code: int, n: int)
    requires
        0 <= n,
    ensures
        0 <= offset_below(code, n) <= 64 * n,
    decreases n,
{
    if n > 0 {
        lemma_offset_bound(code, n - 1);
        lemma_hits_bound(code, n - 1, 64);
    }
}

pub proof fn lemma_cumulative_bound(scheme: &ThreatScheme, code: int)
    requires
        scheme.wf(),
        0 <= code <= 16,
    ensures
        0 <= scheme.cumulative(code) <= 49_152 * code,
    decreases code,
{
    if code > 0 {
        lemma_cumulative_bound(scheme, code - 1);
        lemma_offset_bound(code - 1, 64);
        let t = scheme.targets@[code - 1] as int;
        let o = offset_below(code - 1, 64);
        assert(0 <= t * o <= 49_152) by (nonlinear_arith)
            requires
                0 <= t <= 12,
                0 <= o <= 4096,
        ;
    }
}

/// The first feature of a pair that counts, and its bound.
pub proof fn lemma_pair_base_bound(scheme: &ThreatScheme, attacker: int, attacked: int)
    requires
        scheme.wf(),
        is_code(attacker),
        is_code(attacked),
        !scheme.excluded(attacker, attacked),
    ensures
        0 <= scheme.pair_base(attacker, attacked) <= 900_000,
        0 <= attacked / 8 * (scheme.targets@[attacker] as int / 2) + scheme.place(attacker, attacked)
            <= 11,
{
    lemma_cumulative_bound(scheme, attacker);
    lemma_offset_bound(attacker, 64);
    let per = scheme.targets@[attacker] as int / 2;
    let c = attacked / 8;
    let m = scheme.place(attacker, attacked);
    assert(scheme.map@[attacker % 8 - 1]@[attacked % 8 - 1] <= 5);
    assert(c == 0 || c == 1);
    assert(0 <= c * per <= 6) by (nonlinear_arith)
        requires
            c == 0 || c == 1,
            0 <= per <= 6,
    ;
    let k = c * per + m;
    let o = offset_below(attacker, 64);
    assert(0 <= k * o <= 45_056) by (nonlinear_arith)
        requires
            0 <= k <= 11,
            0 <= o <= 4096,
    ;
}

/// Lookup tables for one scheme.
pub struct ThreatLuts {
    pub scheme: ThreatScheme,
    /// Per code: attacks before each square, then their total, then the
    /// features of all smaller codes.
    pub offsets: [[u32; 66]; 16],
    /// First feature of each attacker and victim pair.
    pub base: [[u32; 16]; 16],
    /// 2 for excluded pairs, 1 for pairs that count in one direction.
    pub info: [[u8; 16]; 16],
    /// Attacked squares below each target.
    pub rank: [[[u8; 64]; 64]; 16],
}

impl ThreatLuts {
    pub open spec fn wf(&self) -> bool {
        &&& self.scheme.wf()
        &&& forall|c: int, s: int|
            0 <= c < 16 && 0 <= s < 64 ==> #[trigger] self.offsets@[c]@[s] == code_offset(c, s)
        &&& forall|c: int|
            0 <= c < 16 ==> (#[trigger] self.offsets@[c])@[64] == code_offset(c, 64)
        &&& forall|c: int|
            0 <= c < 16 && is_code(c) ==> (#[trigger] self.offsets@[c])@[65]
                == self.scheme.cumulative(c)
        &&& forall|a: int, v: int|
            0 <= a < 16 && 0 <= v < 16 && !self.scheme.excluded(a, v)
                ==> #[trigger] self.base@[a]@[v] == self.scheme.pair_base(a, v)
        &&& forall|a: int, v: int|
            0 <= a < 16 && 0 <= v < 16 ==> #[trigger] self.info@[a]@[v] == self.info_of(a, v)
        &&& forall|c: int, s: int, t: int|
            0 <= c < 16 && 0 <= s < 64 && 0 <= t < 64 ==> #[trigger] self.rank@[c]@[s]@[t]
                == code_rank(c, s, t)
    }

    pub open spec fn info_of(&self, attacker: int, attacked: int) -> int {
        if self.scheme.excluded(attacker, attacked) {
            2
        } else if self.scheme.mutual(attacker, attacked) {
            1
        } else {
            0
        }
    }
}

fn is_piece_code(code: usize) -> (r: bool)
    ensures
        r == is_code(code as int),
{
    (1 <= code && code <= 6) || (9 <= code && code <= 14)
}

/// Attacks before each square of one code, then their total.
fn offset_row(code: usize) -> (row: [u32; 66])
    requires
        is_code(code as int),
    ensures
        forall|s: int| 0 <= s <= 64 ==> #[trigger] row@[s] == offset_below(code as int, s),
        row@[65] == 0,
        row@[64] <= 4096,
{
    let mut row: [u32; 66] = [0u32; 66];
    let mut sum: u32 = 0;
    let mut s: usize = 0;
    while s < 64
        invariant
            s <= 64,
            is_code(code as int),
            sum == offset_below(code as int, s as int),
            sum <= 64 * s,
            forall|k: int| 0 <= k < s ==> #[trigger] row@[k] == offset_below(code as int, k),
            row@[65] == 0,
        decreases 64 - s,
    {
        row[s] = sum;
        if code % 8 != 1 || (8 <= s && s < 56) {
            let attacks: u64 = pseudo_attacks_sf(code, s);
            proof {
                lemma_hits_count(attacks, code as int, s as int, 64);
            }
            sum = sum + count_below(attacks, 64);
        }
        s = s + 1;
    }
    row[64] = sum;
    row
}

/// Attacked squares below each target, for one code and square.
fn rank_row(code: usize, from: usize) -> (row: [u8; 64])
    requires
        is_code(code as int),
        from < 64,
    ensures
        forall|t: int| 0 <= t < 64 ==> #[trigger] row@[t] == hits_below(code as int, from as int, t),
{
    let mut row: [u8; 64] = [0u8; 64];
    let attacks: u64 = pseudo_attacks_sf(code, from);
    let mut t: usize = 0;
    while t < 64
        invariant
            t <= 64,
            from < 64,
            forall|q: int|
                0 <= q < 64 ==> #[trigger] bit(attacks, q) == pseudo_hits(
                    code as int,
                    from as int,
                    q,
                ),
            forall|k: int|
                0 <= k < t ==> #[trigger] row@[k] == hits_below(code as int, from as int, k),
        decreases 64 - t,
    {
        proof {
            lemma_hits_count(attacks, code as int, from as int, t as int);
        }
        row[t] = count_below(attacks, t) as u8;
        t = t + 1;
    }
    row
}

fn offset_table(scheme: &ThreatScheme) -> (offsets: [[u32; 66]; 16])
    requires
        scheme.wf(),
    ensures
        forall|c: int, s: int|
            0 <= c < 16 && 0 <= s < 64 ==> #[trigger] offsets@[c]@[s] == code_offset(c, s),
        forall|c: int| 0 <= c < 16 ==> (#[trigger] offsets@[c])@[64] == code_offset(c, 64),
        forall|c: int|
            0 <= c < 16 && is_code(c) ==> (#[trigger] offsets@[c])@[65] == scheme.cumulative(c),
{
    let mut offsets: [[u32; 66]; 16] = [[0u32; 66]; 16];
    let mut cumulative: u32 = 0;
    let mut code: usize = 0;
    while code < 16
        invariant
            code <= 16,
            scheme.wf(),
            cumulative == scheme.cumulative(code as int),
            forall|c: int, s: int|
                0 <= c < code && 0 <= s < 64 ==> #[trigger] offsets@[c]@[s] == code_offset(c, s),
            forall|c: int| 0 <= c < code ==> (#[trigger] offsets@[c])@[64] == code_offset(c, 64),
            forall|c: int|
                0 <= c < code && is_code(c) ==> (#[trigger] offsets@[c])@[65]
                    == scheme.cumulative(c),
            forall|c: int, s: int|
                code <= c < 16 && 0 <= s < 66 ==> #[trigger] offsets@[c]@[s] == 0,
        decreases 16 - code,
    {
        let ghost before = offsets@;
        if is_piece_code(code) {
            let mut row: [u32; 66] = offset_row(code);
            let total: u32 = row[64];
            row[65] = cumulative;
            offsets[code] = row;
            proof {
                lemma_cumulative_bound(scheme, code as int);
                let t = scheme.targets@[code as int] as int;
                assert(0 <= t * total <= 49_152) by (nonlinear_arith)
                    requires
                        0 <= t <= 12,
                        0 <= total <= 4096,
                ;
            }
            cumulative = cumulative + scheme.targets[code] as u32 * total;
        } else {
            assert(offsets@[code as int]@[64] == 0);
        }
        assert forall|c: int| 0 <= c < 16 && c != code implies offsets@[c] == before[c] by {}
        assert forall|c: int, s: int| code + 1 <= c < 16 && 0 <= s < 66 implies #[trigger] offsets@[c]@[s]
            == 0 by {
            assert(before[c]@[s] == 0);
        }
        assert forall|c: int, s: int| 0 <= c < code + 1 && 0 <= s < 64 implies #[trigger] offsets@[c]@[s]
            == code_offset(c, s) by {
            if c < code {
                assert(before[c]@[s] == code_offset(c, s));
            } else if !is_code(c) {
                assert(before[c]@[s] == 0);
            }
        }
        code = code + 1;
    }
    offsets
}

fn rank_table() -> (rank: [[[u8; 64]; 64]; 16])
    ensures
        forall|c: int, s: int, t: int|
            0 <= c < 16 && 0 <= s < 64 && 0 <= t < 64 ==> #[trigger] rank@[c]@[s]@[t] == code_rank(
                c,
                s,
                t,
            ),
{
    let mut rank: [[[u8; 64]; 64]; 16] = [[[0u8; 64]; 64]; 16];
    let mut code: usize = 0;
    while code < 16
        invariant
            code <= 16,
            forall|c: int, s: int, t: int|
                0 <= c < code && 0 <= s < 64 && 0 <= t < 64 ==> #[trigger] rank@[c]@[s]@[t]
                    == code_rank(c, s, t),
            forall|c: int, s: int, t: int|
                code <= c < 16 && 0 <= s < 64 && 0 <= t < 64 ==> #[trigger] rank@[c]@[s]@[t] == 0,
        decreases 16 - code,
    {
        if is_piece_code(code) {
            let mut plane: [[u8; 64]; 64] = [[0u8; 64]; 64];
            let mut from: usize = 0;
            while from < 64
                invariant
                    from <= 64,
                    is_code(code as int),
                    forall|s: int, t: int|
                        0 <= s < from && 0 <= t < 64 ==> #[trigger] plane@[s]@[t] == hits_below(
                            code as int,
                            s,
                            t,
                        ),
                decreases 64 - from,
            {
                let ghost old_plane = plane@;
                plane[from] = rank_row(code, from);
                assert forall|s: int, t: int| 0 <= s < from + 1 && 0 <= t < 64 implies #[trigger] plane@[s]@[t]
                    == hits_below(code as int, s, t) by {
                    if s < from {
                        assert(plane@[s] == old_plane[s]);
                        assert(old_plane[s]@[t] == hits_below(code as int, s, t));
                    }
                }
                from = from + 1;
            }
            let ghost before = rank@;
            rank[code] = plane;
            assert forall|c: int, s: int, t: int|
                0 <= c < 16 && 0 <= s < 64 && 0 <= t < 64 && c != code implies #[trigger] rank@[c]@[s]@[t]
                == before[c]@[s]@[t] by {}
        }
        code = code + 1;
    }
    rank
}

/// Whether two codes name pieces of a kind that count in one direction.
fn mutual_kind(attacker: usize, attacked: usize) -> (r: bool)
    ensures
        r == (attacker % 8 == attacked % 8 && (attacker != attacked || attacker % 8 != 1)),
{
    attacker % 8 == attacked % 8 && (attacker != attacked || attacker % 8 != 1)
}

/// First feature and direction rule of one attacker and victim pair.
fn pair_entry(scheme: &ThreatScheme, offsets: &[[u32; 66]; 16], attacker: usize, attacked: usize) -> (r: (
    u32,
    u8,
))
    requires
        scheme.wf(),
        attacker < 16,
        attacked < 16,
        is_code(attacker as int) ==> offsets@[attacker as int]@[64] == offset_below(
            attacker as int,
            64,
        ) && offsets@[attacker as int]@[65] == scheme.cumulative(attacker as int),
    ensures
        !scheme.excluded(attacker as int, attacked as int) ==> r.0 == scheme.pair_base(
            attacker as int,
            attacked as int,
        ),
        r.1 == (if scheme.excluded(attacker as int, attacked as int) {
            2int
        } else if scheme.mutual(attacker as int, attacked as int) {
            1int
        } else {
            0int
        }),
{
    if !is_piece_code(attacker) || !is_piece_code(attacked) {
        return (0, 0);
    }
    let place: i32 = scheme.map[attacker % 8 - 1][attacked % 8 - 1];
    if place < 0 {
        return (0, 2);
    }
    proof {
        lemma_pair_base_bound(scheme, attacker as int, attacked as int);
        lemma_cumulative_bound(scheme, attacker as int);
        lemma_offset_bound(attacker as int, 64);
        let c = attacked as int / 8;
        let per = scheme.targets@[attacker as int] as int / 2;
        assert(c == 0 || c == 1);
        assert(c * per <= 6) by (nonlinear_arith)
            requires
                c == 0 || c == 1,
                0 <= per <= 6,
        ;
        let k = c * per + place;
        let o = offset_below(attacker as int, 64);
        assert(0 <= k * o <= 45_056) by (nonlinear_arith)
            requires
                0 <= k <= 11,
                0 <= o <= 4096,
        ;
    }
    let per: u32 = (scheme.targets[attacker] / 2) as u32;
    let k: u32 = (attacked / 8) as u32 * per + place as u32;
    let base: u32 = offsets[attacker][65] + k * offsets[attacker][64];
    let info: u8 = if mutual_kind(attacker, attacked) {
        1
    } else {
        0
    };
    (base, info)
}

/// Builds the lookup tables of a scheme.
pub fn build_threat_luts(scheme: ThreatScheme) -> (luts: ThreatLuts)
    requires
        scheme.wf(),
    ensures
        luts.wf(),
        luts.scheme == scheme,
{
    let offsets: [[u32; 66]; 16] = offset_table(&scheme);
    let mut base: [[u32; 16]; 16] = [[0u32; 16]; 16];
    let mut info: [[u8; 16]; 16] = [[0u8; 16]; 16];
    let mut a: usize = 0;
    while a < 16
        invariant
            a <= 16,
            scheme.wf(),
            forall|c: int| 0 <= c < 16 ==> (#[trigger] offsets@[c])@[64] == code_offset(c, 64),
            forall|c: int|
                0 <= c < 16 && is_code(c) ==> (#[trigger] offsets@[c])@[65]
                    == scheme.cumulative(c),
            forall|x: int, v: int|
                0 <= x < a && 0 <= v < 16 && !scheme.excluded(x, v) ==> #[trigger] base@[x]@[v]
                    == scheme.pair_base(x, v),
            forall|x: int, v: int|
                0 <= x < a && 0 <= v < 16 ==> #[trigger] info@[x]@[v] == (if scheme.excluded(
                    x,
                    v,
                ) {
                    2int
                } else if scheme.mutual(x, v) {
                    1int
                } else {
                    0int
                }),
        decreases 16 - a,
    {
        let mut base_row: [u32; 16] = [0u32; 16];
        let mut info_row: [u8; 16] = [0u8; 16];
        let mut v: usize = 0;
        assert(offsets@[a as int]@[64] == code_offset(a as int, 64));
        while v < 16
            invariant
                a < 16,
                v <= 16,
                scheme.wf(),
                is_code(a as int) ==> offsets@[a as int]@[64] == offset_below(a as int, 64)
                    && offsets@[a as int]@[65] == scheme.cumulative(a as int),
                forall|w: int|
                    0 <= w < v && !scheme.excluded(a as int, w) ==> #[trigger] base_row@[w]
                        == scheme.pair_base(a as int, w),
                forall|w: int|
                    0 <= w < v ==> #[trigger] info_row@[w] == (if scheme.excluded(a as int, w) {
                        2int
                    } else if scheme.mutual(a as int, w) {
                        1int
                    } else {
                        0int
                    }),
            decreases 16 - v,
        {
            let e: (u32, u8) = pair_entry(&scheme, &offsets, a, v);
            base_row[v] = e.0;
            info_row[v] = e.1;
            v = v + 1;
        }
        let ghost base_before = base@;
        let ghost info_before = info@;
        base[a] = base_row;
        info[a] = info_row;
        assert forall|x: int, w: int| 0 <= x < a && 0 <= w < 16 implies #[trigger] base@[x]@[w]
            == base_before[x]@[w] by {}
        assert forall|x: int, w: int| 0 <= x < a && 0 <= w < 16 implies #[trigger] info@[x]@[w]
            == info_before[x]@[w] by {}
        a = a + 1;
    }
    ThreatLuts { scheme, offsets, base, info, rank: rank_table() }
}

/// How one side turns the board for threat features.
pub fn threat_orient(perspective: Side, sq_sf: usize) -> (r: usize)
    ensures
        r == threat_turn(perspective, sq_sf as int),
        r < 64,
{
    let left_files: bool = sq_sf % 8 < 4;
    match perspective {
        Side::White => if left_files {
            0
        } else {
            7
        },
        Side::Black => if left_files {
            56
        } else {
            63
        },
        Side::Both => 0,
    }
}

/// Feature of one attack edge as one side sees it.
pub fn threat_make_index(
    luts: &ThreatLuts,
    perspective: Side,
    attacker: usize,
    from_sf: usize,
    to_sf: usize,
    attacked: usize,
    ksq_sf: usize,
) -> (r: Option<usize>)
    requires
        luts.wf(),
        attacker < 16,
        attacked < 16,
        from_sf < 64,
        to_sf < 64,
    ensures
        r is Some <==> luts.scheme.feature(
            perspective,
            attacker,
            from_sf,
            to_sf,
            attacked,
            ksq_sf,
        ) is Some,
        r matches Some(f) ==> luts.scheme.feature(
            perspective,
            attacker,
            from_sf,
            to_sf,
            attacked,
            ksq_sf,
        ) == Some(f as int) && f < luts.scheme.dims,
{
    let orient: usize = threat_orient(perspective, ksq_sf);
    proof {
        lemma_xor64(from_sf, orient);
        lemma_xor64(to_sf, orient);
        assert((attacker ^ 8) < 16 && (attacked ^ 8) < 16) by (bit_vector)
            requires
                attacker < 16,
                attacked < 16,
        ;
    }
    let from: usize = from_sf ^ orient;
    let to: usize = to_sf ^ orient;
    let a: usize = if perspective == Side::Black {
        attacker ^ 8
    } else {
        attacker
    };
    let v: usize = if perspective == Side::Black {
        attacked ^ 8
    } else {
        attacked
    };
    let info: u8 = luts.info[a][v];
    if info == 2 || (info == 1 && from < to) {
        return None;
    }
    proof {
        if is_code(a as int) && is_code(v as int) {
            lemma_pair_base_bound(&luts.scheme, a as int, v as int);
        }
        lemma_offset_bound(a as int, from as int);
        lemma_hits_bound(a as int, from as int, to as int);
        assert(luts.base@[a as int]@[v as int] == luts.scheme.pair_base(a as int, v as int));
        assert(luts.offsets@[a as int]@[from as int] == code_offset(a as int, from as int));
        assert(luts.rank@[a as int]@[from as int]@[to as int] == code_rank(
            a as int,
            from as int,
            to as int,
        ));
    }
    let index: u32 = luts.base[a][v] + luts.offsets[a][from] + luts.rank[a][from][to] as u32;
    if index as usize >= luts.scheme.dims {
        return None;
    }
    Some(index as usize)
}

/// Whether a piece attacks a square, given what stands in between.
pub open spec fn attacks_square(white: bool, kind: int, from: int, to: int, occ: u64) -> bool {
    if kind == 0 {
        pawn_step(white, from, to)
    } else if kind == 1 {
        knight_step(from, to)
    } else if 2 <= kind <= 4 {
        slider_hits(kind + 1, from, to, occ)
    } else {
        king_step(from, to)
    }
}

/// Code of the piece on an occupied square.
pub open spec fn victim_code(pos: &SfnnPosition, to: int) -> usize {
    (pos.mapping@[to] + 1 + if bit(pos.white, to) {
        0int
    } else {
        8int
    }) as usize
}

pub open spec fn attacker_code(white: bool, kind: int) -> usize {
    (kind + 1 + if white {
        0int
    } else {
        8int
    }) as usize
}

/// Whether an edge from `from` to `to` exists for one colour and kind.
pub open spec fn edge(pos: &SfnnPosition, white: bool, kind: int, from: int, to: int) -> bool {
    &&& bit(pos.occupied_spec(), to)
    &&& pos.mapping@[to] <= 5
    &&& attacks_square(white, kind, from, to, pos.occupied_spec())
}

/// Edges from one square to the targets below `n`.
pub open spec fn edges_to(pos: &SfnnPosition, white: bool, kind: int, from: int, n: int) -> Seq<
    (usize, usize, usize, usize),
>
    decreases n,
{
    if n <= 0 {
        Seq::empty()
    } else if edge(pos, white, kind, from, n - 1) {
        edges_to(pos, white, kind, from, n - 1).push(
            (
                attacker_code(white, kind),
                from as usize,
                (n - 1) as usize,
                victim_code(pos, n - 1),
            ),
        )
    } else {
        edges_to(pos, white, kind, from, n - 1)
    }
}

/// Edges from the squares below `n` of one colour and kind.
pub open spec fn edges_from(pos: &SfnnPosition, white: bool, kind: int, n: int) -> Seq<
    (usize, usize, usize, usize),
>
    decreases n,
{
    if n <= 0 {
        Seq::empty()
    } else {
        let own = if white {
            pos.white
        } else {
            pos.black
        };
        if bit(pos.pieces@[kind] & own, n - 1) {
            edges_from(pos, white, kind, n - 1) + edges_to(pos, white, kind, n - 1, 64)
        } else {
            edges_from(pos, white, kind, n - 1)
        }
    }
}

/// Edges of the kinds below `n` of one colour.
pub open spec fn edges_of(pos: &SfnnPosition, white: bool, n: int) -> Seq<
    (usize, usize, usize, usize),
>
    decreases n,
{
    if n <= 0 {
        Seq::empty()
    } else {
        edges_of(pos, white, n - 1) + edges_from(pos, white, n - 1, 64)
    }
}

/// Every attack edge once: White before Black, then by kind, attacker square
/// and target square.
pub open spec fn threat_edges(pos: &SfnnPosition) -> Seq<(usize, usize, usize, usize)> {
    edges_of(pos, true, 6) + edges_of(pos, false, 6)
}

/// Edges from one square, appended to `out`.
fn push_edges(
    pos: &SfnnPosition,
    white: bool,
    kind: usize,
    from: usize,
    out: &mut Vec<(usize, usize, usize, usize)>,
)
    requires
        kind < 6,
        from < 64,
    ensures
        final(out)@ == old(out)@ + edges_to(pos, white, kind as int, from as int, 64),
{
    let occ: u64 = pos.occupied();
    let side: Side = if white {
        Side::White
    } else {
        Side::Black
    };
    let attacks: u64 = if kind == 0 {
        pawn_attacks_sf(side, from)
    } else if kind == 1 {
        knight_attacks_sf(from)
    } else if kind <= 4 {
        slider_attacks_sf(kind + 1, from, occ)
    } else {
        king_attacks_sf(from)
    };
    let attacker: usize = if white {
        kind + 1
    } else {
        kind + 9
    };
    let ghost start = out@;
    let mut to: usize = 0;
    assert(start + edges_to(pos, white, kind as int, from as int, 0) =~= start);
    while to < 64
        invariant
            to <= 64,
            from < 64,
            kind < 6,
            occ == pos.occupied_spec(),
            attacker == attacker_code(white, kind as int),
            forall|q: int|
                0 <= q < 64 ==> #[trigger] bit(attacks, q) == attacks_square(
                    white,
                    kind as int,
                    from as int,
                    q,
                    occ,
                ),
            out@ == start + edges_to(pos, white, kind as int, from as int, to as int),
        decreases 64 - to,
    {
        let victim: u8 = pos.mapping[to];
        if is_set(attacks, to) && is_set(occ, to) && victim <= 5 {
            let attacked: usize = if is_set(pos.white, to) {
                victim as usize + 1
            } else {
                victim as usize + 9
            };
            out.push((attacker, from, to, attacked));
            assert(out@ =~= start + edges_to(pos, white, kind as int, from as int, to + 1));
        }
        to = to + 1;
    }
}

/// Every attack edge, in a fixed order.
pub fn threat_edge_list(pos: &SfnnPosition) -> (out: Vec<(usize, usize, usize, usize)>)
    ensures
        out@ == threat_edges(pos),
{
    let mut out: Vec<(usize, usize, usize, usize)> = Vec::new();
    let mut colour: usize = 0;
    assert(out@ =~= edges_of(pos, true, 0));
    while colour < 2
        invariant
            colour <= 2,
            colour == 0 ==> out@ == Seq::<(usize, usize, usize, usize)>::empty(),
            colour == 1 ==> out@ == edges_of(pos, true, 6),
            colour == 2 ==> out@ == threat_edges(pos),
        decreases 2 - colour,
    {
        let white: bool = colour == 0;
        let own: u64 = if white {
            pos.white
        } else {
            pos.black
        };
        let ghost start = out@;
        let mut kind: usize = 0;
        assert(start + edges_of(pos, white, 0) =~= start);
        while kind < 6
            invariant
                kind <= 6,
                own == (if white {
                    pos.white
                } else {
                    pos.black
                }),
                out@ == start + edges_of(pos, white, kind as int),
            decreases 6 - kind,
        {
            let bb: u64 = pos.pieces[kind] & own;
            let ghost mid = out@;
            let mut from: usize = 0;
            assert(mid + edges_from(pos, white, kind as int, 0) =~= mid);
            while from < 64
                invariant
                    from <= 64,
                    kind < 6,
                    own == (if white {
                        pos.white
                    } else {
                        pos.black
                    }),
                    bb == pos.pieces@[kind as int] & own,
                    out@ == mid + edges_from(pos, white, kind as int, from as int),
                decreases 64 - from,
            {
                if is_set(bb, from) {
                    push_edges(pos, white, kind, from, &mut out);
                    assert(out@ =~= mid + edges_from(pos, white, kind as int, from + 1));
                }
                from = from + 1;
            }
            assert(out@ =~= start + edges_of(pos, white, kind + 1));
            kind = kind + 1;
        }
        assert(colour == 0 ==> out@ =~= edges_of(pos, true, 6));
        assert(colour == 1 ==> out@ =~= threat_edges(pos));
        colour = colour + 1;
    }
    out
}

/// An edge list whose codes and squares are in range.
pub open spec fn edges_in_range(edges: Seq<(usize, usize, usize, usize)>) -> bool {
    forall|i: int|
        0 <= i < edges.len() ==> (#[trigger] edges[i]).0 < 16 && edges[i].1 < 64 && edges[i].2 < 64
            && edges[i].3 < 16
}

proof fn lemma_edges_to_range(pos: &SfnnPosition, white: bool, kind: int, from: int, n: int)
    requires
        0 <= kind < 6,
        0 <= from < 64,
        0 <= n <= 64,
    ensures
        edges_in_range(edges_to(pos, white, kind, from, n)),
    decreases n,
{
    if n > 0 {
        lemma_edges_to_range(pos, white, kind, from, n - 1);
    }
}

proof fn lemma_edges_from_range(pos: &SfnnPosition, white: bool, kind: int, n: int)
    requires
        0 <= kind < 6,
        0 <= n <= 64,
    ensures
        edges_in_range(edges_from(pos, white, kind, n)),
    decreases n,
{
    if n > 0 {
        lemma_edges_from_range(pos, white, kind, n - 1);
        lemma_edges_to_range(pos, white, kind, n - 1, 64);
    }
}

proof fn lemma_edges_of_range(pos: &SfnnPosition, white: bool, n: int)
    requires
        0 <= n <= 6,
    ensures
        edges_in_range(edges_of(pos, white, n)),
    decreases n,
{
    if n > 0 {
        lemma_edges_of_range(pos, white, n - 1);
        lemma_edges_from_range(pos, white, n - 1, 64);
    }
}

/// Every edge has piece codes and squares in range.
pub proof fn law_edges_in_range(pos: &SfnnPosition)
    ensures
        edges_in_range(threat_edges(pos)),
{
    lemma_edges_of_range(pos, true, 6);
    lemma_edges_of_range(pos, false, 6);
}

/// Every listed feature index is below the number of features.
pub proof fn law_threat_features_in_range(
    scheme: &ThreatScheme,
    perspective: Side,
    ksq: usize,
    edges: Seq<(usize, usize, usize, usize)>,
    n: int,
)
    requires
        scheme.wf(),
        edges_in_range(edges),
        0 <= n <= edges.len(),
    ensures
        scheme.features(perspective, ksq, edges, n).len() <= n,
        forall|i: int|
            0 <= i < scheme.features(perspective, ksq, edges, n).len() ==> 0
                <= #[trigger] scheme.features(perspective, ksq, edges, n)[i] < scheme.dims,
    decreases n,
{
    if n > 0 {
        law_threat_features_in_range(scheme, perspective, ksq, edges, n - 1);
        let e = edges[n - 1];
        assert(edges[n - 1].0 < 16);
        let turn = threat_turn(perspective, ksq as int);
        lemma_xor64(e.1, turn);
        lemma_xor64(e.2, turn);
        let a = recoloured(perspective, e.0);
        let v = recoloured(perspective, e.3);
        let x = e.0;
        let y = e.3;
        assert((x ^ 8) < 16 && (y ^ 8) < 16) by (bit_vector)
            requires
                x < 16,
                y < 16,
        ;
        if !scheme.excluded(a as int, v as int) {
            if is_code(a as int) && is_code(v as int) {
                lemma_pair_base_bound(scheme, a as int, v as int);
            }
            lemma_offset_bound(a as int, (e.1 ^ turn) as int);
            lemma_hits_bound(a as int, (e.1 ^ turn) as int, (e.2 ^ turn) as int);
        }
    }
}

/// The threat features of the first `n` edges of a list.
pub fn threat_feature_list(
    luts: &ThreatLuts,
    perspective: Side,
    ksq: usize,
    edges: &Vec<(usize, usize, usize, usize)>,
    n: usize,
) -> (out: Vec<usize>)
    requires
        luts.wf(),
        edges_in_range(edges@),
        n <= edges.len(),
    ensures
        out.len() == luts.scheme.features(perspective, ksq, edges@, n as int).len(),
        forall|i: int|
            0 <= i < out.len() ==> #[trigger] out@[i] == luts.scheme.features(
                perspective,
                ksq,
                edges@,
                n as int,
            )[i] && out@[i] < luts.scheme.dims,
{
    let mut out: Vec<usize> = Vec::new();
    let mut i: usize = 0;
    while i < n
        invariant
            i <= n <= edges.len(),
            luts.wf(),
            edges_in_range(edges@),
            out.len() == luts.scheme.features(perspective, ksq, edges@, i as int).len(),
            forall|k: int|
                0 <= k < out.len() ==> #[trigger] out@[k] == luts.scheme.features(
                    perspective,
                    ksq,
                    edges@,
                    i as int,
                )[k] && out@[k] < luts.scheme.dims,
        decreases n - i,
    {
        let e: (usize, usize, usize, usize) = edges[i];
        assert(edges@[i as int].0 < 16);
        if let Some(f) = threat_make_index(luts, perspective, e.0, e.1, e.2, e.3, ksq) {
            out.push(f);
        }
        i = i + 1;
    }
    out
}

/// The kinds attack as their pieces do: pawns ahead by their colour, knights,
/// bishops, rooks, queens and kings, with sliders stopped by what stands in
/// between.
pub proof fn law_attacks_by_kind(from: int, to: int, occ: u64)
    ensures
        attacks_square(true, 0, from, to, occ) == pawn_step(true, from, to),
        attacks_square(false, 0, from, to, occ) == pawn_step(false, from, to),
        forall|white: bool| #[trigger]
            attacks_square(white, 1, from, to, occ) == knight_step(from, to),
        forall|white: bool| #[trigger]
            attacks_square(white, 2, from, to, occ) == slider_hits(3, from, to, occ),
        forall|white: bool| #[trigger]
            attacks_square(white, 3, from, to, occ) == slider_hits(4, from, to, occ),
        forall|white: bool| #[trigger]
            attacks_square(white, 4, from, to, occ) == slider_hits(5, from, to, occ),
        forall|white: bool| #[trigger]
            attacks_square(white, 5, from, to, occ) == king_step(from, to),
{
}

/// Where two pieces of one kind attack each other, one of the two attacks has a
/// feature and the other has none; an attack that the scheme leaves out has
/// none at all.
pub proof fn law_mutual_attacks_count_once(
    scheme: &ThreatScheme,
    attacker: int,
    from: int,
    to: int,
    attacked: int,
)
    requires
        from != to,
    ensures
        scheme.mutual(attacker, attacked) ==> !(scheme.slot(attacker, from, to, attacked) is Some
            && scheme.slot(attacked, to, from, attacker) is Some),
        scheme.mutual(attacker, attacked) && scheme.slot(attacker, from, to, attacked) is Some
            ==> from > to,
        scheme.excluded(attacker, attacked) ==> scheme.slot(attacker, from, to, attacked) is None,
        scheme.mutual(attacker, attacked) ==> attacker % 8 == attacked % 8,
        is_code(attacker) && attacker % 8 == attacked % 8 && attacker % 8 != 1 && is_code(attacked)
            ==> scheme.mutual(attacker, attacked) || scheme.excluded(attacker, attacked),
        !scheme.mutual(1, 1) && !scheme.mutual(9, 9),
{
}

/// A threat looks the same mirrored from left to right with the king, and
/// mirrored from side to side with the colours exchanged.
#[verifier::rlimit(60)]
pub proof fn law_threats_mirror(
    scheme: &ThreatScheme,
    attacker: usize,
    from: usize,
    to: usize,
    attacked: usize,
    ksq: usize,
    mirrored_ksq: usize,
)
    requires
        from < 64,
        to < 64,
        (ksq % 8 < 4) != (mirrored_ksq % 8 < 4),
    ensures
        scheme.feature(Side::White, attacker, from ^ 7, to ^ 7, attacked, mirrored_ksq)
            == scheme.feature(Side::White, attacker, from, to, attacked, ksq),
        scheme.feature(Side::Black, attacker ^ 8, from ^ 56, to ^ 56, attacked ^ 8, ksq)
            == scheme.feature(Side::White, attacker, from, to, attacked, ksq),
        ksq % 8 < 4 ==> scheme.feature(Side::White, attacker, from, to, attacked, ksq)
            == scheme.slot(attacker as int, from as int, to as int, attacked as int),
{
    assert((from ^ 7) ^ 7 == from ^ 0 && (to ^ 7) ^ 7 == to ^ 0) by (bit_vector);
    assert((from ^ 7) ^ 0 == from ^ 7 && (to ^ 7) ^ 0 == to ^ 7) by (bit_vector);
    assert((from ^ 56) ^ 56 == from ^ 0 && (to ^ 56) ^ 56 == to ^ 0) by (bit_vector);
    assert((from ^ 56) ^ 63 == from ^ 7 && (to ^ 56) ^ 63 == to ^ 7) by (bit_vector);
    assert((attacker ^ 8) ^ 8 == attacker && (attacked ^ 8) ^ 8 == attacked) by (bit_vector);
    assert(from ^ 0 == from && to ^ 0 == to) by (bit_vector);
}

/// The features of one attacker and one kind of victim follow the squares: for
/// each square that it attacks from one square on to the next, and from one
/// square of its own to the next, without gaps.
#[verifier::rlimit(60)]
pub proof fn law_slots_follow_the_board(
    scheme: &ThreatScheme,
    attacker: int,
    from: int,
    to: int,
    attacked: int,
    a: int,
    b: int,
)
    requires
        is_code(attacker),
        0 <= from < 64,
        0 <= to < 64,
        scheme.slot(attacker, from, to, attacked) == Some(a),
    ensures
        pseudo_hits(attacker, from, to) && scheme.slot(attacker, from, to + 1, attacked) == Some(b)
            ==> b == a + 1,
        !pseudo_hits(attacker, from, to) && scheme.slot(attacker, from, to + 1, attacked) == Some(b)
            ==> b == a,
        to == 0 && scheme.slot(attacker, from + 1, 0, attacked) == Some(b) ==> b == a
            + counted_hits(attacker, from),
{
}

/// The features of one attacker are in blocks of one size, a block for each kind
/// of victim in the order of the scheme, own colours first; the attackers follow
/// each other by their codes.
#[verifier::rlimit(60)]
pub proof fn law_blocks_follow_the_scheme(
    scheme: &ThreatScheme,
    attacker: int,
    attacked: int,
    other: int,
)
    requires
        is_code(attacker),
        is_code(attacked),
        is_code(other),
    ensures
        attacked / 8 == other / 8 ==> scheme.pair_base(attacker, other) - scheme.pair_base(
            attacker,
            attacked,
        ) == (scheme.place(attacker, other) - scheme.place(attacker, attacked)) * offset_below(
            attacker,
            64,
        ),
        attacked < 8 && other == attacked + 8 ==> scheme.pair_base(attacker, other)
            - scheme.pair_base(attacker, attacked) == scheme.targets@[attacker] as int / 2
            * offset_below(attacker, 64),
        is_code(attacker + 1) ==> scheme.cumulative(attacker + 1) - scheme.cumulative(attacker)
            == scheme.targets@[attacker] * offset_below(attacker, 64),
        scheme.cumulative(1) == 0,
        scheme.cumulative(9) == scheme.cumulative(7),
{
    let n = offset_below(attacker, 64);
    let h = scheme.targets@[attacker] as int / 2;
    let p = scheme.place(attacker, attacked);
    let q = scheme.place(attacker, other);
    let c = attacked / 8;
    let d = other / 8;
    assert((d * h + q) * n - (c * h + p) * n == (d * h - c * h + q - p) * n) by (nonlinear_arith);
    if c == d {
        assert(d * h - c * h + q - p == q - p);
    }
    if attacked < 8 && other == attacked + 8 {
        assert(c == 0 && d == 1);
        assert(q == p);
        assert(d * h - c * h + q - p == h);
    }
    assert(!is_code(0));
    assert(scheme.cumulative(0) == 0);
    assert(scheme.cumulative(1) == scheme.cumulative(0));
    assert(!is_code(8) && !is_code(7));
    assert(scheme.cumulative(9) == scheme.cumulative(8));
    assert(scheme.cumulative(8) == scheme.cumulative(7));
}

/// A pawn on one of the outer ranks has no features, any other piece one for
/// each square that it attacks.
pub proof fn law_counted_squares(code: int, s: int)
    ensures
        code % 8 == 1 && !(8 <= s < 56) ==> counted_hits(code, s) == 0,
        code % 8 != 1 || 8 <= s < 56 ==> counted_hits(code, s) == hits_below(code, s, 64),
        hits_below(code, s, 64) == chosen(|t: int| pseudo_hits(code, s, t), 64).len(),
{
    lemma_hits_chosen(code, s, 64);
}

proof fn lemma_hits_chosen(code: int, s: int, n: int)
    requires
        0 <= n <= 64,
    ensures
        hits_below(code, s, n) == chosen(|t: int| pseudo_hits(code, s, t), n).len(),
    decreases n,
{
    let f = |t: int| pseudo_hits(code, s, t);
    if n > 0 {
        lemma_hits_chosen(code, s, n - 1);
        lemma_chosen_step(f, n);
    } else {
        lemma_chosen_empty(f);
    }
}

/// The pieces in an edge: the attacker by its kind and colour, the victim by
/// what stands on its square.
pub proof fn law_edge_codes(pos: &SfnnPosition, white: bool, kind: int, to: int)
    requires
        0 <= kind < 6,
        0 <= to < 64,
        pos.mapping@[to] <= 5,
    ensures
        attacker_code(true, kind) == kind + 1,
        attacker_code(false, kind) == kind + 9,
        bit(pos.white, to) ==> victim_code(pos, to) == pos.mapping@[to] + 1,
        !bit(pos.white, to) ==> victim_code(pos, to) == pos.mapping@[to] + 9,
        forall|from: int| #[trigger]
            edge(pos, white, kind, from, to) <==> (bit(pos.white | pos.black, to) && attacks_square(
                white,
                kind,
                from,
                to,
                pos.white | pos.black,
            )),
{
}

} // verus!
