//! Pawn pair features of the v16 network: two pawns on the same or
//! neighbouring files.

use vstd::prelude::*;

use crate::bits::{bit, is_set, lemma_xor64};
use crate::board::Side;
use crate::eval::nnue::geometry::file_gap;
use crate::eval::nnue::v16::arch::{MAX_PAIR_ACTIVE, PAIR_DIMS, PSQ_DIMS, THREAT_DIMS};
use crate::eval::nnue::v16::position::{flip_of, ints, lemma_ints_push, SfnnPosition};
use crate::math::{max, min};

verus! {

/// Number of a pawn: 48 squares per colour, from the second rank up. Pawns on
/// the first rank have none.
pub open spec fn pawn_id(own: bool, sq: int) -> Option<int> {
    if sq < 8 {
        None
    } else {
        Some(sq - 8 + if own {
            0int
        } else {
            48int
        })
    }
}

pub fn make_pawn_id(color: Side, square_sf: usize) -> (r: Option<usize>)
    requires
        square_sf < 64,
        !(color is Both),
    ensures
        r is Some <==> square_sf >= 8,
        r matches Some(id) ==> pawn_id(color is White, square_sf as int) == Some(id as int) && id
            < 104,
{
    if square_sf < 8 {
        return None;
    }
    let base: usize = if color == Side::White {
        0
    } else {
        48
    };
    Some(base + (square_sf - 8))
}

/// How one side turns the board: rank flip for Black, file mirror while the
/// king stands on files e to h.
pub open spec fn pair_turn(perspective: Side, ksq: int) -> usize {
    flip_of(perspective) ^ (if ksq % 8 < 4 {
        0usize
    } else {
        7usize
    })
}

/// Number of an unordered pair, counted row by row under the diagonal.
pub open spec fn triangle_index(a: int, b: int) -> int {
    let hi = max(a, b);
    let lo = min(a, b);
    hi * (hi - 1) / 2 + lo
}

/// Pair index of two pawns as one side sees them, from zero.
pub open spec fn pair_slot(
    perspective: Side,
    color: Side,
    from: usize,
    to: usize,
    paired_color: Side,
    ksq: int,
) -> Option<int> {
    let turn = pair_turn(perspective, ksq);
    match (
        pawn_id(perspective == color, (from ^ turn) as int),
        pawn_id(perspective == paired_color, (to ^ turn) as int),
    ) {
        (Some(a), Some(b)) => Some(triangle_index(a, b)),
        _ => None,
    }
}

proof fn lemma_triangle(hi: int)
    requires
        0 <= hi <= 103,
    ensures
        0 <= hi * (hi - 1) / 2,
        hi >= 1 ==> hi * (hi - 1) / 2 <= 5253,
        hi <= 95 ==> hi * (hi - 1) / 2 <= 4465,
        hi * (hi - 1) <= 10_506,
{
    assert(hi >= 1 ==> 0 <= hi * (hi - 1) <= 10_506) by (nonlinear_arith)
        requires
            0 <= hi <= 103,
    ;
    assert(1 <= hi <= 95 ==> hi * (hi - 1) <= 8930) by (nonlinear_arith)
        requires
            0 <= hi <= 103,
    ;
    assert(hi == 0 ==> hi * (hi - 1) == 0) by (nonlinear_arith);
}

/// Turned squares stay on the board.
proof fn lemma_turned(perspective: Side, ksq: int, sq: usize)
    requires
        sq < 64,
    ensures
        pair_turn(perspective, ksq) < 64,
        (sq ^ pair_turn(perspective, ksq)) < 64,
{
    let m: usize = if ksq % 8 < 4 {
        0
    } else {
        7
    };
    lemma_xor64(flip_of(perspective), m);
    lemma_xor64(sq, pair_turn(perspective, ksq));
}

/// Pair feature of two pawns, behind the piece-square and threat blocks.
pub fn pair_make_index(
    perspective: Side,
    color: Side,
    from_sf: usize,
    to_sf: usize,
    paired_color: Side,
    ksq_sf: usize,
) -> (r: Option<usize>)
    requires
        from_sf < 64,
        to_sf < 64,
    ensures
        r is Some <==> pair_slot(perspective, color, from_sf, to_sf, paired_color, ksq_sf as int) is Some,
        r matches Some(idx) ==> pair_slot(
            perspective,
            color,
            from_sf,
            to_sf,
            paired_color,
            ksq_sf as int,
        ) == Some(idx - (PSQ_DIMS + THREAT_DIMS)),
{
    let flip: usize = if perspective == Side::Black {
        56
    } else {
        0
    };
    let mirror: usize = if ksq_sf % 8 < 4 {
        0
    } else {
        7
    };
    let orient: usize = flip ^ mirror;
    proof {
        lemma_turned(perspective, ksq_sf as int, from_sf);
        lemma_turned(perspective, ksq_sf as int, to_sf);
    }
    let own: Side = if perspective == color {
        Side::White
    } else {
        Side::Black
    };
    let paired: Side = if perspective == paired_color {
        Side::White
    } else {
        Side::Black
    };
    match (make_pawn_id(own, from_sf ^ orient), make_pawn_id(paired, to_sf ^ orient)) {
        (Some(a), Some(b)) => {
            let hi: usize = if a >= b {
                a
            } else {
                b
            };
            let lo: usize = if a >= b {
                b
            } else {
                a
            };
            proof {
                lemma_triangle(hi as int);
            }
            let row: usize = if hi == 0 {
                0
            } else {
                hi * (hi - 1) / 2
            };
            proof {
                let h = hi as int;
                assert(h == 0 ==> h * (h - 1) == 0) by (nonlinear_arith);
                assert(row == h * (h - 1) / 2);
                assert(hi == max(a as int, b as int) && lo == min(a as int, b as int));
                assert(triangle_index(a as int, b as int) == row + lo);
            }
            Some(row + lo + PSQ_DIMS + THREAT_DIMS)
        },
        _ => None,
    }
}

/// Pair feature of two pawns, from zero.
pub fn pair_index_for(
    perspective: Side,
    color: Side,
    from_sf: usize,
    to_sf: usize,
    paired_color: Side,
    ksq_sf: usize,
) -> (r: Option<usize>)
    requires
        from_sf < 64,
        to_sf < 64,
    ensures
        r is Some <==> pair_slot(perspective, color, from_sf, to_sf, paired_color, ksq_sf as int) is Some,
        r matches Some(idx) ==> pair_slot(
            perspective,
            color,
            from_sf,
            to_sf,
            paired_color,
            ksq_sf as int,
        ) == Some(idx as int),
{
    proof {
        lemma_pair_slot_bound(perspective, color, from_sf, to_sf, paired_color, ksq_sf as int);
    }
    match pair_make_index(perspective, color, from_sf, to_sf, paired_color, ksq_sf) {
        Some(abs) => Some(abs - (PSQ_DIMS + THREAT_DIMS)),
        None => None,
    }
}

/// Pair indices are never negative.
pub proof fn lemma_pair_slot_bound(
    perspective: Side,
    color: Side,
    from: usize,
    to: usize,
    paired_color: Side,
    ksq: int,
)
    requires
        from < 64,
        to < 64,
    ensures
        pair_slot(perspective, color, from, to, paired_color, ksq) matches Some(i) ==> 0 <= i
            <= 5356,
{
    lemma_turned(perspective, ksq, from);
    lemma_turned(perspective, ksq, to);
    let turn = pair_turn(perspective, ksq);
    if let (Some(a), Some(b)) = (
        pawn_id(perspective == color, (from ^ turn) as int),
        pawn_id(perspective == paired_color, (to ^ turn) as int),
    ) {
        lemma_triangle(max(a, b));
    }
}

/// Whether a square can hold a pawn.
pub open spec fn pawn_rank(sq: int) -> bool {
    8 <= sq < 56
}

/// Two different pawns on pawn ranks have an index inside the pair block.
pub proof fn law_pair_in_block(
    perspective: Side,
    color: Side,
    from: usize,
    to: usize,
    paired_color: Side,
    ksq: int,
)
    requires
        pawn_rank(from as int),
        pawn_rank(to as int),
        from != to || (perspective == color) != (perspective == paired_color),
    ensures
        pair_slot(perspective, color, from, to, paired_color, ksq) matches Some(i) && 0 <= i
            < PAIR_DIMS,
{
    let turn = pair_turn(perspective, ksq);
    lemma_turned(perspective, ksq, from);
    lemma_turned(perspective, ksq, to);
    lemma_xor64(from, turn);
    lemma_xor64(to, turn);
    let m: usize = if ksq % 8 < 4 {
        0
    } else {
        7
    };
    let f = flip_of(perspective);
    assert(8 <= (from ^ (f ^ m)) < 56 && 8 <= (to ^ (f ^ m)) < 56) by (bit_vector)
        requires
            8 <= from < 56,
            8 <= to < 56,
            f == 0 || f == 56,
            m == 0 || m == 7,
    ;
    let a = pawn_id(perspective == color, (from ^ turn) as int)->0;
    let b = pawn_id(perspective == paired_color, (to ^ turn) as int)->0;
    assert(a != b);
    lemma_triangle(max(a, b));
}

/// Different unordered pairs have different numbers.
pub proof fn law_triangle_injective(a: int, b: int, c: int, d: int)
    requires
        0 <= a < b,
        0 <= c < d,
        triangle_index(a, b) == triangle_index(c, d),
    ensures
        a == c,
        b == d,
{
    lemma_row_bounds(a, b);
    lemma_row_bounds(c, d);
    if b < d {
        lemma_row_order(b, d);
    } else if d < b {
        lemma_row_order(d, b);
    }
}

proof fn lemma_row_bounds(lo: int, hi: int)
    requires
        0 <= lo < hi,
    ensures
        hi * (hi - 1) / 2 <= triangle_index(lo, hi) < (hi + 1) * hi / 2,
{
    assert((hi + 1) * hi == hi * (hi - 1) + 2 * hi) by (nonlinear_arith);
    let x = hi * (hi - 1);
    assert((x + 2 * hi) / 2 == x / 2 + hi);
}

proof fn lemma_row_order(p: int, q: int)
    requires
        0 < p < q,
    ensures
        (p + 1) * p / 2 <= q * (q - 1) / 2,
{
    assert((p + 1) * p <= q * (q - 1)) by (nonlinear_arith)
        requires
            0 < p < q,
    ;
}

/// Whether a square belongs to the band of a pawn: its own and the
/// neighbouring files, without the outer ranks and the pawn's own square.
pub open spec fn in_band(from: int, to: int) -> bool {
    file_gap(from, to) <= 1 && pawn_rank(to) && from != to
}

fn band_has(from: usize, to: usize) -> (r: bool)
    requires
        from < 64,
        to < 64,
    ensures
        r == in_band(from as int, to as int),
{
    let a: usize = from % 8;
    let b: usize = to % 8;
    let near: bool = if a >= b {
        a - b <= 1
    } else {
        b - a <= 1
    };
    near && 8 <= to && to < 56 && from != to
}

/// Partners of one pawn among the squares below `n` that come after `after`.
pub open spec fn partners(
    color: Side,
    from: int,
    pawns: u64,
    paired: Side,
    after: int,
    n: int,
) -> Seq<(Side, usize, usize, Side)>
    decreases n,
{
    if n <= 0 {
        Seq::empty()
    } else if bit(pawns, n - 1) && n - 1 > after && in_band(from, n - 1) {
        partners(color, from, pawns, paired, after, n - 1).push(
            (color, from as usize, (n - 1) as usize, paired),
        )
    } else {
        partners(color, from, pawns, paired, after, n - 1)
    }
}

/// Pairs of the white pawns below `n`: later white partners, then all black.
pub open spec fn white_pairs(white: u64, black: u64, n: int) -> Seq<(Side, usize, usize, Side)>
    decreases n,
{
    if n <= 0 {
        Seq::empty()
    } else if bit(white, n - 1) {
        white_pairs(white, black, n - 1) + partners(
            Side::White,
            n - 1,
            white,
            Side::White,
            n - 1,
            64,
        ) + partners(Side::White, n - 1, black, Side::Black, -1, 64)
    } else {
        white_pairs(white, black, n - 1)
    }
}

/// Pairs of the black pawns below `n` with later black partners.
pub open spec fn black_pairs(black: u64, n: int) -> Seq<(Side, usize, usize, Side)>
    decreases n,
{
    if n <= 0 {
        Seq::empty()
    } else if bit(black, n - 1) {
        black_pairs(black, n - 1) + partners(
            Side::Black,
            n - 1,
            black,
            Side::Black,
            n - 1,
            64,
        )
    } else {
        black_pairs(black, n - 1)
    }
}

/// Every pawn pair once.
pub open spec fn pawn_pairs(pos: &SfnnPosition) -> Seq<(Side, usize, usize, Side)> {
    white_pairs(pos.pieces@[0] & pos.white, pos.pieces@[0] & pos.black, 64) + black_pairs(
        pos.pieces@[0] & pos.black,
        64,
    )
}

/// Partners of one pawn, appended to `out`. `first` is the lowest partner
/// square that counts.
fn push_partners(
    color: Side,
    from: usize,
    pawns: u64,
    paired: Side,
    first: usize,
    out: &mut Vec<(Side, usize, usize, Side)>,
)
    requires
        from < 64,
        first <= 64,
    ensures
        final(out)@ == old(out)@ + partners(color, from as int, pawns, paired, first - 1, 64),
{
    let ghost start = out@;
    let mut to: usize = 0;
    assert(start + partners(color, from as int, pawns, paired, first - 1, 0) =~= start);
    while to < 64
        invariant
            to <= 64,
            from < 64,
            first <= 64,
            out@ == start + partners(color, from as int, pawns, paired, first - 1, to as int),
        decreases 64 - to,
    {
        if to >= first && is_set(pawns, to) && band_has(from, to) {
            out.push((color, from, to, paired));
            assert(out@ =~= start + partners(color, from as int, pawns, paired, first - 1, to + 1));
        }
        to = to + 1;
    }
}

/// Every pawn pair once, as colour, square, partner square and partner colour.
pub fn for_each_pair(pos: &SfnnPosition) -> (out: Vec<(Side, usize, usize, Side)>)
    ensures
        out@ == pawn_pairs(pos),
{
    let white: u64 = pos.pieces[0] & pos.white;
    let black: u64 = pos.pieces[0] & pos.black;
    let mut out: Vec<(Side, usize, usize, Side)> = Vec::new();
    let mut from: usize = 0;
    while from < 64
        invariant
            from <= 64,
            out@ == white_pairs(white, black, from as int),
        decreases 64 - from,
    {
        if is_set(white, from) {
            push_partners(Side::White, from, white, Side::White, from + 1, &mut out);
            push_partners(Side::White, from, black, Side::Black, 0, &mut out);
        }
        from = from + 1;
    }
    let ghost start = out@;
    assert(start + black_pairs(black, 0) =~= start);
    from = 0;
    while from < 64
        invariant
            from <= 64,
            out@ == start + black_pairs(black, from as int),
        decreases 64 - from,
    {
        if is_set(black, from) {
            push_partners(Side::Black, from, black, Side::Black, from + 1, &mut out);
            assert(out@ =~= start + black_pairs(black, from + 1));
        }
        from = from + 1;
    }
    out
}

/// Pairs whose squares are on the board and whose colours are real.
pub open spec fn pairs_in_range(pairs: Seq<(Side, usize, usize, Side)>) -> bool {
    forall|i: int|
        0 <= i < pairs.len() ==> (#[trigger] pairs[i]).1 < 64 && pairs[i].2 < 64 && !(
        pairs[i].0 is Both) && !(pairs[i].3 is Both)
}

proof fn lemma_partners_range(
    color: Side,
    from: int,
    pawns: u64,
    paired: Side,
    after: int,
    n: int,
)
    requires
        0 <= from < 64,
        0 <= n <= 64,
        !(color is Both),
        !(paired is Both),
    ensures
        pairs_in_range(partners(color, from, pawns, paired, after, n)),
    decreases n,
{
    if n > 0 {
        lemma_partners_range(color, from, pawns, paired, after, n - 1);
        let rest = partners(color, from, pawns, paired, after, n - 1);
        let all = partners(color, from, pawns, paired, after, n);
        assert forall|i: int| 0 <= i < all.len() implies (#[trigger] all[i]).1 < 64 && all[i].2 < 64
            && !(all[i].0 is Both) && !(all[i].3 is Both) by {
            if i < rest.len() {
                assert(rest[i].1 < 64);
            }
        }
    }
}

proof fn lemma_white_pairs_range(white: u64, black: u64, n: int)
    requires
        0 <= n <= 64,
    ensures
        pairs_in_range(white_pairs(white, black, n)),
    decreases n,
{
    if n > 0 {
        lemma_white_pairs_range(white, black, n - 1);
        lemma_partners_range(Side::White, n - 1, white, Side::White, n - 1, 64);
        lemma_partners_range(Side::White, n - 1, black, Side::Black, -1, 64);
    }
}

proof fn lemma_black_pairs_range(black: u64, n: int)
    requires
        0 <= n <= 64,
    ensures
        pairs_in_range(black_pairs(black, n)),
    decreases n,
{
    if n > 0 {
        lemma_black_pairs_range(black, n - 1);
        lemma_partners_range(Side::Black, n - 1, black, Side::Black, n - 1, 64);
    }
}

/// Every listed pair has its squares on the board.
pub proof fn law_pairs_in_range(pos: &SfnnPosition)
    ensures
        pairs_in_range(pawn_pairs(pos)),
{
    lemma_white_pairs_range(pos.pieces@[0] & pos.white, pos.pieces@[0] & pos.black, 64);
    lemma_black_pairs_range(pos.pieces@[0] & pos.black, 64);
}

/// Pair features of the first `n` pairs of a list, in order.
pub open spec fn pair_features_of(
    perspective: Side,
    ksq: int,
    pairs: Seq<(Side, usize, usize, Side)>,
    n: int,
) -> Seq<int>
    decreases n,
{
    if n <= 0 {
        Seq::empty()
    } else {
        let p = pairs[n - 1];
        let rest = pair_features_of(perspective, ksq, pairs, n - 1);
        match pair_slot(perspective, p.0, p.1, p.2, p.3, ksq) {
            Some(i) => rest.push(i + (PSQ_DIMS + THREAT_DIMS)),
            None => rest,
        }
    }
}

/// The pair features of a position for one side.
pub open spec fn pair_features(pos: &SfnnPosition, perspective: Side) -> Seq<int> {
    pair_features_of(
        perspective,
        pos.king_square_spec(perspective),
        pawn_pairs(pos),
        pawn_pairs(pos).len() as int,
    )
}

/// The pair features of the first `n` pairs of a list.
pub fn pair_feature_list(
    perspective: Side,
    ksq: usize,
    pairs: &Vec<(Side, usize, usize, Side)>,
    n: usize,
) -> (out: Vec<usize>)
    requires
        pairs_in_range(pairs@),
        n <= pairs.len(),
    ensures
        ints(out@) == pair_features_of(perspective, ksq as int, pairs@, n as int),
{
    let mut out: Vec<usize> = Vec::new();
    let mut i: usize = 0;
    assert(ints(out@) =~= pair_features_of(perspective, ksq as int, pairs@, 0));
    while i < n
        invariant
            i <= n <= pairs.len(),
            pairs_in_range(pairs@),
            ints(out@) == pair_features_of(perspective, ksq as int, pairs@, i as int),
        decreases n - i,
    {
        let p: (Side, usize, usize, Side) = pairs[i];
        assert(pairs@[i as int].1 < 64);
        if let Some(idx) = pair_make_index(perspective, p.0, p.1, p.2, p.3, ksq) {
            proof {
                lemma_ints_push(out@, idx);
            }
            out.push(idx);
        }
        i = i + 1;
    }
    out
}

/// Appends the pair features of one side.
pub fn append_pairs(pos: &SfnnPosition, perspective: Side, out: &mut Vec<usize>)
    ensures
        ints(final(out)@) == ints(old(out)@) + pair_features(pos, perspective),
{
    let ksq: usize = pos.king_square(perspective);
    proof {
        law_pairs_in_range(pos);
    }
    let pairs: Vec<(Side, usize, usize, Side)> = for_each_pair(pos);
    let mut list: Vec<usize> = pair_feature_list(perspective, ksq, &pairs, pairs.len());
    let ghost l = list@;
    out.append(&mut list);
    assert(ints(out@) =~= ints(old(out)@) + ints(l));
}

/// Writes the pair features of one side to a fixed buffer, as many as fit, and
/// returns their number.
pub fn collect_pairs(pos: &SfnnPosition, perspective: Side, out: &mut [usize; 256]) -> (n: usize)
    ensures
        n == min(pair_features(pos, perspective).len() as int, MAX_PAIR_ACTIVE as int),
        forall|i: int| 0 <= i < n ==> #[trigger] final(out)@[i] == pair_features(pos, perspective)[i],
        forall|i: int| n <= i < MAX_PAIR_ACTIVE ==> #[trigger] final(out)@[i] == old(out)@[i],
{
    let mut list: Vec<usize> = Vec::new();
    append_pairs(pos, perspective, &mut list);
    assert(ints(list@) =~= pair_features(pos, perspective));
    let n: usize = if list.len() < MAX_PAIR_ACTIVE {
        list.len()
    } else {
        MAX_PAIR_ACTIVE
    };
    let mut i: usize = 0;
    assert(ints(list@).len() == list.len());
    while i < n
        invariant
            i <= n <= list.len(),
            n <= 256,
            ints(list@) == pair_features(pos, perspective),
            forall|k: int| 0 <= k < i ==> #[trigger] out@[k] == pair_features(pos, perspective)[k],
            forall|k: int| i <= k < 256 ==> #[trigger] out@[k] == old(out)@[k],
        decreases n - i,
    {
        assert(ints(list@)[i as int] == list@[i as int]);
        out[i] = list[i];
        i = i + 1;
    }
    n
}

/// Whether every pawn stands between the outer ranks.
pub open spec fn pawns_inside(pos: &SfnnPosition) -> bool {
    forall|s: int|
        0 <= s < 64 && (#[trigger] bit(pos.pieces@[0] & pos.white, s) || bit(
            pos.pieces@[0] & pos.black,
            s,
        )) ==> pawn_rank(s)
}

/// Pairs of different pawns between the outer ranks.
pub open spec fn pairs_inside(pairs: Seq<(Side, usize, usize, Side)>) -> bool {
    forall|i: int|
        0 <= i < pairs.len() ==> pawn_rank((#[trigger] pairs[i]).1 as int) && pawn_rank(
            pairs[i].2 as int,
        ) && pairs[i].1 != pairs[i].2
}

proof fn lemma_partners_inside(
    color: Side,
    from: int,
    pawns: u64,
    paired: Side,
    after: int,
    n: int,
)
    requires
        pawn_rank(from),
        0 <= n <= 64,
    ensures
        pairs_inside(partners(color, from, pawns, paired, after, n)),
    decreases n,
{
    if n > 0 {
        lemma_partners_inside(color, from, pawns, paired, after, n - 1);
        let rest = partners(color, from, pawns, paired, after, n - 1);
        let all = partners(color, from, pawns, paired, after, n);
        assert forall|i: int| 0 <= i < all.len() implies pawn_rank((#[trigger] all[i]).1 as int)
            && pawn_rank(all[i].2 as int) && all[i].1 != all[i].2 by {
            if i < rest.len() {
                assert(pawn_rank(rest[i].1 as int));
            }
        }
    }
}

proof fn lemma_white_pairs_inside(white: u64, black: u64, n: int)
    requires
        0 <= n <= 64,
        forall|s: int| 0 <= s < 64 && #[trigger] bit(white, s) ==> pawn_rank(s),
    ensures
        pairs_inside(white_pairs(white, black, n)),
    decreases n,
{
    if n > 0 {
        lemma_white_pairs_inside(white, black, n - 1);
        if bit(white, n - 1) {
            lemma_partners_inside(Side::White, n - 1, white, Side::White, n - 1, 64);
            lemma_partners_inside(Side::White, n - 1, black, Side::Black, -1, 64);
        }
    }
}

proof fn lemma_black_pairs_inside(black: u64, n: int)
    requires
        0 <= n <= 64,
        forall|s: int| 0 <= s < 64 && #[trigger] bit(black, s) ==> pawn_rank(s),
    ensures
        pairs_inside(black_pairs(black, n)),
    decreases n,
{
    if n > 0 {
        lemma_black_pairs_inside(black, n - 1);
        if bit(black, n - 1) {
            lemma_partners_inside(Side::Black, n - 1, black, Side::Black, n - 1, 64);
        }
    }
}

pub proof fn lemma_pair_features_bound(
    perspective: Side,
    ksq: int,
    pairs: Seq<(Side, usize, usize, Side)>,
    n: int,
)
    requires
        pairs_inside(pairs),
        0 <= n <= pairs.len(),
    ensures
        forall|i: int|
            0 <= i < pair_features_of(perspective, ksq, pairs, n).len() ==> #[trigger] pair_features_of(
                perspective,
                ksq,
                pairs,
                n,
            )[i] < PSQ_DIMS + THREAT_DIMS + PAIR_DIMS,
    decreases n,
{
    if n > 0 {
        lemma_pair_features_bound(perspective, ksq, pairs, n - 1);
        let p = pairs[n - 1];
        law_pair_in_block(perspective, p.0, p.1, p.2, p.3, ksq);
        let rest = pair_features_of(perspective, ksq, pairs, n - 1);
        let all = pair_features_of(perspective, ksq, pairs, n);
        assert forall|i: int| 0 <= i < all.len() implies #[trigger] all[i] < PSQ_DIMS + THREAT_DIMS
            + PAIR_DIMS by {
            if i < rest.len() {
                assert(all[i] == rest[i]);
            }
        }
    }
}

/// Pair features lie above the blocks before theirs.
pub proof fn lemma_pair_features_above(
    perspective: Side,
    ksq: int,
    pairs: Seq<(Side, usize, usize, Side)>,
    n: int,
)
    requires
        pairs_in_range(pairs),
        0 <= n <= pairs.len(),
    ensures
        forall|i: int|
            0 <= i < pair_features_of(perspective, ksq, pairs, n).len() ==> PSQ_DIMS + THREAT_DIMS
                <= #[trigger] pair_features_of(perspective, ksq, pairs, n)[i],
    decreases n,
{
    if n > 0 {
        lemma_pair_features_above(perspective, ksq, pairs, n - 1);
        let p = pairs[n - 1];
        lemma_pair_slot_bound(perspective, p.0, p.1, p.2, p.3, ksq);
        let rest = pair_features_of(perspective, ksq, pairs, n - 1);
        let all = pair_features_of(perspective, ksq, pairs, n);
        assert forall|i: int| 0 <= i < all.len() implies PSQ_DIMS + THREAT_DIMS
            <= #[trigger] all[i] by {
            if i < rest.len() {
                assert(all[i] == rest[i]);
            }
        }
    }
}

/// Pawns between the outer ranks pair up there.
pub proof fn lemma_pairs_inside(pos: &SfnnPosition)
    requires
        pawns_inside(pos),
    ensures
        pairs_inside(pawn_pairs(pos)),
{
    let white = pos.pieces@[0] & pos.white;
    let black = pos.pieces@[0] & pos.black;
    assert forall|s: int| 0 <= s < 64 && #[trigger] bit(black, s) implies pawn_rank(s) by {
        let w = bit(white, s);
    }
    lemma_white_pairs_inside(white, black, 64);
    lemma_black_pairs_inside(black, 64);
}

/// Every pair of a position whose pawns stand between the outer ranks has a
/// feature, and it lies in the block of pairs.
pub proof fn law_pairs_in_block(pos: &SfnnPosition, perspective: Side)
    requires
        pawns_inside(pos),
    ensures
        pair_features(pos, perspective).len() == pawn_pairs(pos).len(),
        forall|i: int|
            0 <= i < pair_features(pos, perspective).len() ==> PSQ_DIMS + THREAT_DIMS
                <= #[trigger] pair_features(pos, perspective)[i] < PSQ_DIMS + THREAT_DIMS
                + PAIR_DIMS,
{
    let ksq = pos.king_square_spec(perspective);
    let pairs = pawn_pairs(pos);
    lemma_pairs_inside(pos);
    law_pairs_in_range(pos);
    lemma_pair_features_bound(perspective, ksq, pairs, pairs.len() as int);
    lemma_pair_features_above(perspective, ksq, pairs, pairs.len() as int);
    lemma_pair_features_len(perspective, ksq, pairs, pairs.len() as int);
}

proof fn lemma_pair_features_len(
    perspective: Side,
    ksq: int,
    pairs: Seq<(Side, usize, usize, Side)>,
    n: int,
)
    requires
        pairs_inside(pairs),
        0 <= n <= pairs.len(),
    ensures
        pair_features_of(perspective, ksq, pairs, n).len() == n,
    decreases n,
{
    if n > 0 {
        lemma_pair_features_len(perspective, ksq, pairs, n - 1);
        let p = pairs[n - 1];
        law_pair_in_block(perspective, p.0, p.1, p.2, p.3, ksq);
    }
}

/// A pair has one number, whichever pawn comes first.
pub proof fn law_pair_symmetric(
    perspective: Side,
    color: Side,
    from: usize,
    to: usize,
    paired_color: Side,
    ksq: int,
)
    ensures
        pair_slot(perspective, color, from, to, paired_color, ksq) == pair_slot(
            perspective,
            paired_color,
            to,
            from,
            color,
            ksq,
        ),
{
}

/// The number of a pawn between the outer ranks, as one side sees it, is one of
/// 96, and different for different pawns.
proof fn lemma_pawn_ids(perspective: Side, ksq: int, c: Side, s: usize, d: Side, t: usize)
    requires
        !(perspective is Both),
        !(c is Both),
        !(d is Both),
        pawn_rank(s as int),
        pawn_rank(t as int),
    ensures
        pawn_id(perspective == c, (s ^ pair_turn(perspective, ksq)) as int) matches Some(a) && 0
            <= a < 96,
        pawn_id(perspective == c, (s ^ pair_turn(perspective, ksq)) as int) == pawn_id(
            perspective == d,
            (t ^ pair_turn(perspective, ksq)) as int,
        ) <==> c == d && s == t,
{
    let turn = pair_turn(perspective, ksq);
    lemma_turned(perspective, ksq, s);
    lemma_turned(perspective, ksq, t);
    lemma_xor64(s, turn);
    lemma_xor64(t, turn);
    let m: usize = if ksq % 8 < 4 {
        0
    } else {
        7
    };
    let f = flip_of(perspective);
    assert(8 <= (s ^ (f ^ m)) < 56 && 8 <= (t ^ (f ^ m)) < 56) by (bit_vector)
        requires
            8 <= s < 56,
            8 <= t < 56,
            f == 0 || f == 56,
            m == 0 || m == 7,
    ;
}

/// Two unordered pairs of numbers have the same triangle number exactly if they
/// are the same.
proof fn lemma_triangle_pairs(a: int, b: int, c: int, d: int)
    requires
        0 <= a,
        0 <= b,
        0 <= c,
        0 <= d,
        a != b,
        c != d,
    ensures
        triangle_index(a, b) == triangle_index(c, d) <==> (a == c && b == d) || (a == d && b == c),
{
    if triangle_index(a, b) == triangle_index(c, d) {
        law_triangle_injective(min(a, b), max(a, b), min(c, d), max(c, d));
    }
}

/// Two pairs of different pawns between the outer ranks have the same number
/// exactly if they are the same two pawns.
pub proof fn law_pair_injective(
    perspective: Side,
    ksq: int,
    color: Side,
    from: usize,
    to: usize,
    paired_color: Side,
    color2: Side,
    from2: usize,
    to2: usize,
    paired_color2: Side,
)
    requires
        !(perspective is Both),
        !(color is Both),
        !(paired_color is Both),
        !(color2 is Both),
        !(paired_color2 is Both),
        pawn_rank(from as int),
        pawn_rank(to as int),
        pawn_rank(from2 as int),
        pawn_rank(to2 as int),
        (color, from) != (paired_color, to),
        (color2, from2) != (paired_color2, to2),
    ensures
        pair_slot(perspective, color, from, to, paired_color, ksq) == pair_slot(
            perspective,
            color2,
            from2,
            to2,
            paired_color2,
            ksq,
        ) <==> {
            ||| (color, from) == (color2, from2) && (paired_color, to) == (paired_color2, to2)
            ||| (color, from) == (paired_color2, to2) && (paired_color, to) == (color2, from2)
        },
{
    let turn = pair_turn(perspective, ksq);
    lemma_pawn_ids(perspective, ksq, color, from, paired_color, to);
    lemma_pawn_ids(perspective, ksq, color2, from2, paired_color2, to2);
    lemma_pawn_ids(perspective, ksq, color, from, color2, from2);
    lemma_pawn_ids(perspective, ksq, color, from, paired_color2, to2);
    lemma_pawn_ids(perspective, ksq, paired_color, to, color2, from2);
    lemma_pawn_ids(perspective, ksq, paired_color, to, paired_color2, to2);
    lemma_pawn_ids(perspective, ksq, paired_color2, to2, paired_color, to);
    let a = pawn_id(perspective == color, (from ^ turn) as int);
    let b = pawn_id(perspective == paired_color, (to ^ turn) as int);
    let c = pawn_id(perspective == color2, (from2 ^ turn) as int);
    let d = pawn_id(perspective == paired_color2, (to2 ^ turn) as int);
    lemma_triangle_pairs(a->0, b->0, c->0, d->0);
}

/// Whether two pawns make a pair: both stand there, each in the band of the
/// other's file, White's before Black's, and of one colour the lower square
/// first.
pub open spec fn pair_of(white: u64, black: u64, p: (Side, usize, usize, Side)) -> bool {
    &&& p.1 < 64
    &&& p.2 < 64
    &&& in_band(p.1 as int, p.2 as int)
    &&& {
        ||| p.0 is White && p.3 is White && bit(white, p.1 as int) && bit(white, p.2 as int) && p.1
            < p.2
        ||| p.0 is White && p.3 is Black && bit(white, p.1 as int) && bit(black, p.2 as int)
        ||| p.0 is Black && p.3 is Black && bit(black, p.1 as int) && bit(black, p.2 as int) && p.1
            < p.2
    }
}

proof fn lemma_partners(color: Side, from: int, pawns: u64, paired: Side, after: int, n: int)
    requires
        0 <= from < 64,
        0 <= n <= 64,
        -1 <= after,
    ensures
        partners(color, from, pawns, paired, after, n).no_duplicates(),
        forall|i: int|
            #![trigger partners(color, from, pawns, paired, after, n)[i]]
            0 <= i < partners(color, from, pawns, paired, after, n).len() ==> {
                let p = partners(color, from, pawns, paired, after, n)[i];
                &&& p.0 == color && p.1 == from && p.3 == paired
                &&& after < p.2 < n && bit(pawns, p.2 as int) && in_band(from, p.2 as int)
            },
        forall|t: usize|
            after < t < n && bit(pawns, t as int) && in_band(from, t as int)
                ==> #[trigger] partners(color, from, pawns, paired, after, n).contains(
                (color, from as usize, t, paired),
            ),
    decreases n,
{
    if n > 0 {
        lemma_partners(color, from, pawns, paired, after, n - 1);
        let rest = partners(color, from, pawns, paired, after, n - 1);
        let all = partners(color, from, pawns, paired, after, n);
        assert forall|t: usize|
            after < t < n && bit(pawns, t as int) && in_band(from, t as int) implies
            #[trigger] all.contains((color, from as usize, t, paired)) by {
            let p = (color, from as usize, t, paired);
            if t == n - 1 {
                assert(all[all.len() - 1] == p);
            } else {
                assert(rest.contains(p));
                let i = choose|i: int| 0 <= i < rest.len() && rest[i] == p;
                assert(all[i] == p);
            }
        }
    }
}

/// Two lists without duplicates and without a common item join to one without
/// duplicates.
pub proof fn lemma_joined<T>(a: Seq<T>, b: Seq<T>)
    requires
        a.no_duplicates(),
        b.no_duplicates(),
        forall|i: int, j: int| 0 <= i < a.len() && 0 <= j < b.len() ==> a[i] != b[j],
    ensures
        (a + b).no_duplicates(),
        forall|x: T| #[trigger] (a + b).contains(x) <==> a.contains(x) || b.contains(x),
{
    let c = a + b;
    assert forall|i: int, j: int| 0 <= i < c.len() && 0 <= j < c.len() && i != j implies c[i]
        != c[j] by {
        if i < a.len() && j >= a.len() {
            assert(a[i] != b[j - a.len()]);
        } else if j < a.len() && i >= a.len() {
            assert(a[j] != b[i - a.len()]);
        } else if i >= a.len() {
            assert(b[i - a.len()] != b[j - a.len()]);
        }
    }
    assert forall|x: T| #[trigger] c.contains(x) <==> a.contains(x) || b.contains(x) by {
        if c.contains(x) {
            let i = choose|i: int| 0 <= i < c.len() && c[i] == x;
            if i < a.len() {
                assert(a[i] == x);
            } else {
                assert(b[i - a.len()] == x);
            }
        }
        if a.contains(x) {
            let i = choose|i: int| 0 <= i < a.len() && a[i] == x;
            assert(c[i] == x);
        }
        if b.contains(x) {
            let i = choose|i: int| 0 <= i < b.len() && b[i] == x;
            assert(c[a.len() + i] == x);
        }
    }
}

proof fn lemma_white_pairs(white: u64, black: u64, n: int)
    requires
        0 <= n <= 64,
    ensures
        white_pairs(white, black, n).no_duplicates(),
        forall|p: (Side, usize, usize, Side)| #[trigger]
            white_pairs(white, black, n).contains(p) <==> p.0 is White && p.1 < n && pair_of(
                white,
                black,
                p,
            ),
    decreases n,
{
    if n > 0 {
        lemma_white_pairs(white, black, n - 1);
        let rest = white_pairs(white, black, n - 1);
        if bit(white, n - 1) {
            lemma_partners(Side::White, n - 1, white, Side::White, n - 1, 64);
            lemma_partners(Side::White, n - 1, black, Side::Black, -1, 64);
            let own = partners(Side::White, n - 1, white, Side::White, n - 1, 64);
            let other = partners(Side::White, n - 1, black, Side::Black, -1, 64);
            assert forall|i: int, j: int| 0 <= i < rest.len() && 0 <= j < own.len() implies rest[i]
                != own[j] by {
                assert(rest.contains(rest[i]));
            }
            lemma_joined(rest, own);
            let both = rest + own;
            assert forall|i: int, j: int| 0 <= i < both.len() && 0 <= j < other.len() implies
                both[i] != other[j] by {
                if i < rest.len() {
                    assert(rest.contains(rest[i]));
                } else {
                    assert(both[i] == own[i - rest.len()]);
                }
            }
            lemma_joined(both, other);
            let all = both + other;
            assert forall|p: (Side, usize, usize, Side)| #[trigger]
                all.contains(p) <==> p.0 is White && p.1 < n && pair_of(white, black, p) by {
                if own.contains(p) {
                    let i = choose|i: int| 0 <= i < own.len() && own[i] == p;
                }
                if other.contains(p) {
                    let i = choose|i: int| 0 <= i < other.len() && other[i] == p;
                }
                if p.0 is White && p.1 == n - 1 && pair_of(white, black, p) {
                    if p.3 is White {
                        assert(own.contains((Side::White, (n - 1) as usize, p.2, Side::White)));
                    } else {
                        assert(other.contains((Side::White, (n - 1) as usize, p.2, Side::Black)));
                    }
                }
                assert(both.contains(p) <==> rest.contains(p) || own.contains(p));
            }
        } else {
            assert forall|p: (Side, usize, usize, Side)| #[trigger]
                rest.contains(p) <==> p.0 is White && p.1 < n && pair_of(white, black, p) by {}
        }
    }
}

proof fn lemma_black_pairs(white: u64, black: u64, n: int)
    requires
        0 <= n <= 64,
    ensures
        black_pairs(black, n).no_duplicates(),
        forall|p: (Side, usize, usize, Side)| #[trigger]
            black_pairs(black, n).contains(p) <==> p.0 is Black && p.1 < n && pair_of(
                white,
                black,
                p,
            ),
    decreases n,
{
    if n > 0 {
        lemma_black_pairs(white, black, n - 1);
        let rest = black_pairs(black, n - 1);
        if bit(black, n - 1) {
            lemma_partners(Side::Black, n - 1, black, Side::Black, n - 1, 64);
            let own = partners(Side::Black, n - 1, black, Side::Black, n - 1, 64);
            assert forall|i: int, j: int| 0 <= i < rest.len() && 0 <= j < own.len() implies rest[i]
                != own[j] by {
                assert(rest.contains(rest[i]));
            }
            lemma_joined(rest, own);
            let all = rest + own;
            assert forall|p: (Side, usize, usize, Side)| #[trigger]
                all.contains(p) <==> p.0 is Black && p.1 < n && pair_of(white, black, p) by {
                if own.contains(p) {
                    let i = choose|i: int| 0 <= i < own.len() && own[i] == p;
                }
                if p.0 is Black && p.1 == n - 1 && pair_of(white, black, p) {
                    assert(own.contains((Side::Black, (n - 1) as usize, p.2, Side::Black)));
                }
            }
        } else {
            assert forall|p: (Side, usize, usize, Side)| #[trigger]
                rest.contains(p) <==> p.0 is Black && p.1 < n && pair_of(white, black, p) by {}
        }
    }
}

/// Every pawn pair of a position is listed once.
pub proof fn law_pairs_listed_once(pos: &SfnnPosition)
    ensures
        pawn_pairs(pos).no_duplicates(),
        forall|p: (Side, usize, usize, Side)| #[trigger]
            pawn_pairs(pos).contains(p) <==> pair_of(
                pos.pieces@[0] & pos.white,
                pos.pieces@[0] & pos.black,
                p,
            ),
{
    let white = pos.pieces@[0] & pos.white;
    let black = pos.pieces@[0] & pos.black;
    lemma_white_pairs(white, black, 64);
    lemma_black_pairs(white, black, 64);
    let a = white_pairs(white, black, 64);
    let b = black_pairs(black, 64);
    assert forall|i: int, j: int| 0 <= i < a.len() && 0 <= j < b.len() implies a[i] != b[j] by {
        assert(a.contains(a[i]));
        assert(b.contains(b[j]));
    }
    lemma_joined(a, b);
}

/// Every listed feature is that of a pair.
proof fn lemma_pair_source(
    perspective: Side,
    ksq: int,
    pairs: Seq<(Side, usize, usize, Side)>,
    n: int,
    i: int,
) -> (k: int)
    requires
        0 <= n <= pairs.len(),
        0 <= i < pair_features_of(perspective, ksq, pairs, n).len(),
    ensures
        0 <= k < n,
        pair_slot(perspective, pairs[k].0, pairs[k].1, pairs[k].2, pairs[k].3, ksq) == Some(
            pair_features_of(perspective, ksq, pairs, n)[i] - (PSQ_DIMS + THREAT_DIMS),
        ),
    decreases n,
{
    let rest = pair_features_of(perspective, ksq, pairs, n - 1);
    if n > 0 && i < rest.len() {
        lemma_pair_source(perspective, ksq, pairs, n - 1, i)
    } else {
        n - 1
    }
}

proof fn lemma_pair_features_distinct(pos: &SfnnPosition, perspective: Side, ksq: int, n: int)
    requires
        !(perspective is Both),
        pawns_inside(pos),
        0 <= n <= pawn_pairs(pos).len(),
    ensures
        pair_features_of(perspective, ksq, pawn_pairs(pos), n).no_duplicates(),
    decreases n,
{
    if n > 0 {
        let pairs = pawn_pairs(pos);
        lemma_pair_features_distinct(pos, perspective, ksq, n - 1);
        law_pairs_listed_once(pos);
        lemma_pairs_inside(pos);
        let p = pairs[n - 1];
        assert(pairs.contains(p));
        let rest = pair_features_of(perspective, ksq, pairs, n - 1);
        let all = pair_features_of(perspective, ksq, pairs, n);
        if let Some(f) = pair_slot(perspective, p.0, p.1, p.2, p.3, ksq) {
            let x = f + (PSQ_DIMS + THREAT_DIMS);
            assert forall|i: int| 0 <= i < rest.len() implies #[trigger] rest[i] != x by {
                let k = lemma_pair_source(perspective, ksq, pairs, n - 1, i);
                let q = pairs[k];
                assert(pairs.contains(q));
                assert(q != p);
                law_pair_injective(
                    perspective,
                    ksq,
                    p.0,
                    p.1,
                    p.2,
                    p.3,
                    q.0,
                    q.1,
                    q.2,
                    q.3,
                );
            }
            assert(all =~= rest.push(x));
        }
    }
}

/// No pair of a position is listed twice.
pub proof fn law_pair_features_listed_once(pos: &SfnnPosition, perspective: Side)
    requires
        !(perspective is Both),
        pawns_inside(pos),
    ensures
        pair_features(pos, perspective).no_duplicates(),
{
    lemma_pair_features_distinct(
        pos,
        perspective,
        pos.king_square_spec(perspective),
        pawn_pairs(pos).len() as int,
    );
}

/// Pairs are numbered without gaps: for each larger number all smaller ones in
/// order, and then the next larger number.
pub proof fn law_triangle_has_no_gaps(hi: int, lo: int)
    requires
        0 <= lo < hi,
    ensures
        triangle_index(1, 0) == 0,
        lo + 1 < hi ==> triangle_index(hi, lo + 1) == triangle_index(hi, lo) + 1,
        triangle_index(hi + 1, 0) == triangle_index(hi, hi - 1) + 1,
        triangle_index(lo, hi) == triangle_index(hi, lo),
{
    assert((hi + 1) * hi == hi * (hi - 1) + 2 * hi) by (nonlinear_arith);
    let q = hi * (hi - 1);
    assert((q + 2 * hi) / 2 == q / 2 + hi);
    assert(1int * (1int - 1) == 0);
}

/// Where no turning is needed, own pawns are numbered from the second rank up,
/// those of the other side after 48 of them; a pawn on the first rank makes no
/// pair.
#[verifier::rlimit(60)]
pub proof fn law_pair_slot_values(from: usize, to: usize, ksq: int)
    requires
        from < 64,
        to < 64,
        ksq % 8 < 4,
    ensures
        from >= 8 && to >= 8 ==> pair_slot(
            Side::White,
            Side::White,
            from,
            to,
            Side::White,
            ksq,
        ) == Some(triangle_index(from - 8, to - 8)),
        from >= 8 && to >= 8 ==> pair_slot(
            Side::White,
            Side::White,
            from,
            to,
            Side::Black,
            ksq,
        ) == Some(triangle_index(from - 8, to + 40)),
        from >= 8 && to >= 8 ==> pair_slot(
            Side::White,
            Side::Black,
            from,
            to,
            Side::Black,
            ksq,
        ) == Some(triangle_index(from + 40, to + 40)),
        from < 8 || to < 8 ==> pair_slot(Side::White, Side::White, from, to, Side::White, ksq)
            is None,
{
    assert(from ^ (0usize ^ 0usize) == from && to ^ (0usize ^ 0usize) == to) by (bit_vector);
}

/// A pair looks the same mirrored from left to right with the king, and mirrored
/// from side to side with the colours exchanged.
#[verifier::rlimit(60)]
pub proof fn law_pairs_mirror(
    color: Side,
    from: usize,
    to: usize,
    paired: Side,
    ksq: int,
    mirrored_ksq: int,
)
    requires
        from < 64,
        to < 64,
        !(color is Both),
        !(paired is Both),
        (ksq % 8 < 4) != (mirrored_ksq % 8 < 4),
    ensures
        pair_slot(Side::White, color, from ^ 7, to ^ 7, paired, mirrored_ksq) == pair_slot(
            Side::White,
            color,
            from,
            to,
            paired,
            ksq,
        ),
        pair_slot(
            Side::Black,
            color.other_spec(),
            from ^ 56,
            to ^ 56,
            paired.other_spec(),
            ksq,
        ) == pair_slot(Side::White, color, from, to, paired, ksq),
{
    assert((from ^ 7) ^ (0usize ^ 7usize) == from ^ (0usize ^ 0usize)) by (bit_vector);
    assert((to ^ 7) ^ (0usize ^ 7usize) == to ^ (0usize ^ 0usize)) by (bit_vector);
    assert((from ^ 7) ^ (0usize ^ 0usize) == from ^ (0usize ^ 7usize)) by (bit_vector);
    assert((to ^ 7) ^ (0usize ^ 0usize) == to ^ (0usize ^ 7usize)) by (bit_vector);
    let t: usize = if ksq % 8 < 4 {
        0
    } else {
        7
    };
    assert((from ^ 56) ^ (56usize ^ t) == from ^ (0usize ^ t)) by (bit_vector);
    assert((to ^ 56) ^ (56usize ^ t) == to ^ (0usize ^ t)) by (bit_vector);
}

/// Pawns make a pair where they stand on the same or neighbouring files, the
/// second one between the outer ranks.
pub proof fn law_pairs_stand_close(from: int, to: int)
    requires
        0 <= from < 64,
        0 <= to < 64,
    ensures
        in_band(from, to) <==> from != to && 8 <= to < 56 && -1 <= to % 8 - from % 8 <= 1,
{
}

} // verus!
