//! Adding up feature weights: the arithmetic behind the accumulators.

use vstd::prelude::*;

use crate::bits::{bit, lemma_bit_ops};
use crate::board::{Piece, Side};
use crate::eval::nnue::v16::arch::N_BUCKETS;
use crate::eval::nnue::v16::loader::SfnnTransformer;
use crate::eval::nnue::v16::position::{halfka_feature, ints, Placement};
use crate::math::{lemma_wrap16_step, lemma_wrap32_step, lemma_wrapping_i16, lemma_wrapping_i32, wrap16, wrap32};

verus! {

/// Sum of one column over the rows of a list of features.
pub open spec fn column_sum16(w: Seq<i16>, width: int, feats: Seq<int>, j: int) -> int
    decreases feats.len(),
{
    if feats.len() == 0 {
        0
    } else {
        column_sum16(w, width, feats.drop_last(), j) + w[feats.last() * width + j] as int
    }
}

/// Sum of one bucket over the rows of a list of features.
pub open spec fn column_sum32(w: Seq<i32>, feats: Seq<int>, b: int) -> int
    decreases feats.len(),
{
    if feats.len() == 0 {
        0
    } else {
        column_sum32(w, feats.drop_last(), b) + w[feats.last() * 8 + b] as int
    }
}

/// A change taken in the direction of an update.
pub open spec fn signed(sign: i16, x: int) -> int {
    if sign == 1 {
        x
    } else {
        -x
    }
}

/// Whether a feature has its rows in the weight lists.
pub open spec fn has_rows(tr: &SfnnTransformer, width: int, f: int) -> bool {
    0 <= f && f * width + width <= tr.weights.len() && f * 8 + 8 <= tr.psqt_w.len()
}

/// Adds the rows of one feature, or takes them away.
pub fn apply_feature(
    tr: &SfnnTransformer,
    width: usize,
    f: usize,
    acc: &mut [i16],
    psqt: &mut [i32; 8],
    sign: i16,
)
    requires
        has_rows(tr, width as int, f as int),
        width <= old(acc).len(),
    ensures
        final(acc).len() == old(acc).len(),
        forall|j: int|
            0 <= j < width ==> #[trigger] final(acc)@[j] == wrap16(
                old(acc)@[j] + signed(sign, tr.weights@[f * width + j] as int),
            ),
        forall|j: int| width <= j < old(acc).len() ==> #[trigger] final(acc)@[j] == old(acc)@[j],
        forall|b: int|
            0 <= b < 8 ==> #[trigger] final(psqt)@[b] == wrap32(
                old(psqt)@[b] + signed(sign, tr.psqt_w@[f * 8 + b] as int),
            ),
{
    assert(f * width >= 0) by (nonlinear_arith)
        requires
            f >= 0,
            width >= 0,
    ;
    let base: usize = f * width;
    let ghost start = acc@;
    let mut j: usize = 0;
    while j < width
        invariant
            j <= width <= acc.len(),
            acc.len() == start.len(),
            start == old(acc)@,
            base == f * width,
            base + width <= tr.weights.len(),
            forall|k: int|
                0 <= k < j ==> #[trigger] acc@[k] == wrap16(
                    start[k] + signed(sign, tr.weights@[f * width + k] as int),
                ),
            forall|k: int| j <= k < acc.len() ==> #[trigger] acc@[k] == start[k],
        decreases width - j,
    {
        let w: i16 = tr.weights[base + j];
        proof {
            lemma_wrapping_i16(acc@[j as int], w);
        }
        if sign == 1 {
            acc[j] = acc[j].wrapping_add(w);
        } else {
            acc[j] = acc[j].wrapping_sub(w);
        }
        j = j + 1;
    }
    let pbase: usize = f * N_BUCKETS;
    let ghost pstart = psqt@;
    let mut b: usize = 0;
    while b < 8
        invariant
            b <= 8,
            pstart == old(psqt)@,
            pbase == f * 8,
            pbase + 8 <= tr.psqt_w.len(),
            forall|k: int|
                0 <= k < b ==> #[trigger] psqt@[k] == wrap32(
                    pstart[k] + signed(sign, tr.psqt_w@[f * 8 + k] as int),
                ),
            forall|k: int| b <= k < 8 ==> #[trigger] psqt@[k] == pstart[k],
        decreases 8 - b,
    {
        let w: i32 = tr.psqt_w[pbase + b];
        proof {
            lemma_wrapping_i32(psqt@[b as int], w);
        }
        if sign == 1 {
            psqt[b] = psqt[b].wrapping_add(w);
        } else {
            psqt[b] = psqt[b].wrapping_sub(w);
        }
        b = b + 1;
    }
}

/// Adds the rows of a list of features, or takes them away.
pub fn scatter_halfka(
    tr: &SfnnTransformer,
    l1: usize,
    feats: &[usize],
    acc: &mut [i16],
    psqt: &mut [i32; 8],
    sign: i16,
)
    requires
        l1 <= old(acc).len(),
        forall|i: int| 0 <= i < feats.len() ==> has_rows(tr, l1 as int, #[trigger] feats@[i] as int),
    ensures
        final(acc).len() == old(acc).len(),
        forall|j: int|
            0 <= j < l1 ==> #[trigger] final(acc)@[j] == wrap16(
                old(acc)@[j] + signed(sign, column_sum16(
                    tr.weights@,
                    l1 as int,
                    ints(feats@),
                    j,
                )),
            ),
        forall|j: int| l1 <= j < old(acc).len() ==> #[trigger] final(acc)@[j] == old(acc)@[j],
        forall|b: int|
            0 <= b < 8 ==> #[trigger] final(psqt)@[b] == wrap32(
                old(psqt)@[b] + signed(sign, column_sum32(tr.psqt_w@, ints(feats@), b)),
            ),
{
    let ghost start = acc@;
    let ghost pstart = psqt@;
    let mut i: usize = 0;
    proof {
        assert(ints(feats@).take(0) =~= Seq::<int>::empty());
        assert forall|j: int| 0 <= j < l1 implies #[trigger] acc@[j] == wrap16(
            start[j] + signed(sign, column_sum16(
                tr.weights@,
                l1 as int,
                ints(feats@).take(0),
                j,
            )),
        ) by {
            lemma_wrapping_i16(acc@[j], 0);
        }
        assert forall|b: int| 0 <= b < 8 implies #[trigger] psqt@[b] == wrap32(
            pstart[b] + signed(sign, column_sum32(tr.psqt_w@, ints(feats@).take(0), b)),
        ) by {
            lemma_wrapping_i32(psqt@[b], 0);
        }
    }
    while i < feats.len()
        invariant
            i <= feats.len(),
            l1 <= acc.len(),
            acc.len() == start.len(),
            start == old(acc)@,
            pstart == old(psqt)@,
            forall|k: int|
                0 <= k < feats.len() ==> has_rows(tr, l1 as int, #[trigger] feats@[k] as int),
            forall|j: int|
                0 <= j < l1 ==> #[trigger] acc@[j] == wrap16(
                    start[j] + signed(sign, column_sum16(
                        tr.weights@,
                        l1 as int,
                        ints(feats@).take(i as int),
                        j,
                    )),
                ),
            forall|j: int| l1 <= j < acc.len() ==> #[trigger] acc@[j] == start[j],
            forall|b: int|
                0 <= b < 8 ==> #[trigger] psqt@[b] == wrap32(
                    pstart[b] + signed(sign, column_sum32(
                        tr.psqt_w@,
                        ints(feats@).take(i as int),
                        b,
                    )),
                ),
        decreases feats.len() - i,
    {
        let ghost before = acc@;
        let ghost pbefore = psqt@;
        let f: usize = feats[i];
        assert(has_rows(tr, l1 as int, feats@[i as int] as int));
        apply_feature(tr, l1, f, acc, psqt, sign);
        proof {
            let list = ints(feats@);
            assert(list.take(i + 1).drop_last() =~= list.take(i as int));
            assert(list.take(i + 1).last() == f);
            assert forall|j: int| 0 <= j < l1 implies #[trigger] acc@[j] == wrap16(
                start[j] + signed(sign, column_sum16(
                    tr.weights@,
                    l1 as int,
                    list.take(i + 1),
                    j,
                )),
            ) by {
                assert(before[j] == wrap16(
                    start[j] + signed(sign, column_sum16(
                        tr.weights@,
                        l1 as int,
                        list.take(i as int),
                        j,
                    )),
                ));
                let s = column_sum16(tr.weights@, l1 as int, list.take(i as int), j);
                let w = tr.weights@[f * l1 + j] as int;
                lemma_wrap16_step(start[j] + signed(sign, s), signed(sign, w));
            }
            assert forall|b: int| 0 <= b < 8 implies #[trigger] psqt@[b] == wrap32(
                pstart[b] + signed(sign, column_sum32(tr.psqt_w@, list.take(i + 1), b)),
            ) by {
                assert(pbefore[b] == wrap32(
                    pstart[b] + signed(sign, column_sum32(
                        tr.psqt_w@,
                        list.take(i as int),
                        b,
                    )),
                ));
                let s = column_sum32(tr.psqt_w@, list.take(i as int), b);
                let w = tr.psqt_w@[f * 8 + b] as int;
                lemma_wrap32_step(pstart[b] + signed(sign, s), signed(sign, w));
            }
        }
        i = i + 1;
    }
    assert(ints(feats@).take(feats.len() as int) =~= ints(feats@));
}

/// Adding a list of features and taking it away again changes nothing.
pub proof fn law_scatter_roundtrip(x: i16, p: i32, s16: int, s32: int)
    ensures
        wrap16(wrap16(x + s16) - s16) == x,
        wrap32(wrap32(p + s32) - s32) == p,
{
    lemma_wrap16_step(x + s16, s16);
    lemma_wrap32_step(p + s32, s32);
    lemma_wrapping_i16(x, 0);
    lemma_wrapping_i32(p, 0);
}

/// What one square contributes to a column of the piece-square weights.
pub open spec fn term16(pl: Placement, view: Side, ksq: int, w: Seq<i16>, j: int, s: int) -> int {
    if pl.active(s) {
        w[pl.feature(view, ksq, s) * 1024 + j] as int
    } else {
        0
    }
}

/// What one square contributes to a bucket.
pub open spec fn term32(pl: Placement, view: Side, ksq: int, w: Seq<i32>, b: int, s: int) -> int {
    if pl.active(s) {
        w[pl.feature(view, ksq, s) * 8 + b] as int
    } else {
        0
    }
}

/// Contributions of the squares below `n`.
pub open spec fn squares_sum16(
    pl: Placement,
    view: Side,
    ksq: int,
    w: Seq<i16>,
    j: int,
    n: int,
) -> int
    decreases n,
{
    if n <= 0 {
        0
    } else {
        squares_sum16(pl, view, ksq, w, j, n - 1) + term16(pl, view, ksq, w, j, n - 1)
    }
}

/// Contributions of the squares below `n`.
pub open spec fn squares_sum32(
    pl: Placement,
    view: Side,
    ksq: int,
    w: Seq<i32>,
    b: int,
    n: int,
) -> int
    decreases n,
{
    if n <= 0 {
        0
    } else {
        squares_sum32(pl, view, ksq, w, b, n - 1) + term32(pl, view, ksq, w, b, n - 1)
    }
}

/// Summing over the listed features is summing over the squares.
pub proof fn lemma_features_sum(
    pl: Placement,
    view: Side,
    ksq: int,
    w16: Seq<i16>,
    w32: Seq<i32>,
    j: int,
    b: int,
    n: int,
)
    requires
        0 <= n,
    ensures
        column_sum16(w16, 1024, pl.features(view, ksq, n), j) == squares_sum16(
            pl,
            view,
            ksq,
            w16,
            j,
            n,
        ),
        column_sum32(w32, pl.features(view, ksq, n), b) == squares_sum32(
            pl,
            view,
            ksq,
            w32,
            b,
            n,
        ),
    decreases n,
{
    if n > 0 {
        lemma_features_sum(pl, view, ksq, w16, w32, j, b, n - 1);
        if pl.active(n - 1) {
            let rest = pl.features(view, ksq, n - 1);
            let f = pl.feature(view, ksq, n - 1);
            assert(rest.push(f).drop_last() =~= rest);
        }
    }
}

/// Whether a square of the old placement has to be taken away.
pub open spec fn goes(from: Placement, to: Placement, s: int) -> bool {
    bit(from.occupied, s) && (!bit(to.occupied, s) || replaced(from, to, s))
}

/// Whether a square of the new placement has to be added.
pub open spec fn comes(from: Placement, to: Placement, s: int) -> bool {
    bit(to.occupied, s) && (!bit(from.occupied, s) || replaced(from, to, s))
}

/// Whether another piece stands on the square.
pub open spec fn replaced(from: Placement, to: Placement, s: int) -> bool {
    bit(from.white, s) != bit(to.white, s) || from.mapping[s] != to.mapping[s]
}

/// Contributions of the squares below `n` that go.
pub open spec fn gone16(
    from: Placement,
    to: Placement,
    view: Side,
    ksq: int,
    w: Seq<i16>,
    j: int,
    n: int,
) -> int
    decreases n,
{
    if n <= 0 {
        0
    } else {
        gone16(from, to, view, ksq, w, j, n - 1) + if goes(from, to, n - 1) {
            term16(from, view, ksq, w, j, n - 1)
        } else {
            0
        }
    }
}

/// Contributions of the squares below `n` that go.
pub open spec fn gone32(
    from: Placement,
    to: Placement,
    view: Side,
    ksq: int,
    w: Seq<i32>,
    b: int,
    n: int,
) -> int
    decreases n,
{
    if n <= 0 {
        0
    } else {
        gone32(from, to, view, ksq, w, b, n - 1) + if goes(from, to, n - 1) {
            term32(from, view, ksq, w, b, n - 1)
        } else {
            0
        }
    }
}

/// What goes and what comes is the whole difference.
pub proof fn lemma_difference(
    from: Placement,
    to: Placement,
    view: Side,
    ksq: int,
    w16: Seq<i16>,
    w32: Seq<i32>,
    j: int,
    b: int,
    n: int,
)
    requires
        0 <= n <= 64,
    ensures
        squares_sum16(to, view, ksq, w16, j, n) == squares_sum16(from, view, ksq, w16, j, n)
            - gone16(from, to, view, ksq, w16, j, n) + gone16(to, from, view, ksq, w16, j, n),
        squares_sum32(to, view, ksq, w32, b, n) == squares_sum32(from, view, ksq, w32, b, n)
            - gone32(from, to, view, ksq, w32, b, n) + gone32(to, from, view, ksq, w32, b, n),
    decreases n,
{
    if n > 0 {
        lemma_difference(from, to, view, ksq, w16, w32, j, b, n - 1);
        let s = n - 1;
        assert(goes(to, from, s) == comes(from, to, s));
        if !goes(from, to, s) && !comes(from, to, s) {
            assert(term16(from, view, ksq, w16, j, s) == term16(to, view, ksq, w16, j, s));
            assert(term32(from, view, ksq, w32, b, s) == term32(to, view, ksq, w32, b, s));
        }
    }
}

/// A placement with one square emptied.
pub open spec fn without(pl: Placement, s: int) -> Placement {
    Placement { occupied: pl.occupied & !(1u64 << (s as u64)), ..pl }
}

/// A placement with a piece put on one square.
pub open spec fn placed(pl: Placement, s: int, side: Side, kind: int) -> Placement {
    Placement {
        occupied: pl.occupied | (1u64 << (s as u64)),
        white: if side is White {
            pl.white | (1u64 << (s as u64))
        } else {
            pl.white & !(1u64 << (s as u64))
        },
        mapping: pl.mapping.update(s, kind as u8),
    }
}

/// Emptying a square takes exactly its contribution away.
pub proof fn lemma_without(
    pl: Placement,
    view: Side,
    ksq: int,
    w16: Seq<i16>,
    w32: Seq<i32>,
    j: int,
    b: int,
    s: int,
    n: int,
)
    requires
        0 <= s < 64,
        0 <= n <= 64,
    ensures
        squares_sum16(without(pl, s), view, ksq, w16, j, n) == squares_sum16(
            pl,
            view,
            ksq,
            w16,
            j,
            n,
        ) - if s < n {
            term16(pl, view, ksq, w16, j, s)
        } else {
            0
        },
        squares_sum32(without(pl, s), view, ksq, w32, b, n) == squares_sum32(
            pl,
            view,
            ksq,
            w32,
            b,
            n,
        ) - if s < n {
            term32(pl, view, ksq, w32, b, s)
        } else {
            0
        },
    decreases n,
{
    if n > 0 {
        lemma_without(pl, view, ksq, w16, w32, j, b, s, n - 1);
        lemma_bit_ops(pl.occupied, 1u64 << (s as u64), n - 1);
        crate::bits::lemma_bit_insert(0, s, n - 1);
    }
}

/// Putting a piece on an empty square adds exactly its contribution.
pub proof fn lemma_placed(
    pl: Placement,
    view: Side,
    ksq: int,
    w16: Seq<i16>,
    w32: Seq<i32>,
    j: int,
    b: int,
    s: int,
    side: Side,
    kind: int,
    n: int,
)
    requires
        0 <= s < 64,
        0 <= n <= 64,
        0 <= kind <= 5,
        !(side is Both),
        pl.mapping.len() == 64,
        !bit(pl.occupied, s),
    ensures
        squares_sum16(placed(pl, s, side, kind), view, ksq, w16, j, n) == squares_sum16(
            pl,
            view,
            ksq,
            w16,
            j,
            n,
        ) + if s < n {
            w16[halfka_feature(view, side, Piece::of_index(kind), s as usize, ksq as usize) * 1024
                + j] as int
        } else {
            0
        },
        squares_sum32(placed(pl, s, side, kind), view, ksq, w32, b, n) == squares_sum32(
            pl,
            view,
            ksq,
            w32,
            b,
            n,
        ) + if s < n {
            w32[halfka_feature(view, side, Piece::of_index(kind), s as usize, ksq as usize) * 8
                + b] as int
        } else {
            0
        },
    decreases n,
{
    if n > 0 {
        lemma_placed(pl, view, ksq, w16, w32, j, b, s, side, kind, n - 1);
        let m = 1u64 << (s as u64);
        lemma_bit_ops(pl.occupied, m, n - 1);
        lemma_bit_ops(pl.white, m, n - 1);
        crate::bits::lemma_bit_insert(0, s, n - 1);
    }
}

/// A sum over features counts each of them with its own weight: nothing for an
/// empty list, the weight of the row for one feature, and the sum of both parts
/// for a list in two parts.
pub proof fn law_columns_count_each_feature(
    w: Seq<i16>,
    width: int,
    v: Seq<i32>,
    front: Seq<int>,
    back: Seq<int>,
    feature: int,
    j: int,
)
    ensures
        column_sum16(w, width, Seq::empty(), j) == 0,
        column_sum16(w, width, seq![feature], j) == w[feature * width + j],
        column_sum16(w, width, front + back, j) == column_sum16(w, width, front, j) + column_sum16(
            w,
            width,
            back,
            j,
        ),
        column_sum32(v, Seq::empty(), j) == 0,
        column_sum32(v, seq![feature], j) == v[8 * feature + j],
        column_sum32(v, front + back, j) == column_sum32(v, front, j) + column_sum32(v, back, j),
    decreases back.len(),
{
    assert(seq![feature].drop_last() =~= Seq::<int>::empty());
    assert(column_sum16(w, width, seq![feature].drop_last(), j) == 0);
    assert(column_sum32(v, seq![feature].drop_last(), j) == 0);
    if back.len() == 0 {
        assert(front + back =~= front);
    } else {
        law_columns_count_each_feature(w, width, v, front, back.drop_last(), feature, j);
        assert((front + back).drop_last() =~= front + back.drop_last());
        assert((front + back).last() == back.last());
    }
}

} // verus!
