//! Quantised inference of the v16 network.

use vstd::prelude::*;

use crate::board::Side;
use crate::eval::nnue::leb128::{ints16, ints8};
use crate::eval::nnue::threat_tables::{
    law_threat_features_in_range, threat_edges, threat_feature_list, ThreatLuts,
};
use crate::eval::nnue::v16::arch::{div_trunc, OUTPUT_SCALE, PSQ_DIMS, THREAT_DIMS};
use crate::eval::nnue::v16::loader::{Sfnn16Net, SfnnArch};
use crate::eval::nnue::v16::pairs::{
    for_each_pair, law_pairs_in_range, lemma_pair_slot_bound, pair_feature_list, pair_features_of,
    pairs_in_range, pawn_pairs,
};
use crate::eval::nnue::v16::position::{ints, SfnnPosition};
use crate::eval::nnue::v16::threats::{for_each_threat, lemma_v16_scheme, v16_luts, v16_scheme};
use crate::math::{
    clamp, clamp_i32, div_toward_zero, is_quotient, law_quotient, lemma_wrap32_step,
    lemma_wrapping_i32, min, wrap32,
};

verus! {

/// Products of inputs and the weights of one row, summed.
pub open spec fn weighted_sum(x: Seq<u8>, w: Seq<i8>, row: int, n: int) -> int
    decreases n,
{
    if n <= 0 {
        0
    } else {
        weighted_sum(x, w, row, n - 1) + x[n - 1] as int * w[row + n - 1] as int
    }
}

/// One output of a fully connected layer.
pub open spec fn dense(bias: int, x: Seq<u8>, w: Seq<i8>, row: int, n: int) -> int {
    wrap32(bias + weighted_sum(x, w, row, n))
}

pub(crate) fn dense_output(bias: i32, x: &[u8], w: &[i8], row: usize, n: usize) -> (r: i32)
    requires
        n <= x.len(),
        row + n <= w.len(),
    ensures
        r == dense(bias as int, x@, w@, row as int, n as int),
{
    let mut v: i32 = bias;
    let mut i: usize = 0;
    proof {
        lemma_wrapping_i32(bias, 0);
    }
    while i < n
        invariant
            i <= n,
            n <= x.len(),
            row + n <= w.len(),
            v == wrap32(bias + weighted_sum(x@, w@, row as int, i as int)),
        decreases n - i,
    {
        let a: i32 = x[i] as i32;
        let b: i32 = w[row + i] as i32;
        assert(-32_640 <= a * b <= 32_385) by (nonlinear_arith)
            requires
                0 <= a <= 255,
                -128 <= b <= 127,
        ;
        proof {
            lemma_wrapping_i32(v, (a * b) as i32);
            lemma_wrap32_step(bias + weighted_sum(x@, w@, row as int, i as int), a * b);
        }
        v = v.wrapping_add(a * b);
        i = i + 1;
    }
    v
}

/// Squared activation, limited to seven bits.
pub open spec fn square_act(v: int, scale: int) -> int {
    min(v * v / scale, 127)
}

/// Clipped activation, limited to seven bits.
pub open spec fn clip_act(v: int, scale: int) -> int {
    clamp(v / scale, 0, 127)
}

pub(crate) fn square_activation(v: i32, scale: i64) -> (r: u8)
    requires
        scale > 0,
    ensures
        r == square_act(v as int, scale as int),
{
    let w: i64 = v as i64;
    assert(0 <= w * w <= 0x4000_0000_0000_0000) by (nonlinear_arith)
        requires
            -0x8000_0000 <= w <= 0x7fff_ffff,
    ;
    assert(0 <= (w * w) as int / scale as int) by (nonlinear_arith)
        requires
            0 <= w * w,
            scale > 0,
    ;
    let s: i64 = w * w / scale;
    if s >= 127 {
        127
    } else {
        s as u8
    }
}

pub(crate) fn clip_activation(v: i32, scale: i32) -> (r: u8)
    requires
        scale > 0,
    ensures
        r == clip_act(v as int, scale as int),
{
    if v < 0 {
        assert(v as int / scale as int <= 0) by (nonlinear_arith)
            requires
                v < 0,
                scale > 0,
        ;
        return 0;
    }
    assert(0 <= v as int / scale as int) by (nonlinear_arith)
        requires
            v >= 0,
            scale > 0,
    ;
    let c: i32 = v / scale;
    if c >= 127 {
        127
    } else {
        c as u8
    }
}

/// The first layer.
pub open spec fn layer0(arch: &SfnnArch, l1: int, input: Seq<u8>) -> Seq<int> {
    Seq::new(
        32,
        |o: int| dense(arch.fc0_bias@[o] as int, input, arch.fc0_w@, o * l1, l1),
    )
}

/// Both activations of a layer of 32, squares first.
pub open spec fn activated(v: Seq<int>, square_scale: int, clip_scale: int) -> Seq<u8> {
    Seq::new(
        64,
        |i: int|
            if i < 32 {
                square_act(v[i], square_scale) as u8
            } else {
                clip_act(v[i - 32], clip_scale) as u8
            },
    )
}

/// The second layer, over both activations of the first.
pub open spec fn layer1(arch: &SfnnArch, first: Seq<u8>) -> Seq<int> {
    Seq::new(32, |o: int| dense(arch.fc1_bias@[o] as int, first, arch.fc1_w@, o * 64, 64))
}

/// The last layer: a weighted sum of all activations, and the difference of
/// the last two outputs of the first layer passed on directly.
pub open spec fn output_sum(arch: &SfnnArch, l1: int, input: Seq<u8>) -> int {
    let v0 = layer0(arch, l1, input);
    let first = activated(v0, 0x20_0000, 128);
    let second = activated(layer1(arch, first), 0x8_0000, 64);
    wrap32(
        arch.fc2_bias + weighted_sum(first + second, arch.fc2_w@, 0, 128) + (v0[30] - v0[31]),
    )
}

/// The network's answer for transformed features, before the output scale.
pub open spec fn propagated(arch: &SfnnArch, l1: int, input: Seq<u8>) -> int {
    div_toward_zero(output_sum(arch, l1, input) * 9600, 16_384)
}

/// Whether a stack's lists are complete for an input of width `l1`.
pub open spec fn stack_ok(arch: &SfnnArch, l1: int) -> bool {
    32 * l1 <= arch.fc0_w.len() && arch.fc1_w.len() >= 2048
}

/// The outputs of the first layer.
pub fn first_layer(arch: &SfnnArch, l1: usize, input: &[u8]) -> (r: [i32; 32])
    requires
        l1 <= input.len(),
        stack_ok(arch, l1 as int),
    ensures
        forall|o: int| 0 <= o < 32 ==> #[trigger] r@[o] == layer0(arch, l1 as int, input@)[o],
{
    let mut r: [i32; 32] = [0i32; 32];
    let mut o: usize = 0;
    while o < 32
        invariant
            o <= 32,
            l1 <= input.len(),
            stack_ok(arch, l1 as int),
            forall|k: int| 0 <= k < o ==> #[trigger] r@[k] == layer0(arch, l1 as int, input@)[k],
        decreases 32 - o,
    {
        assert(o * l1 + l1 <= 32 * l1 && o * l1 >= 0) by (nonlinear_arith)
            requires
                0 <= o < 32,
                0 <= l1,
        ;
        r[o] = dense_output(arch.fc0_bias[o], input, arch.fc0_w.as_slice(), o * l1, l1);
        o = o + 1;
    }
    r
}

/// Both activations of a layer of 32.
fn activate(v: &[i32; 32], square_scale: i64, clip_scale: i32, out: &mut [u8; 128], at: usize)
    requires
        square_scale > 0,
        clip_scale > 0,
        at <= 64,
    ensures
        forall|i: int|
            0 <= i < 128 && !(at <= i < at + 64) ==> #[trigger] final(out)@[i] == old(out)@[i],
        forall|i: int|
            0 <= i < 32 ==> #[trigger] final(out)@[at + i] == square_act(
                v@[i] as int,
                square_scale as int,
            ),
        forall|i: int|
            32 <= i < 64 ==> #[trigger] final(out)@[at + i] == clip_act(
                v@[i - 32] as int,
                clip_scale as int,
            ),
{
    let mut i: usize = 0;
    while i < 32
        invariant
            i <= 32,
            at <= 64,
            square_scale > 0,
            clip_scale > 0,
            forall|k: int|
                0 <= k < 128 && !(at <= k < at + 64) ==> #[trigger] out@[k] == old(out)@[k],
            forall|k: int|
                0 <= k < i ==> #[trigger] out@[at + k] == square_act(
                    v@[k] as int,
                    square_scale as int,
                ),
            forall|k: int|
                32 <= k < 32 + i ==> #[trigger] out@[at + k] == clip_act(
                    v@[k - 32] as int,
                    clip_scale as int,
                ),
        decreases 32 - i,
    {
        out[at + i] = square_activation(v[i], square_scale);
        out[at + 32 + i] = clip_activation(v[i], clip_scale);
        i = i + 1;
    }
}

/// Runs a layer stack of the integer kind over transformed features.
pub fn propagate(arch: &SfnnArch, l1: usize, input: &[u8]) -> (r: i32)
    requires
        !arch.is_rudi,
        l1 <= input.len(),
        stack_ok(arch, l1 as int),
    ensures
        r == propagated(arch, l1 as int, input@),
{
    let v0: [i32; 32] = first_layer(arch, l1, input);
    let ghost g0 = layer0(arch, l1 as int, input@);
    let ghost first = activated(g0, 0x20_0000, 128);
    let mut acts: [u8; 128] = [0u8; 128];
    activate(&v0, 0x20_0000, 128, &mut acts, 0);
    assert(acts@.take(64) =~= first) by {
        assert forall|i: int| 0 <= i < 64 implies acts@.take(64)[i] == first[i] by {
            assert(acts@[0 + i] == acts@[i]);
            if i < 32 {
                assert(v0@[i] == g0[i]);
            } else {
                assert(v0@[i - 32] == g0[i - 32]);
            }
        }
    }
    let mut v1: [i32; 32] = [0i32; 32];
    let ghost g1 = layer1(arch, first);
    let mut o: usize = 0;
    while o < 32
        invariant
            o <= 32,
            arch.fc1_w.len() >= 2048,
            acts@.take(64) == first,
            g1 == layer1(arch, first),
            forall|k: int| 0 <= k < o ==> #[trigger] v1@[k] == g1[k],
        decreases 32 - o,
    {
        v1[o] = dense_output(arch.fc1_bias[o], acts.as_slice(), arch.fc1_w.as_slice(), o * 64, 64);
        proof {
            lemma_sum_prefix(acts@, first, arch.fc1_w@, o * 64, 64);
        }
        o = o + 1;
    }
    let ghost second = activated(g1, 0x8_0000, 64);
    let ghost before = acts@;
    activate(&v1, 0x8_0000, 64, &mut acts, 64);
    assert(acts@ =~= first + second) by {
        assert forall|i: int| 0 <= i < 128 implies acts@[i] == (first + second)[i] by {
            if i < 64 {
                assert(acts@[i] == before[i]);
                assert(before.take(64)[i] == first[i]);
            } else {
                assert(acts@[64 + (i - 64)] == acts@[i]);
                if i - 64 < 32 {
                    assert(v1@[i - 64] == g1[i - 64]);
                } else {
                    assert(v1@[i - 96] == g1[i - 96]);
                }
            }
        }
    }
    let dot: i32 = dense_output(arch.fc2_bias, acts.as_slice(), arch.fc2_w.as_slice(), 0, 128);
    let skip: i32 = v0[30].wrapping_sub(v0[31]);
    let out: i32 = dot.wrapping_add(skip);
    proof {
        let d = arch.fc2_bias + weighted_sum(acts@, arch.fc2_w@, 0, 128);
        let k = g0[30] - g0[31];
        assert(v0@[30] == g0[30] && v0@[31] == g0[31]);
        lemma_wrapping_i32(v0@[30], v0@[31]);
        lemma_wrapping_i32(dot, skip);
        lemma_wrap32_step(d, wrap32(k));
        lemma_wrap32_step(k, d);
        assert(out == output_sum(arch, l1 as int, input@));
    }
    let wide: i64 = out as i64 * 9600;
    (wide / 16_384) as i32
}

/// Sums over equal prefixes are equal.
proof fn lemma_sum_prefix(x: Seq<u8>, y: Seq<u8>, w: Seq<i8>, row: int, n: int)
    requires
        0 <= n <= 64,
        x.len() >= 64,
        x.take(64) == y,
    ensures
        weighted_sum(x, w, row, n) == weighted_sum(y, w, row, n),
    decreases n,
{
    if n > 0 {
        lemma_sum_prefix(x, y, w, row, n - 1);
        assert(x[n - 1] == x.take(64)[n - 1]);
    }
}

/// Sum of one column over the rows of a list.
pub open spec fn rows_sum(w: Seq<int>, width: int, list: Seq<int>, j: int) -> int
    decreases list.len(),
{
    if list.len() == 0 {
        0
    } else {
        rows_sum(w, width, list.drop_last(), j) + w[list.last() * width + j]
    }
}

/// Every row of a list is in the weights.
pub open spec fn rows_ok(w: Seq<int>, width: int, list: Seq<int>) -> bool {
    forall|i: int|
        0 <= i < list.len() ==> 0 <= #[trigger] list[i] && list[i] * width + width <= w.len()
}

/// Adds the rows of a list of features with 16-bit weights.
fn add_rows_i16(buf: &mut Vec<i32>, w: &Vec<i16>, width: usize, list: &Vec<usize>, limit: Ghost<int>)
    requires
        old(buf).len() == width,
        rows_ok(ints16(w@), width as int, ints(list@)),
        list.len() <= 256,
        0 <= limit@ <= 10_000_000,
        forall|j: int| 0 <= j < width ==> -limit@ <= #[trigger] old(buf)@[j] <= limit@,
    ensures
        final(buf).len() == width,
        forall|j: int|
            0 <= j < width ==> #[trigger] final(buf)@[j] == old(buf)@[j] + rows_sum(
                ints16(w@),
                width as int,
                ints(list@),
                j,
            ),
        forall|j: int|
            0 <= j < width ==> -limit@ - 32_768 * list.len() <= #[trigger] final(buf)@[j] <= limit@
                + 32_768 * list.len(),
{
    let ghost start = buf@;
    let mut i: usize = 0;
    assert(ints(list@).take(0) =~= Seq::<int>::empty());
    while i < list.len()
        invariant
            i <= list.len() <= 256,
            buf.len() == width,
            0 <= limit@ <= 10_000_000,
            rows_ok(ints16(w@), width as int, ints(list@)),
            forall|j: int|
                0 <= j < width ==> #[trigger] buf@[j] == start[j] + rows_sum(
                    ints16(w@),
                    width as int,
                    ints(list@).take(i as int),
                    j,
                ),
            forall|j: int|
                0 <= j < width ==> -limit@ - 32_768 * i <= #[trigger] buf@[j] <= limit@ + 32_768
                    * i,
        decreases list.len() - i,
    {
        let f: usize = list[i];
        assert(ints(list@)[i as int] == f);
        assert(f * width + width <= w.len());
        assert(f * width >= 0) by (nonlinear_arith)
            requires
                f >= 0,
                width >= 0,
        ;
        let base: usize = f * width;
        let ghost before = buf@;
        let mut j: usize = 0;
        while j < width
            invariant
                j <= width,
                i < 256,
                buf.len() == width,
                before.len() == width,
                base == f * width,
                base + width <= w.len(),
                0 <= limit@ <= 10_000_000,
                forall|k: int| 0 <= k < j ==> #[trigger] buf@[k] == before[k] + w@[f * width + k],
                forall|k: int| j <= k < width ==> #[trigger] buf@[k] == before[k],
                forall|k: int|
                    0 <= k < width ==> -limit@ - 32_768 * i <= #[trigger] before[k] <= limit@
                        + 32_768 * i,
            decreases width - j,
        {
            assert(before[j as int] == buf@[j as int]);
            buf[j] = buf[j] + w[base + j] as i32;
            j = j + 1;
        }
        proof {
            let all = ints(list@);
            assert(all.take(i + 1).drop_last() =~= all.take(i as int));
            assert forall|k: int| 0 <= k < width implies #[trigger] buf@[k] == start[k] + rows_sum(
                ints16(w@),
                width as int,
                all.take(i + 1),
                k,
            ) by {
                assert(before[k] == start[k] + rows_sum(
                    ints16(w@),
                    width as int,
                    all.take(i as int),
                    k,
                ));
                assert(ints16(w@)[f * width + k] == w@[f * width + k]);
            }
            assert forall|k: int| 0 <= k < width implies -limit@ - 32_768 * (i + 1)
                <= #[trigger] buf@[k] <= limit@ + 32_768 * (i + 1) by {
                let b = before[k];
            }
        }
        i = i + 1;
    }
    assert(ints(list@).take(list.len() as int) =~= ints(list@));
}

/// Adds the rows of a list of features with 8-bit weights.
pub(crate) fn add_rows_i8(buf: &mut Vec<i32>, w: &Vec<i8>, width: usize, list: &Vec<usize>, limit: Ghost<int>)
    requires
        old(buf).len() == width,
        rows_ok(ints8(w@), width as int, ints(list@)),
        list.len() <= 49_152,
        0 <= limit@ <= 10_000_000,
        forall|j: int| 0 <= j < width ==> -limit@ <= #[trigger] old(buf)@[j] <= limit@,
    ensures
        final(buf).len() == width,
        forall|j: int|
            0 <= j < width ==> #[trigger] final(buf)@[j] == old(buf)@[j] + rows_sum(
                ints8(w@),
                width as int,
                ints(list@),
                j,
            ),
        forall|j: int|
            0 <= j < width ==> -limit@ - 128 * list.len() <= #[trigger] final(buf)@[j] <= limit@
                + 128 * list.len(),
{
    let ghost start = buf@;
    let mut i: usize = 0;
    assert(ints(list@).take(0) =~= Seq::<int>::empty());
    while i < list.len()
        invariant
            i <= list.len() <= 49_152,
            buf.len() == width,
            0 <= limit@ <= 10_000_000,
            rows_ok(ints8(w@), width as int, ints(list@)),
            forall|j: int|
                0 <= j < width ==> #[trigger] buf@[j] == start[j] + rows_sum(
                    ints8(w@),
                    width as int,
                    ints(list@).take(i as int),
                    j,
                ),
            forall|j: int|
                0 <= j < width ==> -limit@ - 128 * i <= #[trigger] buf@[j] <= limit@ + 128
                    * i,
        decreases list.len() - i,
    {
        let f: usize = list[i];
        assert(ints(list@)[i as int] == f);
        assert(f * width + width <= w.len());
        assert(f * width >= 0) by (nonlinear_arith)
            requires
                f >= 0,
                width >= 0,
        ;
        let base: usize = f * width;
        let ghost before = buf@;
        let mut j: usize = 0;
        while j < width
            invariant
                j <= width,
                i < 49_152,
                buf.len() == width,
                before.len() == width,
                base == f * width,
                base + width <= w.len(),
                0 <= limit@ <= 10_000_000,
                forall|k: int| 0 <= k < j ==> #[trigger] buf@[k] == before[k] + w@[f * width + k],
                forall|k: int| j <= k < width ==> #[trigger] buf@[k] == before[k],
                forall|k: int|
                    0 <= k < width ==> -limit@ - 128 * i <= #[trigger] before[k] <= limit@
                        + 128 * i,
            decreases width - j,
        {
            assert(before[j as int] == buf@[j as int]);
            buf[j] = buf[j] + w[base + j] as i32;
            j = j + 1;
        }
        proof {
            let all = ints(list@);
            assert(all.take(i + 1).drop_last() =~= all.take(i as int));
            assert forall|k: int| 0 <= k < width implies #[trigger] buf@[k] == start[k] + rows_sum(
                ints8(w@),
                width as int,
                all.take(i + 1),
                k,
            ) by {
                assert(before[k] == start[k] + rows_sum(
                    ints8(w@),
                    width as int,
                    all.take(i as int),
                    k,
                ));
                assert(ints8(w@)[f * width + k] == w@[f * width + k]);
            }
            assert forall|k: int| 0 <= k < width implies -limit@ - 128 * (i + 1)
                <= #[trigger] buf@[k] <= limit@ + 128 * (i + 1) by {
                let b = before[k];
            }
        }
        i = i + 1;
    }
    assert(ints(list@).take(list.len() as int) =~= ints(list@));
}

/// Sum of one bucket over the rows of a list.
pub open spec fn bucket_sum(w: Seq<i32>, list: Seq<int>, b: int) -> int
    decreases list.len(),
{
    if list.len() == 0 {
        0
    } else {
        bucket_sum(w, list.drop_last(), b) + w[list.last() * 8 + b] as int
    }
}

/// Every bucket row of a list is in the weights.
pub open spec fn bucket_rows_ok(w: Seq<i32>, list: Seq<int>) -> bool {
    forall|i: int| 0 <= i < list.len() ==> 0 <= #[trigger] list[i] && list[i] * 8 + 8 <= w.len()
}

/// Adds one bucket of the rows of a list.
pub(crate) fn add_bucket(start: i32, w: &Vec<i32>, list: &Vec<usize>, b: usize) -> (r: i32)
    requires
        b < 8,
        bucket_rows_ok(w@, ints(list@)),
    ensures
        r == wrap32(start + bucket_sum(w@, ints(list@), b as int)),
{
    let mut v: i32 = start;
    let mut i: usize = 0;
    proof {
        assert(ints(list@).take(0) =~= Seq::<int>::empty());
        lemma_wrapping_i32(start, 0);
    }
    while i < list.len()
        invariant
            i <= list.len(),
            b < 8,
            bucket_rows_ok(w@, ints(list@)),
            v == wrap32(start + bucket_sum(w@, ints(list@).take(i as int), b as int)),
        decreases list.len() - i,
    {
        let f: usize = list[i];
        assert(ints(list@)[i as int] == f);
        assert(f * 8 + 8 <= w.len());
        let x: i32 = w[f * 8 + b];
        proof {
            let all = ints(list@);
            assert(all.take(i + 1).drop_last() =~= all.take(i as int));
            lemma_wrapping_i32(v, x);
            lemma_wrap32_step(start + bucket_sum(w@, all.take(i as int), b as int), x as int);
        }
        v = v.wrapping_add(x);
        i = i + 1;
    }
    assert(ints(list@).take(list.len() as int) =~= ints(list@));
    v
}

/// Edges and pairs that one evaluation takes into account.
pub open spec fn eval_edges(pos: &SfnnPosition) -> int {
    min(threat_edges(pos).len() as int, 128)
}

pub open spec fn eval_pairs(pos: &SfnnPosition) -> int {
    min(pawn_pairs(pos).len() as int, 64)
}

/// Whether an evaluation looks at threats at all.
pub open spec fn sees_threats(net: &Sfnn16Net, active: bool) -> bool {
    net.use_threats && active
}

/// Whether an evaluation looks at pawn pairs.
pub open spec fn sees_pairs(net: &Sfnn16Net, active: bool) -> bool {
    sees_threats(net, active) && (net.transformer.pair_w.len() > 0
        || net.transformer.pair_w_i16.len() > 0)
}

/// Threat features of one perspective in an evaluation, from zero.
pub open spec fn eval_threats(
    pos: &SfnnPosition,
    net: &Sfnn16Net,
    active: bool,
    view: Side,
) -> Seq<int> {
    if sees_threats(net, active) {
        v16_scheme().features(
            view,
            pos.king_square_spec(view) as usize,
            threat_edges(pos),
            eval_edges(pos),
        )
    } else {
        Seq::empty()
    }
}

/// A list of indices moved down by the size of the blocks before it.
pub open spec fn lowered(list: Seq<int>, by: int) -> Seq<int> {
    Seq::new(list.len(), |i: int| list[i] - by)
}

/// Pair features of one perspective in an evaluation, from zero.
pub open spec fn eval_pair_features(
    pos: &SfnnPosition,
    net: &Sfnn16Net,
    active: bool,
    view: Side,
) -> Seq<int> {
    if sees_pairs(net, active) {
        lowered(
            pair_features_of(view, pos.king_square_spec(view), pawn_pairs(pos), eval_pairs(pos)),
            PSQ_DIMS + THREAT_DIMS,
        )
    } else {
        Seq::empty()
    }
}

/// Threat weights of a network, 16 bits wide in raw dumps.
pub open spec fn threat_weights(net: &Sfnn16Net) -> Seq<int> {
    if net.is_rudi {
        ints16(net.transformer.threat_w_i16@)
    } else {
        ints8(net.transformer.threat_w@)
    }
}

pub open spec fn pair_weights(net: &Sfnn16Net) -> Seq<int> {
    if net.is_rudi {
        ints16(net.transformer.pair_w_i16@)
    } else {
        ints8(net.transformer.pair_w@)
    }
}

/// What threats and pairs add to one column.
pub open spec fn extra(
    pos: &SfnnPosition,
    net: &Sfnn16Net,
    active: bool,
    view: Side,
    j: int,
) -> int {
    rows_sum(threat_weights(net), net.l1 as int, eval_threats(pos, net, active, view), j)
        + rows_sum(pair_weights(net), net.l1 as int, eval_pair_features(pos, net, active, view), j)
}

/// Product of two clipped columns half the width apart.
pub open spec fn pairwise(
    pos: &SfnnPosition,
    net: &Sfnn16Net,
    active: bool,
    view: Side,
    base: Seq<i16>,
    j: int,
) -> int {
    let half = net.l1 as int / 2;
    clamp(base[j] + extra(pos, net, active, view, j), 0, 255) * clamp(
        base[j + half] + extra(pos, net, active, view, j + half),
        0,
        255,
    ) / (if net.is_rudi {
        255int
    } else {
        512int
    })
}

/// The input of the layer stacks: the products of the side to move, then those
/// of the other side.
pub open spec fn transformed(
    pos: &SfnnPosition,
    net: &Sfnn16Net,
    active: bool,
    white: Seq<i16>,
    black: Seq<i16>,
    stm: Side,
) -> Seq<u8> {
    let half = net.l1 as int / 2;
    let us = if stm is White {
        white
    } else {
        black
    };
    let them = if stm is White {
        black
    } else {
        white
    };
    Seq::new(
        net.l1 as nat,
        |i: int|
            if i < half {
                pairwise(pos, net, active, stm, us, i) as u8
            } else if i < 2 * half {
                pairwise(pos, net, active, stm.other_spec(), them, i - half) as u8
            } else {
                0u8
            },
    )
}

/// Whether the threat and pair lists of one perspective have their rows in
/// the weights.
pub open spec fn view_ok(pos: &SfnnPosition, net: &Sfnn16Net, active: bool, view: Side) -> bool {
    let threats = eval_threats(pos, net, active, view);
    let pairs = eval_pair_features(pos, net, active, view);
    &&& rows_ok(threat_weights(net), net.l1 as int, threats)
    &&& rows_ok(pair_weights(net), net.l1 as int, pairs)
    &&& !net.is_rudi ==> bucket_rows_ok(net.transformer.threat_psqt_w@, threats)
    &&& !net.is_rudi ==> bucket_rows_ok(net.transformer.pair_psqt_w@, pairs)
}

/// The features of one perspective that an evaluation looks at.
struct ViewLists {
    threats: Vec<usize>,
    pairs: Vec<usize>,
}

fn view_lists(
    pos: &SfnnPosition,
    net: &Sfnn16Net,
    luts: &ThreatLuts,
    active: bool,
    view: Side,
) -> (r: ViewLists)
    requires
        v16_luts(luts),
    ensures
        ints(r.threats@) == eval_threats(pos, net, active, view),
        ints(r.pairs@) == eval_pair_features(pos, net, active, view),
        r.threats.len() <= 128,
        r.pairs.len() <= 64,
{
    let mut threats: Vec<usize> = Vec::new();
    let mut pairs: Vec<usize> = Vec::new();
    assert(ints(threats@) =~= Seq::<int>::empty());
    assert(ints(pairs@) =~= Seq::<int>::empty());
    let ksq: usize = pos.king_square(view);
    if net.use_threats && active {
        let edges: Vec<(usize, usize, usize, usize)> = for_each_threat(pos);
        let n: usize = if edges.len() < 128 {
            edges.len()
        } else {
            128
        };
        threats = threat_feature_list(luts, view, ksq, &edges, n);
        proof {
            lemma_v16_scheme();
            law_threat_features_in_range(&v16_scheme(), view, ksq, edges@, n as int);
            assert(ints(threats@) =~= eval_threats(pos, net, active, view));
        }
        if net.transformer.pair_w.len() > 0 || net.transformer.pair_w_i16.len() > 0 {
            proof {
                law_pairs_in_range(pos);
            }
            let found: Vec<(Side, usize, usize, Side)> = for_each_pair(pos);
            let m: usize = if found.len() < 64 {
                found.len()
            } else {
                64
            };
            let list: Vec<usize> = pair_feature_list(view, ksq, &found, m);
            proof {
                lemma_pair_list_bounds(view, ksq as int, found@, m as int);
                assert(ints(list@).len() == list.len());
            }
            let ghost full = pair_features_of(view, ksq as int, found@, m as int);
            let mut i: usize = 0;
            while i < list.len()
                invariant
                    i <= list.len(),
                    pairs.len() == i,
                    ints(list@) == full,
                    forall|k: int| 0 <= k < full.len() ==> #[trigger] full[k] >= PSQ_DIMS + THREAT_DIMS,
                    forall|k: int|
                        0 <= k < i ==> #[trigger] pairs@[k] == full[k] - (PSQ_DIMS + THREAT_DIMS),
                decreases list.len() - i,
            {
                assert(ints(list@)[i as int] == list@[i as int]);
                assert(full[i as int] >= PSQ_DIMS + THREAT_DIMS);
                pairs.push(list[i] - (PSQ_DIMS + THREAT_DIMS));
                i = i + 1;
            }
            assert(ints(pairs@) =~= eval_pair_features(pos, net, active, view));
        }
    }
    ViewLists { threats, pairs }
}

/// Pair features lie behind the piece-square and threat blocks.
proof fn lemma_pair_list_bounds(
    view: Side,
    ksq: int,
    pairs: Seq<(Side, usize, usize, Side)>,
    n: int,
)
    requires
        pairs_in_range(pairs),
        0 <= n <= pairs.len(),
    ensures
        pair_features_of(view, ksq, pairs, n).len() <= n,
        forall|i: int|
            0 <= i < pair_features_of(view, ksq, pairs, n).len() ==> #[trigger] pair_features_of(
                view,
                ksq,
                pairs,
                n,
            )[i] >= PSQ_DIMS + THREAT_DIMS,
    decreases n,
{
    if n > 0 {
        lemma_pair_list_bounds(view, ksq, pairs, n - 1);
        let p = pairs[n - 1];
        lemma_pair_slot_bound(view, p.0, p.1, p.2, p.3, ksq);
    }
}

/// What threats and pairs add to every column.
fn extra_columns(net: &Sfnn16Net, lists: &ViewLists) -> (buf: Vec<i32>)
    requires
        lists.threats.len() <= 128,
        lists.pairs.len() <= 64,
        rows_ok(threat_weights(net), net.l1 as int, ints(lists.threats@)),
        rows_ok(pair_weights(net), net.l1 as int, ints(lists.pairs@)),
    ensures
        buf.len() == net.l1,
        forall|j: int|
            0 <= j < net.l1 ==> #[trigger] buf@[j] == rows_sum(
                threat_weights(net),
                net.l1 as int,
                ints(lists.threats@),
                j,
            ) + rows_sum(pair_weights(net), net.l1 as int, ints(lists.pairs@), j),
        forall|j: int| 0 <= j < net.l1 ==> -6_291_456 <= #[trigger] buf@[j] <= 6_291_456,
{
    let mut buf: Vec<i32> = vec![0i32; net.l1];
    if net.is_rudi {
        add_rows_i16(&mut buf, &net.transformer.threat_w_i16, net.l1, &lists.threats, Ghost(0));
        let ghost mid = buf@;
        add_rows_i16(
            &mut buf,
            &net.transformer.pair_w_i16,
            net.l1,
            &lists.pairs,
            Ghost(4_194_304),
        );
        assert forall|j: int| 0 <= j < net.l1 implies #[trigger] buf@[j] == rows_sum(
            threat_weights(net),
            net.l1 as int,
            ints(lists.threats@),
            j,
        ) + rows_sum(pair_weights(net), net.l1 as int, ints(lists.pairs@), j) by {
            let m = mid[j];
        }
    } else {
        add_rows_i8(&mut buf, &net.transformer.threat_w, net.l1, &lists.threats, Ghost(0));
        let ghost mid = buf@;
        add_rows_i8(
            &mut buf,
            &net.transformer.pair_w,
            net.l1,
            &lists.pairs,
            Ghost(4_194_304),
        );
        assert forall|j: int| 0 <= j < net.l1 implies #[trigger] buf@[j] == rows_sum(
            threat_weights(net),
            net.l1 as int,
            ints(lists.threats@),
            j,
        ) + rows_sum(pair_weights(net), net.l1 as int, ints(lists.pairs@), j) by {
            let m = mid[j];
        }
    }
    buf
}

/// Product of two clipped columns, scaled down.
fn clipped_product(a: i32, b: i32, clip: i32, by: i32) -> (r: u8)
    requires
        0 <= clip <= 255,
        by == 255 || by == 512,
    ensures
        r == clamp(a as int, 0, clip as int) * clamp(b as int, 0, clip as int) / (by as int),
{
    let x: i32 = clamp_i32(a, 0, clip);
    let y: i32 = clamp_i32(b, 0, clip);
    assert(0 <= x * y <= 65_025) by (nonlinear_arith)
        requires
            0 <= x <= 255,
            0 <= y <= 255,
    ;
    if by == 255 {
        (x * y / 255) as u8
    } else {
        (x * y / 512) as u8
    }
}

/// Appends the products of one perspective.
pub(crate) fn push_products(
    base: &[i16],
    buf: &Vec<i32>,
    half: usize,
    clip: i32,
    by: i32,
    out: &mut Vec<u8>,
)
    requires
        0 <= clip <= 255,
        by == 255 || by == 512,
        2 * half <= base.len(),
        2 * half <= buf.len(),
        forall|j: int| 0 <= j < buf.len() ==> -6_291_456 <= #[trigger] buf@[j] <= 6_291_456,
    ensures
        final(out).len() == old(out).len() + half,
        forall|i: int|
            0 <= i < old(out).len() ==> #[trigger] final(out)@[i] == old(out)@[i],
        forall|j: int|
            0 <= j < half ==> #[trigger] final(out)@[old(out).len() + j] == clamp(
                base@[j] + buf@[j],
                0,
                clip as int,
            ) * clamp(base@[j + half] + buf@[j + half], 0, clip as int) / (by as int),
{
    let ghost n = out.len();
    let mut j: usize = 0;
    while j < half
        invariant
            j <= half,
            0 <= clip <= 255,
            by == 255 || by == 512,
            n == old(out).len(),
            out.len() == n + j,
            2 * half <= base.len(),
            2 * half <= buf.len(),
            forall|k: int| 0 <= k < buf.len() ==> -6_291_456 <= #[trigger] buf@[k] <= 6_291_456,
            forall|i: int| 0 <= i < n ==> #[trigger] out@[i] == old(out)@[i],
            forall|k: int|
                0 <= k < j ==> #[trigger] out@[n + k] == clamp(
                    base@[k] + buf@[k],
                    0,
                    clip as int,
                ) * clamp(base@[k + half] + buf@[k + half], 0, clip as int) / (by as int),
        decreases half - j,
    {
        let a: i32 = base[j] as i32 + buf[j];
        let b: i32 = base[j + half] as i32 + buf[j + half];
        out.push(clipped_product(a, b, clip, by));
        j = j + 1;
    }
}

/// The input of the layer stacks, and what threats and pairs add to one bucket
/// for the side to move and for the other side.
pub fn transform_features(
    pos: &SfnnPosition,
    net: &Sfnn16Net,
    luts: &ThreatLuts,
    active: bool,
    white: &[i16],
    black: &[i16],
    stm: Side,
    bucket: usize,
) -> (r: (Vec<u8>, i32, i32))
    requires
        v16_luts(luts),
        !(stm is Both),
        net.l1 <= white.len(),
        net.l1 <= black.len(),
        bucket < 8,
        view_ok(pos, net, active, Side::White),
        view_ok(pos, net, active, Side::Black),
    ensures
        r.0@ == transformed(pos, net, active, white@, black@, stm),
        !net.is_rudi ==> r.1 == wrap32(bucket_extra(pos, net, active, stm, bucket as int)),
        !net.is_rudi ==> r.2 == wrap32(
            bucket_extra(pos, net, active, stm.other_spec(), bucket as int),
        ),
        net.is_rudi ==> r.1 == 0 && r.2 == 0,
{
    let half: usize = net.l1 / 2;
    let us: &[i16] = if stm == Side::White {
        white
    } else {
        black
    };
    let them: &[i16] = if stm == Side::White {
        black
    } else {
        white
    };
    let lists0: ViewLists = view_lists(pos, net, luts, active, stm);
    let lists1: ViewLists = view_lists(pos, net, luts, active, stm.other());
    let buf0: Vec<i32> = extra_columns(net, &lists0);
    let buf1: Vec<i32> = extra_columns(net, &lists1);
    let mut out: Vec<u8> = Vec::new();
    let by: i32 = if net.is_rudi {
        255
    } else {
        512
    };
    push_products(us, &buf0, half, 255, by, &mut out);
    let ghost mid = out@;
    push_products(them, &buf1, half, 255, by, &mut out);
    let ghost full = out@;
    if net.l1 % 2 == 1 {
        out.push(0);
    }
    proof {
        let spec = transformed(pos, net, active, white@, black@, stm);
        assert forall|i: int| 0 <= i < out.len() implies out@[i] == spec[i] by {
            if i < half {
                assert(full[i] == mid[i]);
                assert(mid[0 + i] == mid[i]);
                assert(buf0@[i] == extra(pos, net, active, stm, i));
                assert(buf0@[i + half] == extra(pos, net, active, stm, i + half));
            } else if i < 2 * half {
                let j = i - half;
                assert(full[mid.len() + j] == full[i]);
                assert(buf1@[j] == extra(pos, net, active, stm.other_spec(), j));
                assert(buf1@[j + half] == extra(pos, net, active, stm.other_spec(), j + half));
            }
        }
        assert(out@ =~= spec);
    }
    if net.is_rudi {
        return (out, 0, 0);
    }
    let t0: i32 = add_bucket(0, &net.transformer.threat_psqt_w, &lists0.threats, bucket);
    let e0: i32 = add_bucket(t0, &net.transformer.pair_psqt_w, &lists0.pairs, bucket);
    let t1: i32 = add_bucket(0, &net.transformer.threat_psqt_w, &lists1.threats, bucket);
    let e1: i32 = add_bucket(t1, &net.transformer.pair_psqt_w, &lists1.pairs, bucket);
    proof {
        let b = bucket as int;
        lemma_wrap32_step(
            bucket_sum(net.transformer.threat_psqt_w@, ints(lists0.threats@), b),
            bucket_sum(net.transformer.pair_psqt_w@, ints(lists0.pairs@), b),
        );
        lemma_wrap32_step(
            bucket_sum(net.transformer.threat_psqt_w@, ints(lists1.threats@), b),
            bucket_sum(net.transformer.pair_psqt_w@, ints(lists1.pairs@), b),
        );
    }
    (out, e0, e1)
}

/// What threats and pairs add to one bucket of a perspective.
pub open spec fn bucket_extra(
    pos: &SfnnPosition,
    net: &Sfnn16Net,
    active: bool,
    view: Side,
    b: int,
) -> int {
    bucket_sum(net.transformer.threat_psqt_w@, eval_threats(pos, net, active, view), b)
        + bucket_sum(net.transformer.pair_psqt_w@, eval_pair_features(pos, net, active, view), b)
}

/// The piece-square term: half the difference of the two sides' buckets.
pub open spec fn psqt_term(
    pos: &SfnnPosition,
    net: &Sfnn16Net,
    active: bool,
    white: Seq<i32>,
    black: Seq<i32>,
    stm: Side,
    bucket: int,
) -> int {
    let us = if stm is White {
        white[bucket]
    } else {
        black[bucket]
    };
    let them = if stm is White {
        black[bucket]
    } else {
        white[bucket]
    };
    let sum = if net.use_threats {
        wrap32(
            us - them + bucket_extra(pos, net, active, stm, bucket) - bucket_extra(
                pos,
                net,
                active,
                stm.other_spec(),
                bucket,
            ),
        )
    } else {
        wrap32(us - them)
    };
    div_toward_zero(div_toward_zero(sum, 2), 16)
}

/// Whether a network of the integer kind can be evaluated on a position.
pub open spec fn evaluable(pos: &SfnnPosition, net: &Sfnn16Net, active: bool, bucket: int) -> bool {
    &&& !net.is_rudi
    &&& view_ok(pos, net, active, Side::White)
    &&& view_ok(pos, net, active, Side::Black)
    &&& 0 <= bucket < 8
    &&& bucket < net.stacks.len()
    &&& !net.stacks@[bucket].is_rudi
    &&& stack_ok(&net.stacks@[bucket], net.l1 as int)
}

/// Half the difference of two buckets, with what threats and pairs add to
/// them, at the output scale.
fn psqt_value(
    us: i32,
    them: i32,
    use_threats: bool,
    e0: i32,
    e1: i32,
    x0: Ghost<int>,
    x1: Ghost<int>,
) -> (r: i32)
    requires
        use_threats ==> e0 == wrap32(x0@) && e1 == wrap32(x1@),
    ensures
        r == div_toward_zero(
            div_toward_zero(
                if use_threats {
                    wrap32(us - them + x0@ - x1@)
                } else {
                    wrap32(us - them)
                },
                2,
            ),
            16,
        ),
        -0x400_0000 <= r <= 0x400_0000,
{
    let mut psqt: i32 = us.wrapping_sub(them);
    proof {
        lemma_wrapping_i32(us, them);
    }
    if use_threats {
        proof {
            let d = us - them;
            lemma_wrapping_i32(psqt, e0);
            lemma_wrapping_i32(psqt.wrapping_add(e0), e1);
            lemma_wrap32_step(d, wrap32(x0@));
            lemma_wrap32_step(x0@, d);
            lemma_wrap32_step(d + x0@, wrap32(x1@));
            lemma_wrap32_sub(d + x0@, x1@);
        }
        psqt = psqt.wrapping_add(e0).wrapping_sub(e1);
    }
    let half: i32 = div_trunc(psqt, 2);
    div_trunc(half, OUTPUT_SCALE)
}

/// Evaluates a position with a network of the integer kind: the piece-square
/// term and the positional term, from the side to move.
pub fn eval_with_net(
    pos: &SfnnPosition,
    net: &Sfnn16Net,
    luts: &ThreatLuts,
    active: bool,
    white: &[i16],
    black: &[i16],
    psqt_white: &[i32; 8],
    psqt_black: &[i32; 8],
    stm: Side,
    bucket: usize,
) -> (r: (i32, i32))
    requires
        v16_luts(luts),
        !(stm is Both),
        net.l1 <= white.len(),
        net.l1 <= black.len(),
        evaluable(pos, net, active, bucket as int),
    ensures
        r.0 == psqt_term(pos, net, active, psqt_white@, psqt_black@, stm, bucket as int),
        r.1 == div_toward_zero(
            propagated(
                &net.stacks@[bucket as int],
                net.l1 as int,
                transformed(pos, net, active, white@, black@, stm),
            ),
            16,
        ),
        -0x400_0000 <= r.0 <= 0x400_0000,
        -0x800_0000 <= r.1 <= 0x800_0000,
{
    let t: (Vec<u8>, i32, i32) = transform_features(
        pos,
        net,
        luts,
        active,
        white,
        black,
        stm,
        bucket,
    );
    let us: i32 = if stm == Side::White {
        psqt_white[bucket]
    } else {
        psqt_black[bucket]
    };
    let them: i32 = if stm == Side::White {
        psqt_black[bucket]
    } else {
        psqt_white[bucket]
    };
    let ghost x0 = bucket_extra(pos, net, active, stm, bucket as int);
    let ghost x1 = bucket_extra(pos, net, active, stm.other_spec(), bucket as int);
    let psqt: i32 = psqt_value(us, them, net.use_threats, t.1, t.2, Ghost(x0), Ghost(x1));
    let positional: i32 = propagate(&net.stacks[bucket], net.l1, t.0.as_slice());
    (psqt, div_trunc(positional, OUTPUT_SCALE))
}

/// Wrapping the part that is taken away does not change the result.
proof fn lemma_wrap32_sub(x: int, y: int)
    ensures
        wrap32(x - wrap32(y)) == wrap32(x - y),
{
}

/// The multiply-and-shift form of the division by 255 is exact for products of
/// two bytes.
pub proof fn law_division_identity(product: int)
    requires
        0 <= product <= 65_025,
    ensures
        (product * 257 + 257) / 65_536 == product / 255,
{
    let q = product / 255;
    let r = product % 255;
    assert(product * 257 + 257 == 65_536 * q + (257 * (r + 1) - q));
    assert(0 <= 257 * (r + 1) - q < 65_536);
}

/// Transformed features are products of two bytes scaled down, so they fit in
/// a byte.
pub proof fn law_pairwise_fits(
    pos: &SfnnPosition,
    net: &Sfnn16Net,
    active: bool,
    view: Side,
    base: Seq<i16>,
    j: int,
)
    ensures
        0 <= pairwise(pos, net, active, view, base, j) <= 255,
        !net.is_rudi ==> pairwise(pos, net, active, view, base, j) <= 127,
{
    let half = net.l1 as int / 2;
    let x = clamp(base[j] + extra(pos, net, active, view, j), 0, 255);
    let y = clamp(base[j + half] + extra(pos, net, active, view, j + half), 0, 255);
    assert(0 <= x * y <= 65_025) by (nonlinear_arith)
        requires
            0 <= x <= 255,
            0 <= y <= 255,
    ;
}

/// The piece-square term measures the lead of the side to move: a thirty-second
/// of it, without the fraction. The lead is what its own list says for the
/// bucket, with what it sees of threats and pairs where the network has them,
/// less the same for the other side.
#[verifier::rlimit(60)]
pub proof fn law_psqt_term_measures_the_lead(
    pos: &SfnnPosition,
    net: &Sfnn16Net,
    active: bool,
    white: Seq<i32>,
    black: Seq<i32>,
    bucket: int,
)
    ensures
        ({
            let lead = white[bucket] - black[bucket];
            let gain = bucket_extra(pos, net, active, Side::White, bucket) - bucket_extra(
                pos,
                net,
                active,
                Side::Black,
                bucket,
            );
            let total = if net.use_threats {
                lead + gain
            } else {
                lead
            };
            let ours = psqt_term(pos, net, active, white, black, Side::White, bucket);
            let theirs = psqt_term(pos, net, active, white, black, Side::Black, bucket);
            -0x8000_0000 < total < 0x8000_0000 ==> is_quotient(total, 32, ours) && is_quotient(
                -total,
                32,
                theirs,
            )
        }),
{
}

/// The side whose list says more gets a term of at least zero, and what one
/// side gets the other loses.
#[verifier::rlimit(60)]
pub proof fn law_psqt_term_favours_the_leader(
    pos: &SfnnPosition,
    net: &Sfnn16Net,
    active: bool,
    white: Seq<i32>,
    black: Seq<i32>,
    bucket: int,
)
    requires
        !net.use_threats,
        white[bucket] - black[bucket] < 0x8000_0000,
        black[bucket] - white[bucket] < 0x8000_0000,
    ensures
        white[bucket] >= black[bucket] ==> psqt_term(
            pos,
            net,
            active,
            white,
            black,
            Side::White,
            bucket,
        ) >= 0,
        black[bucket] >= white[bucket] ==> psqt_term(
            pos,
            net,
            active,
            white,
            black,
            Side::Black,
            bucket,
        ) >= 0,
        psqt_term(pos, net, active, white, black, Side::Black, bucket) == -psqt_term(
            pos,
            net,
            active,
            white,
            black,
            Side::White,
            bucket,
        ),
{
}

/// The term never falls when the sum of the side to move rises, nor rises when
/// that of the other side does, and it moves by one for every 32 points.
#[verifier::spinoff_prover]
#[verifier::rlimit(60)]
pub proof fn law_psqt_term_rises_with_own_sum(
    pos: &SfnnPosition,
    net: &Sfnn16Net,
    active: bool,
    own: Seq<i32>,
    more: Seq<i32>,
    other: Seq<i32>,
    bucket: int,
)
    requires
        !net.use_threats,
        own[bucket] <= more[bucket],
        -0x8000_0000 < own[bucket] - other[bucket],
        more[bucket] - other[bucket] < 0x8000_0000,
    ensures
        psqt_term(pos, net, active, own, other, Side::White, bucket) <= psqt_term(
            pos,
            net,
            active,
            more,
            other,
            Side::White,
            bucket,
        ),
        psqt_term(pos, net, active, other, own, Side::Black, bucket) <= psqt_term(
            pos,
            net,
            active,
            other,
            more,
            Side::Black,
            bucket,
        ),
        psqt_term(pos, net, active, other, own, Side::White, bucket) >= psqt_term(
            pos,
            net,
            active,
            other,
            more,
            Side::White,
            bucket,
        ),
        own[bucket] >= other[bucket] && more[bucket] == own[bucket] + 32 ==> psqt_term(
            pos,
            net,
            active,
            more,
            other,
            Side::White,
            bucket,
        ) == psqt_term(pos, net, active, own, other, Side::White, bucket) + 1,
{
    law_psqt_term_measures_the_lead(pos, net, active, own, other, bucket);
    law_psqt_term_measures_the_lead(pos, net, active, more, other, bucket);
    law_psqt_term_measures_the_lead(pos, net, active, other, own, bucket);
    law_psqt_term_measures_the_lead(pos, net, active, other, more, bucket);
    let low = own[bucket] - other[bucket];
    let high = more[bucket] - other[bucket];
    lemma_quotients_ordered(
        low,
        high,
        psqt_term(pos, net, active, own, other, Side::White, bucket),
        psqt_term(pos, net, active, more, other, Side::White, bucket),
    );
    lemma_quotients_ordered(
        low,
        high,
        psqt_term(pos, net, active, other, own, Side::Black, bucket),
        psqt_term(pos, net, active, other, more, Side::Black, bucket),
    );
    lemma_quotients_ordered(
        -high,
        -low,
        psqt_term(pos, net, active, other, more, Side::White, bucket),
        psqt_term(pos, net, active, other, own, Side::White, bucket),
    );
}

/// Quotients keep the order of what is divided.
proof fn lemma_quotients_ordered(low: int, high: int, a: int, b: int)
    requires
        low <= high,
        is_quotient(low, 32, a),
        is_quotient(high, 32, b),
    ensures
        a <= b,
        0 <= low && high == low + 32 ==> b == a + 1,
{
}

/// A sum over features counts each of them with its own weight: nothing for an
/// empty list, the weight of the row for one feature, and the sum of both parts
/// for a list in two parts.
pub proof fn law_sums_count_each_feature(
    w: Seq<int>,
    width: int,
    v: Seq<i32>,
    front: Seq<int>,
    back: Seq<int>,
    feature: int,
    j: int,
)
    ensures
        rows_sum(w, width, Seq::empty(), j) == 0,
        rows_sum(w, width, seq![feature], j) == w[feature * width + j],
        rows_sum(w, width, front + back, j) == rows_sum(w, width, front, j) + rows_sum(
            w,
            width,
            back,
            j,
        ),
        bucket_sum(v, Seq::empty(), j) == 0,
        bucket_sum(v, seq![feature], j) == v[8 * feature + j],
        bucket_sum(v, front + back, j) == bucket_sum(v, front, j) + bucket_sum(v, back, j),
    decreases back.len(),
{
    assert(seq![feature].drop_last() =~= Seq::<int>::empty());
    assert(rows_sum(w, width, seq![feature].drop_last(), j) == 0);
    assert(bucket_sum(v, seq![feature].drop_last(), j) == 0);
    if back.len() == 0 {
        assert(front + back =~= front);
    } else {
        law_sums_count_each_feature(w, width, v, front, back.drop_last(), feature, j);
        assert((front + back).drop_last() =~= front + back.drop_last());
        assert((front + back).last() == back.last());
    }
}

/// A weighted sum is zero without weights, and raising one weight raises it by
/// as much times the input that the weight belongs to. Weights of other rows do
/// not matter.
pub proof fn law_weighted_sum_is_linear(
    x: Seq<u8>,
    w: Seq<i8>,
    v: Seq<i8>,
    row: int,
    n: int,
    k: int,
    d: int,
)
    requires
        0 <= k,
        forall|i: int| 0 <= i < n && i != k ==> #[trigger] v[row + i] == w[row + i],
        k < n ==> v[row + k] == w[row + k] + d,
    ensures
        weighted_sum(x, v, row, n) == weighted_sum(x, w, row, n) + if k < n {
            d * x[k]
        } else {
            0
        },
        (forall|i: int| 0 <= i < n ==> #[trigger] w[row + i] == 0) ==> weighted_sum(x, w, row, n)
            == 0,
    decreases n,
{
    if n > 0 {
        law_weighted_sum_is_linear(x, w, v, row, n - 1, k, d);
        assert(v[row + (n - 1)] == v[row + n - 1]);
        assert(w[row + (n - 1)] == w[row + n - 1]);
        let a = x[n - 1] as int;
        if k == n - 1 {
            assert(a * (w[row + n - 1] + d) == a * w[row + n - 1] + d * a) by (nonlinear_arith);
        }
        if forall|i: int| 0 <= i < n ==> #[trigger] w[row + i] == 0 {
            assert(w[row + (n - 1)] == 0);
        }
    }
}

/// A squared activation does not depend on the sign, rises with the size, and
/// is the square over the scale without the fraction, up to 127.
pub proof fn law_square_activation(v: int, scale: int)
    requires
        scale > 0,
    ensures
        0 <= square_act(v, scale) <= 127,
        square_act(-v, scale) == square_act(v, scale),
        square_act(v, scale) < 127 ==> is_quotient(v * v, scale, square_act(v, scale)),
        square_act(v, scale) == 127 <==> v * v >= 127 * scale,
{
    assert(v * v >= 0) by (nonlinear_arith);
    assert((-v) * (-v) == v * v) by (nonlinear_arith);
    law_quotient(v * v, scale, (v * v) / scale);
    let q = (v * v) / scale;
    assert(q >= 127 <==> v * v >= 127 * scale) by (nonlinear_arith)
        requires
            0 <= q && scale * q <= v * v < scale * q + scale,
            scale > 0,
    ;
}

/// A clipped activation is zero for what is not positive, and otherwise the
/// value over the scale without the fraction, up to 127.
pub proof fn law_clip_activation(v: int, scale: int)
    requires
        scale > 0,
    ensures
        v <= 0 ==> clip_act(v, scale) == 0,
        v >= 0 && clip_act(v, scale) < 127 ==> is_quotient(v, scale, clip_act(v, scale)),
        clip_act(v, scale) == 127 <==> v >= 127 * scale,
        0 <= clip_act(v, scale) <= 127,
{
    let q = v / scale;
    assert(scale * q <= v < scale * q + scale) by (nonlinear_arith)
        requires
            q == v / scale,
            scale > 0,
    ;
    assert(v <= 0 ==> q <= 0) by (nonlinear_arith)
        requires
            scale * q <= v,
            scale > 0,
    ;
    assert(v >= 0 ==> q >= 0) by (nonlinear_arith)
        requires
            v < scale * q + scale,
            scale > 0,
    ;
    assert(q >= 127 <==> v >= 127 * scale) by (nonlinear_arith)
        requires
            scale * q <= v < scale * q + scale,
            scale > 0,
    ;
}

/// The first half of the layers' input comes from the side to move, the second
/// from the other side: each half stays the same whatever the other list says.
#[verifier::rlimit(60)]
pub proof fn law_own_products_come_first(
    pos: &SfnnPosition,
    net: &Sfnn16Net,
    active: bool,
    own: Seq<i16>,
    other: Seq<i16>,
    else_own: Seq<i16>,
    else_other: Seq<i16>,
    i: int,
)
    requires
        0 <= i < net.l1 as int / 2,
    ensures
        ({
            let half = net.l1 as int / 2;
            let w = transformed(pos, net, active, own, other, Side::White);
            let b = transformed(pos, net, active, other, own, Side::Black);
            &&& w[i] == transformed(pos, net, active, own, else_other, Side::White)[i]
            &&& w[half + i] == transformed(pos, net, active, else_own, other, Side::White)[half + i]
            &&& b[i] == transformed(pos, net, active, else_other, own, Side::Black)[i]
            &&& b[half + i] == transformed(pos, net, active, other, else_own, Side::Black)[half + i]
        }),
{
}

/// Every input of the layers is the product of two columns of one side, half
/// the width apart, each clipped to a byte and with what threats and pairs add
/// to it, over the scale without the fraction.
#[verifier::rlimit(60)]
pub proof fn law_inputs_are_products(
    pos: &SfnnPosition,
    net: &Sfnn16Net,
    active: bool,
    white: Seq<i16>,
    black: Seq<i16>,
    stm: Side,
    i: int,
    a: int,
    b: int,
)
    requires
        !(stm is Both),
        !net.is_rudi,
        0 <= i < 2 * (net.l1 as int / 2),
        ({
            let half = net.l1 as int / 2;
            let j = if i < half {
                i
            } else {
                i - half
            };
            let view = if i < half {
                stm
            } else if stm is White {
                Side::Black
            } else {
                Side::White
            };
            let base = if view is White {
                white
            } else {
                black
            };
            &&& a == base[j] + extra(pos, net, active, view, j)
            &&& b == base[j + half] + extra(pos, net, active, view, j + half)
        }),
    ensures
        ({
            let r = transformed(pos, net, active, white, black, stm)[i];
            &&& a <= 0 || b <= 0 ==> r == 0
            &&& 0 <= a <= 255 && 0 <= b <= 255 ==> is_quotient(a * b, 512, r as int)
            &&& a >= 255 && 0 <= b <= 255 ==> is_quotient(255 * b, 512, r as int)
            &&& b >= 255 && 0 <= a <= 255 ==> is_quotient(255 * a, 512, r as int)
            &&& a >= 255 && b >= 255 ==> r == 127
        }),
{
    let half = net.l1 as int / 2;
    let x = clamp(a, 0, 255);
    let y = clamp(b, 0, 255);
    assert(0 <= x * y <= 65_025) by (nonlinear_arith)
        requires
            0 <= x <= 255,
            0 <= y <= 255,
    ;
    assert((x == 0 || y == 0) ==> x * y == 0) by (nonlinear_arith);
    law_quotient(x * y, 512, (x * y) / 512);
    assert(a >= 255 ==> x * y == 255 * y);
    assert(b >= 255 ==> x * y == 255 * x) by (nonlinear_arith)
        requires
            b >= 255 ==> y == 255,
    ;
    assert(a >= 255 && b >= 255 ==> x * y == 65_025);
    if i < half {
        law_pairwise_fits(pos, net, active, stm, if stm is White { white } else { black }, i);
    } else {
        law_pairwise_fits(
            pos,
            net,
            active,
            stm.other_spec(),
            if stm is White { black } else { white },
            i - half,
        );
    }
}

/// The last layer weighs the squares of the first layer, then its clipped
/// values, then the squares of the second layer, then its clipped values:
/// raising one weight raises the sum by as much times the activation that
/// stands there.
#[verifier::rlimit(60)]
pub proof fn law_last_layer_weighs_activations(
    a: &SfnnArch,
    b: &SfnnArch,
    l1: int,
    input: Seq<u8>,
    k: int,
    d: int,
)
    requires
        0 <= k < 128,
        a.fc0_bias == b.fc0_bias,
        a.fc0_w == b.fc0_w,
        a.fc1_bias == b.fc1_bias,
        a.fc1_w == b.fc1_w,
        a.fc2_bias == b.fc2_bias,
        forall|i: int| 0 <= i < 128 && i != k ==> #[trigger] b.fc2_w@[i] == a.fc2_w@[i],
        b.fc2_w@[k] == a.fc2_w@[k] + d,
    ensures
        ({
            let v0 = layer0(a, l1, input);
            let v1 = layer1(a, activated(v0, 0x20_0000, 128));
            let act = if k < 32 {
                square_act(v0[k], 0x20_0000)
            } else if k < 64 {
                clip_act(v0[k - 32], 128)
            } else if k < 96 {
                square_act(v1[k - 64], 0x8_0000)
            } else {
                clip_act(v1[k - 96], 64)
            };
            output_sum(b, l1, input) == wrap32(output_sum(a, l1, input) + d * act)
        }),
{
    let v0 = layer0(a, l1, input);
    let first = activated(v0, 0x20_0000, 128);
    let v1 = layer1(a, first);
    let second = activated(v1, 0x8_0000, 64);
    let acts = first + second;
    assert(layer0(b, l1, input) =~= v0);
    assert(layer1(b, first) =~= v1);
    assert forall|i: int| 0 <= i < 128 && i != k implies #[trigger] b.fc2_w@[0 + i] == a.fc2_w@[0
        + i] by {
        assert(b.fc2_w@[i] == a.fc2_w@[i]);
    }
    law_weighted_sum_is_linear(acts, a.fc2_w@, b.fc2_w@, 0, 128, k, d);
    let j = if k < 32 {
        k
    } else if k < 64 {
        k - 32
    } else if k < 96 {
        k - 64
    } else {
        k - 96
    };
    if k < 64 {
        law_square_activation(v0[j], 0x20_0000);
        law_clip_activation(v0[j], 128);
        assert(acts[k] == first[k]);
    } else {
        law_square_activation(v1[j], 0x8_0000);
        law_clip_activation(v1[j], 64);
        assert(acts[k] == second[k - 64]);
    }
    let base = a.fc2_bias + weighted_sum(acts, a.fc2_w@, 0, 128) + (v0[30] - v0[31]);
    lemma_wrap32_step(base, d * acts[k]);
}

/// Without weights the last layer passes on its bias and the lead of the last
/// but one output of the first layer over the last one.
pub proof fn law_skip_passes_the_last_two_outputs(arch: &SfnnArch, l1: int, input: Seq<u8>)
    requires
        forall|i: int| 0 <= i < 128 ==> #[trigger] arch.fc2_w@[i] == 0,
    ensures
        output_sum(arch, l1, input) == wrap32(
            arch.fc2_bias + layer0(arch, l1, input)[30] - layer0(arch, l1, input)[31],
        ),
{
    let v0 = layer0(arch, l1, input);
    let first = activated(v0, 0x20_0000, 128);
    let acts = first + activated(layer1(arch, first), 0x8_0000, 64);
    assert forall|i: int| 0 <= i < 128 implies #[trigger] arch.fc2_w@[0 + i] == 0 by {
        assert(arch.fc2_w@[i] == 0);
    }
    law_weighted_sum_is_linear(acts, arch.fc2_w@, arch.fc2_w@, 0, 128, 128, 0);
}

/// An output of the first two layers is its bias where its row has no weights,
/// and raising one weight of the row raises it by as much times the input that
/// the weight belongs to.
pub proof fn law_layers_weigh_their_rows(
    bias: int,
    x: Seq<u8>,
    w: Seq<i8>,
    v: Seq<i8>,
    row: int,
    n: int,
    k: int,
    d: int,
)
    requires
        0 <= k < n,
        forall|i: int| 0 <= i < n && i != k ==> #[trigger] v[row + i] == w[row + i],
        v[row + k] == w[row + k] + d,
    ensures
        dense(bias, x, v, row, n) == wrap32(dense(bias, x, w, row, n) + d * x[k]),
        (forall|i: int| 0 <= i < n ==> #[trigger] w[row + i] == 0) ==> dense(bias, x, w, row, n)
            == wrap32(bias),
{
    law_weighted_sum_is_linear(x, w, v, row, n, k, d);
    lemma_wrap32_step(bias + weighted_sum(x, w, row, n), d * x[k]);
}

/// Each output of the first layer has its own bias and its own row, as wide as
/// the input; each of the second layer its own bias and its own row of 64.
pub proof fn law_outputs_have_their_own_rows(
    a: &SfnnArch,
    b: &SfnnArch,
    l1: int,
    input: Seq<u8>,
    first: Seq<u8>,
    o: int,
)
    requires
        0 <= o < 32,
        0 <= l1,
        a.fc0_bias@[o] == b.fc0_bias@[o],
        forall|i: int| o * l1 <= i < o * l1 + l1 ==> #[trigger] a.fc0_w@[i] == b.fc0_w@[i],
        a.fc1_bias@[o] == b.fc1_bias@[o],
        forall|i: int| o * 64 <= i < o * 64 + 64 ==> #[trigger] a.fc1_w@[i] == b.fc1_w@[i],
    ensures
        layer0(a, l1, input)[o] == layer0(b, l1, input)[o],
        layer1(a, first)[o] == layer1(b, first)[o],
{
    assert forall|i: int| 0 <= i < l1 && i != l1 implies #[trigger] b.fc0_w@[o * l1 + i]
        == a.fc0_w@[o * l1 + i] by {}
    law_weighted_sum_is_linear(input, a.fc0_w@, b.fc0_w@, o * l1, l1, l1, 0);
    assert forall|i: int| 0 <= i < 64 && i != 64 implies #[trigger] b.fc1_w@[o * 64 + i]
        == a.fc1_w@[o * 64 + i] by {}
    law_weighted_sum_is_linear(first, a.fc1_w@, b.fc1_w@, o * 64, 64, 64, 0);
}

/// The positional term has the sign of the last layer's sum and is that sum
/// times 9600 over 16384 times 16, without the fraction; so it never falls when
/// the sum rises.
#[verifier::rlimit(60)]
pub proof fn law_positional_scale(arch: &SfnnArch, l1: int, input: Seq<u8>)
    ensures
        is_quotient(output_sum(arch, l1, input) * 9600, 16_384, propagated(arch, l1, input)),
        is_quotient(
            output_sum(arch, l1, input) * 9600,
            262_144,
            div_toward_zero(propagated(arch, l1, input), 16),
        ),
{
}

/// Threats count where the network has them and they are asked for, pairs where
/// the network has weights for them as well; otherwise nothing is added.
pub proof fn law_extras_need_threats(
    pos: &SfnnPosition,
    net: &Sfnn16Net,
    active: bool,
    view: Side,
    j: int,
)
    ensures
        !net.use_threats || !active ==> extra(pos, net, active, view, j) == 0 && bucket_extra(
            pos,
            net,
            active,
            view,
            j,
        ) == 0,
        net.transformer.pair_w.len() == 0 && net.transformer.pair_w_i16.len() == 0
            ==> eval_pair_features(pos, net, active, view).len() == 0,
{
}

/// As long as a position has no more than 128 threats and 64 pawn pairs, all of
/// them count.
pub proof fn law_all_threats_count(pos: &SfnnPosition, net: &Sfnn16Net, view: Side)
    requires
        net.use_threats,
        threat_edges(pos).len() <= 128,
        pawn_pairs(pos).len() <= 64,
    ensures
        eval_threats(pos, net, true, view) == v16_scheme().features(
            view,
            pos.king_square_spec(view) as usize,
            threat_edges(pos),
            threat_edges(pos).len() as int,
        ),
        net.transformer.pair_w.len() > 0 ==> eval_pair_features(pos, net, true, view).len()
            == pair_features_of(
            view,
            pos.king_square_spec(view),
            pawn_pairs(pos),
            pawn_pairs(pos).len() as int,
        ).len(),
        net.transformer.pair_w.len() > 0 ==> forall|i: int|
            0 <= i < eval_pair_features(pos, net, true, view).len() ==> #[trigger]
            eval_pair_features(pos, net, true, view)[i] + 82_336 == pair_features_of(
                view,
                pos.king_square_spec(view),
                pawn_pairs(pos),
                pawn_pairs(pos).len() as int,
            )[i],
{
}

/// What threats and pairs add: the weights of all threats and of all pairs that
/// count, for the columns as for the buckets.
pub proof fn law_extras_add_up(
    pos: &SfnnPosition,
    net: &Sfnn16Net,
    active: bool,
    view: Side,
    j: int,
)
    requires
        !net.is_rudi,
    ensures
        extra(pos, net, active, view, j) - rows_sum(
            ints8(net.transformer.threat_w@),
            net.l1 as int,
            eval_threats(pos, net, active, view),
            j,
        ) == rows_sum(
            ints8(net.transformer.pair_w@),
            net.l1 as int,
            eval_pair_features(pos, net, active, view),
            j,
        ),
        bucket_extra(pos, net, active, view, j) - bucket_sum(
            net.transformer.threat_psqt_w@,
            eval_threats(pos, net, active, view),
            j,
        ) == bucket_sum(
            net.transformer.pair_psqt_w@,
            eval_pair_features(pos, net, active, view),
            j,
        ),
{
}

} // verus!
