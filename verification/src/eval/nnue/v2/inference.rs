//! Quantised inference of the v10 networks.

use vstd::prelude::*;

use crate::board::Side;
use crate::eval::nnue::leb128::{ints8, low_i32};
use crate::eval::nnue::threat_tables::ThreatLuts;
use crate::eval::nnue::v16::arch::{div_trunc, OUTPUT_SCALE};
use crate::eval::nnue::v16::inference::{
    add_bucket, add_rows_i8, bucket_rows_ok, bucket_sum, clip_act, clip_activation, dense,
    dense_output, law_clip_activation, law_square_activation, law_weighted_sum_is_linear,
    push_products, rows_ok, rows_sum, square_act, square_activation, weighted_sum,
};
use crate::eval::nnue::v16::position::SfnnPosition;
use crate::eval::nnue::v2::arch::THREAT_DIMS;
use crate::eval::nnue::v2::loader::{Sfnn10Net, SfnnArch};
use crate::eval::nnue::v2::threats::{
    collect_threat_list, law_threats_in_block, threat_list, v10_luts,
};
use crate::math::{
    clamp, div_toward_zero, is_quotient, law_quotient, lemma_wrap32_step, lemma_wrapping_i32,
    wrap32,
};

verus! {

/// The first layer.
pub open spec fn layer0(arch: &SfnnArch, l1: int, input: Seq<u8>) -> Seq<int> {
    Seq::new(16, |o: int| dense(arch.fc0_bias@[o] as int, input, arch.fc0_w@, o * l1, l1))
}

/// Both activations of the first fifteen outputs, squares first.
pub open spec fn paired(v: Seq<int>) -> Seq<u8> {
    Seq::new(
        30,
        |i: int|
            if i < 15 {
                square_act(v[i], 0x8_0000) as u8
            } else {
                clip_act(v[i - 15], 64) as u8
            },
    )
}

/// The second layer.
pub open spec fn layer1(arch: &SfnnArch, first: Seq<u8>) -> Seq<int> {
    Seq::new(32, |o: int| dense(arch.fc1_bias@[o] as int, first, arch.fc1_w@, o * 32, 30))
}

/// The clipped activation of the second layer.
pub open spec fn clipped(v: Seq<int>) -> Seq<u8> {
    Seq::new(32, |i: int| clip_act(v[i], 64) as u8)
}

/// The network's answer for transformed features, before the output scale: the
/// last layer, and the last output of the first layer passed on.
pub open spec fn propagated(arch: &SfnnArch, l1: int, input: Seq<u8>) -> int {
    let v0 = layer0(arch, l1, input);
    let second = clipped(layer1(arch, paired(v0)));
    wrap32(
        dense(arch.fc2_bias as int, second, arch.fc2_w@, 0, 32) + div_toward_zero(
            v0[15] * 9600,
            8128,
        ),
    )
}

/// Whether a stack's lists are complete for an input of width `l1`.
pub open spec fn stack_ok(arch: &SfnnArch, l1: int) -> bool {
    16 * l1 <= arch.fc0_w.len() && arch.fc1_w.len() >= 1024
}

fn first_layer(arch: &SfnnArch, l1: usize, input: &[u8]) -> (r: [i32; 16])
    requires
        l1 <= input.len(),
        stack_ok(arch, l1 as int),
    ensures
        forall|o: int| 0 <= o < 16 ==> #[trigger] r@[o] == layer0(arch, l1 as int, input@)[o],
{
    let mut r: [i32; 16] = [0i32; 16];
    let mut o: usize = 0;
    while o < 16
        invariant
            o <= 16,
            l1 <= input.len(),
            stack_ok(arch, l1 as int),
            forall|k: int| 0 <= k < o ==> #[trigger] r@[k] == layer0(arch, l1 as int, input@)[k],
        decreases 16 - o,
    {
        assert(o * l1 + l1 <= 16 * l1 && o * l1 >= 0) by (nonlinear_arith)
            requires
                0 <= o < 16,
                0 <= l1,
        ;
        r[o] = dense_output(arch.fc0_bias[o], input, arch.fc0_w.as_slice(), o * l1, l1);
        o = o + 1;
    }
    r
}

fn pair_up(v: &[i32; 16]) -> (r: [u8; 30])
    ensures
        r@ == paired(Seq::new(16, |i: int| v@[i] as int)),
{
    let mut r: [u8; 30] = [0u8; 30];
    let mut i: usize = 0;
    while i < 15
        invariant
            i <= 15,
            forall|k: int| 0 <= k < i ==> #[trigger] r@[k] == square_act(v@[k] as int, 0x8_0000),
            forall|k: int| 15 <= k < 15 + i ==> #[trigger] r@[k] == clip_act(v@[k - 15] as int, 64),
        decreases 15 - i,
    {
        r[i] = square_activation(v[i], 0x8_0000);
        r[15 + i] = clip_activation(v[i], 64);
        i = i + 1;
    }
    assert(r@ =~= paired(Seq::new(16, |k: int| v@[k] as int)));
    r
}

/// Runs a layer stack over transformed features.
pub fn propagate(arch: &SfnnArch, l1: usize, input: &[u8]) -> (r: i32)
    requires
        l1 <= input.len(),
        stack_ok(arch, l1 as int),
    ensures
        r == propagated(arch, l1 as int, input@),
{
    let v0: [i32; 16] = first_layer(arch, l1, input);
    let ghost g0 = layer0(arch, l1 as int, input@);
    assert(Seq::new(16, |i: int| v0@[i] as int) =~= g0);
    let first: [u8; 30] = pair_up(&v0);
    let ghost g1 = layer1(arch, first@);
    let mut second: [u8; 32] = [0u8; 32];
    let mut o: usize = 0;
    while o < 32
        invariant
            o <= 32,
            arch.fc1_w.len() >= 1024,
            g1 == layer1(arch, first@),
            forall|k: int| 0 <= k < o ==> #[trigger] second@[k] == clip_act(g1[k], 64),
        decreases 32 - o,
    {
        let v: i32 = dense_output(
            arch.fc1_bias[o],
            first.as_slice(),
            arch.fc1_w.as_slice(),
            o * 32,
            30,
        );
        assert(v == g1[o as int]);
        second[o] = clip_activation(v, 64);
        o = o + 1;
    }
    assert(second@ =~= clipped(g1));
    let out: i32 = dense_output(arch.fc2_bias, second.as_slice(), arch.fc2_w.as_slice(), 0, 32);
    assert(v0@[15] == g0[15]);
    let fwd: i64 = v0[15] as i64 * 9600 / 8128;
    low_i32(out as i64 + fwd)
}

/// What threats add to one column.
pub open spec fn threat_extra(pos: &SfnnPosition, net: &Sfnn10Net, view: Side, j: int) -> int {
    if net.use_threats {
        rows_sum(ints8(net.transformer.threat_w@), net.l1 as int, threat_list(pos, view), j)
    } else {
        0
    }
}

/// What threats add to one bucket.
pub open spec fn bucket_extra(pos: &SfnnPosition, net: &Sfnn10Net, view: Side, b: int) -> int {
    if net.use_threats {
        bucket_sum(net.transformer.threat_psqt_w@, threat_list(pos, view), b)
    } else {
        0
    }
}

/// Largest value of a column: the small network stops one short.
pub open spec fn clip_of(net: &Sfnn10Net) -> int {
    if net.use_threats {
        255
    } else {
        254
    }
}

/// Product of two clipped columns half the width apart.
pub open spec fn pairwise(
    pos: &SfnnPosition,
    net: &Sfnn10Net,
    view: Side,
    base: Seq<i16>,
    j: int,
) -> int {
    let half = net.l1 as int / 2;
    clamp(base[j] + threat_extra(pos, net, view, j), 0, clip_of(net)) * clamp(
        base[j + half] + threat_extra(pos, net, view, j + half),
        0,
        clip_of(net),
    ) / 512
}

/// The input of the layer stacks: the products of the side to move, then those
/// of the other side.
pub open spec fn transformed(
    pos: &SfnnPosition,
    net: &Sfnn10Net,
    white: Seq<i16>,
    black: Seq<i16>,
    stm: Side,
) -> Seq<u8> {
    let half = net.l1 as int / 2;
    let us = if stm is White {
        white
    } else {
        black
    };
    let them = if stm is White {
        black
    } else {
        white
    };
    Seq::new(
        net.l1 as nat,
        |i: int|
            if i < half {
                pairwise(pos, net, stm, us, i) as u8
            } else if i < 2 * half {
                pairwise(pos, net, stm.other_spec(), them, i - half) as u8
            } else {
                0u8
            },
    )
}

/// The piece-square term: half the difference of the two sides' buckets.
pub open spec fn psqt_term(
    pos: &SfnnPosition,
    net: &Sfnn10Net,
    white: Seq<i32>,
    black: Seq<i32>,
    stm: Side,
    bucket: int,
) -> int {
    let us = if stm is White {
        white[bucket]
    } else {
        black[bucket]
    };
    let them = if stm is White {
        black[bucket]
    } else {
        white[bucket]
    };
    div_toward_zero(
        div_toward_zero(
            wrap32(
                us - them + bucket_extra(pos, net, stm, bucket) - bucket_extra(
                    pos,
                    net,
                    stm.other_spec(),
                    bucket,
                ),
            ),
            2,
        ),
        16,
    )
}

/// Every threat of a position has its weights in a network with complete
/// lists.
pub proof fn law_sized_net_covers_threats(pos: &SfnnPosition, net: &Sfnn10Net, view: Side)
    requires
        net.sized(),
        net.use_threats,
    ensures
        rows_ok(ints8(net.transformer.threat_w@), net.l1 as int, threat_list(pos, view)),
        bucket_rows_ok(net.transformer.threat_psqt_w@, threat_list(pos, view)),
{
    law_threats_in_block(pos, view);
    let list = threat_list(pos, view);
    let l1 = net.l1 as int;
    assert forall|i: int| 0 <= i < list.len() implies 0 <= #[trigger] list[i] && list[i] * l1 + l1
        <= THREAT_DIMS * l1 by {
        let f = list[i];
        assert(f * l1 + l1 <= 79_856 * l1) by (nonlinear_arith)
            requires
                0 <= f < 79_856,
                l1 >= 0,
        ;
    }
}

/// Products of one perspective, and what threats add to one bucket.
fn transform_side(
    pos: &SfnnPosition,
    net: &Sfnn10Net,
    luts: &ThreatLuts,
    view: Side,
    base: &[i16],
    bucket: usize,
    out: &mut Vec<u8>,
) -> (extra: i32)
    requires
        v10_luts(luts),
        net.sized(),
        net.l1 <= base.len(),
        bucket < 8,
    ensures
        final(out).len() == old(out).len() + net.l1 / 2,
        forall|i: int| 0 <= i < old(out).len() ==> #[trigger] final(out)@[i] == old(out)@[i],
        forall|j: int|
            0 <= j < net.l1 as int / 2 ==> #[trigger] final(out)@[old(out).len() + j] == pairwise(
                pos,
                net,
                view,
                base@,
                j,
            ),
        extra == wrap32(bucket_extra(pos, net, view, bucket as int)),
{
    let half: usize = net.l1 / 2;
    let mut buf: Vec<i32> = vec![0i32; net.l1];
    let mut extra: i32 = 0;
    if net.use_threats {
        let list: Vec<usize> = collect_threat_list(luts, pos, view);
        proof {
            law_sized_net_covers_threats(pos, net, view);
        }
        add_rows_i8(&mut buf, &net.transformer.threat_w, net.l1, &list, Ghost(0));
        extra = add_bucket(0, &net.transformer.threat_psqt_w, &list, bucket);
    }
    assert forall|j: int| 0 <= j < net.l1 implies #[trigger] buf@[j] == threat_extra(
        pos,
        net,
        view,
        j,
    ) by {}
    let clip: i32 = if net.use_threats {
        255
    } else {
        254
    };
    let ghost start = out@;
    push_products(base, &buf, half, clip, 512, out);
    proof {
        assert forall|j: int| 0 <= j < half implies #[trigger] out@[start.len() + j] == pairwise(
            pos,
            net,
            view,
            base@,
            j,
        ) by {
            assert(buf@[j] == threat_extra(pos, net, view, j));
            assert(buf@[j + half] == threat_extra(pos, net, view, j + half));
        }
    }
    extra
}

/// The input of the layer stacks, and what threats add to one bucket for the
/// side to move and for the other side.
fn transform_features(
    pos: &SfnnPosition,
    net: &Sfnn10Net,
    luts: &ThreatLuts,
    white: &[i16],
    black: &[i16],
    stm: Side,
    bucket: usize,
) -> (r: (Vec<u8>, i32, i32))
    requires
        v10_luts(luts),
        !(stm is Both),
        net.sized(),
        net.l1 <= white.len(),
        net.l1 <= black.len(),
        bucket < 8,
    ensures
        r.0@ == transformed(pos, net, white@, black@, stm),
        r.1 == wrap32(bucket_extra(pos, net, stm, bucket as int)),
        r.2 == wrap32(bucket_extra(pos, net, stm.other_spec(), bucket as int)),
{
    let us: &[i16] = if stm == Side::White {
        white
    } else {
        black
    };
    let them: &[i16] = if stm == Side::White {
        black
    } else {
        white
    };
    let half: usize = net.l1 / 2;
    let mut feats: Vec<u8> = Vec::new();
    let e0: i32 = transform_side(pos, net, luts, stm, us, bucket, &mut feats);
    let ghost mid = feats@;
    let e1: i32 = transform_side(pos, net, luts, stm.other(), them, bucket, &mut feats);
    let ghost full = feats@;
    if net.l1 % 2 == 1 {
        feats.push(0);
    }
    proof {
        let spec = transformed(pos, net, white@, black@, stm);
        assert forall|i: int| 0 <= i < feats.len() implies feats@[i] == spec[i] by {
            if i < half {
                assert(full[i] == mid[i]);
                assert(mid[0 + i] == mid[i]);
            } else if i < 2 * half {
                let j = i - half;
                assert(full[mid.len() + j] == full[i]);
            }
        }
        assert(feats@ =~= spec);
    }
    (feats, e0, e1)
}

/// Half the difference of two buckets, with what threats add to them, at the
/// output scale.
fn psqt_value(us: i32, them: i32, e0: i32, e1: i32, x0: Ghost<int>, x1: Ghost<int>) -> (r: i32)
    requires
        e0 == wrap32(x0@),
        e1 == wrap32(x1@),
    ensures
        r == div_toward_zero(div_toward_zero(wrap32(us - them + x0@ - x1@), 2), 16),
{
    let psqt: i32 = us.wrapping_sub(them).wrapping_add(e0).wrapping_sub(e1);
    proof {
        let d = us - them;
        let a = us.wrapping_sub(them);
        lemma_wrapping_i32(us, them);
        lemma_wrapping_i32(a, e0);
        lemma_wrapping_i32(a.wrapping_add(e0), e1);
        lemma_wrap32_step(d, wrap32(x0@));
        lemma_wrap32_step(x0@, d);
        lemma_wrap32_step(d + x0@, wrap32(x1@));
        lemma_wrap32_sub(d + x0@, x1@);
    }
    let half: i32 = div_trunc(psqt, 2);
    div_trunc(half, OUTPUT_SCALE)
}

/// Evaluates a position with one network: the piece-square term and the
/// positional term, from the side to move.
pub fn eval_with_net(
    pos: &SfnnPosition,
    net: &Sfnn10Net,
    luts: &ThreatLuts,
    white: &[i16],
    black: &[i16],
    psqt_white: &[i32; 8],
    psqt_black: &[i32; 8],
    stm: Side,
    bucket: usize,
) -> (r: (i32, i32))
    requires
        v10_luts(luts),
        !(stm is Both),
        net.sized(),
        net.l1 <= white.len(),
        net.l1 <= black.len(),
        bucket < 8,
    ensures
        r.0 == psqt_term(pos, net, psqt_white@, psqt_black@, stm, bucket as int),
        r.1 == div_toward_zero(
            propagated(
                &net.stacks@[bucket as int],
                net.l1 as int,
                transformed(pos, net, white@, black@, stm),
            ),
            16,
        ),
{
    let t: (Vec<u8>, i32, i32) = transform_features(pos, net, luts, white, black, stm, bucket);
    let us: i32 = if stm == Side::White {
        psqt_white[bucket]
    } else {
        psqt_black[bucket]
    };
    let them: i32 = if stm == Side::White {
        psqt_black[bucket]
    } else {
        psqt_white[bucket]
    };
    let ghost x0 = bucket_extra(pos, net, stm, bucket as int);
    let ghost x1 = bucket_extra(pos, net, stm.other_spec(), bucket as int);
    let psqt: i32 = psqt_value(us, them, t.1, t.2, Ghost(x0), Ghost(x1));
    assert(stack_ok(&net.stacks@[bucket as int], net.l1 as int));
    let positional: i32 = propagate(&net.stacks[bucket], net.l1, t.0.as_slice());
    (psqt, div_trunc(positional, OUTPUT_SCALE))
}

/// Wrapping the part that is taken away does not change the result.
proof fn lemma_wrap32_sub(x: int, y: int)
    ensures
        wrap32(x - wrap32(y)) == wrap32(x - y),
{
}

/// The piece-square term measures the lead of the side to move: a thirty-second
/// of it, without the fraction. Threats count where the network has them.
#[verifier::rlimit(60)]
pub proof fn law_psqt_term_measures_the_lead(
    pos: &SfnnPosition,
    net: &Sfnn10Net,
    white: Seq<i32>,
    black: Seq<i32>,
    bucket: int,
)
    ensures
        ({
            let gain = bucket_extra(pos, net, Side::White, bucket) - bucket_extra(
                pos,
                net,
                Side::Black,
                bucket,
            );
            let total = white[bucket] - black[bucket] + gain;
            let ours = psqt_term(pos, net, white, black, Side::White, bucket);
            let theirs = psqt_term(pos, net, white, black, Side::Black, bucket);
            -0x8000_0000 < total < 0x8000_0000 ==> is_quotient(total, 32, ours) && is_quotient(
                -total,
                32,
                theirs,
            )
        }),
        !net.use_threats ==> bucket_extra(pos, net, Side::White, bucket) == 0 && bucket_extra(
            pos,
            net,
            Side::Black,
            bucket,
        ) == 0,
        net.use_threats ==> bucket_extra(pos, net, Side::White, bucket) == bucket_sum(
            net.transformer.threat_psqt_w@,
            threat_list(pos, Side::White),
            bucket,
        ),
{
}

/// The first half of the layers' input comes from the side to move, the second
/// from the other side: each half stays the same whatever the other list says.
pub proof fn law_own_products_come_first(
    pos: &SfnnPosition,
    net: &Sfnn10Net,
    own: Seq<i16>,
    other: Seq<i16>,
    else_own: Seq<i16>,
    else_other: Seq<i16>,
    i: int,
)
    requires
        0 <= i < net.l1 as int / 2,
    ensures
        ({
            let half = net.l1 as int / 2;
            let w = transformed(pos, net, own, other, Side::White);
            let b = transformed(pos, net, other, own, Side::Black);
            &&& w[i] == transformed(pos, net, own, else_other, Side::White)[i]
            &&& w[half + i] == transformed(pos, net, else_own, other, Side::White)[half + i]
            &&& b[i] == transformed(pos, net, else_other, own, Side::Black)[i]
            &&& b[half + i] == transformed(pos, net, other, else_own, Side::Black)[half + i]
        }),
{
}

/// Every product is that of two columns half the width apart, each clipped at
/// 255 with threats and at 254 without, over 512 without the fraction.
#[verifier::rlimit(60)]
pub proof fn law_products(
    pos: &SfnnPosition,
    net: &Sfnn10Net,
    view: Side,
    base: Seq<i16>,
    j: int,
    a: int,
    b: int,
)
    requires
        a == base[j] + threat_extra(pos, net, view, j),
        b == base[j + net.l1 as int / 2] + threat_extra(pos, net, view, j + net.l1 as int / 2),
    ensures
        ({
            let r = pairwise(pos, net, view, base, j);
            let top = if net.use_threats {
                255int
            } else {
                254int
            };
            &&& a <= 0 || b <= 0 ==> r == 0
            &&& 0 <= a <= top && 0 <= b <= top ==> is_quotient(a * b, 512, r)
            &&& a >= top && 0 <= b <= top ==> is_quotient(top * b, 512, r)
            &&& b >= top && 0 <= a <= top ==> is_quotient(top * a, 512, r)
            &&& 0 <= r <= 127
        }),
{
    let top = clip_of(net);
    let x = clamp(a, 0, top);
    let y = clamp(b, 0, top);
    assert(0 <= x * y <= 65_025) by (nonlinear_arith)
        requires
            0 <= x <= 255,
            0 <= y <= 255,
    ;
    assert((x == 0 || y == 0) ==> x * y == 0) by (nonlinear_arith);
    law_quotient(x * y, 512, (x * y) / 512);
    assert(x * y == y * x) by (nonlinear_arith);
}

/// The answer: the clipped second layer meets the last weights, and the last
/// output of the first layer is passed on as 9600 parts of 8128. Raising one of
/// the last weights raises the answer by as much times the activation there.
#[verifier::rlimit(60)]
pub proof fn law_answer_weighs_activations(
    a: &SfnnArch,
    b: &SfnnArch,
    l1: int,
    input: Seq<u8>,
    k: int,
    d: int,
)
    requires
        0 <= k < 32,
        a.fc0_bias == b.fc0_bias,
        a.fc0_w == b.fc0_w,
        a.fc1_bias == b.fc1_bias,
        a.fc1_w == b.fc1_w,
        a.fc2_bias == b.fc2_bias,
        forall|i: int| 0 <= i < 32 && i != k ==> #[trigger] b.fc2_w@[i] == a.fc2_w@[i],
        b.fc2_w@[k] == a.fc2_w@[k] + d,
    ensures
        propagated(b, l1, input) == wrap32(
            propagated(a, l1, input) + d * clip_act(
                layer1(a, paired(layer0(a, l1, input)))[k],
                64,
            ),
        ),
        (forall|i: int| 0 <= i < 32 ==> #[trigger] a.fc2_w@[i] == 0) ==> propagated(a, l1, input)
            == wrap32(
            a.fc2_bias + div_toward_zero(9600 * layer0(a, l1, input)[15], 8128),
        ),
{
    let v0 = layer0(a, l1, input);
    let v1 = layer1(a, paired(v0));
    let acts = clipped(v1);
    assert(layer0(b, l1, input) =~= v0);
    assert(layer1(b, paired(v0)) =~= v1);
    assert forall|i: int| 0 <= i < 32 && i != k implies #[trigger] b.fc2_w@[0 + i] == a.fc2_w@[0
        + i] by {
        assert(b.fc2_w@[i] == a.fc2_w@[i]);
    }
    law_weighted_sum_is_linear(acts, a.fc2_w@, b.fc2_w@, 0, 32, k, d);
    law_clip_activation(v1[k], 64);
    let skip = div_toward_zero(v0[15] * 9600, 8128);
    let sum = a.fc2_bias + weighted_sum(acts, a.fc2_w@, 0, 32);
    let more = d * acts[k];
    lemma_wrap32_step(sum, skip);
    lemma_wrap32_step(sum + more, skip);
    lemma_wrap32_step(sum + skip, more);
    if forall|i: int| 0 <= i < 32 ==> #[trigger] a.fc2_w@[i] == 0 {
        assert forall|i: int| 0 <= i < 32 implies #[trigger] a.fc2_w@[0 + i] == 0 by {
            assert(a.fc2_w@[i] == 0);
        }
        law_weighted_sum_is_linear(acts, a.fc2_w@, a.fc2_w@, 0, 32, 32, 0);
    }
}

/// The first activations are the squares of the first fifteen outputs and then
/// their clipped values.
pub proof fn law_first_activations(v: Seq<int>, i: int)
    requires
        0 <= i < 15,
    ensures
        paired(v)[i] == square_act(v[i], 0x8_0000),
        paired(v)[15 + i] == clip_act(v[i], 64),
{
    law_square_activation(v[i], 0x8_0000);
    law_clip_activation(v[i], 64);
}

} // verus!
