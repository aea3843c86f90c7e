//! Dimensions, scales and architecture fingerprints of the v16 network.

use vstd::prelude::*;

use crate::bits::{pop, popcount};
use crate::board::Side;
use crate::eval::nnue::v16::position::SfnnPosition;
use crate::math::{abs, div_toward_zero};

verus! {

pub const VERSION: u8 = 16;
pub const N_BUCKETS: usize = 8;

pub const PSQ_DIMS: usize = 22_528;
pub const THREAT_DIMS: usize = 59_808;
pub const PAIR_DIMS: usize = 4_560;
pub const BIG_INPUT_DIMS: usize = 86_896;
pub const PS_PLANES: usize = 704;
pub const KING_BUCKET_COUNT: usize = 32;

pub const L1: usize = 1024;

pub const FC0_OUT: usize = 32;
pub const FC0_ACT: usize = 32;
pub const FC1_IN: usize = 64;
pub const FC1_OUT: usize = 32;

/// Inputs of the last layer: both activations of both hidden layers.
pub const FC2_IN: usize = 128;

pub const OUTPUT_SCALE: i32 = 16;
pub const WEIGHT_SCALE_BITS: u32 = 6;
pub const SF_FILE_VERSION: u32 = 0x7AF32F20;
pub const SF17_FILE_VERSION: u32 = 0x6A448AFA;
pub const PSQ_HASH: u32 = 0x7f234cb8;
pub const THREAT_HASH: u32 = 0x2e6b9d04;
pub const PAIR_HASH: u32 = 0x86f2b1dd;

/// The bytes `COMPRESSED_LEB128` that open a compressed section.
pub const LEB128_MAGIC: [u8; 17] = [
    67, 79, 77, 80, 82, 69, 83, 83, 69, 68, 95, 76, 69, 66, 49, 50, 56,
];

pub const PAWN_VALUE: i32 = 208;
pub const KNIGHT_VALUE: i32 = 781;
pub const BISHOP_VALUE: i32 = 825;
pub const ROOK_VALUE: i32 = 1276;
pub const QUEEN_VALUE: i32 = 2538;
pub const SMALL_GATE: i32 = 962;
pub const SMALL_FALLBACK: i32 = 236;

pub const MAX_THREAT_ACTIVE: usize = 256;
pub const MAX_PAIR_ACTIVE: usize = 256;
pub const MAX_ACTIVE: usize = 544;

/// Output bucket for a number of pieces: one bucket for every four, from one up.
pub open spec fn bucket_of(piece_count: int) -> int {
    if piece_count <= 1 {
        0
    } else if (piece_count - 1) / 4 >= 7 {
        7
    } else {
        (piece_count - 1) / 4
    }
}

pub fn material_bucket(piece_count: usize) -> (r: usize)
    ensures
        r == bucket_of(piece_count as int),
        r < N_BUCKETS,
{
    let b: usize = piece_count.saturating_sub(1) / 4;
    if b >= N_BUCKETS - 1 {
        N_BUCKETS - 1
    } else {
        b
    }
}

/// Surplus of one piece kind for the side to move.
pub open spec fn surplus(kind: u64, us: u64, them: u64) -> int {
    pop(kind & us) - pop(kind & them)
}

/// Material balance from the point of view of `stm`.
pub open spec fn material_balance(pos: &SfnnPosition, stm: Side) -> int {
    let us = pos.side_bb(stm);
    let them = if stm is White {
        pos.black
    } else {
        pos.white
    };
    PAWN_VALUE * surplus(pos.pieces@[0], us, them) + KNIGHT_VALUE * surplus(
        pos.pieces@[1],
        us,
        them,
    ) + BISHOP_VALUE * surplus(pos.pieces@[2], us, them) + ROOK_VALUE * surplus(
        pos.pieces@[3],
        us,
        them,
    ) + QUEEN_VALUE * surplus(pos.pieces@[4], us, them)
}

/// Value of one piece kind for the side to move.
fn kind_balance(value: i32, kind: u64, us: u64, them: u64) -> (r: i32)
    requires
        0 <= value <= 3000,
    ensures
        r == value * surplus(kind, us, them),
        -192_000 <= r <= 192_000,
{
    let a: i32 = popcount(kind & us) as i32;
    let b: i32 = popcount(kind & them) as i32;
    let d: i32 = a - b;
    assert(-192_000 <= value * d <= 192_000) by (nonlinear_arith)
        requires
            0 <= value <= 3000,
            -64 <= d <= 64,
    ;
    value * d
}

pub fn simple_eval(pos: &SfnnPosition, stm: Side) -> (r: i32)
    ensures
        r == material_balance(pos, stm),
{
    let us: u64 = if stm == Side::White {
        pos.white
    } else {
        pos.black
    };
    let them: u64 = if stm == Side::White {
        pos.black
    } else {
        pos.white
    };
    kind_balance(PAWN_VALUE, pos.pieces[0], us, them) + kind_balance(
        KNIGHT_VALUE,
        pos.pieces[1],
        us,
        them,
    ) + kind_balance(BISHOP_VALUE, pos.pieces[2], us, them) + kind_balance(
        ROOK_VALUE,
        pos.pieces[3],
        us,
        them,
    ) + kind_balance(QUEEN_VALUE, pos.pieces[4], us, them)
}

/// The material balance changes sign with the side to move.
pub proof fn law_simple_eval_antisymmetric(pos: &SfnnPosition)
    ensures
        material_balance(pos, Side::Black) == -material_balance(pos, Side::White),
{
    let a0 = surplus(pos.pieces@[0], pos.white, pos.black);
    let a1 = surplus(pos.pieces@[1], pos.white, pos.black);
    let a2 = surplus(pos.pieces@[2], pos.white, pos.black);
    let a3 = surplus(pos.pieces@[3], pos.white, pos.black);
    let a4 = surplus(pos.pieces@[4], pos.white, pos.black);
    assert(surplus(pos.pieces@[0], pos.black, pos.white) == -a0);
    assert(surplus(pos.pieces@[1], pos.black, pos.white) == -a1);
    assert(surplus(pos.pieces@[2], pos.black, pos.white) == -a2);
    assert(surplus(pos.pieces@[3], pos.black, pos.white) == -a3);
    assert(surplus(pos.pieces@[4], pos.black, pos.white) == -a4);
}

/// More pieces never select a lower bucket.
pub proof fn law_bucket_monotone(a: int, b: int)
    requires
        a <= b,
    ensures
        bucket_of(a) <= bucket_of(b),
        0 <= bucket_of(a) < N_BUCKETS,
{
}

pub open spec fn affine_hash_spec(out_dims: u32, prev: u32) -> u32 {
    0xCC03DAE4u32.wrapping_add(out_dims) ^ (prev >> 1) ^ (prev << 31)
}

pub fn affine_hash(out_dims: u32, prev: u32) -> (r: u32)
    ensures
        r == affine_hash_spec(out_dims, prev),
{
    0xCC03DAE4u32.wrapping_add(out_dims) ^ (prev >> 1) ^ (prev << 31)
}

pub open spec fn relu_hash_spec(prev: u32) -> u32 {
    0x538D24C7u32.wrapping_add(prev)
}

pub fn relu_hash(prev: u32) -> (r: u32)
    ensures
        r == relu_hash_spec(prev),
{
    0x538D24C7u32.wrapping_add(prev)
}

/// Rotation by one bit to the left.
pub open spec fn rotl1_spec(x: u32) -> u32 {
    (x << 1) | (x >> 31)
}

pub fn rotl1(x: u32) -> (r: u32)
    ensures
        r == rotl1_spec(x),
{
    (x << 1) | (x >> 31)
}

/// Order-sensitive combination of feature-set fingerprints.
pub open spec fn combine_hash_spec(hashes: Seq<u32>) -> u32
    decreases hashes.len(),
{
    if hashes.len() == 0 {
        0
    } else {
        rotl1_spec(combine_hash_spec(hashes.drop_last())) ^ hashes.last()
    }
}

pub fn combine_hash(hashes: &[u32]) -> (r: u32)
    ensures
        r == combine_hash_spec(hashes@),
{
    let mut h: u32 = 0;
    let mut i: usize = 0;
    while i < hashes.len()
        invariant
            i <= hashes.len(),
            h == combine_hash_spec(hashes@.take(i as int)),
        decreases hashes.len() - i,
    {
        assert(hashes@.take(i + 1).drop_last() =~= hashes@.take(i as int));
        h = rotl1(h) ^ hashes[i];
        i = i + 1;
    }
    assert(hashes@.take(i as int) =~= hashes@);
    h
}

/// Fingerprint of the layer stack over an input of width `l1`.
pub open spec fn arch_hash_spec(l1: u32) -> u32 {
    affine_hash_spec(
        1,
        relu_hash_spec(
            affine_hash_spec(
                32,
                relu_hash_spec(affine_hash_spec(32, 0xEC42E90Du32 ^ ((l1 * 2) as u32))),
            ),
        ),
    )
}

pub fn arch_hash(l1: u32) -> (r: u32)
    requires
        l1 * 2 <= u32::MAX,
    ensures
        r == arch_hash_spec(l1),
{
    let h0: u32 = 0xEC42E90Du32 ^ (l1 * 2);
    let h1: u32 = relu_hash(affine_hash(FC0_OUT as u32, h0));
    let h2: u32 = relu_hash(affine_hash(FC1_OUT as u32, h1));
    affine_hash(1, h2)
}

/// Fingerprint of the feature transformer.
pub open spec fn transformer_hash_spec(use_threats: bool, l1: u32) -> u32 {
    if use_threats {
        combine_hash_spec(seq![THREAT_HASH, PAIR_HASH, PSQ_HASH]) ^ ((l1 * 2) as u32)
    } else {
        PSQ_HASH ^ ((l1 * 2) as u32)
    }
}

pub fn transformer_hash(use_threats: bool, l1: u32) -> (r: u32)
    requires
        l1 * 2 <= u32::MAX,
    ensures
        r == transformer_hash_spec(use_threats, l1),
{
    if use_threats {
        let parts: [u32; 3] = [THREAT_HASH, PAIR_HASH, PSQ_HASH];
        assert(parts@ =~= seq![THREAT_HASH, PAIR_HASH, PSQ_HASH]);
        combine_hash(&parts) ^ (l1 * 2)
    } else {
        PSQ_HASH ^ (l1 * 2)
    }
}

pub open spec fn network_hash_spec(use_threats: bool, l1: u32) -> u32 {
    transformer_hash_spec(use_threats, l1) ^ arch_hash_spec(l1)
}

/// Fingerprint of the whole network: transformer and layer stack together.
pub fn network_hash(use_threats: bool, l1: u32) -> (r: u32)
    requires
        l1 * 2 <= u32::MAX,
    ensures
        r == network_hash_spec(use_threats, l1),
{
    transformer_hash(use_threats, l1) ^ arch_hash(l1)
}

/// Where entry `i` of a row-major `out_dims` by `padded_in` weight matrix
/// stands in the interleaved file order: blocks of four inputs, all outputs of
/// a block together.
pub open spec fn scrambled_position(i: int, out_dims: int, padded_in: int) -> int {
    (i % padded_in) / 4 * (out_dims * 4) + i / padded_in * 4 + i % 4
}

/// The position of `(row, column)` in the interleaved order, and its bound.
proof fn lemma_scrambled(i: int, out_dims: int, padded_in: int)
    requires
        0 < out_dims,
        4 <= padded_in,
        padded_in % 4 == 0,
        0 <= i < out_dims * padded_in,
    ensures
        0 <= i / padded_in < out_dims,
        0 <= i % padded_in < padded_in,
        i == i / padded_in * padded_in + i % padded_in,
        (i / 4) % (padded_in / 4) == (i % padded_in) / 4,
        (i % padded_in) % 4 == i % 4,
        0 <= scrambled_position(i, out_dims, padded_in) < out_dims * padded_in,
        scrambled_position(i, out_dims, padded_in) / (out_dims * 4) == (i % padded_in) / 4,
        scrambled_position(i, out_dims, padded_in) % (out_dims * 4) == i / padded_in * 4 + i % 4,
{
    let r = i / padded_in;
    let c = i % padded_in;
    let q = padded_in / 4;
    assert(0 <= r < out_dims && 0 <= c < padded_in && i == r * padded_in + c) by (nonlinear_arith)
        requires
            0 <= i < out_dims * padded_in,
            0 < padded_in,
            r == i / padded_in,
            c == i % padded_in,
    ;
    assert(padded_in == 4 * q);
    assert(r * padded_in == 4 * (r * q)) by (nonlinear_arith)
        requires
            padded_in == 4 * q,
    ;
    assert(i / 4 == r * q + c / 4);
    assert(i % 4 == c % 4);
    assert((r * q + c / 4) % q == c / 4) by (nonlinear_arith)
        requires
            0 <= c / 4 < q,
            0 <= r,
    ;
    let d = out_dims * 4;
    let low = r * 4 + i % 4;
    let b = c / 4;
    assert(0 <= low < d);
    assert(scrambled_position(i, out_dims, padded_in) == b * d + low);
    assert((b * d + low) / d == b && (b * d + low) % d == low) by (nonlinear_arith)
        requires
            0 <= low < d,
            0 <= b,
    ;
    assert(0 <= b * d + low < out_dims * padded_in) by (nonlinear_arith)
        requires
            0 <= low < d,
            0 <= b <= q - 1,
            d == out_dims * 4,
            padded_in == 4 * q,
            0 < out_dims,
    ;
}

/// Distinct matrix entries stand at distinct places in the interleaved order.
pub proof fn law_scramble_injective(i: int, j: int, out_dims: int, padded_in: int)
    requires
        0 < out_dims,
        4 <= padded_in,
        padded_in % 4 == 0,
        0 <= i < out_dims * padded_in,
        0 <= j < out_dims * padded_in,
        scrambled_position(i, out_dims, padded_in) == scrambled_position(j, out_dims, padded_in),
    ensures
        i == j,
        0 <= scrambled_position(i, out_dims, padded_in) < out_dims * padded_in,
{
    lemma_scrambled(i, out_dims, padded_in);
    lemma_scrambled(j, out_dims, padded_in);
    assert(i / padded_in == j / padded_in);
    assert(i % padded_in == j % padded_in);
}

/// For each place of the interleaved order, the matrix entry that belongs there.
pub fn unscramble_table(out_dims: usize, padded_in: usize) -> (inv: Vec<usize>)
    requires
        4 <= padded_in,
        padded_in % 4 == 0,
        out_dims * padded_in <= usize::MAX,
    ensures
        inv.len() == out_dims * padded_in,
        forall|i: int|
            0 <= i < out_dims * padded_in ==> #[trigger] scrambled_position(
                i,
                out_dims as int,
                padded_in as int,
            ) < inv.len() && inv@[scrambled_position(i, out_dims as int, padded_in as int)] == i,
{
    let n: usize = out_dims * padded_in;
    let mut inv: Vec<usize> = vec![0usize; n];
    let mut i: usize = 0;
    while i < n
        invariant
            i <= n,
            n == out_dims * padded_in,
            inv.len() == n,
            4 <= padded_in,
            padded_in % 4 == 0,
            forall|k: int|
                0 <= k < i ==> #[trigger] scrambled_position(k, out_dims as int, padded_in as int)
                    < n && inv@[scrambled_position(k, out_dims as int, padded_in as int)] == k,
        decreases n - i,
    {
        proof {
            assert(0 < out_dims) by (nonlinear_arith)
                requires
                    i < out_dims * padded_in,
                    0 <= i,
                    0 <= out_dims,
            ;
            lemma_scrambled(i as int, out_dims as int, padded_in as int);
            let b = (i as int % padded_in as int) / 4;
            assert(b * (out_dims * 4) <= n) by (nonlinear_arith)
                requires
                    0 <= b * (out_dims * 4) + i as int / padded_in as int * 4 + i as int % 4 < n,
                    0 <= i as int / padded_in as int,
            ;
            assert(b * out_dims * 4 == b * (out_dims * 4)) by (nonlinear_arith);
            assert(b * out_dims <= b * out_dims * 4) by (nonlinear_arith)
                requires
                    0 <= b,
                    0 <= out_dims,
            ;
            assert forall|k: int| 0 <= k < i implies scrambled_position(
                k,
                out_dims as int,
                padded_in as int,
            ) != scrambled_position(i as int, out_dims as int, padded_in as int) by {
                if scrambled_position(k, out_dims as int, padded_in as int) == scrambled_position(
                    i as int,
                    out_dims as int,
                    padded_in as int,
                ) {
                    law_scramble_injective(k, i as int, out_dims as int, padded_in as int);
                }
            }
        }
        let m: usize = (i / 4) % (padded_in / 4) * out_dims * 4 + (i / padded_in) * 4 + i % 4;
        inv[m] = i;
        i = i + 1;
    }
    inv
}

/// Division that rounds toward zero.
pub fn div_trunc(a: i32, b: i32) -> (r: i32)
    requires
        b != 0,
        !(a == i32::MIN && b == -1),
    ensures
        r == div_toward_zero(a as int, b as int),
{
    proof {
        let x = abs(a as int);
        let y = b as int;
        assert(-x <= x / y <= x) by (nonlinear_arith)
            requires
                x >= 0,
                y != 0,
        ;
        assert(y > 0 ==> x / y >= 0) by (nonlinear_arith)
            requires
                x >= 0,
        ;
        assert(x == 0x8000_0000 && y < -1 ==> x / y > -x) by (nonlinear_arith)
            requires
                x >= 0,
        ;
    }
    a / b
}

/// A bucket holds four numbers of pieces: the first up to four, the last from
/// 29 on.
pub proof fn law_buckets_of_four(pieces: int, b: int)
    requires
        0 <= b <= 7,
    ensures
        0 < b < 7 ==> (bucket_of(pieces) == b <==> 4 * b < pieces <= 4 * b + 4),
        bucket_of(pieces) == 0 <==> pieces <= 4,
        bucket_of(pieces) == 7 <==> pieces >= 29,
{
}

/// The balance counts every piece of the side to move for it and every piece of
/// the other side against it: 208 for a pawn, 781 for a knight, 825 for a
/// bishop, 1276 for a rook, 2538 for a queen.
#[verifier::rlimit(60)]
pub proof fn law_balance_counts_pieces(a: &SfnnPosition, b: &SfnnPosition, kind: int, d: int, e: int)
    requires
        0 <= kind < 5,
        a.white == b.white,
        a.black == b.black,
        forall|k: int| 0 <= k < 5 && k != kind ==> #[trigger] a.pieces@[k] == b.pieces@[k],
        pop(b.pieces@[kind] & b.white) == pop(a.pieces@[kind] & a.white) + d,
        pop(b.pieces@[kind] & b.black) == pop(a.pieces@[kind] & a.black) + e,
    ensures
        ({
            let value = seq![208int, 781, 825, 1276, 2538][kind];
            &&& material_balance(b, Side::White) - material_balance(a, Side::White) == value * d
                - value * e
            &&& material_balance(b, Side::Black) - material_balance(a, Side::Black) == value * e
                - value * d
        }),
{
    assert(0 != kind ==> a.pieces@[0] == b.pieces@[0]);
    assert(1 != kind ==> a.pieces@[1] == b.pieces@[1]);
    assert(2 != kind ==> a.pieces@[2] == b.pieces@[2]);
    assert(3 != kind ==> a.pieces@[3] == b.pieces@[3]);
    assert(4 != kind ==> a.pieces@[4] == b.pieces@[4]);
    let value = seq![208int, 781, 825, 1276, 2538][kind];
    assert(kind == 0 || kind == 1 || kind == 2 || kind == 3 || kind == 4);
}

/// Rotating moves every bit up by one and the top bit to the bottom.
pub proof fn law_rotation(x: u32)
    ensures
        rotl1_spec(x) == if x < 0x8000_0000 {
            2 * x
        } else {
            2 * (x - 0x8000_0000) + 1
        },
{
    let r = rotl1_spec(x);
    assert(x < 0x8000_0000u32 ==> r == 2 * x) by (bit_vector)
        requires
            r == (x << 1) | (x >> 31),
    ;
    assert(x >= 0x8000_0000u32 ==> r == 2 * (x - 0x8000_0000u32) + 1) by (bit_vector)
        requires
            r == (x << 1) | (x >> 31),
    ;
}

/// A layer's hash starts from its constant and its width, and takes in the hash
/// before it turned by one bit: turning the difference back gives that hash.
pub proof fn law_layer_hashes(out_dims: u32, prev: u32)
    ensures
        affine_hash_spec(0, 0) == 0xCC03_DAE4,
        affine_hash_spec(out_dims, 0) == 0xCC03_DAE4u32.wrapping_add(out_dims),
        rotl1_spec(affine_hash_spec(out_dims, prev) ^ affine_hash_spec(out_dims, 0)) == prev,
        relu_hash_spec(0) == 0x538D_24C7,
        relu_hash_spec(prev) == relu_hash_spec(0).wrapping_add(prev),
{
    let c = 0xCC03_DAE4u32.wrapping_add(out_dims);
    assert(c ^ (0u32 >> 1) ^ (0u32 << 31) == c) by (bit_vector);
    let x = (c ^ (prev >> 1) ^ (prev << 31)) ^ c;
    assert((x << 1) | (x >> 31) == prev) by (bit_vector)
        requires
            x == (c ^ (prev >> 1) ^ (prev << 31)) ^ c,
    ;
    assert(0xCC03_DAE4u32 ^ (0u32 >> 1) ^ (0u32 << 31) == 0xCC03_DAE4u32) by (bit_vector);
}

/// Hashes are combined in order: one hash is itself, and each further one is
/// mixed into what came before it, turned by one bit.
pub proof fn law_hashes_are_combined(front: Seq<u32>, last: u32)
    ensures
        combine_hash_spec(Seq::empty()) == 0,
        combine_hash_spec(seq![last]) == last,
        combine_hash_spec(front.push(last)) ^ last == rotl1_spec(combine_hash_spec(front)),
{
    assert(front.push(last).drop_last() =~= front);
    assert(seq![last].drop_last() =~= Seq::<u32>::empty());
    assert(combine_hash_spec(seq![last].drop_last()) == 0);
    assert(((0u32 << 1) | (0u32 >> 31)) ^ last == last) by (bit_vector);
    let r = rotl1_spec(combine_hash_spec(front));
    assert((r ^ last) ^ last == r) by (bit_vector);
}

/// The hash of a stack follows its layers: the input with twice the width mixed
/// in, a layer of 32, another of 32, and one of one, with an activation between
/// them. The hash of a network is made of its two parts.
#[verifier::rlimit(60)]
pub proof fn law_network_hashes(l1: u32, first: u32, second: u32, use_threats: bool)
    requires
        first == affine_hash_spec(32, 0xEC42_E90Du32 ^ ((l1 * 2) as u32)),
        second == affine_hash_spec(32, relu_hash_spec(first)),
    ensures
        arch_hash_spec(l1) == affine_hash_spec(1, relu_hash_spec(second)),
        network_hash_spec(use_threats, l1) ^ arch_hash_spec(l1) == transformer_hash_spec(
            use_threats,
            l1,
        ),
        transformer_hash_spec(false, l1) ^ ((l1 * 2) as u32) == 0x7f23_4cb8,
        transformer_hash_spec(true, l1) ^ ((l1 * 2) as u32) == combine_hash_spec(
            seq![0x2e6b_9d04u32, 0x86f2_b1ddu32, 0x7f23_4cb8u32],
        ),
{
    let a = arch_hash_spec(l1);
    let t = transformer_hash_spec(use_threats, l1);
    assert((t ^ a) ^ a == t) by (bit_vector);
    let w = (l1 * 2) as u32;
    let c = combine_hash_spec(seq![0x2e6b_9d04u32, 0x86f2_b1ddu32, 0x7f23_4cb8u32]);
    assert((c ^ w) ^ w == c && (0x7f23_4cb8u32 ^ w) ^ w == 0x7f23_4cb8u32) by (bit_vector);
}

} // verus!
