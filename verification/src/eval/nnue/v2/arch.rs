//! Sizes and fingerprints of the v10 networks.

use vstd::prelude::*;

use crate::board::Side;
use crate::eval::nnue::v16::arch::{
    affine_hash, affine_hash_spec, material_balance, relu_hash, relu_hash_spec, simple_eval,
    PSQ_HASH,
};
use crate::eval::nnue::v16::position::SfnnPosition;
use crate::math::abs;

verus! {

pub const VERSION: u8 = 10;
pub const THREAT_DIMS: usize = 79_856;
pub const BIG_INPUT_DIMS: usize = 102_384;
pub const BIG_L1: usize = 1024;
pub const SMALL_L1: usize = 128;

/// Outputs of the first layer; the last one is passed on, not activated.
pub const FC0_OUT: usize = 16;
pub const FC0_ACT: usize = 15;
pub const FC1_IN: usize = 30;
pub const FC1_OUT: usize = 32;
pub const THREAT_HASH: u32 = 0x8f234cb8;

/// Material balance beyond which the small network is asked first.
pub const SMALL_GATE: i32 = 962;

/// Score below which the small network hands over to the big one.
pub const SMALL_FALLBACK: i32 = 236;

pub const BIG_MAX_ACTIVE: usize = 256;
pub const SMALL_MAX_ACTIVE: usize = 64;

/// Whether a position is lopsided enough for the small network.
pub open spec fn small_first(pos: &SfnnPosition, stm: Side) -> bool {
    abs(material_balance(pos, stm)) > 962
}

pub fn use_small_net(pos: &SfnnPosition, stm: Side) -> (r: bool)
    ensures
        r == small_first(pos, stm),
{
    let balance: i32 = simple_eval(pos, stm);
    balance > SMALL_GATE || balance < -SMALL_GATE
}

/// Fingerprint of the layer stack over an input of width `l1`.
pub open spec fn arch_hash_spec(l1: u32) -> u32 {
    affine_hash_spec(
        1,
        relu_hash_spec(
            affine_hash_spec(
                32,
                relu_hash_spec(affine_hash_spec(16, 0xEC42E90Du32 ^ ((l1 * 2) as u32))),
            ),
        ),
    )
}

pub fn arch_hash(l1: u32) -> (r: u32)
    requires
        l1 * 2 <= u32::MAX,
    ensures
        r == arch_hash_spec(l1),
{
    let h0: u32 = 0xEC42E90Du32 ^ (l1 * 2);
    let h1: u32 = relu_hash(affine_hash(FC0_OUT as u32, h0));
    let h2: u32 = relu_hash(affine_hash(FC1_OUT as u32, h1));
    affine_hash(1, h2)
}

/// Fingerprint of the feature transformer.
pub open spec fn transformer_hash_spec(use_threats: bool, l1: u32) -> u32 {
    (if use_threats {
        THREAT_HASH
    } else {
        PSQ_HASH
    }) ^ ((l1 * 2) as u32)
}

pub fn transformer_hash(use_threats: bool, l1: u32) -> (r: u32)
    requires
        l1 * 2 <= u32::MAX,
    ensures
        r == transformer_hash_spec(use_threats, l1),
{
    if use_threats {
        THREAT_HASH ^ (l1 * 2)
    } else {
        PSQ_HASH ^ (l1 * 2)
    }
}

/// Fingerprint of the whole network.
pub open spec fn network_hash_spec(use_threats: bool, l1: u32) -> u32 {
    transformer_hash_spec(use_threats, l1) ^ arch_hash_spec(l1)
}

pub fn network_hash(use_threats: bool, l1: u32) -> (r: u32)
    requires
        l1 * 2 <= u32::MAX,
    ensures
        r == network_hash_spec(use_threats, l1),
{
    transformer_hash(use_threats, l1) ^ arch_hash(l1)
}

/// Both sides agree on whether a position is lopsided.
pub proof fn law_gate_symmetric(pos: &SfnnPosition)
    ensures
        small_first(pos, Side::White) == small_first(pos, Side::Black),
{
    crate::eval::nnue::v16::arch::law_simple_eval_antisymmetric(pos);
}

} // verus!
