//! Accumulators of the small network: one running sum per perspective.

use vstd::prelude::*;

use crate::eval::nnue::loader::Network;
use crate::eval::nnue::ACC_SIZE;
use crate::math::{lemma_wrap16_step, lemma_wrapping_i16, wrap16};

verus! {

#[derive(Clone, Copy, Debug, PartialEq, Eq)]
pub struct Accumulator {
    pub state: [i16; 256],
}

#[derive(Clone, Copy, Debug, PartialEq, Eq)]
pub struct Accumulators {
    pub white: Accumulator,
    pub black: Accumulator,
}

impl Accumulators {
    /// Both perspectives at zero.
    pub fn new() -> (r: Accumulators)
        ensures
            r.white.is_zero(),
            r.black.is_zero(),
    {
        Accumulators { white: Accumulator::new(), black: Accumulator::new() }
    }

    /// Takes over both perspectives of the parent position.
    pub fn push_from(&mut self, parent: &Accumulators)
        ensures
            *final(self) == *parent,
    {
        self.white.push_from(&parent.white);
        self.black.push_from(&parent.black);
    }

    /// Accuracy is tracked outside the sums: the flag is the answer.
    pub fn is_accurate_flag(&self, flag: bool) -> (r: bool)
        ensures
            r == flag,
    {
        flag
    }
}

impl Default for Accumulators {
    fn default() -> (r: Self)
        ensures
            r.white.is_zero(),
            r.black.is_zero(),
    {
        Accumulators::new()
    }
}

/// Weight of one lane of a feature.
pub open spec fn lane_weight(network: &Network, feature: int, i: int) -> int {
    network.transformer_weights@[feature * 256 + i] as int
}

impl Accumulator {
    pub open spec fn is_zero(&self) -> bool {
        forall|i: int| 0 <= i < 256 ==> #[trigger] self.state@[i] == 0
    }

    pub fn new() -> (r: Accumulator)
        ensures
            r.is_zero(),
    {
        Accumulator { state: [0i16; 256] }
    }

    pub fn copy_from_other(&mut self, other: &Accumulator)
        ensures
            *final(self) == *other,
    {
        self.state = other.state;
    }

    pub fn push_from(&mut self, parent: &Accumulator)
        ensures
            *final(self) == *parent,
    {
        self.copy_from_other(parent);
    }

    pub fn pop_to(&mut self, parent: &mut Accumulator)
        ensures
            *final(parent) == *old(self),
            *final(self) == *old(self),
    {
        parent.copy_from_other(self);
    }

    pub fn init_with_biases(&mut self, network: &Network)
        requires
            network.wf(),
        ensures
            final(self).state@ == network.transformer_biases@,
    {
        let mut i: usize = 0;
        while i < 256
            invariant
                i <= 256,
                network.wf(),
                forall|k: int| 0 <= k < i ==> self.state@[k] == network.transformer_biases@[k],
            decreases 256 - i,
        {
            self.state[i] = network.transformer_biases[i];
            i = i + 1;
        }
        assert(self.state@ =~= network.transformer_biases@);
    }

    pub fn add_feature(&mut self, feature_idx: usize, network: &Network)
        requires
            network.wf(),
            feature_idx < 768,
        ensures
            forall|i: int|
                0 <= i < 256 ==> #[trigger] final(self).state@[i] == wrap16(
                    old(self).state@[i] + lane_weight(network, feature_idx as int, i),
                ),
    {
        let start: usize = feature_idx * ACC_SIZE;
        let mut i: usize = 0;
        while i < 256
            invariant
                i <= 256,
                network.wf(),
                feature_idx < 768,
                start == feature_idx * 256,
                forall|k: int|
                    0 <= k < i ==> #[trigger] self.state@[k] == wrap16(
                        old(self).state@[k] + lane_weight(network, feature_idx as int, k),
                    ),
                forall|k: int| i <= k < 256 ==> #[trigger] self.state@[k] == old(self).state@[k],
            decreases 256 - i,
        {
            let w: i16 = network.transformer_weights[start + i];
            proof {
                lemma_wrapping_i16(self.state@[i as int], w);
            }
            self.state[i] = self.state[i].wrapping_add(w);
            i = i + 1;
        }
    }

    pub fn remove_feature(&mut self, feature_idx: usize, network: &Network)
        requires
            network.wf(),
            feature_idx < 768,
        ensures
            forall|i: int|
                0 <= i < 256 ==> #[trigger] final(self).state@[i] == wrap16(
                    old(self).state@[i] - lane_weight(network, feature_idx as int, i),
                ),
    {
        let start: usize = feature_idx * ACC_SIZE;
        let mut i: usize = 0;
        while i < 256
            invariant
                i <= 256,
                network.wf(),
                feature_idx < 768,
                start == feature_idx * 256,
                forall|k: int|
                    0 <= k < i ==> #[trigger] self.state@[k] == wrap16(
                        old(self).state@[k] - lane_weight(network, feature_idx as int, k),
                    ),
                forall|k: int| i <= k < 256 ==> #[trigger] self.state@[k] == old(self).state@[k],
            decreases 256 - i,
        {
            let w: i16 = network.transformer_weights[start + i];
            proof {
                lemma_wrapping_i16(self.state@[i as int], w);
            }
            self.state[i] = self.state[i].wrapping_sub(w);
            i = i + 1;
        }
    }

    /// A piece moved: one feature appears, one disappears.
    pub fn add_1_sub_1(&mut self, add_idx: usize, remove_idx: usize, network: &Network)
        requires
            network.wf(),
            add_idx < 768,
            remove_idx < 768,
        ensures
            forall|i: int|
                0 <= i < 256 ==> #[trigger] final(self).state@[i] == wrap16(
                    old(self).state@[i] + lane_weight(network, add_idx as int, i) - lane_weight(
                        network,
                        remove_idx as int,
                        i,
                    ),
                ),
    {
        self.add_feature(add_idx, network);
        let ghost mid = self.state@;
        self.remove_feature(remove_idx, network);
        proof {
            assert forall|i: int| 0 <= i < 256 implies #[trigger] self.state@[i] == wrap16(
                old(self).state@[i] + lane_weight(network, add_idx as int, i) - lane_weight(
                    network,
                    remove_idx as int,
                    i,
                ),
            ) by {
                assert(mid[i] == wrap16(
                    old(self).state@[i] + lane_weight(network, add_idx as int, i),
                ));
                lemma_wrap16_step(
                    old(self).state@[i] + lane_weight(network, add_idx as int, i),
                    lane_weight(network, remove_idx as int, i),
                );
            }
        }
    }

    /// A piece moved and took another.
    pub fn add_1_sub_2(
        &mut self,
        add_idx: usize,
        remove_idx1: usize,
        remove_idx2: usize,
        network: &Network,
    )
        requires
            network.wf(),
            add_idx < 768,
            remove_idx1 < 768,
            remove_idx2 < 768,
        ensures
            forall|i: int|
                0 <= i < 256 ==> #[trigger] final(self).state@[i] == wrap16(
                    old(self).state@[i] + lane_weight(network, add_idx as int, i) - lane_weight(
                        network,
                        remove_idx1 as int,
                        i,
                    ) - lane_weight(network, remove_idx2 as int, i),
                ),
    {
        self.add_1_sub_1(add_idx, remove_idx1, network);
        let ghost mid = self.state@;
        self.remove_feature(remove_idx2, network);
        proof {
            assert forall|i: int| 0 <= i < 256 implies #[trigger] self.state@[i] == wrap16(
                old(self).state@[i] + lane_weight(network, add_idx as int, i) - lane_weight(
                    network,
                    remove_idx1 as int,
                    i,
                ) - lane_weight(network, remove_idx2 as int, i),
            ) by {
                let x = old(self).state@[i] + lane_weight(network, add_idx as int, i)
                    - lane_weight(network, remove_idx1 as int, i);
                assert(mid[i] == wrap16(x));
                lemma_wrap16_step(x, lane_weight(network, remove_idx2 as int, i));
            }
        }
    }

    /// Two pieces moved, as in castling.
    pub fn add_2_sub_2(
        &mut self,
        add_idx1: usize,
        add_idx2: usize,
        remove_idx1: usize,
        remove_idx2: usize,
        network: &Network,
    )
        requires
            network.wf(),
            add_idx1 < 768,
            add_idx2 < 768,
            remove_idx1 < 768,
            remove_idx2 < 768,
        ensures
            forall|i: int|
                0 <= i < 256 ==> #[trigger] final(self).state@[i] == wrap16(
                    old(self).state@[i] + lane_weight(network, add_idx1 as int, i) + lane_weight(
                        network,
                        add_idx2 as int,
                        i,
                    ) - lane_weight(network, remove_idx1 as int, i) - lane_weight(
                        network,
                        remove_idx2 as int,
                        i,
                    ),
                ),
    {
        self.add_1_sub_2(add_idx1, remove_idx1, remove_idx2, network);
        let ghost mid = self.state@;
        self.add_feature(add_idx2, network);
        proof {
            assert forall|i: int| 0 <= i < 256 implies #[trigger] self.state@[i] == wrap16(
                old(self).state@[i] + lane_weight(network, add_idx1 as int, i) + lane_weight(
                    network,
                    add_idx2 as int,
                    i,
                ) - lane_weight(network, remove_idx1 as int, i) - lane_weight(
                    network,
                    remove_idx2 as int,
                    i,
                ),
            ) by {
                let x = old(self).state@[i] + lane_weight(network, add_idx1 as int, i)
                    - lane_weight(network, remove_idx1 as int, i) - lane_weight(
                    network,
                    remove_idx2 as int,
                    i,
                );
                assert(mid[i] == wrap16(x));
                lemma_wrap16_step(x, lane_weight(network, add_idx2 as int, i));
            }
        }
    }
}

impl Default for Accumulator {
    fn default() -> (r: Self)
        ensures
            r.is_zero(),
    {
        Accumulator::new()
    }
}

/// Removing a feature that was just added restores the sum, in every lane.
pub proof fn law_add_then_remove(before: i16, network: &Network, feature: int, i: int)
    ensures
        wrap16(
            wrap16(before + lane_weight(network, feature, i)) - lane_weight(network, feature, i),
        ) == before,
{
    lemma_wrap16_step(
        before + lane_weight(network, feature, i),
        lane_weight(network, feature, i),
    );
    lemma_wrapping_i16(before, 0);
}

/// The order of additions and removals does not matter, in every lane: the
/// fused updates equal any sequence of single ones.
pub proof fn law_fused_equals_sequence(before: i16, a1: int, a2: int, r1: int, r2: int)
    ensures
        wrap16(wrap16(before + a1) - r1) == wrap16(before + a1 - r1),
        wrap16(wrap16(wrap16(before + a1) - r1) - r2) == wrap16(before + a1 - r1 - r2),
        wrap16(wrap16(wrap16(wrap16(before + a1) + a2) - r1) - r2) == wrap16(
            before + a1 + a2 - r1 - r2,
        ),
{
    lemma_wrap16_step(before + a1, r1);
    lemma_wrap16_step(before + a1 - r1, r2);
    lemma_wrap16_step(before + a1, a2);
    lemma_wrap16_step(before + a1 + a2, r1);
    lemma_wrap16_step(before + a1 + a2 - r1, r2);
}

} // verus!
