//! Feature lists as trainers and statistics want them.

use vstd::prelude::*;

use crate::board::Side;
use crate::eval::nnue::threat_tables::ThreatLuts;
use crate::eval::nnue::v16::arch::{
    MAX_PAIR_ACTIVE, MAX_THREAT_ACTIVE, PAIR_DIMS, PSQ_DIMS, THREAT_DIMS,
};
use crate::eval::nnue::v16::inference::lowered;
use crate::eval::nnue::v16::pairs::{
    append_pairs, collect_pairs, law_pairs_in_block, law_pairs_in_range, lemma_pair_features_above,
    pair_features, pawn_pairs, pawns_inside,
};
use crate::eval::nnue::v16::position::{append_halfka, ints, SfnnPosition};
use crate::eval::nnue::v16::threats::{
    append_threats, collect_threats, law_threats_in_block, threat_features, v16_luts,
};
use crate::math::min;

verus! {

/// Writes the threat features of one side to a fixed buffer, unless nobody
/// asks for them or no network is in use.
pub fn collect_threats_lazy(
    luts: &ThreatLuts,
    pos: &SfnnPosition,
    perspective: Side,
    out: &mut [usize; 256],
    active: bool,
    maintenance: bool,
) -> (n: usize)
    requires
        v16_luts(luts),
    ensures
        !(active && maintenance) ==> n == 0 && *final(out) == *old(out),
        active && maintenance ==> {
            let feats = threat_features(pos, perspective);
            &&& n == min(feats.len() as int, MAX_THREAT_ACTIVE as int)
            &&& forall|i: int| 0 <= i < n ==> #[trigger] final(out)@[i] == feats[i]
            &&& forall|i: int|
                n <= i < MAX_THREAT_ACTIVE ==> #[trigger] final(out)@[i] == old(out)@[i]
        },
{
    if !active || !maintenance {
        return 0;
    }
    collect_threats(luts, pos, perspective, out)
}

/// Writes the pair features of one side to a fixed buffer, unless nobody asks
/// for them or no network is in use.
pub fn collect_pairs_lazy(
    pos: &SfnnPosition,
    perspective: Side,
    out: &mut [usize; 256],
    active: bool,
    maintenance: bool,
) -> (n: usize)
    ensures
        !(active && maintenance) ==> n == 0 && *final(out) == *old(out),
        active && maintenance ==> {
            let feats = pair_features(pos, perspective);
            &&& n == min(feats.len() as int, MAX_PAIR_ACTIVE as int)
            &&& forall|i: int| 0 <= i < n ==> #[trigger] final(out)@[i] == feats[i]
            &&& forall|i: int| n <= i < MAX_PAIR_ACTIVE ==> #[trigger] final(out)@[i] == old(out)@[i]
        },
{
    if !active || !maintenance {
        return 0;
    }
    collect_pairs(pos, perspective, out)
}

/// How many threat features one side has, as far as a buffer holds them.
pub fn threats_cached_len(
    luts: &ThreatLuts,
    pos: &SfnnPosition,
    perspective: Side,
    maintenance: bool,
) -> (n: usize)
    requires
        v16_luts(luts),
    ensures
        n == if maintenance {
            min(threat_features(pos, perspective).len() as int, MAX_THREAT_ACTIVE as int)
        } else {
            0
        },
{
    if !maintenance {
        return 0;
    }
    let mut buf: [usize; 256] = [0usize; 256];
    collect_threats(luts, pos, perspective, &mut buf)
}

/// How many pair features one side has, as far as a buffer holds them.
pub fn pairs_cached_len(pos: &SfnnPosition, perspective: Side, maintenance: bool) -> (n: usize)
    ensures
        n == if maintenance {
            min(pair_features(pos, perspective).len() as int, MAX_PAIR_ACTIVE as int)
        } else {
            0
        },
{
    if !maintenance {
        return 0;
    }
    let mut buf: [usize; 256] = [0usize; 256];
    collect_pairs(pos, perspective, &mut buf)
}

/// Threat and pair features of one side, counted from the end of the
/// piece-square block.
pub open spec fn trainer_list(pos: &SfnnPosition, view: Side) -> Seq<int> {
    lowered(threat_features(pos, view) + pair_features(pos, view), PSQ_DIMS as int)
}

fn trainer_side(luts: &ThreatLuts, pos: &SfnnPosition, view: Side) -> (out: Vec<usize>)
    requires
        v16_luts(luts),
    ensures
        ints(out@) == trainer_list(pos, view),
{
    let mut list: Vec<usize> = Vec::new();
    append_threats(luts, pos, view, &mut list);
    append_pairs(pos, view, &mut list);
    let ghost all = threat_features(pos, view) + pair_features(pos, view);
    proof {
        assert(ints(list@) =~= all);
        assert(all.len() == list.len());
        law_threats_in_block(pos, view);
        law_pairs_in_range(pos);
        lemma_pair_features_above(
            view,
            pos.king_square_spec(view),
            pawn_pairs(pos),
            pawn_pairs(pos).len() as int,
        );
        assert forall|i: int| 0 <= i < list.len() implies PSQ_DIMS <= #[trigger] list@[i] by {
            assert(ints(list@)[i] == list@[i]);
            let t = threat_features(pos, view);
            if i < t.len() {
                assert(all[i] == t[i]);
            } else {
                assert(all[i] == pair_features(pos, view)[i - t.len()]);
            }
        }
    }
    let mut out: Vec<usize> = Vec::new();
    let mut i: usize = 0;
    while i < list.len()
        invariant
            i <= list.len(),
            out.len() == i,
            forall|k: int| 0 <= k < list.len() ==> PSQ_DIMS <= #[trigger] list@[k],
            forall|k: int| 0 <= k < i ==> #[trigger] out@[k] == list@[k] - PSQ_DIMS,
        decreases list.len() - i,
    {
        out.push(list[i] - PSQ_DIMS);
        i = i + 1;
    }
    proof {
        assert forall|k: int| 0 <= k < list.len() implies #[trigger] ints(out@)[k] == all[k]
            - PSQ_DIMS by {
            assert(ints(list@)[k] == list@[k]);
        }
        assert(ints(out@) =~= trainer_list(pos, view));
    }
    out
}

/// Every training feature of a position whose pawns stand between the outer
/// ranks lies in the blocks of threats and pairs.
pub proof fn law_trainer_features_in_range(pos: &SfnnPosition, view: Side)
    requires
        pawns_inside(pos),
    ensures
        forall|i: int|
            0 <= i < trainer_list(pos, view).len() ==> 0 <= #[trigger] trainer_list(pos, view)[i]
                < THREAT_DIMS + PAIR_DIMS,
{
    law_threats_in_block(pos, view);
    law_pairs_in_block(pos, view);
    let t = threat_features(pos, view);
    let p = pair_features(pos, view);
    assert forall|i: int| 0 <= i < trainer_list(pos, view).len() implies 0 <= #[trigger] trainer_list(
        pos,
        view,
    )[i] < THREAT_DIMS + PAIR_DIMS by {
        if i < t.len() {
            assert(PSQ_DIMS <= t[i] < PSQ_DIMS + THREAT_DIMS);
        } else {
            assert(PSQ_DIMS + THREAT_DIMS <= p[i - t.len()]);
        }
    }
}

/// The training features of a position: piece-square features of both sides,
/// then threats and pairs of both sides.
pub fn trainer_features(
    luts: &ThreatLuts,
    pieces: &[u64; 6],
    white: u64,
    black: u64,
    mapping: &[u8; 64],
) -> (r: (Vec<usize>, Vec<usize>, Vec<usize>, Vec<usize>))
    requires
        v16_luts(luts),
    ensures
        ({
            let pos = SfnnPosition { pieces: *pieces, white, black, mapping: *mapping };
            &&& ints(r.0@) == pos.halfka_features(Side::White)
            &&& ints(r.1@) == pos.halfka_features(Side::Black)
            &&& ints(r.2@) == trainer_list(&pos, Side::White)
            &&& ints(r.3@) == trainer_list(&pos, Side::Black)
        }),
{
    let pos: SfnnPosition = SfnnPosition { pieces: *pieces, white, black, mapping: *mapping };
    let mut w_h: Vec<usize> = Vec::new();
    let mut b_h: Vec<usize> = Vec::new();
    append_halfka(&pos, Side::White, &mut w_h);
    append_halfka(&pos, Side::Black, &mut b_h);
    let w_t: Vec<usize> = trainer_side(luts, &pos, Side::White);
    let b_t: Vec<usize> = trainer_side(luts, &pos, Side::Black);
    assert(ints(w_h@) =~= pos.halfka_features(Side::White));
    assert(ints(b_h@) =~= pos.halfka_features(Side::Black));
    (w_h, b_h, w_t, b_t)
}

/// A trainer sees the threats first and then the pairs, numbered from zero.
pub proof fn law_trainer_lists_threats_first(pos: &SfnnPosition, view: Side, i: int)
    ensures
        trainer_list(pos, view).len() == threat_features(pos, view).len() + pair_features(
            pos,
            view,
        ).len(),
        0 <= i < threat_features(pos, view).len() ==> trainer_list(pos, view)[i] + 22_528
            == threat_features(pos, view)[i],
        0 <= i < pair_features(pos, view).len() ==> trainer_list(pos, view)[threat_features(
            pos,
            view,
        ).len() + i] + 22_528 == pair_features(pos, view)[i],
{
}

} // verus!
