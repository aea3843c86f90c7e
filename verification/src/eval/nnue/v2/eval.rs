//! Accumulators of the v10 networks, and evaluation with both of them.

use vstd::prelude::*;

use crate::bits::pop;
use crate::board::{BoardState, Side};
use crate::eval::nnue::threat_tables::ThreatLuts;
use crate::eval::nnue::v16::accumulate::{column_sum16, column_sum32, has_rows, scatter_halfka};
use crate::eval::nnue::v16::arch::{bucket_of, material_balance, material_bucket};
use crate::eval::nnue::v16::eval::{
    after_adds, after_dels, adds_match, dels_match, event_ok, law_moved_sums_equal_fresh_sums,
    move_sums, refresh_sums, refreshable, sums_are, sums_moved, SfnnEvent, SfnnPending,
};
use crate::eval::nnue::v16::evaluate::SfnnEval;
use crate::eval::nnue::v16::loader::SfnnTransformer;
use crate::eval::nnue::v16::position::{
    append_halfka, ints, kings_present, kings_present_spec, lemma_features_bound, Placement,
    SfnnPosition,
};
use crate::eval::nnue::v2::arch::{small_first, use_small_net, SMALL_L1};
use crate::eval::nnue::v2::inference::{
    eval_with_net, law_psqt_term_measures_the_lead, propagated, psqt_term, transformed,
};
use crate::eval::nnue::v2::loader::Sfnn10Net;
use crate::eval::nnue::v2::threats::v10_luts;
use crate::math::{abs, clamp, clamp_i32, div_toward_zero, is_quotient, wrap16, wrap32};

verus! {

/// Running sums of the big network for both perspectives, and the generation
/// they belong to.
#[derive(Clone, Debug)]
pub struct Sfnn10Accs {
    pub big_halfka: [[i16; 1024]; 2],
    pub big_psqt: [[i32; 8]; 2],
    pub big_threat_psqt: [[i32; 8]; 2],
    pub generation: u64,
}

impl Sfnn10Accs {
    pub fn empty() -> (r: Sfnn10Accs)
        ensures
            forall|p: int, j: int|
                0 <= p < 2 && 0 <= j < 1024 ==> #[trigger] r.big_halfka@[p]@[j] == 0,
            forall|p: int, b: int| 0 <= p < 2 && 0 <= b < 8 ==> #[trigger] r.big_psqt@[p]@[b] == 0,
            forall|p: int, b: int|
                0 <= p < 2 && 0 <= b < 8 ==> #[trigger] r.big_threat_psqt@[p]@[b] == 0,
            r.generation == 0,
    {
        Sfnn10Accs {
            big_halfka: [[0i16; 1024]; 2],
            big_psqt: [[0i32; 8]; 2],
            big_threat_psqt: [[0i32; 8]; 2],
            generation: 0,
        }
    }

    /// One perspective's sums are those of a position.
    pub open spec fn fresh(&self, view: Side, tr: &SfnnTransformer, pos: &SfnnPosition) -> bool {
        sums_are(
            self.big_halfka@[view.ix()]@,
            self.big_psqt@[view.ix()]@,
            tr,
            pos.halfka_features(view),
        )
    }

    /// Everything but one perspective's sums is the same.
    pub open spec fn same_but(&self, other: &Sfnn10Accs, p: int) -> bool {
        &&& self.big_halfka@[1 - p] == other.big_halfka@[1 - p]
        &&& self.big_psqt@[1 - p] == other.big_psqt@[1 - p]
        &&& self.big_threat_psqt == other.big_threat_psqt
        &&& self.generation == other.generation
    }
}

/// Both networks.
pub struct LoadedNets {
    pub big: Sfnn10Net,
    pub small: Sfnn10Net,
}

impl LoadedNets {
    /// Both networks have complete lists and their own widths.
    pub open spec fn usable(&self) -> bool {
        &&& self.big.sized()
        &&& self.big.l1 == 1024
        &&& self.small.sized()
        &&& self.small.l1 == 128
    }
}

/// Sums the piece features of one perspective from scratch.
pub fn refresh_perspective(
    pos: &SfnnPosition,
    nets: &LoadedNets,
    perspective: Side,
    accs: &mut Sfnn10Accs,
)
    requires
        !(perspective is Both),
        refreshable(&nets.big.transformer),
    ensures
        final(accs).fresh(perspective, &nets.big.transformer, pos),
        final(accs).same_but(old(accs), perspective.ix()),
{
    let p: usize = perspective as usize;
    refresh_sums(
        pos,
        &nets.big.transformer,
        perspective,
        &mut accs.big_halfka[p],
        &mut accs.big_psqt[p],
    );
}

/// The effect of refreshing both perspectives.
pub open spec fn refreshed_all(
    before: &Sfnn10Accs,
    after: &Sfnn10Accs,
    pos: &SfnnPosition,
    nets: Option<&LoadedNets>,
    generation: u64,
) -> bool {
    if !kings_present_spec(pos) {
        *after == *before
    } else {
        &&& after.generation == generation
        &&& match nets {
            Some(n) => {
                &&& after.fresh(Side::White, &n.big.transformer, pos)
                &&& after.fresh(Side::Black, &n.big.transformer, pos)
                &&& forall|p: int, b: int|
                    0 <= p < 2 && 0 <= b < 8 ==> #[trigger] after.big_threat_psqt@[p]@[b] == 0
            },
            None => {
                &&& after.big_halfka == before.big_halfka
                &&& after.big_psqt == before.big_psqt
                &&& after.big_threat_psqt == before.big_threat_psqt
            },
        }
    }
}

/// Refreshes both perspectives. Without both kings nothing changes; without
/// networks only the generation is noted.
pub fn refresh_all(
    pos: &SfnnPosition,
    nets: Option<&LoadedNets>,
    generation: u64,
    accs: &mut Sfnn10Accs,
)
    requires
        nets matches Some(n) ==> refreshable(&n.big.transformer),
    ensures
        refreshed_all(old(accs), final(accs), pos, nets, generation),
{
    if !kings_present(pos) {
        return;
    }
    if let Some(n) = nets {
        refresh_perspective(pos, n, Side::White, accs);
        refresh_perspective(pos, n, Side::Black, accs);
        accs.big_threat_psqt = [[0i32; 8]; 2];
        accs.generation = generation;
    } else {
        accs.generation = generation;
    }
}

/// Refreshes accumulators that belong to another generation.
pub fn ensure_fresh(
    pos: &SfnnPosition,
    nets: Option<&LoadedNets>,
    generation: u64,
    accs: &mut Sfnn10Accs,
)
    requires
        nets matches Some(n) ==> refreshable(&n.big.transformer),
    ensures
        old(accs).generation == generation ==> *final(accs) == *old(accs),
        old(accs).generation != generation ==> refreshed_all(
            old(accs),
            final(accs),
            pos,
            nets,
            generation,
        ),
{
    if accs.generation != generation {
        refresh_all(pos, nets, generation, accs);
    }
}

/// The effect of queued events on one perspective: a refresh where its king
/// moved.
pub open spec fn side_queued(
    before: &Sfnn10Accs,
    after: &Sfnn10Accs,
    pos: &SfnnPosition,
    tr: &SfnnTransformer,
    view: Side,
    adds: Seq<Option<SfnnEvent>>,
    dels: Seq<Option<SfnnEvent>>,
    king_moved: bool,
) -> bool {
    if king_moved {
        after.fresh(view, tr, pos)
    } else {
        sums_moved(
            before.big_halfka@[view.ix()]@,
            before.big_psqt@[view.ix()]@,
            after.big_halfka@[view.ix()]@,
            after.big_psqt@[view.ix()]@,
            tr,
            view,
            pos.king_square_spec(view),
            dels,
            adds,
        )
    }
}

/// The effect of queued events.
pub open spec fn queued(
    before: &Sfnn10Accs,
    after: &Sfnn10Accs,
    pos: &SfnnPosition,
    nets: Option<&LoadedNets>,
    generation: u64,
    adds: Seq<Option<SfnnEvent>>,
    dels: Seq<Option<SfnnEvent>>,
    king_moved: Seq<bool>,
) -> bool {
    match nets {
        None => *after == *before,
        Some(n) => {
            let tr = &n.big.transformer;
            &&& side_queued(before, after, pos, tr, Side::White, adds, dels, king_moved[0])
            &&& side_queued(before, after, pos, tr, Side::Black, adds, dels, king_moved[1])
            &&& after.big_threat_psqt == before.big_threat_psqt
            &&& after.generation == generation
        },
    }
}

fn queue_side(
    pos: &SfnnPosition,
    n: &LoadedNets,
    accs: &mut Sfnn10Accs,
    perspective: Side,
    adds: &[Option<SfnnEvent>],
    dels: &[Option<SfnnEvent>],
    king_moved: bool,
)
    requires
        !(perspective is Both),
        refreshable(&n.big.transformer),
        forall|i: int| 0 <= i < dels.len() ==> event_ok(#[trigger] dels@[i]),
        forall|i: int| 0 <= i < adds.len() ==> event_ok(#[trigger] adds@[i]),
        king_moved || pos.kings(perspective) != 0 || (dels.len() == 0 && adds.len() == 0),
    ensures
        side_queued(
            old(accs),
            final(accs),
            pos,
            &n.big.transformer,
            perspective,
            adds@,
            dels@,
            king_moved,
        ),
        final(accs).same_but(old(accs), perspective.ix()),
{
    if king_moved {
        refresh_perspective(pos, n, perspective, accs);
    } else {
        let p: usize = perspective as usize;
        let ksq: usize = pos.king_square(perspective);
        move_sums(
            &n.big.transformer,
            perspective,
            ksq,
            dels,
            adds,
            &mut accs.big_halfka[p],
            &mut accs.big_psqt[p],
        );
    }
}

/// Applies the events of one move to both perspectives. A perspective whose
/// king moved is refreshed instead.
pub fn apply_queued(
    pos: &SfnnPosition,
    nets: Option<&LoadedNets>,
    generation: u64,
    accs: &mut Sfnn10Accs,
    adds: &[Option<SfnnEvent>],
    dels: &[Option<SfnnEvent>],
    king_moved: &[bool; 2],
)
    requires
        nets matches Some(n) ==> {
            &&& refreshable(&n.big.transformer)
            &&& forall|i: int| 0 <= i < dels.len() ==> event_ok(#[trigger] dels@[i])
            &&& forall|i: int| 0 <= i < adds.len() ==> event_ok(#[trigger] adds@[i])
            &&& dels.len() == 0 && adds.len() == 0 || (king_moved@[0] || pos.kings(Side::White) != 0)
                && (king_moved@[1] || pos.kings(Side::Black) != 0)
        },
    ensures
        queued(old(accs), final(accs), pos, nets, generation, adds@, dels@, king_moved@),
{
    if let Some(n) = nets {
        let ghost start = *accs;
        queue_side(pos, n, accs, Side::White, adds, dels, king_moved[0]);
        let ghost mid = *accs;
        queue_side(pos, n, accs, Side::Black, adds, dels, king_moved[1]);
        accs.generation = generation;
        proof {
            let tr = &n.big.transformer;
            assert(side_queued(&start, &mid, pos, tr, Side::White, adds@, dels@, king_moved@[0]));
            assert(side_queued(&start, accs, pos, tr, Side::White, adds@, dels@, king_moved@[0]));
            assert(side_queued(&mid, accs, pos, tr, Side::Black, adds@, dels@, king_moved@[1]));
            assert(side_queued(&start, accs, pos, tr, Side::Black, adds@, dels@, king_moved@[1]));
        }
    }
}

/// Whether accumulators that a queue is flushed into were exact before its
/// events: they belong to another pair of networks or the queue lost an event,
/// so that nothing is asked of them, or the queue leads from a placement to the
/// position and every perspective whose king stayed has the sums of that
/// placement.
pub open spec fn exact_before(
    accs: &Sfnn10Accs,
    pending: &SfnnPending,
    pl: Placement,
    pos: &SfnnPosition,
    tr: &SfnnTransformer,
    generation: u64,
) -> bool {
    let dels = pending.dels@.take(pending.n_dels as int);
    let adds = pending.adds@.take(pending.n_adds as int);
    accs.generation == generation && !pending.overflowed ==> {
        &&& pl.mapping.len() == 64
        &&& dels_match(pl, dels, dels.len() as int)
        &&& adds_match(after_dels(pl, dels, dels.len() as int), adds, adds.len() as int)
        &&& pos.placement() == after_adds(
            after_dels(pl, dels, dels.len() as int),
            adds,
            adds.len() as int,
        )
        &&& !pending.king_moved@[0] ==> sums_are(
            accs.big_halfka@[0]@,
            accs.big_psqt@[0]@,
            tr,
            pl.features(Side::White, pos.king_square_spec(Side::White), 64),
        )
        &&& !pending.king_moved@[1] ==> sums_are(
            accs.big_halfka@[1]@,
            accs.big_psqt@[1]@,
            tr,
            pl.features(Side::Black, pos.king_square_spec(Side::Black), 64),
        )
    }
}

/// The effect of flushing a queue, given networks and both kings.
pub open spec fn flushed(
    before: &Sfnn10Accs,
    after: &Sfnn10Accs,
    pending: &SfnnPending,
    pos: &SfnnPosition,
    nets: Option<&LoadedNets>,
    generation: u64,
) -> bool {
    if before.generation != generation || pending.overflowed {
        refreshed_all(before, after, pos, nets, generation)
    } else {
        queued(
            before,
            after,
            pos,
            nets,
            generation,
            pending.adds@.take(pending.n_adds as int),
            pending.dels@.take(pending.n_dels as int),
            pending.king_moved@,
        )
    }
}

/// Flushing a queue into exact sums gives both perspectives what a refresh
/// gives.
pub proof fn law_flushed_equals_refresh(
    before: &Sfnn10Accs,
    after: &Sfnn10Accs,
    pending: &SfnnPending,
    pl: Placement,
    pos: &SfnnPosition,
    nets: &LoadedNets,
    generation: u64,
)
    requires
        kings_present_spec(pos),
        exact_before(before, pending, pl, pos, &nets.big.transformer, generation),
        flushed(before, after, pending, pos, Some(nets), generation),
    ensures
        after.fresh(Side::White, &nets.big.transformer, pos),
        after.fresh(Side::Black, &nets.big.transformer, pos),
        after.generation == generation,
{
    let tr = &nets.big.transformer;
    let dels = pending.dels@.take(pending.n_dels as int);
    let adds = pending.adds@.take(pending.n_adds as int);
    if before.generation == generation && !pending.overflowed {
        law_queue_equals_refresh(
            before,
            after,
            pos,
            tr,
            Side::White,
            pl,
            adds,
            dels,
            pending.king_moved@[0],
        );
        law_queue_equals_refresh(
            before,
            after,
            pos,
            tr,
            Side::Black,
            pl,
            adds,
            dels,
            pending.king_moved@[1],
        );
    }
}

/// Brings accumulators up to date with the queued events and clears the queue.
/// Stale accumulators, and those that missed an event, are refreshed.
pub fn flush_pending(
    pos: &SfnnPosition,
    nets: Option<&LoadedNets>,
    generation: u64,
    accs: &mut Sfnn10Accs,
    pending: &mut SfnnPending,
)
    requires
        nets matches Some(n) ==> refreshable(&n.big.transformer),
        old(pending).wf(),
    ensures
        final(pending).is_clear(),
        nets is None || !kings_present_spec(pos) ==> *final(accs) == *old(accs),
        nets is Some && kings_present_spec(pos) ==> flushed(
            old(accs),
            final(accs),
            old(pending),
            pos,
            nets,
            generation,
        ),
        nets matches Some(n) ==> kings_present_spec(pos) ==> forall|pl: Placement|
            #[trigger] exact_before(
                old(accs),
                old(pending),
                pl,
                pos,
                &n.big.transformer,
                generation,
            ) ==> {
                &&& final(accs).fresh(Side::White, &n.big.transformer, pos)
                &&& final(accs).fresh(Side::Black, &n.big.transformer, pos)
                &&& final(accs).generation == generation
            },
{
    if nets.is_none() || !kings_present(pos) {
        pending.clear();
        return;
    }
    if accs.generation != generation || pending.overflowed {
        refresh_all(pos, nets, generation, accs);
        pending.clear();
        return;
    }
    let adds: &[Option<SfnnEvent>] = vstd::slice::slice_subrange(
        pending.adds.as_slice(),
        0,
        pending.n_adds,
    );
    let dels: &[Option<SfnnEvent>] = vstd::slice::slice_subrange(
        pending.dels.as_slice(),
        0,
        pending.n_dels,
    );
    assert(adds@ =~= old(pending).adds@.take(old(pending).n_adds as int));
    assert(dels@ =~= old(pending).dels@.take(old(pending).n_dels as int));
    apply_queued(pos, nets, generation, accs, adds, dels, &pending.king_moved);
    pending.clear();
    proof {
        if let Some(n) = nets {
            assert forall|pl: Placement|
                #[trigger] exact_before(
                    old(accs),
                    old(pending),
                    pl,
                    pos,
                    &n.big.transformer,
                    generation,
                ) implies accs.fresh(Side::White, &n.big.transformer, pos) && accs.fresh(
                Side::Black,
                &n.big.transformer,
                pos,
            ) by {
                law_flushed_equals_refresh(
                    old(accs),
                    accs,
                    old(pending),
                    pl,
                    pos,
                    n,
                    generation,
                );
            }
        }
    }
}

/// Applying the queued events of a move gives what a refresh of the new
/// position gives, for a perspective whose king stayed where it is.
pub proof fn law_queue_equals_refresh(
    before: &Sfnn10Accs,
    after: &Sfnn10Accs,
    pos: &SfnnPosition,
    tr: &SfnnTransformer,
    view: Side,
    pl: Placement,
    adds: Seq<Option<SfnnEvent>>,
    dels: Seq<Option<SfnnEvent>>,
    king_moved: bool,
)
    requires
        !(view is Both),
        pos.kings(view) != 0,
        pl.mapping.len() == 64,
        side_queued(before, after, pos, tr, view, adds, dels, king_moved),
        !king_moved ==> {
            &&& sums_are(
                before.big_halfka@[view.ix()]@,
                before.big_psqt@[view.ix()]@,
                tr,
                pl.features(view, pos.king_square_spec(view), 64),
            )
            &&& dels_match(pl, dels, dels.len() as int)
            &&& adds_match(after_dels(pl, dels, dels.len() as int), adds, adds.len() as int)
            &&& pos.placement() == after_adds(
                after_dels(pl, dels, dels.len() as int),
                adds,
                adds.len() as int,
            )
        },
    ensures
        after.fresh(view, tr, pos),
{
    if !king_moved {
        law_moved_sums_equal_fresh_sums(
            before.big_halfka@[view.ix()]@,
            before.big_psqt@[view.ix()]@,
            after.big_halfka@[view.ix()]@,
            after.big_psqt@[view.ix()]@,
            tr,
            view,
            pos.king_square_spec(view),
            pl,
            dels,
            adds,
        );
    }
}

/// Sums of the small network for a list of features.
pub open spec fn small_lanes(tr: &SfnnTransformer, feats: Seq<int>) -> Seq<i16> {
    Seq::new(
        128,
        |j: int| wrap16(tr.bias@[j] + column_sum16(tr.weights@, 128, feats, j)) as i16,
    )
}

/// Buckets of the small network for a list of features.
pub open spec fn small_buckets(tr: &SfnnTransformer, feats: Seq<int>) -> Seq<i32> {
    Seq::new(8, |b: int| wrap32(column_sum32(tr.psqt_w@, feats, b)) as i32)
}

fn small_sums(pos: &SfnnPosition, net: &Sfnn10Net, view: Side) -> (r: (Vec<i16>, [i32; 8]))
    requires
        !(view is Both),
        net.sized(),
        net.l1 == 128,
    ensures
        r.0@ == small_lanes(&net.transformer, pos.halfka_features(view)),
        r.1@ == small_buckets(&net.transformer, pos.halfka_features(view)),
{
    let tr: &SfnnTransformer = &net.transformer;
    let mut feats: Vec<usize> = Vec::new();
    append_halfka(pos, view, &mut feats);
    let ghost list = pos.halfka_features(view);
    proof {
        assert(ints(feats@) =~= list);
        let ksq = pos.king_square_spec(view);
        if pos.kings(view) != 0 {
            vstd::std_specs::bits::axiom_u64_trailing_zeros(pos.kings(view));
            lemma_features_bound(pos.placement(), view, ksq, 64);
        }
        assert forall|i: int| 0 <= i < feats.len() implies has_rows(
            tr,
            128,
            #[trigger] feats@[i] as int,
        ) by {
            assert(ints(feats@)[i] == list[i]);
        }
    }
    let mut lanes: Vec<i16> = Vec::new();
    let mut j: usize = 0;
    while j < 128
        invariant
            j <= 128,
            tr.bias.len() == 128,
            lanes.len() == j,
            forall|k: int| 0 <= k < j ==> #[trigger] lanes@[k] == tr.bias@[k],
        decreases 128 - j,
    {
        lanes.push(tr.bias[j]);
        j = j + 1;
    }
    let mut buckets: [i32; 8] = [0i32; 8];
    scatter_halfka(tr, SMALL_L1, feats.as_slice(), lanes.as_mut_slice(), &mut buckets, 1);
    assert(lanes@ =~= small_lanes(tr, list));
    assert(buckets@ =~= small_buckets(tr, list));
    (lanes, buckets)
}

/// What two terms combine to, in 32 bits.
pub open spec fn mixed(psqt: int, positional: int) -> int {
    div_toward_zero(wrap32(125 * psqt + 131 * positional), 128)
}

fn mix(psqt: i32, positional: i32) -> (r: i32)
    ensures
        r == mixed(psqt as int, positional as int),
        -0x100_0000 <= r <= 0x100_0000,
{
    let wide: i64 = 125 * psqt as i64 + 131 * positional as i64;
    crate::eval::nnue::leb128::low_i32(wide) / 128
}

/// The terms that the big network gives.
pub open spec fn big_terms(
    pos: &SfnnPosition,
    nets: &LoadedNets,
    accs: &Sfnn10Accs,
    stm: Side,
) -> (int, int) {
    let bucket = bucket_of(pop(pos.occupied_spec()));
    (
        psqt_term(pos, &nets.big, accs.big_psqt@[0]@, accs.big_psqt@[1]@, stm, bucket),
        div_toward_zero(
            propagated(
                &nets.big.stacks@[bucket],
                nets.big.l1 as int,
                transformed(
                    pos,
                    &nets.big,
                    accs.big_halfka@[0]@,
                    accs.big_halfka@[1]@,
                    stm,
                ),
            ),
            16,
        ),
    )
}

/// The terms that the small network gives.
pub open spec fn small_terms(pos: &SfnnPosition, nets: &LoadedNets, stm: Side) -> (int, int) {
    let bucket = bucket_of(pop(pos.occupied_spec()));
    let tr = &nets.small.transformer;
    let w = pos.halfka_features(Side::White);
    let b = pos.halfka_features(Side::Black);
    (
        psqt_term(pos, &nets.small, small_buckets(tr, w), small_buckets(tr, b), stm, bucket),
        div_toward_zero(
            propagated(
                &nets.small.stacks@[bucket],
                nets.small.l1 as int,
                transformed(pos, &nets.small, small_lanes(tr, w), small_lanes(tr, b), stm),
            ),
            16,
        ),
    )
}

/// Whether the small network decides: the position is lopsided and its score
/// is clear.
pub open spec fn small_decides(pos: &SfnnPosition, nets: &LoadedNets, stm: Side) -> bool {
    let t = small_terms(pos, nets, stm);
    small_first(pos, stm) && abs(mixed(t.0, t.1)) >= 236
}

/// Whether an evaluation is the one that the networks give.
pub open spec fn is_eval(
    e: &SfnnEval,
    pos: &SfnnPosition,
    nets: &LoadedNets,
    accs: &Sfnn10Accs,
    stm: Side,
) -> bool {
    let t = if small_decides(pos, nets, stm) {
        small_terms(pos, nets, stm)
    } else {
        big_terms(pos, nets, accs, stm)
    };
    &&& e.psqt == t.0
    &&& e.positional == t.1
    &&& e.combined == mixed(t.0, t.1)
    &&& e.used_small == small_decides(pos, nets, stm)
}

fn eval_small(pos: &SfnnPosition, nets: &LoadedNets, luts: &ThreatLuts, stm: Side) -> (r: (
    i32,
    i32,
))
    requires
        !(stm is Both),
        v10_luts(luts),
        nets.usable(),
    ensures
        r.0 == small_terms(pos, nets, stm).0,
        r.1 == small_terms(pos, nets, stm).1,
{
    let bucket: usize = material_bucket(pos.piece_count());
    let w: (Vec<i16>, [i32; 8]) = small_sums(pos, &nets.small, Side::White);
    let b: (Vec<i16>, [i32; 8]) = small_sums(pos, &nets.small, Side::Black);
    eval_with_net(
        pos,
        &nets.small,
        luts,
        w.0.as_slice(),
        b.0.as_slice(),
        &w.1,
        &b.1,
        stm,
        bucket,
    )
}

fn eval_big(
    pos: &SfnnPosition,
    nets: &LoadedNets,
    luts: &ThreatLuts,
    accs: &Sfnn10Accs,
    stm: Side,
) -> (r: (i32, i32))
    requires
        !(stm is Both),
        v10_luts(luts),
        nets.usable(),
    ensures
        r.0 == big_terms(pos, nets, accs, stm).0,
        r.1 == big_terms(pos, nets, accs, stm).1,
{
    let bucket: usize = material_bucket(pos.piece_count());
    eval_with_net(
        pos,
        &nets.big,
        luts,
        accs.big_halfka[0].as_slice(),
        accs.big_halfka[1].as_slice(),
        &accs.big_psqt[0],
        &accs.big_psqt[1],
        stm,
        bucket,
    )
}

/// Evaluates a position with both networks: lopsided positions with the small
/// one, unless its score is unclear. Sums of another generation are refreshed
/// first.
pub fn evaluate_nets(
    pos: &SfnnPosition,
    nets: Option<&LoadedNets>,
    generation: u64,
    luts: &ThreatLuts,
    accs: &mut Sfnn10Accs,
    stm: Side,
) -> (r: Option<SfnnEval>)
    requires
        !(stm is Both),
        v10_luts(luts),
        nets matches Some(n) ==> n.usable(),
    ensures
        r is Some <==> nets is Some,
        r is None ==> *final(accs) == *old(accs),
        r is Some ==> {
            &&& old(accs).generation == generation ==> *final(accs) == *old(accs)
            &&& old(accs).generation != generation ==> refreshed_all(
                old(accs),
                final(accs),
                pos,
                nets,
                generation,
            )
        },
        r matches Some(e) ==> is_eval(&e, pos, nets->0, final(accs), stm),
{
    match nets {
        None => None,
        Some(n) => {
            ensure_fresh(pos, nets, generation, accs);
            let mut used_small: bool = false;
            let mut terms: (i32, i32) = (0, 0);
            if use_small_net(pos, stm) {
                terms = eval_small(pos, n, luts, stm);
                let combined: i32 = mix(terms.0, terms.1);
                used_small = combined >= 236 || combined <= -236;
            }
            if !used_small {
                terms = eval_big(pos, n, luts, accs, stm);
            }
            Some(
                SfnnEval {
                    psqt: terms.0,
                    positional: terms.1,
                    combined: mix(terms.0, terms.1),
                    used_small,
                },
            )
        },
    }
}

/// Evaluates a board with both networks, from the sums of its newest ply.
pub fn evaluate_board(
    board: &BoardState,
    nets: Option<&LoadedNets>,
    generation: u64,
    luts: &ThreatLuts,
    history: &mut Vec<Sfnn10Accs>,
) -> (r: Option<i16>)
    requires
        !(board.side_to_move is Both),
        v10_luts(luts),
        nets matches Some(n) ==> n.usable(),
    ensures
        ({
            let pos = SfnnPosition::of(board);
            let idx = board.history.index as int;
            &&& r is Some <==> nets is Some && idx < old(history).len()
            &&& r is None ==> final(history)@ == old(history)@
            &&& r matches Some(score) ==> {
                let now = final(history)@[idx];
                &&& final(history)@ == old(history)@.update(idx, now)
                &&& old(history)@[idx].generation == generation ==> now == old(history)@[idx]
                &&& old(history)@[idx].generation != generation ==> refreshed_all(
                    &old(history)@[idx],
                    &now,
                    &pos,
                    nets,
                    generation,
                )
                &&& exists|e: SfnnEval|
                    #[trigger] is_eval(&e, &pos, nets->0, &now, board.side_to_move) && score
                        == clamp(e.combined as int, -29_000, 29_000)
            }
        }),
{
    if nets.is_none() {
        return None;
    }
    let pos: SfnnPosition = SfnnPosition::from_board(board);
    let idx: usize = board.history.index;
    if idx >= history.len() {
        return None;
    }
    let e: Option<SfnnEval> = evaluate_nets(
        &pos,
        nets,
        generation,
        luts,
        &mut history[idx],
        board.side_to_move,
    );
    match e {
        Some(v) => {
            assert(is_eval(
                &v,
                &pos,
                nets->0,
                &history@[idx as int],
                board.side_to_move,
            ));
            Some(clamp_i32(v.combined, -29_000, 29_000) as i16)
        },
        None => None,
    }
}

/// The two terms are mixed 125 to 131 over 128, without the fraction: terms of
/// one sign keep it, and neither term lowers the mix when it rises.
#[verifier::rlimit(60)]
pub proof fn law_mixed_terms(psqt: int, positional: int, more: int)
    requires
        -8_000_000 <= psqt <= 8_000_000,
        -8_000_000 <= positional <= 8_000_000,
        0 <= more <= 8_000_000,
    ensures
        is_quotient(125 * psqt + 131 * positional, 128, mixed(psqt, positional)),
        psqt >= 0 && positional >= 0 ==> mixed(psqt, positional) >= 0,
        psqt <= 0 && positional <= 0 ==> mixed(psqt, positional) <= 0,
        psqt + more <= 8_000_000 ==> mixed(psqt, positional) <= mixed(psqt + more, positional),
        positional + more <= 8_000_000 ==> mixed(psqt, positional) <= mixed(
            psqt,
            positional + more,
        ),
        mixed(-psqt, -positional) == -mixed(psqt, positional),
{
}

/// The small network decides only where one side is more than 962 ahead in
/// material and the small network itself sees a lead of at least 236; then, and
/// only then, its terms are the evaluation.
#[verifier::rlimit(60)]
pub proof fn law_small_network_decides(
    e: &SfnnEval,
    pos: &SfnnPosition,
    nets: &LoadedNets,
    accs: &Sfnn10Accs,
    stm: Side,
)
    requires
        is_eval(e, pos, nets, accs, stm),
    ensures
        ({
            let small = small_terms(pos, nets, stm);
            let lead = mixed(small.0, small.1);
            let balance = material_balance(pos, stm);
            &&& e.used_small <==> !(-962 <= balance <= 962) && !(-236 < lead < 236)
            &&& e.used_small ==> e.psqt == small.0 && e.positional == small.1 && e.combined == lead
            &&& !e.used_small ==> e.psqt == big_terms(pos, nets, accs, stm).0 && e.positional
                == big_terms(pos, nets, accs, stm).1
        }),
{
}

/// The terms of both networks measure the lead of the side to move in the
/// bucket for the number of pieces.
#[verifier::rlimit(60)]
pub proof fn law_terms_measure_the_lead(
    pos: &SfnnPosition,
    nets: &LoadedNets,
    accs: &Sfnn10Accs,
    bucket: int,
)
    requires
        0 <= bucket < 8,
        bucket == bucket_of(pop(pos.white | pos.black)),
        !nets.big.use_threats,
        !nets.small.use_threats,
    ensures
        ({
            let lead = accs.big_psqt@[0]@[bucket] - accs.big_psqt@[1]@[bucket];
            let tr = &nets.small.transformer;
            let small = wrap32(
                column_sum32(tr.psqt_w@, pos.halfka_features(Side::White), bucket),
            ) - wrap32(column_sum32(tr.psqt_w@, pos.halfka_features(Side::Black), bucket));
            &&& -0x8000_0000 < lead < 0x8000_0000 ==> is_quotient(
                lead,
                32,
                big_terms(pos, nets, accs, Side::White).0,
            ) && is_quotient(-lead, 32, big_terms(pos, nets, accs, Side::Black).0)
            &&& -0x8000_0000 < small < 0x8000_0000 ==> is_quotient(
                small,
                32,
                small_terms(pos, nets, Side::White).0,
            ) && is_quotient(-small, 32, small_terms(pos, nets, Side::Black).0)
        }),
{
    law_psqt_term_measures_the_lead(
        pos,
        &nets.big,
        accs.big_psqt@[0]@,
        accs.big_psqt@[1]@,
        bucket,
    );
    let tr = &nets.small.transformer;
    law_psqt_term_measures_the_lead(
        pos,
        &nets.small,
        small_buckets(tr, pos.halfka_features(Side::White)),
        small_buckets(tr, pos.halfka_features(Side::Black)),
        bucket,
    );
}

} // verus!
