//! Bringing the accumulators of the newest ply up to date, from the nearest
//! ply that already is.

use vstd::prelude::*;

use crate::board::{BoardState, History, Side};
use crate::eval::nnue::v16::eval::{
    adds_match, after_adds, after_dels, dels_match, law_moved_on_equals_refresh, move_on, moved_on,
    refreshable, update_perspective_finny_or_refresh, FinnyCache, LoadedNets, SfnnEvent,
    SfnnPending,
};
use crate::eval::nnue::v16::loader::SfnnTransformer;
use crate::eval::nnue::v16::position::{kings_present, kings_present_spec, Placement, SfnnPosition};

verus! {

/// Whether the sums of a ply are marked as up to date for one perspective.
pub open spec fn current(h: &History, k: int, p: int, generation: u64) -> bool {
    h.sfnn16_computed@[k]@[p] && h.sfnn16@[k].generation == generation
}

/// The nearest ply before `k` that is up to date, unless a king move or a lost
/// event lies in between.
pub open spec fn nearest_current(h: &History, k: int, p: int, generation: u64) -> Option<int>
    decreases k,
{
    if k <= 0 {
        None
    } else if h.sfnn16_pending@[k].king_moved@[p] || h.sfnn16_pending@[k].overflowed {
        None
    } else if current(h, k - 1, p, generation) {
        Some(k - 1)
    } else {
        nearest_current(h, k - 1, p, generation)
    }
}

impl History {
    /// The lists cover the newest ply, and every queue is sound.
    pub open spec fn covers(&self) -> bool {
        &&& self.index < self.sfnn16.len()
        &&& self.index < self.sfnn16_computed.len()
        &&& self.index < self.sfnn16_pending.len()
        &&& forall|k: int| 0 <= k <= self.index ==> (#[trigger] self.sfnn16_pending@[k]).wf()
    }

    /// Everything but the sums of the v16 network is the same.
    pub open spec fn same_frame(&self, other: &History) -> bool {
        &&& self.index == other.index
        &&& self.accumulators == other.accumulators
        &&& self.computed == other.computed
        &&& self.sfnn16_pending == other.sfnn16_pending
        &&& self.sfnn16.len() == other.sfnn16.len()
        &&& self.sfnn16_computed.len() == other.sfnn16_computed.len()
    }

    /// One ply is the same.
    pub open spec fn same_ply(&self, other: &History, k: int) -> bool {
        self.sfnn16@[k] == other.sfnn16@[k] && self.sfnn16_computed@[k] == other.sfnn16_computed@[k]
    }

    /// Events of one ply: pieces that left.
    pub open spec fn dels_at(&self, k: int) -> Seq<Option<SfnnEvent>> {
        self.sfnn16_pending@[k].dels@.take(self.sfnn16_pending@[k].n_dels as int)
    }

    /// Events of one ply: pieces that appeared.
    pub open spec fn adds_at(&self, k: int) -> Seq<Option<SfnnEvent>> {
        self.sfnn16_pending@[k].adds@.take(self.sfnn16_pending@[k].n_adds as int)
    }
}

/// One perspective of a ply was marked as up to date; the other and the rest
/// of the entry are as before.
pub open spec fn marked(before: &History, after: &History, k: int, p: int, generation: u64) -> bool {
    &&& after.sfnn16@[k].halfka@[1 - p] == before.sfnn16@[k].halfka@[1 - p]
    &&& after.sfnn16@[k].psqt@[1 - p] == before.sfnn16@[k].psqt@[1 - p]
    &&& after.sfnn16@[k].threat_psqt == before.sfnn16@[k].threat_psqt
    &&& after.sfnn16@[k].generation == generation
    &&& after.sfnn16_computed@[k]@ == before.sfnn16_computed@[k]@.update(p, true)
}

/// The plies from `from + 1` to `to` were replayed one after the other: those
/// already up to date were left alone, the others follow from the ply before.
pub open spec fn replayed(
    before: &History,
    after: &History,
    tr: &SfnnTransformer,
    view: Side,
    ksq: int,
    generation: u64,
    from: int,
    to: int,
) -> bool {
    &&& after.same_frame(before)
    &&& forall|k: int|
        #![trigger after.sfnn16@[k]]
        0 <= k <= before.index && !(from < k <= to) ==> after.same_ply(before, k)
    &&& forall|k: int|
        #![trigger after.sfnn16@[k]]
        from < k <= to ==> if current(before, k, view.ix(), generation) {
            after.same_ply(before, k)
        } else {
            &&& marked(before, after, k, view.ix(), generation)
            &&& moved_on(
                &after.sfnn16@[k - 1],
                &after.sfnn16@[k],
                tr,
                view,
                ksq,
                before.dels_at(k),
                before.adds_at(k),
            )
        }
}

/// The effect of bringing one perspective of the newest ply up to date.
pub open spec fn side_freshened(
    before: &History,
    after: &History,
    pos: &SfnnPosition,
    tr: &SfnnTransformer,
    generation: u64,
    view: Side,
) -> bool {
    let idx = before.index as int;
    if current(before, idx, view.ix(), generation) {
        *after == *before
    } else {
        match nearest_current(before, idx, view.ix(), generation) {
            Some(anc) => replayed(
                before,
                after,
                tr,
                view,
                pos.king_square_spec(view),
                generation,
                anc,
                idx,
            ),
            None => {
                &&& after.same_frame(before)
                &&& forall|k: int|
                    #![trigger after.sfnn16@[k]]
                    0 <= k < idx ==> after.same_ply(before, k)
                &&& marked(before, after, idx, view.ix(), generation)
                &&& after.sfnn16@[idx].fresh(view, tr, pos)
            },
        }
    }
}

/// Finds the nearest ply that is up to date.
fn find_current(h: &History, p: usize, generation: u64) -> (r: Option<usize>)
    requires
        h.covers(),
        p < 2,
    ensures
        match nearest_current(h, h.index as int, p as int, generation) {
            Some(a) => r == Some(a as usize) && 0 <= a < h.index,
            None => r is None,
        },
{
    let mut k: usize = h.index;
    while k > 0
        invariant
            k <= h.index,
            p < 2,
            h.covers(),
            nearest_current(h, h.index as int, p as int, generation) == nearest_current(
                h,
                k as int,
                p as int,
                generation,
            ),
        decreases k,
    {
        if h.sfnn16_pending[k].king_moved[p] || h.sfnn16_pending[k].overflowed {
            return None;
        }
        if h.sfnn16_computed[k - 1][p] && h.sfnn16[k - 1].generation == generation {
            return Some(k - 1);
        }
        k = k - 1;
    }
    None
}

/// Moves one ply on from the ply before it.
fn replay_ply(
    h: &mut History,
    nets: &LoadedNets,
    generation: u64,
    perspective: Side,
    ksq: usize,
    k: usize,
)
    requires
        !(perspective is Both),
        refreshable(&nets.net.transformer),
        old(h).covers(),
        ksq < 64,
        0 < k <= old(h).index,
    ensures
        final(h).same_frame(old(h)),
        forall|i: int|
            #![trigger final(h).sfnn16@[i]]
            0 <= i <= old(h).index && i != k ==> final(h).same_ply(old(h), i),
        marked(old(h), final(h), k as int, perspective.ix(), generation),
        moved_on(
            &final(h).sfnn16@[k - 1],
            &final(h).sfnn16@[k as int],
            &nets.net.transformer,
            perspective,
            ksq as int,
            old(h).dels_at(k as int),
            old(h).adds_at(k as int),
        ),
{
    let p: usize = perspective as usize;
    let pending: SfnnPending = h.sfnn16_pending[k];
    assert(h.sfnn16_pending@[k as int].wf());
    let lanes: [i16; 1024] = h.sfnn16[k - 1].halfka[p];
    let buckets: [i32; 8] = h.sfnn16[k - 1].psqt[p];
    let adds: &[Option<SfnnEvent>] = vstd::slice::slice_subrange(
        pending.adds.as_slice(),
        0,
        pending.n_adds,
    );
    let dels: &[Option<SfnnEvent>] = vstd::slice::slice_subrange(
        pending.dels.as_slice(),
        0,
        pending.n_dels,
    );
    assert(adds@ =~= old(h).adds_at(k as int));
    assert(dels@ =~= old(h).dels_at(k as int));
    let ghost entry = h.sfnn16@[k as int];
    h.sfnn16[k].halfka[p] = lanes;
    h.sfnn16[k].psqt[p] = buckets;
    move_on(nets, perspective, ksq, dels, adds, &mut h.sfnn16[k]);
    h.sfnn16[k].generation = generation;
    h.sfnn16_computed[k][p] = true;
}

/// Brings one perspective of the newest ply up to date.
fn freshen_side(
    h: &mut History,
    pos: &SfnnPosition,
    nets: &LoadedNets,
    generation: u64,
    cache: &mut FinnyCache,
    perspective: Side,
)
    requires
        !(perspective is Both),
        refreshable(&nets.net.transformer),
        old(cache).wf(&nets.net.transformer, generation),
        old(h).covers(),
        kings_present_spec(pos),
    ensures
        side_freshened(old(h), final(h), pos, &nets.net.transformer, generation, perspective),
        final(cache).wf(&nets.net.transformer, generation),
        final(h).covers(),
        final(h).index == old(h).index,
{
    let idx: usize = h.index;
    let p: usize = perspective as usize;
    if h.sfnn16_computed[idx][p] && h.sfnn16[idx].generation == generation {
        return;
    }
    let ksq: usize = pos.king_square(perspective);
    match find_current(h, p, generation) {
        Some(anc) => {
            let ghost before = *h;
            let ghost tr = &nets.net.transformer;
            let mut k: usize = anc + 1;
            while k <= idx
                invariant
                    anc < k <= idx + 1,
                    anc < idx,
                    idx == before.index,
                    !(perspective is Both),
                    p == perspective.ix(),
                    p < 2,
                    refreshable(&nets.net.transformer),
                    tr == &nets.net.transformer,
                    before.covers(),
                    h.covers(),
                    ksq < 64,
                    replayed(&before, h, tr, perspective, ksq as int, generation, anc as int, k - 1),
                decreases idx + 1 - k,
            {
                assert(h.same_ply(&before, k as int)) by {
                    let e = h.sfnn16@[k as int];
                }
                if !(h.sfnn16_computed[k][p] && h.sfnn16[k].generation == generation) {
                    let ghost mid = *h;
                    replay_ply(h, nets, generation, perspective, ksq, k);
                    proof {
                        assert(h.dels_at(k as int) == before.dels_at(k as int));
                        assert forall|i: int|
                            #![trigger h.sfnn16@[i]]
                            anc < i <= k implies if current(&before, i, p as int, generation) {
                            h.same_ply(&before, i)
                        } else {
                            &&& marked(&before, h, i, p as int, generation)
                            &&& moved_on(
                                &h.sfnn16@[i - 1],
                                &h.sfnn16@[i],
                                tr,
                                perspective,
                                ksq as int,
                                before.dels_at(i),
                                before.adds_at(i),
                            )
                        } by {
                            let m0 = mid.sfnn16@[i];
                            let h0 = h.sfnn16@[i - 1];
                            if i < k {
                                assert(h.same_ply(&mid, i));
                                assert(h.same_ply(&mid, i - 1));
                            }
                        }
                        assert forall|i: int|
                            #![trigger h.sfnn16@[i]]
                            0 <= i <= before.index && !(anc < i <= k) implies h.same_ply(
                            &before,
                            i,
                        ) by {
                            let m0 = mid.sfnn16@[i];
                            assert(h.same_ply(&mid, i));
                        }
                    }
                }
                k = k + 1;
            }
        },
        None => {
            let ghost before = *h;
            update_perspective_finny_or_refresh(
                pos,
                nets,
                generation,
                perspective,
                cache,
                &mut h.sfnn16[idx],
            );
            h.sfnn16_computed[idx][p] = true;
            h.sfnn16[idx].generation = generation;
            assert(h.sfnn16@[idx as int].fresh(perspective, &nets.net.transformer, pos));
        },
    }
}

/// Marks of plies that belong to another network are withdrawn, for both
/// perspectives; nothing else changes.
pub open spec fn stale_cleared(before: &History, after: &History, generation: u64) -> bool {
    &&& after.index == before.index
    &&& after.accumulators == before.accumulators
    &&& after.computed == before.computed
    &&& after.sfnn16 == before.sfnn16
    &&& after.sfnn16_pending == before.sfnn16_pending
    &&& after.sfnn16_computed.len() == before.sfnn16_computed.len()
    &&& forall|k: int|
        0 <= k < before.sfnn16_computed.len() ==> (#[trigger] after.sfnn16_computed@[k])@ == if k
            <= before.index && before.sfnn16@[k].generation != generation {
            seq![false, false]
        } else {
            before.sfnn16_computed@[k]@
        }
}

/// No ply that belongs to another network is marked.
pub open spec fn no_stale_marks(h: &History, generation: u64) -> bool {
    forall|k: int|
        #![trigger h.sfnn16_computed@[k]]
        0 <= k <= h.index && h.sfnn16@[k].generation != generation ==> !h.sfnn16_computed@[k]@[0]
            && !h.sfnn16_computed@[k]@[1]
}

/// Withdraws the marks of plies that belong to another network.
fn clear_stale(h: &mut History, generation: u64)
    requires
        old(h).covers(),
    ensures
        stale_cleared(old(h), final(h), generation),
        no_stale_marks(final(h), generation),
        final(h).covers(),
{
    let mut k: usize = 0;
    while k <= h.index
        invariant
            old(h).covers(),
            h.index == old(h).index,
            h.accumulators == old(h).accumulators,
            h.computed == old(h).computed,
            h.sfnn16 == old(h).sfnn16,
            h.sfnn16_pending == old(h).sfnn16_pending,
            h.sfnn16_computed.len() == old(h).sfnn16_computed.len(),
            k <= h.index + 1,
            forall|i: int|
                0 <= i < h.sfnn16_computed.len() ==> (#[trigger] h.sfnn16_computed@[i])@ == if i
                    < k && h.sfnn16@[i].generation != generation {
                    seq![false, false]
                } else {
                    old(h).sfnn16_computed@[i]@
                },
        decreases h.index + 1 - k,
    {
        if h.sfnn16[k].generation != generation {
            h.sfnn16_computed[k] = [false, false];
        }
        k = k + 1;
    }
}

/// The effect of bringing both perspectives of the newest ply up to date: marks
/// of another network are withdrawn, then White's sums are brought up to date,
/// then Black's.
pub open spec fn both_freshened(
    before: &History,
    after: &History,
    pos: &SfnnPosition,
    tr: &SfnnTransformer,
    generation: u64,
) -> bool {
    exists|cleared: History, mid: History|
        #![trigger stale_cleared(before, &cleared, generation), side_freshened(
            &cleared,
            &mid,
            pos,
            tr,
            generation,
            Side::White,
        )]
        stale_cleared(before, &cleared, generation) && side_freshened(
            &cleared,
            &mid,
            pos,
            tr,
            generation,
            Side::White,
        ) && side_freshened(&mid, after, pos, tr, generation, Side::Black)
}

/// Both perspectives of the newest ply have the sums of a position under one
/// network, and are marked so.
pub open spec fn newest_is_fresh(
    h: &History,
    pos: &SfnnPosition,
    tr: &SfnnTransformer,
    generation: u64,
) -> bool {
    let idx = h.index as int;
    &&& h.sfnn16@[idx].fresh(Side::White, tr, pos)
    &&& h.sfnn16@[idx].fresh(Side::Black, tr, pos)
    &&& h.sfnn16@[idx].generation == generation
    &&& h.sfnn16_computed@[idx]@ == seq![true, true]
}

/// Brings the sums of the newest ply up to date. Without a network or without
/// both kings nothing changes. Where the plies tell the story of the game and
/// the marked ones have the sums of their own placement, the newest ply ends
/// with the sums of the position; where no ply belongs to the network in use,
/// as after a load, it does so whatever the history holds.
pub fn ensure_sfnn16_fresh(
    board: &mut BoardState,
    pos: &SfnnPosition,
    nets: Option<&LoadedNets>,
    generation: u64,
    cache: &mut FinnyCache,
)
    requires
        nets matches Some(n) ==> {
            &&& refreshable(&n.net.transformer)
            &&& old(cache).wf(&n.net.transformer, generation)
            &&& kings_present_spec(pos) ==> old(board).history.covers()
        },
    ensures
        nets is None || !kings_present_spec(pos) ==> final(board).history == old(board).history
            && *final(cache) == *old(cache),
        nets matches Some(n) ==> {
            &&& kings_present_spec(pos) ==> both_freshened(
                &old(board).history,
                &final(board).history,
                pos,
                &n.net.transformer,
                generation,
            )
            &&& final(cache).wf(&n.net.transformer, generation)
            &&& kings_present_spec(pos) ==> final(board).history.covers()
            &&& final(board).history.index == old(board).history.index
        },
        nets matches Some(n) ==> kings_present_spec(pos) ==> {
            let h = &final(board).history;
            &&& h.sfnn16@[h.index as int].generation == generation
            &&& h.sfnn16_computed@[h.index as int]@ == seq![true, true]
            &&& forall|pls: Seq<Placement>, kings: Seq<(int, int)>|
                #[trigger] sound(
                    &old(board).history,
                    pls,
                    kings,
                    &n.net.transformer,
                    generation,
                ) && pls[h.index as int] == pos.placement() && kings[h.index as int] == (
                    pos.king_square_spec(Side::White),
                    pos.king_square_spec(Side::Black),
                ) ==> newest_is_fresh(h, pos, &n.net.transformer, generation)
            &&& no_ply_of(&old(board).history, generation) ==> newest_is_fresh(
                h,
                pos,
                &n.net.transformer,
                generation,
            )
        },
        final(board).same_position(old(board)),
{
    if let Some(n) = nets {
        if !kings_present(pos) {
            return;
        }
        let ghost start = board.history;
        let ghost tr = &n.net.transformer;
        clear_stale(&mut board.history, generation);
        let ghost cleared = board.history;
        freshen_side(&mut board.history, pos, n, generation, cache, Side::White);
        let ghost mid = board.history;
        freshen_side(&mut board.history, pos, n, generation, cache, Side::Black);
        proof {
            let end = &board.history;
            assert(stale_cleared(&start, &cleared, generation) && side_freshened(
                &cleared,
                &mid,
                pos,
                tr,
                generation,
                Side::White,
            ) && side_freshened(&mid, end, pos, tr, generation, Side::Black));
            lemma_marks_after(&cleared, &mid, end, pos, tr, generation);
            assert forall|pls: Seq<Placement>, kings: Seq<(int, int)>|
                #[trigger] sound(&start, pls, kings, tr, generation) && pls[end.index as int]
                    == pos.placement() && kings[end.index as int] == (
                    pos.king_square_spec(Side::White),
                    pos.king_square_spec(Side::Black),
                ) implies newest_is_fresh(end, pos, tr, generation) by {
                law_freshened_is_fresh(&start, end, pos, tr, generation, pls, kings);
            }
            if no_ply_of(&start, generation) {
                lemma_reload_refreshes(&cleared, &mid, end, pos, tr, generation);
            }
        }
    }
}

/// Whether no ply up to the newest belongs to a network generation.
pub open spec fn no_ply_of(h: &History, generation: u64) -> bool {
    forall|k: int| 0 <= k <= h.index ==> (#[trigger] h.sfnn16@[k]).generation != generation
}

/// The placements of the plies and the queued events tell the same story
/// between two plies, and the king of one perspective stayed where it is.
pub open spec fn story(h: &History, pls: Seq<Placement>, from: int, to: int) -> bool {
    &&& pls.len() > to
    &&& forall|k: int| 0 <= k <= to ==> (#[trigger] pls[k]).mapping.len() == 64
    &&& forall|k: int| from < k <= to ==> #[trigger] ply_told(h, pls, k)
}

/// Replaying the queued events of the plies since the nearest one that is up
/// to date gives every ply the sums of its own placement.
pub proof fn law_replay_equals_refresh(
    before: &History,
    after: &History,
    tr: &SfnnTransformer,
    view: Side,
    ksq: int,
    generation: u64,
    from: int,
    to: int,
    pls: Seq<Placement>,
)
    requires
        !(view is Both),
        0 <= from <= to <= before.index,
        replayed(before, after, tr, view, ksq, generation, from, before.index as int),
        story(before, pls, from, before.index as int),
        before.sfnn16@[from].stands_for(view, tr, pls[from], ksq),
        forall|k: int|
            #![trigger before.sfnn16@[k]]
            from < k <= before.index && current(before, k, view.ix(), generation)
                ==> before.sfnn16@[k].stands_for(view, tr, pls[k], ksq),
    ensures
        after.sfnn16@[to].stands_for(view, tr, pls[to], ksq),
    decreases to,
{
    let e = after.sfnn16@[to];
    if to == from {
        assert(after.same_ply(before, to));
    } else if current(before, to, view.ix(), generation) {
        assert(after.same_ply(before, to));
        assert(before.sfnn16@[to].stands_for(view, tr, pls[to], ksq));
    } else {
        law_replay_equals_refresh(
            before,
            after,
            tr,
            view,
            ksq,
            generation,
            from,
            to - 1,
            pls,
        );
        assert(ply_told(before, pls, to));
        assert(pls[to - 1].mapping.len() == 64);
        law_moved_on_equals_refresh(
            &after.sfnn16@[to - 1],
            &after.sfnn16@[to],
            tr,
            view,
            ksq,
            pls[to - 1],
            before.dels_at(to),
            before.adds_at(to),
        );
    }
}

/// King square of one perspective at a ply.
pub open spec fn king_at(kings: Seq<(int, int)>, k: int, view: Side) -> int {
    if view is White {
        kings[k].0
    } else {
        kings[k].1
    }
}

/// The queued events of a ply lead from the placement before it to its own.
pub open spec fn ply_told(h: &History, pls: Seq<Placement>, k: int) -> bool {
    &&& dels_match(pls[k - 1], h.dels_at(k), h.dels_at(k).len() as int)
    &&& adds_match(
        after_dels(pls[k - 1], h.dels_at(k), h.dels_at(k).len() as int),
        h.adds_at(k),
        h.adds_at(k).len() as int,
    )
    &&& pls[k] == after_adds(
        after_dels(pls[k - 1], h.dels_at(k), h.dels_at(k).len() as int),
        h.adds_at(k),
        h.adds_at(k).len() as int,
    )
}

/// A king that is not noted as moved stands where it stood a ply before.
pub open spec fn kings_told(h: &History, kings: Seq<(int, int)>, k: int) -> bool {
    &&& !h.sfnn16_pending@[k].king_moved@[0] ==> kings[k].0 == kings[k - 1].0
    &&& !h.sfnn16_pending@[k].king_moved@[1] ==> kings[k].1 == kings[k - 1].1
}

/// The marked sums of a ply, if it belongs to the network in use, are those of
/// its placement.
pub open spec fn ply_stands(
    h: &History,
    pls: Seq<Placement>,
    kings: Seq<(int, int)>,
    tr: &SfnnTransformer,
    generation: u64,
    k: int,
) -> bool {
    &&& current(h, k, 0, generation) ==> h.sfnn16@[k].stands_for(
        Side::White,
        tr,
        pls[k],
        kings[k].0,
    )
    &&& current(h, k, 1, generation) ==> h.sfnn16@[k].stands_for(
        Side::Black,
        tr,
        pls[k],
        kings[k].1,
    )
}

/// Whether the history is that of a game with these placements and king
/// squares: a queue that lost no event tells the difference from the ply
/// before, a king that is not noted as moved stayed, and a marked ply of the
/// network in use has the sums of its placement. Plies of other networks may
/// hold anything.
pub open spec fn sound(
    h: &History,
    pls: Seq<Placement>,
    kings: Seq<(int, int)>,
    tr: &SfnnTransformer,
    generation: u64,
) -> bool {
    &&& pls.len() > h.index
    &&& kings.len() > h.index
    &&& forall|k: int| 0 <= k <= h.index ==> (#[trigger] pls[k]).mapping.len() == 64
    &&& forall|k: int|
        0 < k <= h.index && !h.sfnn16_pending@[k].overflowed ==> #[trigger] ply_told(h, pls, k)
    &&& forall|k: int|
        0 < k <= h.index && !h.sfnn16_pending@[k].overflowed ==> #[trigger] kings_told(h, kings, k)
    &&& forall|k: int|
        0 <= k <= h.index ==> #[trigger] ply_stands(h, pls, kings, tr, generation, k)
}

/// Between the nearest marked ply and a later one no event was lost and the
/// king stayed.
proof fn lemma_nearest(
    h: &History,
    pls: Seq<Placement>,
    kings: Seq<(int, int)>,
    tr: &SfnnTransformer,
    generation: u64,
    view: Side,
    k: int,
)
    requires
        !(view is Both),
        sound(h, pls, kings, tr, generation),
        0 <= k <= h.index,
    ensures
        nearest_current(h, k, view.ix(), generation) matches Some(a) ==> {
            &&& 0 <= a < k
            &&& current(h, a, view.ix(), generation)
            &&& forall|i: int| a < i <= k ==> #[trigger] ply_told(h, pls, i)
            &&& forall|i: int|
                a <= i <= k ==> #[trigger] king_at(kings, i, view) == king_at(kings, k, view)
        },
    decreases k,
{
    if k > 0 {
        lemma_nearest(h, pls, kings, tr, generation, view, k - 1);
        if !h.sfnn16_pending@[k].overflowed {
            assert(ply_told(h, pls, k));
            assert(kings_told(h, kings, k));
            assert(!h.sfnn16_pending@[k].king_moved@[view.ix()] ==> king_at(kings, k, view)
                == king_at(kings, k - 1, view));
        }
    }
}

proof fn lemma_nearest_below(h: &History, k: int, p: int, generation: u64)
    requires
        0 <= k,
    ensures
        nearest_current(h, k, p, generation) matches Some(a) ==> 0 <= a < k,
    decreases k,
{
    if k > 0 {
        lemma_nearest_below(h, k - 1, p, generation);
    }
}

/// Bringing one perspective up to date keeps the marks honest, and marks the
/// newest ply.
proof fn lemma_side_sound(
    before: &History,
    after: &History,
    pos: &SfnnPosition,
    tr: &SfnnTransformer,
    generation: u64,
    view: Side,
    pls: Seq<Placement>,
    kings: Seq<(int, int)>,
)
    requires
        !(view is Both),
        before.covers(),
        no_stale_marks(before, generation),
        sound(before, pls, kings, tr, generation),
        kings_present_spec(pos),
        pls[before.index as int] == pos.placement(),
        king_at(kings, before.index as int, view) == pos.king_square_spec(view),
        side_freshened(before, after, pos, tr, generation, view),
    ensures
        after.index == before.index,
        sound(after, pls, kings, tr, generation),
{
    let idx = before.index as int;
    let p = view.ix();
    let ksq = pos.king_square_spec(view);
    if !current(before, idx, p, generation) {
        lemma_nearest(before, pls, kings, tr, generation, view, idx);
        lemma_same_story(before, after, pls, kings);
        if let Some(anc) = nearest_current(before, idx, p, generation) {
            assert(king_at(kings, anc, view) == king_at(kings, idx, view));
            assert(ply_stands(before, pls, kings, tr, generation, anc));
            assert forall|k: int|
                #![trigger before.sfnn16@[k]]
                anc < k <= idx && current(before, k, p, generation) implies before.sfnn16@[k].stands_for(
                view,
                tr,
                pls[k],
                ksq,
            ) by {
                assert(king_at(kings, k, view) == king_at(kings, idx, view));
                assert(ply_stands(before, pls, kings, tr, generation, k));
            }
            assert(story(before, pls, anc, idx));
            assert forall|k: int| 0 <= k <= after.index implies #[trigger] ply_stands(
                after,
                pls,
                kings,
                tr,
                generation,
                k,
            ) by {
                assert(ply_stands(before, pls, kings, tr, generation, k));
                let e = after.sfnn16@[k];
                if anc < k {
                    law_replay_equals_refresh(
                        before,
                        after,
                        tr,
                        view,
                        ksq,
                        generation,
                        anc,
                        k,
                        pls,
                    );
                    assert(king_at(kings, k, view) == king_at(kings, idx, view));
                    lemma_other_side(before, after, pls, kings, tr, generation, view, k);
                } else {
                    assert(after.same_ply(before, k));
                }
            }
        } else {
            assert forall|k: int| 0 <= k <= after.index implies #[trigger] ply_stands(
                after,
                pls,
                kings,
                tr,
                generation,
                k,
            ) by {
                assert(ply_stands(before, pls, kings, tr, generation, k));
                let e = after.sfnn16@[k];
                if k < idx {
                    assert(after.same_ply(before, k));
                } else {
                    lemma_other_side(before, after, pls, kings, tr, generation, view, k);
                }
            }
        }
    }
}

/// A ply that keeps its marks and sums, or gets them for one perspective, keeps
/// what it says for the other.
proof fn lemma_other_side(
    before: &History,
    after: &History,
    pls: Seq<Placement>,
    kings: Seq<(int, int)>,
    tr: &SfnnTransformer,
    generation: u64,
    view: Side,
    k: int,
)
    requires
        !(view is Both),
        0 <= k <= before.index,
        no_stale_marks(before, generation),
        ply_stands(before, pls, kings, tr, generation, k),
        after.same_ply(before, k) || marked(before, after, k, view.ix(), generation),
        after.sfnn16@[k].stands_for(view, tr, pls[k], king_at(kings, k, view)),
    ensures
        ply_stands(after, pls, kings, tr, generation, k),
{
    let c = before.sfnn16_computed@[k];
}

/// The story of a history depends on its queues alone.
proof fn lemma_same_story(
    before: &History,
    after: &History,
    pls: Seq<Placement>,
    kings: Seq<(int, int)>,
)
    requires
        after.index == before.index,
        after.sfnn16_pending == before.sfnn16_pending,
    ensures
        forall|k: int| #[trigger] ply_told(after, pls, k) == ply_told(before, pls, k),
        forall|k: int| #[trigger] kings_told(after, kings, k) == kings_told(before, kings, k),
{
    assert forall|k: int| #[trigger] ply_told(after, pls, k) == ply_told(before, pls, k) by {
        assert(after.dels_at(k) == before.dels_at(k));
        assert(after.adds_at(k) == before.adds_at(k));
    }
}

/// What marks remain after one perspective was brought up to date.
proof fn lemma_side_marks(
    before: &History,
    after: &History,
    pos: &SfnnPosition,
    tr: &SfnnTransformer,
    generation: u64,
    view: Side,
)
    requires
        !(view is Both),
        before.covers(),
        no_stale_marks(before, generation),
        side_freshened(before, after, pos, tr, generation, view),
    ensures
        after.index == before.index,
        after.covers(),
        no_stale_marks(after, generation),
        current(after, after.index as int, view.ix(), generation),
        current(before, before.index as int, 1 - view.ix(), generation) ==> current(
            after,
            after.index as int,
            1 - view.ix(),
            generation,
        ),
{
    let idx = before.index as int;
    let p = view.ix();
    if !current(before, idx, p, generation) {
        lemma_nearest_below(before, idx, p, generation);
        let e = after.sfnn16@[idx];
        assert forall|k: int|
            #![trigger after.sfnn16_computed@[k]]
            0 <= k <= after.index && after.sfnn16@[k].generation != generation implies
            !after.sfnn16_computed@[k]@[0] && !after.sfnn16_computed@[k]@[1] by {
            let a = after.sfnn16@[k];
            let b = before.sfnn16_computed@[k];
        }
    }
}

/// Both perspectives are marked at the end.
proof fn lemma_marks_after(
    cleared: &History,
    mid: &History,
    after: &History,
    pos: &SfnnPosition,
    tr: &SfnnTransformer,
    generation: u64,
)
    requires
        cleared.covers(),
        no_stale_marks(cleared, generation),
        side_freshened(cleared, mid, pos, tr, generation, Side::White),
        side_freshened(mid, after, pos, tr, generation, Side::Black),
    ensures
        after.index == cleared.index,
        after.sfnn16@[after.index as int].generation == generation,
        after.sfnn16_computed@[after.index as int]@ == seq![true, true],
{
    lemma_side_marks(cleared, mid, pos, tr, generation, Side::White);
    lemma_side_marks(mid, after, pos, tr, generation, Side::Black);
    assert(after.sfnn16_computed@[after.index as int]@ =~= seq![true, true]);
}

/// Withdrawing marks keeps a history sound.
proof fn lemma_cleared_sound(
    before: &History,
    cleared: &History,
    tr: &SfnnTransformer,
    generation: u64,
    pls: Seq<Placement>,
    kings: Seq<(int, int)>,
)
    requires
        before.covers(),
        stale_cleared(before, cleared, generation),
        sound(before, pls, kings, tr, generation),
    ensures
        cleared.covers(),
        no_stale_marks(cleared, generation),
        sound(cleared, pls, kings, tr, generation),
{
    lemma_same_story(before, cleared, pls, kings);
    assert forall|k: int| 0 <= k <= cleared.index implies #[trigger] ply_stands(
        cleared,
        pls,
        kings,
        tr,
        generation,
        k,
    ) by {
        assert(ply_stands(before, pls, kings, tr, generation, k));
        let c = cleared.sfnn16_computed@[k];
    }
}

/// In the history of a game, bringing the newest ply up to date gives both
/// perspectives the sums of the position under the network in use, however the
/// networks changed before, and leaves a history of the same game.
pub proof fn law_freshened_is_fresh(
    before: &History,
    after: &History,
    pos: &SfnnPosition,
    tr: &SfnnTransformer,
    generation: u64,
    pls: Seq<Placement>,
    kings: Seq<(int, int)>,
)
    requires
        before.covers(),
        kings_present_spec(pos),
        sound(before, pls, kings, tr, generation),
        pls[before.index as int] == pos.placement(),
        kings[before.index as int] == (
            pos.king_square_spec(Side::White),
            pos.king_square_spec(Side::Black),
        ),
        both_freshened(before, after, pos, tr, generation),
    ensures
        after.index == before.index,
        newest_is_fresh(after, pos, tr, generation),
        sound(after, pls, kings, tr, generation),
{
    let (cleared, mid) = choose|cleared: History, mid: History|
        #![trigger stale_cleared(before, &cleared, generation), side_freshened(
            &cleared,
            &mid,
            pos,
            tr,
            generation,
            Side::White,
        )]
        stale_cleared(before, &cleared, generation) && side_freshened(
            &cleared,
            &mid,
            pos,
            tr,
            generation,
            Side::White,
        ) && side_freshened(&mid, after, pos, tr, generation, Side::Black);
    lemma_cleared_sound(before, &cleared, tr, generation, pls, kings);
    lemma_side_marks(&cleared, &mid, pos, tr, generation, Side::White);
    lemma_side_sound(&cleared, &mid, pos, tr, generation, Side::White, pls, kings);
    lemma_side_sound(&mid, after, pos, tr, generation, Side::Black, pls, kings);
    lemma_marks_after(&cleared, &mid, after, pos, tr, generation);
    assert(ply_stands(after, pls, kings, tr, generation, after.index as int));
}

/// Where no ply belongs to the network in use, both perspectives are summed
/// from scratch.
proof fn lemma_reload_refreshes(
    cleared: &History,
    mid: &History,
    after: &History,
    pos: &SfnnPosition,
    tr: &SfnnTransformer,
    generation: u64,
)
    requires
        cleared.covers(),
        no_stale_marks(cleared, generation),
        no_ply_of(cleared, generation),
        side_freshened(cleared, mid, pos, tr, generation, Side::White),
        side_freshened(mid, after, pos, tr, generation, Side::Black),
    ensures
        newest_is_fresh(after, pos, tr, generation),
{
    let idx = cleared.index as int;
    lemma_marks_after(cleared, mid, after, pos, tr, generation);
    lemma_nothing_current(cleared, idx, 0, generation);
    let c = cleared.sfnn16@[idx];
    let m = mid.sfnn16@[idx];
    let cm = cleared.sfnn16_computed@[idx];
    assert forall|k: int| 0 <= k < idx implies (#[trigger] mid.sfnn16@[k]).generation
        != generation by {
        assert(mid.same_ply(cleared, k));
        let ck = cleared.sfnn16@[k];
    }
    lemma_nothing_current(mid, idx, 1, generation);
    assert(!current(mid, idx, 1, generation));
}

/// Without a ply of a generation below `k`, none is found there.
proof fn lemma_nothing_current(h: &History, k: int, p: int, generation: u64)
    requires
        0 <= k,
        forall|i: int| 0 <= i < k ==> (#[trigger] h.sfnn16@[i]).generation != generation,
    ensures
        nearest_current(h, k, p, generation) is None,
    decreases k,
{
    if k > 0 {
        lemma_nothing_current(h, k - 1, p, generation);
        let e = h.sfnn16@[k - 1];
    }
}

/// After a load, every ply belongs to an older network, and both perspectives
/// of the newest get the sums of the new one.
pub proof fn law_reload_refreshes(
    before: &History,
    after: &History,
    pos: &SfnnPosition,
    tr: &SfnnTransformer,
    generation: u64,
)
    requires
        before.covers(),
        no_ply_of(before, generation),
        both_freshened(before, after, pos, tr, generation),
    ensures
        newest_is_fresh(after, pos, tr, generation),
{
    let (cleared, mid) = choose|cleared: History, mid: History|
        #![trigger stale_cleared(before, &cleared, generation), side_freshened(
            &cleared,
            &mid,
            pos,
            tr,
            generation,
            Side::White,
        )]
        stale_cleared(before, &cleared, generation) && side_freshened(
            &cleared,
            &mid,
            pos,
            tr,
            generation,
            Side::White,
        ) && side_freshened(&mid, after, pos, tr, generation, Side::Black);
    assert(no_stale_marks(&cleared, generation)) by {
        assert forall|k: int|
            #![trigger cleared.sfnn16_computed@[k]]
            0 <= k <= cleared.index && cleared.sfnn16@[k].generation != generation implies
            !cleared.sfnn16_computed@[k]@[0] && !cleared.sfnn16_computed@[k]@[1] by {
            let e = before.sfnn16@[k];
        }
    }
    lemma_reload_refreshes(&cleared, &mid, after, pos, tr, generation);
}

} // verus!
