//! Accumulators of the v16 network: refreshed from scratch, from a cache of
//! earlier positions, or by the pieces that moved.

use vstd::prelude::*;

use crate::bits::{bit, is_set};
use crate::board::{Piece, Side, Square};
use crate::eval::nnue::v16::accumulate::{
    apply_feature, column_sum16, column_sum32, comes, goes, gone16, gone32, has_rows,
    lemma_difference, lemma_features_sum, lemma_placed, lemma_without, placed, replaced,
    scatter_halfka, squares_sum16, squares_sum32, without,
};
use crate::eval::nnue::v16::arch::L1;
use crate::eval::nnue::v16::loader::{Sfnn16Net, SfnnTransformer};
use crate::eval::nnue::v16::position::{
    append_halfka, halfka_feature, halfka_index, ints, kings_present, kings_present_spec,
    lemma_features_bound, to_sf, Placement, SfnnPosition,
};
use crate::math::{
    lemma_wrap16_step, lemma_wrap32_step, lemma_wrapping_i16, lemma_wrapping_i32, wrap16, wrap32,
};

verus! {

/// Running sums of both perspectives, and the network generation they belong
/// to.
#[derive(Clone, Debug)]
pub struct Sfnn16Accs {
    pub halfka: [[i16; 1024]; 2],
    pub psqt: [[i32; 8]; 2],
    pub threat_psqt: [[i32; 8]; 2],
    pub generation: u64,
}

impl Sfnn16Accs {
    /// Nothing summed yet.
    pub open spec fn is_empty(&self) -> bool {
        &&& forall|p: int, j: int| 0 <= p < 2 && 0 <= j < 1024 ==> #[trigger] self.halfka@[p]@[j] == 0
        &&& forall|p: int, b: int| 0 <= p < 2 && 0 <= b < 8 ==> #[trigger] self.psqt@[p]@[b] == 0
        &&& forall|p: int, b: int|
            0 <= p < 2 && 0 <= b < 8 ==> #[trigger] self.threat_psqt@[p]@[b] == 0
        &&& self.generation == 0
    }

    pub fn empty() -> (r: Sfnn16Accs)
        ensures
            r.is_empty(),
    {
        Sfnn16Accs {
            halfka: [[0i16; 1024]; 2],
            psqt: [[0i32; 8]; 2],
            threat_psqt: [[0i32; 8]; 2],
            generation: 0,
        }
    }

    /// Everything but one perspective's sums is the same.
    pub open spec fn same_but(&self, other: &Sfnn16Accs, p: int) -> bool {
        &&& self.halfka@[1 - p] == other.halfka@[1 - p]
        &&& self.psqt@[1 - p] == other.psqt@[1 - p]
        &&& self.threat_psqt == other.threat_psqt
        &&& self.generation == other.generation
    }

    /// One perspective's sums are the same.
    pub open spec fn same_side(&self, other: &Sfnn16Accs, p: int) -> bool {
        self.halfka@[p] == other.halfka@[p] && self.psqt@[p] == other.psqt@[p]
    }

    /// One perspective's sums are those of a list of features.
    pub open spec fn sums(&self, p: int, tr: &SfnnTransformer, feats: Seq<int>) -> bool {
        sums_are(self.halfka@[p]@, self.psqt@[p]@, tr, feats)
    }

    /// One perspective's sums are those of a position.
    pub open spec fn fresh(&self, view: Side, tr: &SfnnTransformer, pos: &SfnnPosition) -> bool {
        self.sums(view.ix(), tr, pos.halfka_features(view))
    }

    /// One perspective's sums are those of a placement around one king.
    pub open spec fn stands_for(
        &self,
        view: Side,
        tr: &SfnnTransformer,
        pl: Placement,
        ksq: int,
    ) -> bool {
        self.sums(view.ix(), tr, pl.features(view, ksq, 64))
    }
}

/// Sums of columns and buckets are those of a list of features.
pub open spec fn sums_are(
    lanes: Seq<i16>,
    buckets: Seq<i32>,
    tr: &SfnnTransformer,
    feats: Seq<int>,
) -> bool {
    &&& forall|j: int|
        0 <= j < 1024 ==> #[trigger] lanes[j] == wrap16(
            tr.bias@[j] + column_sum16(tr.weights@, 1024, feats, j),
        )
    &&& forall|b: int|
        0 <= b < 8 ==> #[trigger] buckets[b] == wrap32(column_sum32(tr.psqt_w@, feats, b))
}

/// A network in use.
pub struct LoadedNets {
    pub net: Sfnn16Net,
}

/// Whether the lists needed for piece features are complete.
pub open spec fn refreshable(tr: &SfnnTransformer) -> bool {
    &&& tr.bias.len() == 1024
    &&& tr.weights.len() >= 22_528 * 1024
    &&& tr.psqt_w.len() >= 22_528 * 8
}

/// Copies the bias into an accumulator.
fn copy_bias(bias: &Vec<i16>, slot: &mut [i16; 1024])
    requires
        bias.len() == 1024,
    ensures
        final(slot)@ == bias@,
{
    let mut j: usize = 0;
    while j < 1024
        invariant
            j <= 1024,
            bias.len() == 1024,
            forall|k: int| 0 <= k < j ==> slot@[k] == bias@[k],
        decreases 1024 - j,
    {
        slot[j] = bias[j];
        j = j + 1;
    }
    assert(slot@ =~= bias@);
}

/// Sums the piece features of one perspective from scratch.
pub fn refresh_sums(
    pos: &SfnnPosition,
    tr: &SfnnTransformer,
    perspective: Side,
    lanes: &mut [i16; 1024],
    buckets: &mut [i32; 8],
)
    requires
        !(perspective is Both),
        refreshable(tr),
    ensures
        sums_are(final(lanes)@, final(buckets)@, tr, pos.halfka_features(perspective)),
{
    let mut feats: Vec<usize> = Vec::new();
    append_halfka(pos, perspective, &mut feats);
    let ghost list = pos.halfka_features(perspective);
    proof {
        assert(ints(feats@) =~= list);
        let ksq = pos.king_square_spec(perspective);
        if pos.kings(perspective) != 0 {
            vstd::std_specs::bits::axiom_u64_trailing_zeros(pos.kings(perspective));
            lemma_features_bound(pos.placement(), perspective, ksq, 64);
        }
        assert forall|i: int| 0 <= i < feats.len() implies has_rows(
            tr,
            1024,
            #[trigger] feats@[i] as int,
        ) by {
            assert(ints(feats@)[i] == list[i]);
        }
    }
    copy_bias(&tr.bias, lanes);
    *buckets = [0i32; 8];
    scatter_halfka(tr, L1, feats.as_slice(), lanes, buckets, 1);
}

/// Sums the piece features of one perspective from scratch.
pub fn refresh_perspective(
    pos: &SfnnPosition,
    nets: &LoadedNets,
    perspective: Side,
    accs: &mut Sfnn16Accs,
)
    requires
        !(perspective is Both),
        refreshable(&nets.net.transformer),
    ensures
        final(accs).fresh(perspective, &nets.net.transformer, pos),
        final(accs).same_but(old(accs), perspective.ix()),
{
    let p: usize = perspective as usize;
    refresh_sums(
        pos,
        &nets.net.transformer,
        perspective,
        &mut accs.halfka[p],
        &mut accs.psqt[p],
    );
}

/// Sums kept from an earlier position with the same king square.
#[derive(Clone)]
pub struct FinnyEntry {
    pub halfka: [i16; 1024],
    pub psqt: [i32; 8],
    pub occupied: u64,
    pub white: u64,
    pub mapping: [u8; 64],
    pub generation: u64,
    pub valid: bool,
}

impl FinnyEntry {
    pub open spec fn placement(&self) -> Placement {
        Placement { occupied: self.occupied, white: self.white, mapping: self.mapping@ }
    }

    /// The kept sums are those of the kept placement, if they belong to the
    /// network in use.
    pub open spec fn ok(&self, tr: &SfnnTransformer, generation: u64, view: Side, ksq: int) -> bool {
        self.valid ==> self.generation <= generation && (self.generation == generation ==> {
            let feats = self.placement().features(view, ksq, 64);
            &&& forall|j: int|
                0 <= j < 1024 ==> #[trigger] self.halfka@[j] == wrap16(
                    tr.bias@[j] + column_sum16(tr.weights@, 1024, feats, j),
                )
            &&& forall|b: int|
                0 <= b < 8 ==> #[trigger] self.psqt@[b] == wrap32(
                    column_sum32(tr.psqt_w@, feats, b),
                )
        })
    }

    pub fn new() -> (r: FinnyEntry)
        ensures
            !r.valid,
            r.occupied == 0,
            r.white == 0,
            r.generation == 0,
            forall|j: int| 0 <= j < 1024 ==> #[trigger] r.halfka@[j] == 0,
            forall|b: int| 0 <= b < 8 ==> #[trigger] r.psqt@[b] == 0,
            forall|s: int| 0 <= s < 64 ==> #[trigger] r.mapping@[s] == 6,
    {
        FinnyEntry {
            halfka: [0i16; 1024],
            psqt: [0i32; 8],
            occupied: 0,
            white: 0,
            mapping: [6u8; 64],
            generation: 0,
            valid: false,
        }
    }
}

impl Default for FinnyEntry {
    fn default() -> (r: Self)
        ensures
            !r.valid,
            r.occupied == 0,
            r.white == 0,
            r.generation == 0,
            forall|j: int| 0 <= j < 1024 ==> #[trigger] r.halfka@[j] == 0,
            forall|b: int| 0 <= b < 8 ==> #[trigger] r.psqt@[b] == 0,
            forall|s: int| 0 <= s < 64 ==> #[trigger] r.mapping@[s] == 6,
    {
        FinnyEntry::new()
    }
}

/// One entry per king square and perspective.
pub struct FinnyCache {
    pub entries: Vec<FinnyEntry>,
}

/// The perspective with an index.
pub open spec fn side_of(p: int) -> Side {
    if p == 0 {
        Side::White
    } else {
        Side::Black
    }
}

impl FinnyCache {
    pub open spec fn wf(&self, tr: &SfnnTransformer, generation: u64) -> bool {
        &&& self.entries.len() == 128
        &&& forall|i: int|
            0 <= i < 128 ==> (#[trigger] self.entries@[i]).ok(
                tr,
                generation,
                side_of(i % 2),
                i / 2,
            )
    }

    /// An empty cache, good for every network.
    pub fn new() -> (r: FinnyCache)
        ensures
            r.entries.len() == 128,
            forall|i: int| 0 <= i < 128 ==> !(#[trigger] r.entries@[i]).valid,
            forall|tr: &SfnnTransformer, generation: u64| r.wf(tr, generation),
    {
        let mut entries: Vec<FinnyEntry> = Vec::new();
        let mut i: usize = 0;
        while i < 128
            invariant
                i <= 128,
                entries.len() == i,
                forall|k: int| 0 <= k < i ==> !(#[trigger] entries@[k]).valid,
            decreases 128 - i,
        {
            entries.push(FinnyEntry::new());
            i = i + 1;
        }
        FinnyCache { entries }
    }
}

/// A cache filled for one network is safe to keep for any later one.
pub proof fn law_finny_survives_new_net(
    cache: &FinnyCache,
    tr: &SfnnTransformer,
    generation: u64,
    later: &SfnnTransformer,
    later_generation: u64,
)
    requires
        cache.wf(tr, generation),
        generation < later_generation,
    ensures
        cache.wf(later, later_generation),
{
    assert forall|i: int| 0 <= i < 128 implies (#[trigger] cache.entries@[i]).ok(
        later,
        later_generation,
        side_of(i % 2),
        i / 2,
    ) by {
        assert(cache.entries@[i].ok(tr, generation, side_of(i % 2), i / 2));
    }
}

/// Whether another piece stands on a square.
fn square_replaced(entry: &FinnyEntry, pos: &SfnnPosition, s: usize) -> (r: bool)
    requires
        s < 64,
    ensures
        r == replaced(entry.placement(), pos.placement(), s as int),
{
    is_set(entry.white, s) != is_set(pos.white, s) || entry.mapping[s] != pos.mapping[s]
}

fn square_goes(entry: &FinnyEntry, pos: &SfnnPosition, s: usize) -> (r: bool)
    requires
        s < 64,
    ensures
        r == goes(entry.placement(), pos.placement(), s as int),
{
    is_set(entry.occupied, s) && (!is_set(pos.occupied(), s) || square_replaced(entry, pos, s))
}

fn square_comes(entry: &FinnyEntry, pos: &SfnnPosition, s: usize) -> (r: bool)
    requires
        s < 64,
    ensures
        r == comes(entry.placement(), pos.placement(), s as int),
{
    is_set(pos.occupied(), s) && (!is_set(entry.occupied, s) || square_replaced(entry, pos, s))
}

/// Number of squares that changed, counted no further than nine.
fn count_changes(entry: &FinnyEntry, pos: &SfnnPosition) -> (n: usize)
    ensures
        n <= 9,
{
    let mut n: usize = 0;
    let mut s: usize = 0;
    while s < 64 && n <= 8
        invariant
            s <= 64,
            n <= 9,
        decreases 64 - s,
    {
        if square_goes(entry, pos, s) || square_comes(entry, pos, s) {
            n = n + 1;
        }
        s = s + 1;
    }
    n
}

/// Takes away what goes and adds what comes between a cached placement and a
/// position.
fn apply_difference(
    pos: &SfnnPosition,
    nets: &LoadedNets,
    perspective: Side,
    ksq: usize,
    entry: &FinnyEntry,
    accs: &mut Sfnn16Accs,
)
    requires
        !(perspective is Both),
        ksq < 64,
        refreshable(&nets.net.transformer),
    ensures
        final(accs).same_but(old(accs), perspective.ix()),
        forall|j: int|
            0 <= j < 1024 ==> #[trigger] final(accs).halfka@[perspective.ix()]@[j] == wrap16(
                old(accs).halfka@[perspective.ix()]@[j] - gone16(
                    entry.placement(),
                    pos.placement(),
                    perspective,
                    ksq as int,
                    nets.net.transformer.weights@,
                    j,
                    64,
                ) + gone16(
                    pos.placement(),
                    entry.placement(),
                    perspective,
                    ksq as int,
                    nets.net.transformer.weights@,
                    j,
                    64,
                ),
            ),
        forall|b: int|
            0 <= b < 8 ==> #[trigger] final(accs).psqt@[perspective.ix()]@[b] == wrap32(
                old(accs).psqt@[perspective.ix()]@[b] - gone32(
                    entry.placement(),
                    pos.placement(),
                    perspective,
                    ksq as int,
                    nets.net.transformer.psqt_w@,
                    b,
                    64,
                ) + gone32(
                    pos.placement(),
                    entry.placement(),
                    perspective,
                    ksq as int,
                    nets.net.transformer.psqt_w@,
                    b,
                    64,
                ),
            ),
{
    let p: usize = perspective as usize;
    let ghost a = entry.placement();
    let ghost z = pos.placement();
    let ghost w16 = nets.net.transformer.weights@;
    let ghost w32 = nets.net.transformer.psqt_w@;
    let ghost h0 = accs.halfka@[p as int]@;
    let ghost q0 = accs.psqt@[p as int]@;
    proof {
        assert forall|j: int| 0 <= j < 1024 implies h0[j] == wrap16(h0[j] as int) by {
            lemma_wrapping_i16(h0[j], 0);
        }
        assert forall|b: int| 0 <= b < 8 implies q0[b] == wrap32(q0[b] as int) by {
            lemma_wrapping_i32(q0[b], 0);
        }
    }
    let mut s: usize = 0;
    while s < 64
        invariant
            s <= 64,
            p == perspective.ix(),
            p < 2,
            ksq < 64,
            refreshable(&nets.net.transformer),
            a == entry.placement(),
            z == pos.placement(),
            w16 == nets.net.transformer.weights@,
            w32 == nets.net.transformer.psqt_w@,
            accs.same_but(old(accs), p as int),
            forall|j: int|
                0 <= j < 1024 ==> #[trigger] accs.halfka@[p as int]@[j] == wrap16(
                    h0[j] - gone16(a, z, perspective, ksq as int, w16, j, s as int),
                ),
            forall|b: int|
                0 <= b < 8 ==> #[trigger] accs.psqt@[p as int]@[b] == wrap32(
                    q0[b] - gone32(a, z, perspective, ksq as int, w32, b, s as int),
                ),
        decreases 64 - s,
    {
        if square_goes(entry, pos, s) && entry.mapping[s] <= 5 {
            let side: Side = if is_set(entry.white, s) {
                Side::White
            } else {
                Side::Black
            };
            let piece: Piece = Piece::from_index(entry.mapping[s] as usize);
            if let Some(f) = halfka_index(perspective, side, piece, s, ksq) {
                let ghost h1 = accs.halfka@[p as int]@;
                let ghost q1 = accs.psqt@[p as int]@;
                apply_feature(
                    &nets.net.transformer,
                    L1,
                    f,
                    &mut accs.halfka[p],
                    &mut accs.psqt[p],
                    -1,
                );
                proof {
                    assert(f == a.feature(perspective, ksq as int, s as int));
                    assert forall|j: int| 0 <= j < 1024 implies #[trigger] accs.halfka@[p as int]@[j]
                        == wrap16(
                        h0[j] - gone16(a, z, perspective, ksq as int, w16, j, s + 1),
                    ) by {
                        assert(h1[j] == wrap16(
                            h0[j] - gone16(a, z, perspective, ksq as int, w16, j, s as int),
                        ));
                        lemma_wrap16_step(
                            h0[j] - gone16(a, z, perspective, ksq as int, w16, j, s as int),
                            w16[f * 1024 + j] as int,
                        );
                    }
                    assert forall|b: int| 0 <= b < 8 implies #[trigger] accs.psqt@[p as int]@[b]
                        == wrap32(
                        q0[b] - gone32(a, z, perspective, ksq as int, w32, b, s + 1),
                    ) by {
                        assert(q1[b] == wrap32(
                            q0[b] - gone32(a, z, perspective, ksq as int, w32, b, s as int),
                        ));
                        lemma_wrap32_step(
                            q0[b] - gone32(a, z, perspective, ksq as int, w32, b, s as int),
                            w32[f * 8 + b] as int,
                        );
                    }
                }
            }
        }
        s = s + 1;
    }
    let ghost h2 = accs.halfka@[p as int]@;
    let ghost q2 = accs.psqt@[p as int]@;
    proof {
        assert forall|j: int| 0 <= j < 1024 implies h2[j] == wrap16(h2[j] as int) by {
            lemma_wrapping_i16(h2[j], 0);
        }
        assert forall|b: int| 0 <= b < 8 implies q2[b] == wrap32(q2[b] as int) by {
            lemma_wrapping_i32(q2[b], 0);
        }
    }
    s = 0;
    while s < 64
        invariant
            s <= 64,
            p == perspective.ix(),
            p < 2,
            ksq < 64,
            refreshable(&nets.net.transformer),
            a == entry.placement(),
            z == pos.placement(),
            w16 == nets.net.transformer.weights@,
            w32 == nets.net.transformer.psqt_w@,
            accs.same_but(old(accs), p as int),
            forall|j: int|
                0 <= j < 1024 ==> #[trigger] accs.halfka@[p as int]@[j] == wrap16(
                    h2[j] + gone16(z, a, perspective, ksq as int, w16, j, s as int),
                ),
            forall|b: int|
                0 <= b < 8 ==> #[trigger] accs.psqt@[p as int]@[b] == wrap32(
                    q2[b] + gone32(z, a, perspective, ksq as int, w32, b, s as int),
                ),
        decreases 64 - s,
    {
        assert(goes(z, a, s as int) == comes(a, z, s as int));
        if square_comes(entry, pos, s) && pos.mapping[s] <= 5 {
            let side: Side = if is_set(pos.white, s) {
                Side::White
            } else {
                Side::Black
            };
            let piece: Piece = Piece::from_index(pos.mapping[s] as usize);
            if let Some(f) = halfka_index(perspective, side, piece, s, ksq) {
                let ghost h1 = accs.halfka@[p as int]@;
                let ghost q1 = accs.psqt@[p as int]@;
                apply_feature(
                    &nets.net.transformer,
                    L1,
                    f,
                    &mut accs.halfka[p],
                    &mut accs.psqt[p],
                    1,
                );
                proof {
                    assert(f == z.feature(perspective, ksq as int, s as int));
                    assert forall|j: int| 0 <= j < 1024 implies #[trigger] accs.halfka@[p as int]@[j]
                        == wrap16(
                        h2[j] + gone16(z, a, perspective, ksq as int, w16, j, s + 1),
                    ) by {
                        assert(h1[j] == wrap16(
                            h2[j] + gone16(z, a, perspective, ksq as int, w16, j, s as int),
                        ));
                        lemma_wrap16_step(
                            h2[j] + gone16(z, a, perspective, ksq as int, w16, j, s as int),
                            w16[f * 1024 + j] as int,
                        );
                    }
                    assert forall|b: int| 0 <= b < 8 implies #[trigger] accs.psqt@[p as int]@[b]
                        == wrap32(
                        q2[b] + gone32(z, a, perspective, ksq as int, w32, b, s + 1),
                    ) by {
                        assert(q1[b] == wrap32(
                            q2[b] + gone32(z, a, perspective, ksq as int, w32, b, s as int),
                        ));
                        lemma_wrap32_step(
                            q2[b] + gone32(z, a, perspective, ksq as int, w32, b, s as int),
                            w32[f * 8 + b] as int,
                        );
                    }
                }
            }
        }
        s = s + 1;
    }
    proof {
        assert forall|j: int| 0 <= j < 1024 implies #[trigger] accs.halfka@[p as int]@[j] == wrap16(
            h0[j] - gone16(a, z, perspective, ksq as int, w16, j, 64) + gone16(
                z,
                a,
                perspective,
                ksq as int,
                w16,
                j,
                64,
            ),
        ) by {
            assert(h2[j] == wrap16(h0[j] - gone16(a, z, perspective, ksq as int, w16, j, 64)));
            lemma_wrap16_step(
                h0[j] - gone16(a, z, perspective, ksq as int, w16, j, 64),
                gone16(z, a, perspective, ksq as int, w16, j, 64),
            );
        }
        assert forall|b: int| 0 <= b < 8 implies #[trigger] accs.psqt@[p as int]@[b] == wrap32(
            q0[b] - gone32(a, z, perspective, ksq as int, w32, b, 64) + gone32(
                z,
                a,
                perspective,
                ksq as int,
                w32,
                b,
                64,
            ),
        ) by {
            assert(q2[b] == wrap32(q0[b] - gone32(a, z, perspective, ksq as int, w32, b, 64)));
            lemma_wrap32_step(
                q0[b] - gone32(a, z, perspective, ksq as int, w32, b, 64),
                gone32(z, a, perspective, ksq as int, w32, b, 64),
            );
        }
    }
}

/// Refreshes one perspective and its cache entry: from the entry if only a few
/// squares changed since, from scratch otherwise.
fn refresh_through_entry(
    pos: &SfnnPosition,
    nets: &LoadedNets,
    generation: u64,
    perspective: Side,
    ksq: usize,
    entry: &mut FinnyEntry,
    accs: &mut Sfnn16Accs,
)
    requires
        !(perspective is Both),
        ksq < 64,
        pos.kings(perspective) != 0,
        ksq == pos.king_square_spec(perspective),
        refreshable(&nets.net.transformer),
        old(entry).ok(&nets.net.transformer, generation, perspective, ksq as int),
    ensures
        final(accs).fresh(perspective, &nets.net.transformer, pos),
        final(accs).same_but(old(accs), perspective.ix()),
        final(entry).ok(&nets.net.transformer, generation, perspective, ksq as int),
        final(entry).valid,
        final(entry).generation == generation,
        final(entry).placement() == pos.placement(),
{
    let p: usize = perspective as usize;
    let ghost tr = &nets.net.transformer;
    if entry.valid && entry.generation == generation && count_changes(entry, pos) <= 8 {
        accs.halfka[p] = entry.halfka;
        accs.psqt[p] = entry.psqt;
        apply_difference(pos, nets, perspective, ksq, entry, accs);
        proof {
            let a = entry.placement();
            let z = pos.placement();
            let k = ksq as int;
            assert forall|j: int| 0 <= j < 1024 implies #[trigger] accs.halfka@[p as int]@[j]
                == wrap16(
                tr.bias@[j] + column_sum16(tr.weights@, 1024, z.features(perspective, k, 64), j),
            ) by {
                lemma_features_sum(a, perspective, k, tr.weights@, tr.psqt_w@, j, 0, 64);
                lemma_features_sum(z, perspective, k, tr.weights@, tr.psqt_w@, j, 0, 64);
                lemma_difference(a, z, perspective, k, tr.weights@, tr.psqt_w@, j, 0, 64);
                let old_sum = tr.bias@[j] + squares_sum16(a, perspective, k, tr.weights@, j, 64);
                let d = gone16(z, a, perspective, k, tr.weights@, j, 64) - gone16(
                    a,
                    z,
                    perspective,
                    k,
                    tr.weights@,
                    j,
                    64,
                );
                assert(entry.halfka@[j] == wrap16(old_sum));
                lemma_wrap16_step(old_sum, d);
            }
            assert forall|b: int| 0 <= b < 8 implies #[trigger] accs.psqt@[p as int]@[b] == wrap32(
                column_sum32(tr.psqt_w@, z.features(perspective, k, 64), b),
            ) by {
                lemma_features_sum(a, perspective, k, tr.weights@, tr.psqt_w@, 0, b, 64);
                lemma_features_sum(z, perspective, k, tr.weights@, tr.psqt_w@, 0, b, 64);
                lemma_difference(a, z, perspective, k, tr.weights@, tr.psqt_w@, 0, b, 64);
                let old_sum = squares_sum32(a, perspective, k, tr.psqt_w@, b, 64);
                let d = gone32(z, a, perspective, k, tr.psqt_w@, b, 64) - gone32(
                    a,
                    z,
                    perspective,
                    k,
                    tr.psqt_w@,
                    b,
                    64,
                );
                assert(entry.psqt@[b] == wrap32(old_sum));
                lemma_wrap32_step(old_sum, d);
            }
        }
    } else {
        refresh_perspective(pos, nets, perspective, accs);
    }
    entry.halfka = accs.halfka[p];
    entry.psqt = accs.psqt[p];
    entry.occupied = pos.occupied();
    entry.white = pos.white;
    entry.mapping = pos.mapping;
    entry.generation = generation;
    entry.valid = true;
}

/// Refreshes one perspective through the cache. Without a king of that side
/// nothing changes.
pub fn update_perspective_finny_or_refresh(
    pos: &SfnnPosition,
    nets: &LoadedNets,
    generation: u64,
    perspective: Side,
    cache: &mut FinnyCache,
    accs: &mut Sfnn16Accs,
)
    requires
        !(perspective is Both),
        refreshable(&nets.net.transformer),
        old(cache).wf(&nets.net.transformer, generation),
    ensures
        final(cache).wf(&nets.net.transformer, generation),
        pos.kings(perspective) != 0 ==> final(accs).fresh(
            perspective,
            &nets.net.transformer,
            pos,
        ) && final(accs).same_but(old(accs), perspective.ix()),
        pos.kings(perspective) == 0 ==> *final(accs) == *old(accs) && *final(cache) == *old(cache),
{
    let ksq: usize = pos.king_square(perspective);
    if ksq >= 64 {
        return;
    }
    let i: usize = ksq * 2 + perspective as usize;
    let ghost before = cache.entries@;
    assert(before[i as int].ok(&nets.net.transformer, generation, side_of(i as int % 2), i as int / 2));
    assert(side_of(i as int % 2) == perspective);
    refresh_through_entry(
        pos,
        nets,
        generation,
        perspective,
        ksq,
        &mut cache.entries[i],
        accs,
    );
    assert forall|k: int| 0 <= k < 128 implies (#[trigger] cache.entries@[k]).ok(
        &nets.net.transformer,
        generation,
        side_of(k % 2),
        k / 2,
    ) by {
        if k != i {
            assert(cache.entries@[k] == before[k]);
        }
    }
}

/// Refreshes both perspectives. Without both kings nothing changes; without a
/// network only the generation is noted.
pub fn refresh_all(
    pos: &SfnnPosition,
    nets: Option<&LoadedNets>,
    generation: u64,
    accs: &mut Sfnn16Accs,
)
    requires
        nets matches Some(n) ==> refreshable(&n.net.transformer),
    ensures
        refreshed_all(old(accs), final(accs), pos, nets, generation),
{
    if !kings_present(pos) {
        return;
    }
    if let Some(n) = nets {
        refresh_perspective(pos, n, Side::White, accs);
        refresh_perspective(pos, n, Side::Black, accs);
        accs.threat_psqt = [[0i32; 8]; 2];
        accs.generation = generation;
    } else {
        accs.generation = generation;
    }
}

/// The effect of refreshing both perspectives.
pub open spec fn refreshed_all(
    before: &Sfnn16Accs,
    after: &Sfnn16Accs,
    pos: &SfnnPosition,
    nets: Option<&LoadedNets>,
    generation: u64,
) -> bool {
    if !kings_present_spec(pos) {
        *after == *before
    } else {
        &&& after.generation == generation
        &&& match nets {
            Some(n) => {
                &&& after.fresh(Side::White, &n.net.transformer, pos)
                &&& after.fresh(Side::Black, &n.net.transformer, pos)
                &&& forall|p: int, b: int|
                    0 <= p < 2 && 0 <= b < 8 ==> #[trigger] after.threat_psqt@[p]@[b] == 0
            },
            None => after.same_side(before, 0) && after.same_side(before, 1) && after.threat_psqt
                == before.threat_psqt,
        }
    }
}

/// Refreshes accumulators that belong to another generation.
pub fn ensure_fresh(
    pos: &SfnnPosition,
    nets: Option<&LoadedNets>,
    generation: u64,
    accs: &mut Sfnn16Accs,
)
    requires
        nets matches Some(n) ==> refreshable(&n.net.transformer),
    ensures
        old(accs).generation == generation ==> *final(accs) == *old(accs),
        old(accs).generation != generation ==> refreshed_all(
            old(accs),
            final(accs),
            pos,
            nets,
            generation,
        ),
{
    if accs.generation != generation {
        refresh_all(pos, nets, generation, accs);
    }
}

/// A piece that appeared on or left a square, in network numbering.
pub type SfnnEvent = (usize, Side, Piece);

/// Whether an event names a square of the board.
pub open spec fn event_ok(ev: Option<SfnnEvent>) -> bool {
    ev matches Some(e) ==> e.0 < 64
}

/// What an event contributes to a column.
pub open spec fn event16(ev: Option<SfnnEvent>, view: Side, ksq: int, w: Seq<i16>, j: int) -> int {
    match ev {
        Some(e) => if e.2 is NoPiece {
            0
        } else {
            w[halfka_feature(view, e.1, e.2, e.0, ksq as usize) * 1024 + j] as int
        },
        None => 0,
    }
}

/// What an event contributes to a bucket.
pub open spec fn event32(ev: Option<SfnnEvent>, view: Side, ksq: int, w: Seq<i32>, b: int) -> int {
    match ev {
        Some(e) => if e.2 is NoPiece {
            0
        } else {
            w[halfka_feature(view, e.1, e.2, e.0, ksq as usize) * 8 + b] as int
        },
        None => 0,
    }
}

/// Contributions of the first `n` events.
pub open spec fn events16(
    evs: Seq<Option<SfnnEvent>>,
    view: Side,
    ksq: int,
    w: Seq<i16>,
    j: int,
    n: int,
) -> int
    decreases n,
{
    if n <= 0 {
        0
    } else {
        events16(evs, view, ksq, w, j, n - 1) + event16(evs[n - 1], view, ksq, w, j)
    }
}

/// Contributions of the first `n` events.
pub open spec fn events32(
    evs: Seq<Option<SfnnEvent>>,
    view: Side,
    ksq: int,
    w: Seq<i32>,
    b: int,
    n: int,
) -> int
    decreases n,
{
    if n <= 0 {
        0
    } else {
        events32(evs, view, ksq, w, b, n - 1) + event32(evs[n - 1], view, ksq, w, b)
    }
}

/// Sums moved on by events: some pieces left, some appeared.
pub open spec fn sums_moved(
    lanes: Seq<i16>,
    buckets: Seq<i32>,
    next_lanes: Seq<i16>,
    next_buckets: Seq<i32>,
    tr: &SfnnTransformer,
    view: Side,
    ksq: int,
    dels: Seq<Option<SfnnEvent>>,
    adds: Seq<Option<SfnnEvent>>,
) -> bool {
    &&& forall|j: int|
        0 <= j < 1024 ==> #[trigger] next_lanes[j] == wrap16(
            lanes[j] - events16(dels, view, ksq, tr.weights@, j, dels.len() as int) + events16(
                adds,
                view,
                ksq,
                tr.weights@,
                j,
                adds.len() as int,
            ),
        )
    &&& forall|b: int|
        0 <= b < 8 ==> #[trigger] next_buckets[b] == wrap32(
            buckets[b] - events32(dels, view, ksq, tr.psqt_w@, b, dels.len() as int) + events32(
                adds,
                view,
                ksq,
                tr.psqt_w@,
                b,
                adds.len() as int,
            ),
        )
}

/// One perspective moved on by events: some pieces left, some appeared.
pub open spec fn moved_on(
    before: &Sfnn16Accs,
    after: &Sfnn16Accs,
    tr: &SfnnTransformer,
    view: Side,
    ksq: int,
    dels: Seq<Option<SfnnEvent>>,
    adds: Seq<Option<SfnnEvent>>,
) -> bool {
    let p = view.ix();
    sums_moved(
        before.halfka@[p]@,
        before.psqt@[p]@,
        after.halfka@[p]@,
        after.psqt@[p]@,
        tr,
        view,
        ksq,
        dels,
        adds,
    )
}

/// Applies events in one direction.
fn apply_events(
    tr: &SfnnTransformer,
    perspective: Side,
    ksq: usize,
    evs: &[Option<SfnnEvent>],
    sign: i16,
    lanes: &mut [i16; 1024],
    buckets: &mut [i32; 8],
)
    requires
        !(perspective is Both),
        refreshable(tr),
        sign == 1 || sign == -1,
        forall|i: int| 0 <= i < evs.len() ==> event_ok(#[trigger] evs@[i]),
        ksq < 64 || evs.len() == 0,
    ensures
        forall|j: int|
            0 <= j < 1024 ==> #[trigger] final(lanes)@[j] == wrap16(
                old(lanes)@[j] + sign * events16(
                    evs@,
                    perspective,
                    ksq as int,
                    tr.weights@,
                    j,
                    evs.len() as int,
                ),
            ),
        forall|b: int|
            0 <= b < 8 ==> #[trigger] final(buckets)@[b] == wrap32(
                old(buckets)@[b] + sign * events32(
                    evs@,
                    perspective,
                    ksq as int,
                    tr.psqt_w@,
                    b,
                    evs.len() as int,
                ),
            ),
{
    let ghost w16 = tr.weights@;
    let ghost w32 = tr.psqt_w@;
    let ghost h0 = lanes@;
    let ghost q0 = buckets@;
    let ghost k = ksq as int;
    proof {
        assert forall|j: int| 0 <= j < 1024 implies h0[j] == wrap16(h0[j] as int) by {
            lemma_wrapping_i16(h0[j], 0);
        }
        assert forall|b: int| 0 <= b < 8 implies q0[b] == wrap32(q0[b] as int) by {
            lemma_wrapping_i32(q0[b], 0);
        }
    }
    let mut i: usize = 0;
    while i < evs.len()
        invariant
            i <= evs.len(),
            k == ksq,
            ksq < 64 || evs.len() == 0,
            sign == 1 || sign == -1,
            refreshable(tr),
            forall|n: int| 0 <= n < evs.len() ==> event_ok(#[trigger] evs@[n]),
            w16 == tr.weights@,
            w32 == tr.psqt_w@,
            forall|j: int|
                0 <= j < 1024 ==> #[trigger] lanes@[j] == wrap16(
                    h0[j] + sign * events16(evs@, perspective, k, w16, j, i as int),
                ),
            forall|b: int|
                0 <= b < 8 ==> #[trigger] buckets@[b] == wrap32(
                    q0[b] + sign * events32(evs@, perspective, k, w32, b, i as int),
                ),
        decreases evs.len() - i,
    {
        let ghost h1 = lanes@;
        let ghost q1 = buckets@;
        assert(event_ok(evs@[i as int]));
        if let Some(ev) = evs[i] {
            if let Some(f) = halfka_index(perspective, ev.1, ev.2, ev.0, ksq) {
                apply_feature(tr, L1, f, lanes, buckets, sign);
                proof {
                    assert forall|j: int| 0 <= j < 1024 implies #[trigger] lanes@[j] == wrap16(
                        h0[j] + sign * events16(evs@, perspective, k, w16, j, i + 1),
                    ) by {
                        assert(h1[j] == wrap16(
                            h0[j] + sign * events16(evs@, perspective, k, w16, j, i as int),
                        ));
                        let e = events16(evs@, perspective, k, w16, j, i as int);
                        let w = w16[f * 1024 + j] as int;
                        assert(sign * (e + w) == sign * e + sign * w) by (nonlinear_arith);
                        assert(sign == 1 ==> sign * w == w);
                        assert(sign == -1 ==> sign * w == -w);
                        lemma_wrap16_step(h0[j] + sign * e, sign * w);
                        lemma_wrap16_step(h0[j] + sign * e, w);
                    }
                    assert forall|b: int| 0 <= b < 8 implies #[trigger] buckets@[b] == wrap32(
                        q0[b] + sign * events32(evs@, perspective, k, w32, b, i + 1),
                    ) by {
                        assert(q1[b] == wrap32(
                            q0[b] + sign * events32(evs@, perspective, k, w32, b, i as int),
                        ));
                        let e = events32(evs@, perspective, k, w32, b, i as int);
                        let w = w32[f * 8 + b] as int;
                        assert(sign * (e + w) == sign * e + sign * w) by (nonlinear_arith);
                        assert(sign == 1 ==> sign * w == w);
                        assert(sign == -1 ==> sign * w == -w);
                        lemma_wrap32_step(q0[b] + sign * e, sign * w);
                        lemma_wrap32_step(q0[b] + sign * e, w);
                    }
                }
            }
        }
        i = i + 1;
    }
}

/// Moves sums of one perspective on by events.
pub fn move_sums(
    tr: &SfnnTransformer,
    perspective: Side,
    ksq: usize,
    dels: &[Option<SfnnEvent>],
    adds: &[Option<SfnnEvent>],
    lanes: &mut [i16; 1024],
    buckets: &mut [i32; 8],
)
    requires
        !(perspective is Both),
        refreshable(tr),
        forall|i: int| 0 <= i < dels.len() ==> event_ok(#[trigger] dels@[i]),
        forall|i: int| 0 <= i < adds.len() ==> event_ok(#[trigger] adds@[i]),
        ksq < 64 || (dels.len() == 0 && adds.len() == 0),
    ensures
        sums_moved(
            old(lanes)@,
            old(buckets)@,
            final(lanes)@,
            final(buckets)@,
            tr,
            perspective,
            ksq as int,
            dels@,
            adds@,
        ),
{
    let ghost k = ksq as int;
    let ghost h0 = lanes@;
    let ghost q0 = buckets@;
    apply_events(tr, perspective, ksq, dels, -1, lanes, buckets);
    let ghost h1 = lanes@;
    let ghost q1 = buckets@;
    apply_events(tr, perspective, ksq, adds, 1, lanes, buckets);
    proof {
        assert forall|j: int| 0 <= j < 1024 implies #[trigger] lanes@[j] == wrap16(
            h0[j] - events16(dels@, perspective, k, tr.weights@, j, dels.len() as int) + events16(
                adds@,
                perspective,
                k,
                tr.weights@,
                j,
                adds.len() as int,
            ),
        ) by {
            let d = events16(dels@, perspective, k, tr.weights@, j, dels.len() as int);
            let a = events16(adds@, perspective, k, tr.weights@, j, adds.len() as int);
            assert(h1[j] == wrap16(h0[j] + -1i16 * d));
            assert(-1i16 * d == -d && 1i16 * a == a);
            lemma_wrap16_step(h0[j] - d, a);
        }
        assert forall|b: int| 0 <= b < 8 implies #[trigger] buckets@[b] == wrap32(
            q0[b] - events32(dels@, perspective, k, tr.psqt_w@, b, dels.len() as int) + events32(
                adds@,
                perspective,
                k,
                tr.psqt_w@,
                b,
                adds.len() as int,
            ),
        ) by {
            let d = events32(dels@, perspective, k, tr.psqt_w@, b, dels.len() as int);
            let a = events32(adds@, perspective, k, tr.psqt_w@, b, adds.len() as int);
            assert(q1[b] == wrap32(q0[b] + -1i16 * d));
            assert(-1i16 * d == -d && 1i16 * a == a);
            lemma_wrap32_step(q0[b] - d, a);
        }
    }
}

/// Moves one perspective on by events.
pub fn move_on(
    nets: &LoadedNets,
    perspective: Side,
    ksq: usize,
    dels: &[Option<SfnnEvent>],
    adds: &[Option<SfnnEvent>],
    accs: &mut Sfnn16Accs,
)
    requires
        !(perspective is Both),
        refreshable(&nets.net.transformer),
        forall|i: int| 0 <= i < dels.len() ==> event_ok(#[trigger] dels@[i]),
        forall|i: int| 0 <= i < adds.len() ==> event_ok(#[trigger] adds@[i]),
        ksq < 64 || (dels.len() == 0 && adds.len() == 0),
    ensures
        final(accs).same_but(old(accs), perspective.ix()),
        moved_on(
            old(accs),
            final(accs),
            &nets.net.transformer,
            perspective,
            ksq as int,
            dels@,
            adds@,
        ),
{
    let p: usize = perspective as usize;
    move_sums(
        &nets.net.transformer,
        perspective,
        ksq,
        dels,
        adds,
        &mut accs.halfka[p],
        &mut accs.psqt[p],
    );
}

/// Applies the events of one move to both perspectives. A perspective whose
/// king moved is refreshed instead.
pub fn apply_queued(
    pos: &SfnnPosition,
    nets: Option<&LoadedNets>,
    generation: u64,
    cache: &mut FinnyCache,
    accs: &mut Sfnn16Accs,
    adds: &[Option<SfnnEvent>],
    dels: &[Option<SfnnEvent>],
    king_moved: &[bool; 2],
)
    requires
        nets matches Some(n) ==> {
            &&& refreshable(&n.net.transformer)
            &&& old(cache).wf(&n.net.transformer, generation)
            &&& forall|i: int| 0 <= i < dels.len() ==> event_ok(#[trigger] dels@[i])
            &&& forall|i: int| 0 <= i < adds.len() ==> event_ok(#[trigger] adds@[i])
            &&& dels.len() == 0 && adds.len() == 0 || (king_moved@[0] || pos.kings(Side::White) != 0)
                && (king_moved@[1] || pos.kings(Side::Black) != 0)
        },
    ensures
        queued(old(accs), final(accs), pos, nets, generation, adds@, dels@, king_moved@),
        nets matches Some(n) ==> final(cache).wf(&n.net.transformer, generation),
        nets is None ==> *final(cache) == *old(cache),
{
    if let Some(n) = nets {
        let ghost start = *accs;
        if king_moved[0] {
            update_perspective_finny_or_refresh(pos, n, generation, Side::White, cache, accs);
        } else {
            let ksq: usize = pos.king_square(Side::White);
            move_on(n, Side::White, ksq, dels, adds, accs);
        }
        let ghost mid = *accs;
        if king_moved[1] {
            update_perspective_finny_or_refresh(pos, n, generation, Side::Black, cache, accs);
        } else {
            let ksq: usize = pos.king_square(Side::Black);
            move_on(n, Side::Black, ksq, dels, adds, accs);
        }
        accs.generation = generation;
        proof {
            assert(side_queued(&start, &mid, pos, n, Side::White, adds@, dels@, king_moved@[0]));
            assert(side_queued(&mid, accs, pos, n, Side::Black, adds@, dels@, king_moved@[1]));
            assert(side_queued(&start, accs, pos, n, Side::White, adds@, dels@, king_moved@[0]));
            assert(side_queued(&start, accs, pos, n, Side::Black, adds@, dels@, king_moved@[1]));
        }
    }
}

/// The effect of queued events on one perspective.
pub open spec fn side_queued(
    before: &Sfnn16Accs,
    after: &Sfnn16Accs,
    pos: &SfnnPosition,
    nets: &LoadedNets,
    view: Side,
    adds: Seq<Option<SfnnEvent>>,
    dels: Seq<Option<SfnnEvent>>,
    king_moved: bool,
) -> bool {
    if king_moved {
        if pos.kings(view) != 0 {
            after.fresh(view, &nets.net.transformer, pos)
        } else {
            after.same_side(before, view.ix())
        }
    } else {
        moved_on(
            before,
            after,
            &nets.net.transformer,
            view,
            pos.king_square_spec(view),
            dels,
            adds,
        )
    }
}

/// The effect of queued events on the accumulators.
pub open spec fn queued(
    before: &Sfnn16Accs,
    after: &Sfnn16Accs,
    pos: &SfnnPosition,
    nets: Option<&LoadedNets>,
    generation: u64,
    adds: Seq<Option<SfnnEvent>>,
    dels: Seq<Option<SfnnEvent>>,
    king_moved: Seq<bool>,
) -> bool {
    match nets {
        None => *after == *before,
        Some(n) => {
            &&& side_queued(before, after, pos, n, Side::White, adds, dels, king_moved[0])
            &&& side_queued(before, after, pos, n, Side::Black, adds, dels, king_moved[1])
            &&& after.threat_psqt == before.threat_psqt
            &&& after.generation == generation
        },
    }
}

/// The placement after some pieces left, one after the other.
pub open spec fn after_dels(pl: Placement, dels: Seq<Option<SfnnEvent>>, n: int) -> Placement
    decreases n,
{
    if n <= 0 {
        pl
    } else {
        match dels[n - 1] {
            Some(e) => without(after_dels(pl, dels, n - 1), e.0 as int),
            None => after_dels(pl, dels, n - 1),
        }
    }
}

/// Every piece that leaves stands where the event says.
pub open spec fn dels_match(pl: Placement, dels: Seq<Option<SfnnEvent>>, n: int) -> bool
    decreases n,
{
    n <= 0 || dels_match(pl, dels, n - 1) && (dels[n - 1] matches Some(e) ==> {
        let here = after_dels(pl, dels, n - 1);
        &&& e.0 < 64
        &&& here.active(e.0 as int)
        &&& here.side_on(e.0 as int) == e.1
        &&& Piece::of_index(here.mapping[e.0 as int] as int) == e.2
    })
}

/// The placement after some pieces appeared, one after the other.
pub open spec fn after_adds(pl: Placement, adds: Seq<Option<SfnnEvent>>, n: int) -> Placement
    decreases n,
{
    if n <= 0 {
        pl
    } else {
        match adds[n - 1] {
            Some(e) => placed(after_adds(pl, adds, n - 1), e.0 as int, e.1, e.2 as int),
            None => after_adds(pl, adds, n - 1),
        }
    }
}

/// Every piece that appears does so on an empty square.
pub open spec fn adds_match(pl: Placement, adds: Seq<Option<SfnnEvent>>, n: int) -> bool
    decreases n,
{
    n <= 0 || adds_match(pl, adds, n - 1) && (adds[n - 1] matches Some(e) ==> {
        let here = after_adds(pl, adds, n - 1);
        &&& e.0 < 64
        &&& !bit(here.occupied, e.0 as int)
        &&& !(e.1 is Both)
        &&& !(e.2 is NoPiece)
    })
}

proof fn lemma_dels_sum(
    pl: Placement,
    view: Side,
    ksq: int,
    w16: Seq<i16>,
    w32: Seq<i32>,
    j: int,
    b: int,
    dels: Seq<Option<SfnnEvent>>,
    n: int,
)
    requires
        0 <= n <= dels.len(),
        dels_match(pl, dels, n),
    ensures
        squares_sum16(after_dels(pl, dels, n), view, ksq, w16, j, 64) == squares_sum16(
            pl,
            view,
            ksq,
            w16,
            j,
            64,
        ) - events16(dels, view, ksq, w16, j, n),
        squares_sum32(after_dels(pl, dels, n), view, ksq, w32, b, 64) == squares_sum32(
            pl,
            view,
            ksq,
            w32,
            b,
            64,
        ) - events32(dels, view, ksq, w32, b, n),
        after_dels(pl, dels, n).mapping == pl.mapping,
    decreases n,
{
    if n > 0 {
        lemma_dels_sum(pl, view, ksq, w16, w32, j, b, dels, n - 1);
        if let Some(e) = dels[n - 1] {
            let here = after_dels(pl, dels, n - 1);
            lemma_without(here, view, ksq, w16, w32, j, b, e.0 as int, 64);
        }
    }
}

proof fn lemma_adds_sum(
    pl: Placement,
    view: Side,
    ksq: int,
    w16: Seq<i16>,
    w32: Seq<i32>,
    j: int,
    b: int,
    adds: Seq<Option<SfnnEvent>>,
    n: int,
)
    requires
        0 <= n <= adds.len(),
        pl.mapping.len() == 64,
        adds_match(pl, adds, n),
    ensures
        squares_sum16(after_adds(pl, adds, n), view, ksq, w16, j, 64) == squares_sum16(
            pl,
            view,
            ksq,
            w16,
            j,
            64,
        ) + events16(adds, view, ksq, w16, j, n),
        squares_sum32(after_adds(pl, adds, n), view, ksq, w32, b, 64) == squares_sum32(
            pl,
            view,
            ksq,
            w32,
            b,
            64,
        ) + events32(adds, view, ksq, w32, b, n),
        after_adds(pl, adds, n).mapping.len() == 64,
    decreases n,
{
    if n > 0 {
        lemma_adds_sum(pl, view, ksq, w16, w32, j, b, adds, n - 1);
        if let Some(e) = adds[n - 1] {
            let here = after_adds(pl, adds, n - 1);
            lemma_placed(here, view, ksq, w16, w32, j, b, e.0 as int, e.1, e.2 as int, 64);
        }
    }
}

/// Moving sums on by the pieces that left and appeared gives the sums of the
/// new placement.
pub proof fn law_moved_sums_equal_fresh_sums(
    lanes: Seq<i16>,
    buckets: Seq<i32>,
    next_lanes: Seq<i16>,
    next_buckets: Seq<i32>,
    tr: &SfnnTransformer,
    view: Side,
    ksq: int,
    pl: Placement,
    dels: Seq<Option<SfnnEvent>>,
    adds: Seq<Option<SfnnEvent>>,
)
    requires
        !(view is Both),
        pl.mapping.len() == 64,
        sums_are(lanes, buckets, tr, pl.features(view, ksq, 64)),
        sums_moved(lanes, buckets, next_lanes, next_buckets, tr, view, ksq, dels, adds),
        dels_match(pl, dels, dels.len() as int),
        adds_match(after_dels(pl, dels, dels.len() as int), adds, adds.len() as int),
    ensures
        sums_are(
            next_lanes,
            next_buckets,
            tr,
            after_adds(
                after_dels(pl, dels, dels.len() as int),
                adds,
                adds.len() as int,
            ).features(view, ksq, 64),
        ),
{
    let mid = after_dels(pl, dels, dels.len() as int);
    let end = after_adds(mid, adds, adds.len() as int);
    let f0 = pl.features(view, ksq, 64);
    let f1 = end.features(view, ksq, 64);
    assert forall|j: int| 0 <= j < 1024 implies #[trigger] next_lanes[j] == wrap16(
        tr.bias@[j] + column_sum16(tr.weights@, 1024, f1, j),
    ) by {
        lemma_dels_sum(pl, view, ksq, tr.weights@, tr.psqt_w@, j, 0, dels, dels.len() as int);
        lemma_adds_sum(mid, view, ksq, tr.weights@, tr.psqt_w@, j, 0, adds, adds.len() as int);
        lemma_features_sum(pl, view, ksq, tr.weights@, tr.psqt_w@, j, 0, 64);
        lemma_features_sum(end, view, ksq, tr.weights@, tr.psqt_w@, j, 0, 64);
        assert(lanes[j] == wrap16(tr.bias@[j] + column_sum16(tr.weights@, 1024, f0, j)));
        let d = events16(dels, view, ksq, tr.weights@, j, dels.len() as int);
        let a = events16(adds, view, ksq, tr.weights@, j, adds.len() as int);
        lemma_wrap16_step(tr.bias@[j] + column_sum16(tr.weights@, 1024, f0, j), a - d);
    }
    assert forall|b: int| 0 <= b < 8 implies #[trigger] next_buckets[b] == wrap32(
        column_sum32(tr.psqt_w@, f1, b),
    ) by {
        lemma_dels_sum(pl, view, ksq, tr.weights@, tr.psqt_w@, 0, b, dels, dels.len() as int);
        lemma_adds_sum(mid, view, ksq, tr.weights@, tr.psqt_w@, 0, b, adds, adds.len() as int);
        lemma_features_sum(pl, view, ksq, tr.weights@, tr.psqt_w@, 0, b, 64);
        lemma_features_sum(end, view, ksq, tr.weights@, tr.psqt_w@, 0, b, 64);
        assert(buckets[b] == wrap32(column_sum32(tr.psqt_w@, f0, b)));
        let d = events32(dels, view, ksq, tr.psqt_w@, b, dels.len() as int);
        let a = events32(adds, view, ksq, tr.psqt_w@, b, adds.len() as int);
        lemma_wrap32_step(column_sum32(tr.psqt_w@, f0, b), a - d);
    }
}

/// Moving accumulators on by the pieces that left and appeared gives what a
/// refresh of the new placement gives.
pub proof fn law_moved_on_equals_refresh(
    before: &Sfnn16Accs,
    after: &Sfnn16Accs,
    tr: &SfnnTransformer,
    view: Side,
    ksq: int,
    pl: Placement,
    dels: Seq<Option<SfnnEvent>>,
    adds: Seq<Option<SfnnEvent>>,
)
    requires
        !(view is Both),
        pl.mapping.len() == 64,
        before.stands_for(view, tr, pl, ksq),
        moved_on(before, after, tr, view, ksq, dels, adds),
        dels_match(pl, dels, dels.len() as int),
        adds_match(after_dels(pl, dels, dels.len() as int), adds, adds.len() as int),
    ensures
        after.stands_for(
            view,
            tr,
            after_adds(after_dels(pl, dels, dels.len() as int), adds, adds.len() as int),
            ksq,
        ),
{
    let p = view.ix();
    law_moved_sums_equal_fresh_sums(
        before.halfka@[p]@,
        before.psqt@[p]@,
        after.halfka@[p]@,
        after.psqt@[p]@,
        tr,
        view,
        ksq,
        pl,
        dels,
        adds,
    );
}

/// Events of one move, at most eight of each kind.
#[derive(Clone, Copy, Debug)]
pub struct SfnnPending {
    pub adds: [Option<SfnnEvent>; 8],
    pub dels: [Option<SfnnEvent>; 8],
    pub n_adds: usize,
    pub n_dels: usize,
    pub king_moved: [bool; 2],
    pub overflowed: bool,
}

impl SfnnPending {
    /// The counts are within the arrays and every square is on the board.
    pub open spec fn wf(&self) -> bool {
        &&& self.n_adds <= 8
        &&& self.n_dels <= 8
        &&& forall|i: int| 0 <= i < 8 ==> event_ok(#[trigger] self.adds@[i])
        &&& forall|i: int| 0 <= i < 8 ==> event_ok(#[trigger] self.dels@[i])
    }

    /// Nothing is queued.
    pub open spec fn is_clear(&self) -> bool {
        &&& forall|i: int| 0 <= i < 8 ==> (#[trigger] self.adds@[i]) is None
        &&& forall|i: int| 0 <= i < 8 ==> (#[trigger] self.dels@[i]) is None
        &&& self.n_adds == 0
        &&& self.n_dels == 0
        &&& !self.king_moved@[0]
        &&& !self.king_moved@[1]
        &&& !self.overflowed
    }

    pub fn new() -> (r: SfnnPending)
        ensures
            r.is_clear(),
            r.wf(),
    {
        SfnnPending {
            adds: [None; 8],
            dels: [None; 8],
            n_adds: 0,
            n_dels: 0,
            king_moved: [false, false],
            overflowed: false,
        }
    }

    /// Queues a piece that appeared; a ninth one is dropped and noted.
    pub fn push_add(&mut self, ev: SfnnEvent)
        requires
            old(self).n_adds <= 8,
        ensures
            old(self).n_adds < 8 ==> {
                &&& final(self).adds@ == old(self).adds@.update(old(self).n_adds as int, Some(ev))
                &&& final(self).n_adds == old(self).n_adds + 1
                &&& final(self).overflowed == old(self).overflowed
            },
            old(self).n_adds == 8 ==> final(self).adds == old(self).adds && final(self).n_adds == 8
                && final(self).overflowed,
            final(self).dels == old(self).dels,
            final(self).n_dels == old(self).n_dels,
            final(self).king_moved == old(self).king_moved,
    {
        if self.n_adds < 8 {
            self.adds[self.n_adds] = Some(ev);
            self.n_adds = self.n_adds + 1;
        } else {
            self.overflowed = true;
        }
    }

    /// Queues a piece that left; a ninth one is dropped and noted.
    pub fn push_del(&mut self, ev: SfnnEvent)
        requires
            old(self).n_dels <= 8,
        ensures
            old(self).n_dels < 8 ==> {
                &&& final(self).dels@ == old(self).dels@.update(old(self).n_dels as int, Some(ev))
                &&& final(self).n_dels == old(self).n_dels + 1
                &&& final(self).overflowed == old(self).overflowed
            },
            old(self).n_dels == 8 ==> final(self).dels == old(self).dels && final(self).n_dels == 8
                && final(self).overflowed,
            final(self).adds == old(self).adds,
            final(self).n_adds == old(self).n_adds,
            final(self).king_moved == old(self).king_moved,
    {
        if self.n_dels < 8 {
            self.dels[self.n_dels] = Some(ev);
            self.n_dels = self.n_dels + 1;
        } else {
            self.overflowed = true;
        }
    }

    /// Drops everything that is queued.
    pub fn clear(&mut self)
        ensures
            final(self).is_clear(),
            final(self).wf(),
    {
        *self = SfnnPending::new();
    }
}

impl Default for SfnnPending {
    fn default() -> (r: Self)
        ensures
            r.is_clear(),
            r.wf(),
    {
        SfnnPending::new()
    }
}

/// Which kings have moved after a piece of one side was touched.
pub open spec fn kings_noted(before: Seq<bool>, side: Side, piece: Piece) -> Seq<bool> {
    if piece is King {
        before.update(side as int, true)
    } else {
        before
    }
}

/// Notes a piece that appeared on a board square.
pub fn note_add(pending: &mut SfnnPending, square: Square, side: Side, piece: Piece)
    requires
        old(pending).n_adds <= 8,
        piece is King ==> !(side is Both),
    ensures
        final(pending).king_moved@ == kings_noted(old(pending).king_moved@, side, piece),
        old(pending).n_adds < 8 ==> {
            &&& final(pending).adds@ == old(pending).adds@.update(
                old(pending).n_adds as int,
                Some(((square as usize) ^ 56, side, piece)),
            )
            &&& final(pending).n_adds == old(pending).n_adds + 1
            &&& final(pending).overflowed == old(pending).overflowed
        },
        old(pending).n_adds == 8 ==> final(pending).adds == old(pending).adds
            && final(pending).n_adds == 8 && final(pending).overflowed,
        final(pending).dels == old(pending).dels,
        final(pending).n_dels == old(pending).n_dels,
        !(square is NoSquare) && old(pending).wf() ==> final(pending).wf(),
{
    if piece == Piece::King {
        pending.king_moved[side as usize] = true;
    }
    pending.push_add((to_sf(square as usize), side, piece));
}

/// Notes a piece that left a board square.
pub fn note_remove(pending: &mut SfnnPending, square: Square, side: Side, piece: Piece)
    requires
        old(pending).n_dels <= 8,
        piece is King ==> !(side is Both),
    ensures
        final(pending).king_moved@ == kings_noted(old(pending).king_moved@, side, piece),
        old(pending).n_dels < 8 ==> {
            &&& final(pending).dels@ == old(pending).dels@.update(
                old(pending).n_dels as int,
                Some(((square as usize) ^ 56, side, piece)),
            )
            &&& final(pending).n_dels == old(pending).n_dels + 1
            &&& final(pending).overflowed == old(pending).overflowed
        },
        old(pending).n_dels == 8 ==> final(pending).dels == old(pending).dels
            && final(pending).n_dels == 8 && final(pending).overflowed,
        final(pending).adds == old(pending).adds,
        final(pending).n_adds == old(pending).n_adds,
        !(square is NoSquare) && old(pending).wf() ==> final(pending).wf(),
{
    if piece == Piece::King {
        pending.king_moved[side as usize] = true;
    }
    pending.push_del((to_sf(square as usize), side, piece));
}

/// Whether accumulators that a queue is flushed into were exact before its
/// events: they belong to another network or the queue lost an event, so that
/// nothing is asked of them, or the queue leads from a placement to the
/// position and every perspective whose king stayed has the sums of that
/// placement.
pub open spec fn exact_before(
    accs: &Sfnn16Accs,
    pending: &SfnnPending,
    pl: Placement,
    pos: &SfnnPosition,
    tr: &SfnnTransformer,
    generation: u64,
) -> bool {
    let dels = pending.dels@.take(pending.n_dels as int);
    let adds = pending.adds@.take(pending.n_adds as int);
    accs.generation == generation && !pending.overflowed ==> {
        &&& pl.mapping.len() == 64
        &&& dels_match(pl, dels, dels.len() as int)
        &&& adds_match(after_dels(pl, dels, dels.len() as int), adds, adds.len() as int)
        &&& pos.placement() == after_adds(
            after_dels(pl, dels, dels.len() as int),
            adds,
            adds.len() as int,
        )
        &&& !pending.king_moved@[0] ==> accs.stands_for(
            Side::White,
            tr,
            pl,
            pos.king_square_spec(Side::White),
        )
        &&& !pending.king_moved@[1] ==> accs.stands_for(
            Side::Black,
            tr,
            pl,
            pos.king_square_spec(Side::Black),
        )
    }
}

/// The effect of flushing a queue, given a network and both kings.
pub open spec fn flushed(
    before: &Sfnn16Accs,
    after: &Sfnn16Accs,
    pending: &SfnnPending,
    pos: &SfnnPosition,
    nets: Option<&LoadedNets>,
    generation: u64,
) -> bool {
    if before.generation != generation || pending.overflowed {
        refreshed_all(before, after, pos, nets, generation)
    } else {
        queued(
            before,
            after,
            pos,
            nets,
            generation,
            pending.adds@.take(pending.n_adds as int),
            pending.dels@.take(pending.n_dels as int),
            pending.king_moved@,
        )
    }
}

/// Flushing a queue into exact sums gives both perspectives what a refresh
/// gives.
pub proof fn law_flushed_equals_refresh(
    before: &Sfnn16Accs,
    after: &Sfnn16Accs,
    pending: &SfnnPending,
    pl: Placement,
    pos: &SfnnPosition,
    nets: &LoadedNets,
    generation: u64,
)
    requires
        kings_present_spec(pos),
        exact_before(before, pending, pl, pos, &nets.net.transformer, generation),
        flushed(before, after, pending, pos, Some(nets), generation),
    ensures
        after.fresh(Side::White, &nets.net.transformer, pos),
        after.fresh(Side::Black, &nets.net.transformer, pos),
        after.generation == generation,
{
    let tr = &nets.net.transformer;
    let dels = pending.dels@.take(pending.n_dels as int);
    let adds = pending.adds@.take(pending.n_adds as int);
    if before.generation == generation && !pending.overflowed {
        if !pending.king_moved@[0] {
            law_moved_on_equals_refresh(
                before,
                after,
                tr,
                Side::White,
                pos.king_square_spec(Side::White),
                pl,
                dels,
                adds,
            );
        }
        if !pending.king_moved@[1] {
            law_moved_on_equals_refresh(
                before,
                after,
                tr,
                Side::Black,
                pos.king_square_spec(Side::Black),
                pl,
                dels,
                adds,
            );
        }
    }
}

/// Brings accumulators up to date with the queued events and clears the queue.
/// Stale accumulators, and those that missed an event, are refreshed.
pub fn flush_pending(
    pos: &SfnnPosition,
    nets: Option<&LoadedNets>,
    generation: u64,
    cache: &mut FinnyCache,
    accs: &mut Sfnn16Accs,
    pending: &mut SfnnPending,
)
    requires
        nets matches Some(n) ==> {
            &&& refreshable(&n.net.transformer)
            &&& old(cache).wf(&n.net.transformer, generation)
        },
        old(pending).wf(),
    ensures
        final(pending).is_clear(),
        nets matches Some(n) ==> final(cache).wf(&n.net.transformer, generation),
        nets is None || !kings_present_spec(pos) ==> *final(accs) == *old(accs),
        nets is Some && kings_present_spec(pos) ==> flushed(
            old(accs),
            final(accs),
            old(pending),
            pos,
            nets,
            generation,
        ),
        nets matches Some(n) ==> kings_present_spec(pos) ==> forall|pl: Placement|
            #[trigger] exact_before(
                old(accs),
                old(pending),
                pl,
                pos,
                &n.net.transformer,
                generation,
            ) ==> {
                &&& final(accs).fresh(Side::White, &n.net.transformer, pos)
                &&& final(accs).fresh(Side::Black, &n.net.transformer, pos)
                &&& final(accs).generation == generation
            },
{
    if nets.is_none() || !kings_present(pos) {
        pending.clear();
        return;
    }
    if accs.generation != generation || pending.overflowed {
        refresh_all(pos, nets, generation, accs);
        pending.clear();
        return;
    }
    let adds: &[Option<SfnnEvent>] = vstd::slice::slice_subrange(
        pending.adds.as_slice(),
        0,
        pending.n_adds,
    );
    let dels: &[Option<SfnnEvent>] = vstd::slice::slice_subrange(
        pending.dels.as_slice(),
        0,
        pending.n_dels,
    );
    assert(adds@ =~= old(pending).adds@.take(old(pending).n_adds as int));
    assert(dels@ =~= old(pending).dels@.take(old(pending).n_dels as int));
    apply_queued(pos, nets, generation, cache, accs, adds, dels, &pending.king_moved);
    pending.clear();
    proof {
        if let Some(n) = nets {
            assert forall|pl: Placement|
                #[trigger] exact_before(
                    old(accs),
                    old(pending),
                    pl,
                    pos,
                    &n.net.transformer,
                    generation,
                ) implies accs.fresh(Side::White, &n.net.transformer, pos) && accs.fresh(
                Side::Black,
                &n.net.transformer,
                pos,
            ) by {
                law_flushed_equals_refresh(
                    old(accs),
                    accs,
                    old(pending),
                    pl,
                    pos,
                    n,
                    generation,
                );
            }
        }
    }
}

/// The sums of a list of features are the biases and the weights of all of
/// them; the buckets have no biases. One feature more adds its own weights.
pub proof fn law_sums_grow_by_a_feature(
    lanes: Seq<i16>,
    buckets: Seq<i32>,
    next_lanes: Seq<i16>,
    next_buckets: Seq<i32>,
    tr: &SfnnTransformer,
    feats: Seq<int>,
    feature: int,
    j: int,
    b: int,
)
    requires
        sums_are(lanes, buckets, tr, feats),
        sums_are(next_lanes, next_buckets, tr, feats.push(feature)),
        0 <= j < 1024,
        0 <= b < 8,
    ensures
        next_lanes[j] == wrap16(lanes[j] + tr.weights@[feature * 1024 + j]),
        next_buckets[b] == wrap32(buckets[b] + tr.psqt_w@[feature * 8 + b]),
        feats.len() == 0 ==> lanes[j] == tr.bias@[j] && buckets[b] == 0,
{
    assert(feats.push(feature).drop_last() =~= feats);
    assert(lanes[j] == wrap16(tr.bias@[j] + column_sum16(tr.weights@, 1024, feats, j)));
    assert(next_lanes[j] == wrap16(
        tr.bias@[j] + column_sum16(tr.weights@, 1024, feats.push(feature), j),
    ));
    assert(buckets[b] == wrap32(column_sum32(tr.psqt_w@, feats, b)));
    assert(next_buckets[b] == wrap32(column_sum32(tr.psqt_w@, feats.push(feature), b)));
    lemma_wrap16_step(
        tr.bias@[j] + column_sum16(tr.weights@, 1024, feats, j),
        tr.weights@[feature * 1024 + j] as int,
    );
    lemma_wrap32_step(
        column_sum32(tr.psqt_w@, feats, b),
        tr.psqt_w@[feature * 8 + b] as int,
    );
}

/// Only a king that comes or goes is noted, for its own side.
pub proof fn law_kings_are_noted(before: Seq<bool>, side: Side, piece: Piece)
    requires
        before.len() == 2,
        !(side is Both),
    ensures
        !(piece is King) ==> kings_noted(before, side, piece) == before,
        piece is King && side is White ==> kings_noted(before, side, piece)[0] && kings_noted(
            before,
            side,
            piece,
        )[1] == before[1],
        piece is King && side is Black ==> kings_noted(before, side, piece)[1] && kings_noted(
            before,
            side,
            piece,
        )[0] == before[0],
{
}

} // verus!
