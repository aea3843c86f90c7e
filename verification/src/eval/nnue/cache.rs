//! Scores of positions seen before.

use vstd::prelude::*;

verus! {

/// Number of entries.
pub const EVAL_CACHE_SIZE: usize = 262_144;

#[derive(Clone, Copy, Debug, PartialEq, Eq, Structural)]
pub struct EvalCacheEntry {
    pub hash: u64,
    pub optimism: i32,
    pub halfmove: u8,
    pub score: i16,
}

impl EvalCacheEntry {
    /// The entry that an empty slot holds.
    pub open spec fn blank() -> EvalCacheEntry {
        EvalCacheEntry { hash: u64::MAX, optimism: 0, halfmove: 0, score: 0 }
    }
}

/// A table of scores, one slot per residue of the position key.
pub struct EvalCache {
    pub entries: Vec<EvalCacheEntry>,
}

/// The slot of a position key.
pub open spec fn slot_of(hash: u64) -> int {
    hash as int % 262_144
}

/// The score that an entry holds for a key.
pub open spec fn entry_score(
    e: EvalCacheEntry,
    hash: u64,
    optimism: i32,
    halfmove: u8,
) -> Option<i16> {
    if e.hash == hash && e.optimism == optimism && e.halfmove == halfmove {
        Some(e.score)
    } else {
        None
    }
}

impl EvalCache {
    pub open spec fn wf(&self) -> bool {
        self.entries.len() == 262_144
    }

    /// Whether every score kept is in the range of scores that are no mates.
    pub open spec fn scores_in_range(&self) -> bool {
        forall|i: int|
            0 <= i < self.entries.len() ==> -29_000 <= (#[trigger] self.entries@[i]).score
                <= 29_000
    }

    /// The score kept for a position, an optimism and a move counter.
    pub open spec fn lookup(&self, hash: u64, optimism: i32, halfmove: u8) -> Option<i16> {
        entry_score(self.entries@[slot_of(hash)], hash, optimism, halfmove)
    }

    /// The table after a score was stored.
    pub open spec fn stored(
        &self,
        hash: u64,
        optimism: i32,
        halfmove: u8,
        score: i16,
    ) -> Seq<EvalCacheEntry> {
        self.entries@.update(
            slot_of(hash),
            EvalCacheEntry { hash, optimism, halfmove, score },
        )
    }

    pub fn new() -> (r: EvalCache)
        ensures
            r.wf(),
            forall|i: int| 0 <= i < 262_144 ==> #[trigger] r.entries@[i] == EvalCacheEntry::blank(),
    {
        let mut entries: Vec<EvalCacheEntry> = Vec::new();
        let mut i: usize = 0;
        while i < EVAL_CACHE_SIZE
            invariant
                i <= EVAL_CACHE_SIZE,
                entries.len() == i,
                forall|k: int| 0 <= k < i ==> #[trigger] entries@[k] == EvalCacheEntry::blank(),
            decreases EVAL_CACHE_SIZE - i,
        {
            entries.push(EvalCacheEntry { hash: u64::MAX, optimism: 0, halfmove: 0, score: 0 });
            i = i + 1;
        }
        EvalCache { entries }
    }
}

/// The score kept for a position, if it is there.
pub fn probe_eval_cache(cache: &EvalCache, hash: u64, optimism: i32, halfmove: u8) -> (r: Option<
    i16,
>)
    requires
        cache.wf(),
    ensures
        r == cache.lookup(hash, optimism, halfmove),
{
    let entry: EvalCacheEntry = cache.entries[(hash % 262_144) as usize];
    if entry.hash == hash && entry.optimism == optimism && entry.halfmove == halfmove {
        Some(entry.score)
    } else {
        None
    }
}

/// Keeps a score, in place of whatever shared its slot.
pub fn store_eval_cache(
    cache: &mut EvalCache,
    hash: u64,
    optimism: i32,
    halfmove: u8,
    score: i16,
)
    requires
        old(cache).wf(),
    ensures
        final(cache).wf(),
        final(cache).entries@ == old(cache).stored(hash, optimism, halfmove, score),
{
    cache.entries[(hash % 262_144) as usize] =
        EvalCacheEntry { hash, optimism, halfmove, score };
}

/// Forgets every score.
pub fn clear_eval_cache(cache: &mut EvalCache)
    requires
        old(cache).wf(),
    ensures
        final(cache).wf(),
        forall|i: int|
            0 <= i < 262_144 ==> #[trigger] final(cache).entries@[i] == EvalCacheEntry::blank(),
{
    let mut i: usize = 0;
    while i < EVAL_CACHE_SIZE
        invariant
            i <= EVAL_CACHE_SIZE,
            cache.wf(),
            forall|k: int| 0 <= k < i ==> #[trigger] cache.entries@[k] == EvalCacheEntry::blank(),
        decreases EVAL_CACHE_SIZE - i,
    {
        cache.entries[i] = EvalCacheEntry { hash: u64::MAX, optimism: 0, halfmove: 0, score: 0 };
        i = i + 1;
    }
}

/// What was stored last under a key is what a probe of that key finds.
pub proof fn law_probe_after_store(
    before: &EvalCache,
    after: &EvalCache,
    hash: u64,
    optimism: i32,
    halfmove: u8,
    score: i16,
)
    requires
        before.wf(),
        after.entries@ == before.stored(hash, optimism, halfmove, score),
    ensures
        after.lookup(hash, optimism, halfmove) == Some(score),
{
}

/// A store leaves every other slot alone and evicts what shared its slot.
pub proof fn law_store_touches_one_slot(
    before: &EvalCache,
    after: &EvalCache,
    hash: u64,
    optimism: i32,
    halfmove: u8,
    score: i16,
    other: u64,
    other_optimism: i32,
    other_halfmove: u8,
)
    requires
        before.wf(),
        after.entries@ == before.stored(hash, optimism, halfmove, score),
        other != hash || other_optimism != optimism || other_halfmove != halfmove,
    ensures
        after.lookup(other, other_optimism, other_halfmove) == if slot_of(other) == slot_of(hash) {
            None
        } else {
            before.lookup(other, other_optimism, other_halfmove)
        },
{
}

/// After clearing, no position is found but the one whose key marks blank
/// slots.
pub proof fn law_cleared_finds_nothing(
    cache: &EvalCache,
    hash: u64,
    optimism: i32,
    halfmove: u8,
)
    requires
        cache.wf(),
        forall|i: int|
            0 <= i < 262_144 ==> #[trigger] cache.entries@[i] == EvalCacheEntry::blank(),
        hash != u64::MAX,
    ensures
        cache.lookup(hash, optimism, halfmove) is None,
{
    let e = cache.entries@[slot_of(hash)];
}

/// Two positions share a place exactly where their hashes differ by a multiple
/// of the number of places.
pub proof fn law_places_are_shared(a: u64, b: u64)
    ensures
        slot_of(a) == slot_of(b) <==> (a as int - b as int) % 262_144 == 0,
        0 <= slot_of(a) < 262_144,
{
}

/// A score is found only for the position, the optimism and the move counter
/// that it was kept for.
pub proof fn law_scores_are_told_apart(
    e: EvalCacheEntry,
    hash: u64,
    optimism: i32,
    halfmove: u8,
)
    ensures
        entry_score(e, e.hash, e.optimism, e.halfmove) == Some(e.score),
        hash != e.hash || optimism != e.optimism || halfmove != e.halfmove ==> entry_score(
            e,
            hash,
            optimism,
            halfmove,
        ) is None,
{
}

} // verus!
