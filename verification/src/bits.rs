//! Sets of squares held in one 64-bit word.

use vstd::prelude::*;

verus! {

/// Whether square `s` belongs to the set `bb`.
pub open spec fn bit(bb: u64, s: int) -> bool {
    (bb >> (s as u64)) & 1 == 1
}

/// How many of the squares below `n` belong to `bb`.
pub open spec fn count_below_spec(bb: u64, n: int) -> int
    decreases n,
{
    if n <= 0 {
        0
    } else {
        count_below_spec(bb, n - 1) + if bit(bb, n - 1) {
            1int
        } else {
            0int
        }
    }
}

/// How many squares belong to `bb`.
pub open spec fn pop(bb: u64) -> int {
    count_below_spec(bb, 64)
}

pub proof fn lemma_count_bounds(bb: u64, n: int)
    requires
        0 <= n,
    ensures
        0 <= count_below_spec(bb, n) <= n,
    decreases n,
{
    if n > 0 {
        lemma_count_bounds(bb, n - 1);
    }
}

/// Two words with the same squares below `n` have equally many of them there.
pub proof fn lemma_count_same(a: u64, b: u64, n: int)
    requires
        0 <= n <= 64,
        forall|s: int| 0 <= s < n ==> bit(a, s) == bit(b, s),
    ensures
        count_below_spec(a, n) == count_below_spec(b, n),
    decreases n,
{
    if n > 0 {
        lemma_count_same(a, b, n - 1);
        assert(bit(a, n - 1) == bit(b, n - 1));
    }
}

/// The set operations, square by square.
pub proof fn lemma_bit_ops(a: u64, b: u64, s: int)
    requires
        0 <= s < 64,
    ensures
        bit(a & b, s) == (bit(a, s) && bit(b, s)),
        bit(a | b, s) == (bit(a, s) || bit(b, s)),
        bit(a & !b, s) == (bit(a, s) && !bit(b, s)),
        !bit(0, s),
{
    let t = s as u64;
    assert((((a & b) >> t) & 1 == 1) == ((a >> t) & 1 == 1 && (b >> t) & 1 == 1)) by (bit_vector);
    assert((((a | b) >> t) & 1 == 1) == ((a >> t) & 1 == 1 || (b >> t) & 1 == 1)) by (bit_vector);
    assert((((a & !b) >> t) & 1 == 1) == ((a >> t) & 1 == 1 && !((b >> t) & 1 == 1)))
        by (bit_vector);
    assert((0u64 >> t) & 1 == 0) by (bit_vector);
}

/// Adding one square to a set.
pub proof fn lemma_bit_insert(a: u64, t: int, s: int)
    requires
        0 <= s < 64,
        0 <= t < 64,
    ensures
        bit(a | (1u64 << (t as u64)), s) == (bit(a, s) || s == t),
        bit(1u64 << (t as u64), s) == (s == t),
{
    let x = s as u64;
    let y = t as u64;
    assert((((a | (1u64 << y)) >> x) & 1 == 1) == ((a >> x) & 1 == 1 || x == y)) by (bit_vector)
        requires
            x < 64,
            y < 64,
    ;
    assert((((1u64 << y) >> x) & 1 == 1) == (x == y)) by (bit_vector)
        requires
            x < 64,
            y < 64,
    ;
}

/// A word is zero exactly when no square belongs to it.
pub proof fn lemma_empty(bb: u64)
    ensures
        bb == 0 <==> (forall|s: int| 0 <= s < 64 ==> !bit(bb, s)),
{
    if bb == 0 {
        assert forall|s: int| 0 <= s < 64 implies !bit(bb, s) by {
            lemma_bit_ops(0, 0, s);
        }
    } else {
        vstd::std_specs::bits::axiom_u64_trailing_zeros(bb);
        let t = vstd::std_specs::bits::u64_trailing_zeros(bb);
        assert(bit(bb, t as int));
    }
}

/// Two words with the same squares are the same.
pub proof fn lemma_same_bits(a: u64, b: u64)
    requires
        forall|s: int| 0 <= s < 64 ==> #[trigger] bit(a, s) == bit(b, s),
    ensures
        a == b,
{
    let d = (a & !b) | (b & !a);
    assert forall|s: int| 0 <= s < 64 implies !bit(d, s) by {
        lemma_bit_ops(a, b, s);
        lemma_bit_ops(b, a, s);
        lemma_bit_ops(a & !b, b & !a, s);
    }
    lemma_empty(d);
    assert(((a & !b) | (b & !a)) == 0 ==> a == b) by (bit_vector);
}

/// Whether square `s` belongs to the set `bb`.
pub fn is_set(bb: u64, s: usize) -> (r: bool)
    requires
        s < 64,
    ensures
        r == bit(bb, s as int),
{
    (bb >> (s as u64)) & 1 == 1
}

/// The set `bb` with square `s` in it.
pub fn with(bb: u64, s: usize) -> (r: u64)
    requires
        s < 64,
    ensures
        forall|q: int| 0 <= q < 64 ==> #[trigger] bit(r, q) == (bit(bb, q) || q == s),
{
    proof {
        assert forall|q: int| 0 <= q < 64 implies #[trigger] bit(bb | (1u64 << (s as u64)), q) == (
        bit(bb, q) || q == s) by {
            lemma_bit_insert(bb, s as int, q);
        }
    }
    bb | (1u64 << (s as u64))
}

/// How many of the squares below `n` belong to `bb`.
pub fn count_below(bb: u64, n: usize) -> (r: u32)
    requires
        n <= 64,
    ensures
        r == count_below_spec(bb, n as int),
        r <= n,
{
    let mut i: usize = 0;
    let mut c: u32 = 0;
    while i < n
        invariant
            i <= n <= 64,
            c == count_below_spec(bb, i as int),
            c <= i,
        decreases n - i,
    {
        if is_set(bb, i) {
            c = c + 1;
        }
        i = i + 1;
    }
    c
}

/// How many squares belong to `bb`.
pub fn popcount(bb: u64) -> (r: u32)
    ensures
        r == pop(bb),
        r <= 64,
{
    count_below(bb, 64)
}

/// The set seen from the other side of the board: ranks in reverse order.
pub fn flip_ranks(x: u64) -> (r: u64)
    ensures
        forall|s: int| 0 <= s < 64 ==> #[trigger] bit(r, s) == bit(x, ((s as usize) ^ 56) as int),
{
    let r: u64 = ((x & 0xff) << 56) | (((x >> 8) & 0xff) << 48) | (((x >> 16) & 0xff) << 40) | (((x
        >> 24) & 0xff) << 32) | (((x >> 32) & 0xff) << 24) | (((x >> 40) & 0xff) << 16) | (((x >> 48)
        & 0xff) << 8) | ((x >> 56) & 0xff);
    proof {
        assert forall|s: int| 0 <= s < 64 implies #[trigger] bit(r, s) == bit(
            x,
            ((s as usize) ^ 56) as int,
        ) by {
            let t = s as u64;
            let m = (s as usize) ^ 56;
            assert(m == (t ^ 56)) by (bit_vector)
                requires
                    m == (t as usize) ^ 56,
                    t < 64,
            ;
            assert(r >> t & 1 == x >> (t ^ 56) & 1) by (bit_vector)
                requires
                    t < 64,
                    r == ((x & 0xff) << 56) | (((x >> 8) & 0xff) << 48) | (((x >> 16) & 0xff) << 40)
                        | (((x >> 24) & 0xff) << 32) | (((x >> 32) & 0xff) << 24) | (((x >> 40)
                        & 0xff) << 16) | (((x >> 48) & 0xff) << 8) | ((x >> 56) & 0xff),
            ;
        }
    }
    r
}

/// Exclusive-or of two board coordinates stays on the board and undoes itself.
pub proof fn lemma_xor64(a: usize, b: usize)
    requires
        a < 64,
        b < 64,
    ensures
        (a ^ b) < 64,
        (a ^ b) ^ b == a,
{
    assert((a ^ b) < 64 && (a ^ b) ^ b == a) by (bit_vector)
        requires
            a < 64,
            b < 64,
    ;
}

/// The numbers below `n` of which something holds.
pub open spec fn chosen(holds: spec_fn(int) -> bool, n: int) -> Set<int> {
    Set::new(|k: int| 0 <= k < n && holds(k))
}

/// One number more is chosen where it holds of that number.
pub proof fn lemma_chosen_step(holds: spec_fn(int) -> bool, n: int)
    requires
        0 < n,
    ensures
        chosen(holds, n - 1).finite(),
        chosen(holds, n).finite(),
        chosen(holds, n).len() == chosen(holds, n - 1).len() + if holds(n - 1) {
            1int
        } else {
            0int
        },
    decreases n,
{
    lemma_chosen_finite(holds, n - 1);
    if holds(n - 1) {
        assert(chosen(holds, n) =~= chosen(holds, n - 1).insert(n - 1));
    } else {
        assert(chosen(holds, n) =~= chosen(holds, n - 1));
    }
}

proof fn lemma_chosen_finite(holds: spec_fn(int) -> bool, n: int)
    ensures
        chosen(holds, n).finite(),
        n <= 0 ==> chosen(holds, n).len() == 0,
    decreases n,
{
    if n <= 0 {
        assert(chosen(holds, n) =~= Set::empty());
    } else {
        lemma_chosen_finite(holds, n - 1);
        if holds(n - 1) {
            assert(chosen(holds, n) =~= chosen(holds, n - 1).insert(n - 1));
        } else {
            assert(chosen(holds, n) =~= chosen(holds, n - 1));
        }
    }
}

/// No number is below zero.
pub proof fn lemma_chosen_empty(holds: spec_fn(int) -> bool)
    ensures
        chosen(holds, 0).len() == 0,
{
    lemma_chosen_finite(holds, 0);
}

/// Conditions that agree below `n` choose the same numbers there.
pub proof fn lemma_chosen_same(a: spec_fn(int) -> bool, b: spec_fn(int) -> bool, n: int)
    requires
        forall|k: int| 0 <= k < n ==> #[trigger] a(k) == b(k),
    ensures
        chosen(a, n) == chosen(b, n),
{
    assert(chosen(a, n) =~= chosen(b, n));
}

/// The size of a set of squares is the number of squares that belong to it.
pub proof fn law_size_counts_squares(bb: u64, n: int)
    requires
        0 <= n <= 64,
    ensures
        count_below_spec(bb, n) == chosen(|s: int| bit(bb, s), n).len(),
        pop(bb) == count_below_spec(bb, 64),
    decreases n,
{
    let f = |s: int| bit(bb, s);
    if n > 0 {
        law_size_counts_squares(bb, n - 1);
        lemma_chosen_step(f, n);
    } else {
        lemma_chosen_empty(f);
    }
}

} // verus!
