//! How pieces move on the board, in network numbering (`A1` is square 0).

use vstd::prelude::*;

use crate::bits::{bit, count_below_spec, is_set, lemma_bit_ops, with};
use crate::board::Side;
use crate::math::{abs, max};

verus! {

/// Distance in files.
pub open spec fn file_gap(s: int, t: int) -> int {
    abs(s % 8 - t % 8)
}

/// Distance in ranks.
pub open spec fn rank_gap(s: int, t: int) -> int {
    abs(s / 8 - t / 8)
}

/// A knight's jump.
pub open spec fn knight_step(s: int, t: int) -> bool {
    (file_gap(s, t) == 1 && rank_gap(s, t) == 2) || (file_gap(s, t) == 2 && rank_gap(s, t) == 1)
}

/// A king's step.
pub open spec fn king_step(s: int, t: int) -> bool {
    s != t && file_gap(s, t) <= 1 && rank_gap(s, t) <= 1
}

/// A pawn's capture: one file aside, one rank ahead.
pub open spec fn pawn_step(upward: bool, s: int, t: int) -> bool {
    file_gap(s, t) == 1 && t / 8 == s / 8 + if upward {
        1int
    } else {
        -1int
    }
}

/// Whether two squares share a line of a slider: 3 for diagonals, 4 for files
/// and ranks, anything else for both.
pub open spec fn on_line(kind: int, s: int, t: int) -> bool {
    let diagonal = file_gap(s, t) == rank_gap(s, t);
    let straight = file_gap(s, t) == 0 || rank_gap(s, t) == 0;
    s != t && (if kind == 3 {
        diagonal
    } else if kind == 4 {
        straight
    } else {
        diagonal || straight
    })
}

/// Direction from one coordinate to another.
pub open spec fn toward(a: int, b: int) -> int {
    if a < b {
        1
    } else if a > b {
        -1
    } else {
        0
    }
}

/// The square `k` steps on the way from `s` to `t`.
pub open spec fn on_the_way(s: int, t: int, k: int) -> int {
    (s / 8 + k * toward(s / 8, t / 8)) * 8 + (s % 8 + k * toward(s % 8, t % 8))
}

/// Number of steps from `s` to `t` along a line.
pub open spec fn steps(s: int, t: int) -> int {
    max(file_gap(s, t), rank_gap(s, t))
}

/// Whether nothing stands strictly between two squares of a line.
pub open spec fn clear_path(s: int, t: int, occ: u64) -> bool {
    forall|k: int| 1 <= k < steps(s, t) ==> !bit(occ, #[trigger] on_the_way(s, t, k))
}

/// Whether a slider on `s` reaches `t`.
pub open spec fn slider_hits(kind: int, s: int, t: int, occ: u64) -> bool {
    on_line(kind, s, t) && clear_path(s, t, occ)
}

/// Whether a piece with this code attacks `t` from `s` on an empty board.
pub open spec fn pseudo_hits(code: int, s: int, t: int) -> bool {
    let kind = code % 8;
    if kind == 1 {
        pawn_step(code < 8, s, t)
    } else if kind == 2 {
        knight_step(s, t)
    } else if 3 <= kind <= 5 {
        on_line(kind, s, t)
    } else if kind == 6 {
        king_step(s, t)
    } else {
        false
    }
}

/// How many squares below `n` a piece with this code attacks from `s` on an
/// empty board.
pub open spec fn hits_below(code: int, s: int, n: int) -> int
    decreases n,
{
    if n <= 0 {
        0
    } else {
        hits_below(code, s, n - 1) + if pseudo_hits(code, s, n - 1) {
            1int
        } else {
            0int
        }
    }
}

/// Counting squares of an attack set is counting attacked squares.
pub proof fn lemma_hits_count(bb: u64, code: int, s: int, n: int)
    requires
        0 <= n <= 64,
        forall|t: int| 0 <= t < 64 ==> #[trigger] bit(bb, t) == pseudo_hits(code, s, t),
    ensures
        count_below_spec(bb, n) == hits_below(code, s, n),
        0 <= hits_below(code, s, n) <= n,
    decreases n,
{
    if n > 0 {
        lemma_hits_count(bb, code, s, n - 1);
        assert(bit(bb, n - 1) == pseudo_hits(code, s, n - 1));
    }
}

pub proof fn lemma_hits_bound(code: int, s: int, n: int)
    requires
        0 <= n,
    ensures
        0 <= hits_below(code, s, n) <= n,
    decreases n,
{
    if n > 0 {
        lemma_hits_bound(code, s, n - 1);
    }
}

fn gap(a: usize, b: usize) -> (r: usize)
    ensures
        r == abs(a - b),
{
    if a >= b {
        a - b
    } else {
        b - a
    }
}

pub fn knight_attacks_sf(sq: usize) -> (r: u64)
    requires
        sq < 64,
    ensures
        forall|t: int| 0 <= t < 64 ==> #[trigger] bit(r, t) == knight_step(sq as int, t),
{
    let mut r: u64 = 0;
    let mut t: usize = 0;
    proof {
        assert forall|q: int| 0 <= q < 64 implies !bit(0, q) by {
            lemma_bit_ops(0, 0, q);
        }
    }
    while t < 64
        invariant
            t <= 64,
            sq < 64,
            forall|q: int|
                0 <= q < 64 ==> #[trigger] bit(r, q) == (q < t && knight_step(sq as int, q)),
        decreases 64 - t,
    {
        let df: usize = gap(sq % 8, t % 8);
        let dr: usize = gap(sq / 8, t / 8);
        if (df == 1 && dr == 2) || (df == 2 && dr == 1) {
            r = with(r, t);
        }
        t = t + 1;
    }
    r
}

pub fn king_attacks_sf(sq: usize) -> (r: u64)
    requires
        sq < 64,
    ensures
        forall|t: int| 0 <= t < 64 ==> #[trigger] bit(r, t) == king_step(sq as int, t),
{
    let mut r: u64 = 0;
    let mut t: usize = 0;
    proof {
        assert forall|q: int| 0 <= q < 64 implies !bit(0, q) by {
            lemma_bit_ops(0, 0, q);
        }
    }
    while t < 64
        invariant
            t <= 64,
            sq < 64,
            forall|q: int|
                0 <= q < 64 ==> #[trigger] bit(r, q) == (q < t && king_step(sq as int, q)),
        decreases 64 - t,
    {
        if t != sq && gap(sq % 8, t % 8) <= 1 && gap(sq / 8, t / 8) <= 1 {
            r = with(r, t);
        }
        t = t + 1;
    }
    r
}

/// Captures of a pawn that moves up the board, or down it.
fn pawn_captures(upward: bool, sq: usize) -> (r: u64)
    requires
        sq < 64,
    ensures
        forall|t: int| 0 <= t < 64 ==> #[trigger] bit(r, t) == pawn_step(upward, sq as int, t),
{
    let mut r: u64 = 0;
    let mut t: usize = 0;
    proof {
        assert forall|q: int| 0 <= q < 64 implies !bit(0, q) by {
            lemma_bit_ops(0, 0, q);
        }
    }
    while t < 64
        invariant
            t <= 64,
            sq < 64,
            forall|q: int|
                0 <= q < 64 ==> #[trigger] bit(r, q) == (q < t && pawn_step(upward, sq as int, q)),
        decreases 64 - t,
    {
        let ahead: bool = if upward {
            t / 8 == sq / 8 + 1
        } else {
            t / 8 + 1 == sq / 8
        };
        if ahead && gap(sq % 8, t % 8) == 1 {
            r = with(r, t);
        }
        t = t + 1;
    }
    r
}

/// Captures of a pawn: White moves up the board, everyone else down it.
pub fn pawn_attacks_sf(side: Side, sq: usize) -> (r: u64)
    requires
        sq < 64,
    ensures
        forall|t: int| 0 <= t < 64 ==> #[trigger] bit(r, t) == pawn_step(side is White, sq as int, t),
{
    pawn_captures(side == Side::White, sq)
}

/// Coordinate `k` steps on the way from `a` to `b`.
fn walk(a: usize, b: usize, k: usize) -> (r: usize)
    requires
        a < 8,
        b < 8,
        a == b || k <= abs(a - b),
    ensures
        r == a + k * toward(a as int, b as int),
        r < 8,
{
    assert(k * 1 == k && k * -1 == -(k as int) && k * 0 == 0);
    if a < b {
        a + k
    } else if a > b {
        a - k
    } else {
        a
    }
}

/// Whether nothing stands strictly between two squares of a line.
fn path_is_clear(sq: usize, t: usize, occ: u64) -> (r: bool)
    requires
        sq < 64,
        t < 64,
        on_line(5, sq as int, t as int),
    ensures
        r == clear_path(sq as int, t as int, occ),
{
    let df: usize = gap(sq % 8, t % 8);
    let dr: usize = gap(sq / 8, t / 8);
    let n: usize = if df >= dr {
        df
    } else {
        dr
    };
    let mut k: usize = 1;
    while k < n
        invariant
            1 <= k,
            sq < 64,
            t < 64,
            n == steps(sq as int, t as int),
            on_line(5, sq as int, t as int),
            forall|j: int|
                1 <= j < k ==> !bit(occ, #[trigger] on_the_way(sq as int, t as int, j)),
        decreases n - k,
    {
        let f: usize = walk(sq % 8, t % 8, k);
        let r: usize = walk(sq / 8, t / 8, k);
        let q: usize = r * 8 + f;
        assert(q == on_the_way(sq as int, t as int, k as int));
        if is_set(occ, q) {
            return false;
        }
        k = k + 1;
    }
    true
}

/// Squares a slider reaches: 3 for a bishop, 4 for a rook, otherwise a queen.
pub fn slider_attacks_sf(sf_piece_type: usize, sq: usize, occ: u64) -> (r: u64)
    requires
        sq < 64,
    ensures
        forall|t: int|
            0 <= t < 64 ==> #[trigger] bit(r, t) == slider_hits(
                sf_piece_type as int,
                sq as int,
                t,
                occ,
            ),
{
    let mut r: u64 = 0;
    let mut t: usize = 0;
    proof {
        assert forall|q: int| 0 <= q < 64 implies !bit(0, q) by {
            lemma_bit_ops(0, 0, q);
        }
    }
    while t < 64
        invariant
            t <= 64,
            sq < 64,
            forall|q: int|
                0 <= q < 64 ==> #[trigger] bit(r, q) == (q < t && slider_hits(
                    sf_piece_type as int,
                    sq as int,
                    q,
                    occ,
                )),
        decreases 64 - t,
    {
        let df: usize = gap(sq % 8, t % 8);
        let dr: usize = gap(sq / 8, t / 8);
        let diagonal: bool = df == dr;
        let straight: bool = df == 0 || dr == 0;
        let line: bool = t != sq && (if sf_piece_type == 3 {
            diagonal
        } else if sf_piece_type == 4 {
            straight
        } else {
            diagonal || straight
        });
        if line && path_is_clear(sq, t, occ) {
            r = with(r, t);
        }
        t = t + 1;
    }
    r
}

/// Attacks of a piece code from a square on an empty board.
pub fn pseudo_attacks_sf(piece_code: usize, sq: usize) -> (r: u64)
    requires
        sq < 64,
    ensures
        forall|t: int|
            0 <= t < 64 ==> #[trigger] bit(r, t) == pseudo_hits(piece_code as int, sq as int, t),
{
    proof {
        assert forall|q: int| 0 <= q < 64 implies !bit(0, q) by {
            lemma_bit_ops(0, 0, q);
        }
    }
    let pt: usize = piece_code % 8;
    if pt == 1 {
        pawn_captures(piece_code < 8, sq)
    } else if pt == 2 {
        knight_attacks_sf(sq)
    } else if 3 <= pt && pt <= 5 {
        let r: u64 = slider_attacks_sf(pt, sq, 0);
        proof {
            assert forall|t: int| 0 <= t < 64 implies #[trigger] bit(r, t) == on_line(
                pt as int,
                sq as int,
                t,
            ) by {
                if on_line(pt as int, sq as int, t) {
                    assert forall|k: int| 1 <= k < steps(sq as int, t) implies !bit(
                        0,
                        #[trigger] on_the_way(sq as int, t, k),
                    ) by {
                        lemma_on_the_way(sq as int, t, k);
                    }
                }
            }
        }
        r
    } else if pt == 6 {
        king_attacks_sf(sq)
    } else {
        0
    }
}

/// The squares between two squares of a line are on the board.
proof fn lemma_on_the_way(s: int, t: int, k: int)
    requires
        0 <= s < 64,
        0 <= t < 64,
        on_line(5, s, t),
        1 <= k < steps(s, t),
    ensures
        0 <= on_the_way(s, t, k) < 64,
{
    let a = toward(s / 8, t / 8);
    let b = toward(s % 8, t % 8);
    assert(k * 1 == k && k * -1 == -k && k * 0 == 0);
    assert(0 <= s / 8 + k * a < 8);
    assert(0 <= s % 8 + k * b < 8);
}

/// What the steps are in files and ranks: a knight goes one way and two the
/// other, a king at most one each way, a pawn takes one file aside and one rank
/// ahead, up the board or down it.
#[verifier::rlimit(60)]
pub proof fn law_steps_by_offset(file: int, rank: int, df: int, dr: int)
    requires
        0 <= file < 8,
        0 <= rank < 8,
        0 <= file + df < 8,
        0 <= rank + dr < 8,
    ensures
        ({
            let s = 8 * rank + file;
            let t = 8 * (rank + dr) + file + df;
            &&& knight_step(s, t) <==> ((df == 1 || df == -1) && (dr == 2 || dr == -2)) || ((df == 2
                || df == -2) && (dr == 1 || dr == -1))
            &&& king_step(s, t) <==> -1 <= df <= 1 && -1 <= dr <= 1 && (df != 0 || dr != 0)
            &&& pawn_step(true, s, t) <==> dr == 1 && (df == 1 || df == -1)
            &&& pawn_step(false, s, t) <==> dr == -1 && (df == 1 || df == -1)
            &&& on_line(3, s, t) <==> df != 0 && (df == dr || df == -dr)
            &&& on_line(4, s, t) <==> (df == 0) != (dr == 0)
            &&& on_line(5, s, t) <==> on_line(3, s, t) || on_line(4, s, t)
        }),
{
    let s = 8 * rank + file;
    let t = 8 * (rank + dr) + file + df;
    assert(s % 8 == file && s / 8 == rank);
    assert(t % 8 == file + df && t / 8 == rank + dr);
    assert(file_gap(s, t) == abs(df) && rank_gap(s, t) == abs(dr));
    assert(s == t <==> df == 0 && dr == 0);
}

/// A slider goes along a rank, a file or a diagonal, as far as nothing stands
/// in its way: the squares that it passes must be empty, the last one need not
/// be.
#[verifier::rlimit(60)]
pub proof fn law_sliders_stop_at_pieces(
    kind: int,
    file: int,
    rank: int,
    df: int,
    dr: int,
    n: int,
    occ: u64,
)
    requires
        0 <= file < 8,
        0 <= rank < 8,
        -1 <= df <= 1,
        -1 <= dr <= 1,
        df != 0 || dr != 0,
        n >= 1,
        0 <= file + n * df < 8,
        0 <= rank + n * dr < 8,
        3 <= kind <= 5,
    ensures
        ({
            let s = 8 * rank + file;
            let t = 8 * (rank + n * dr) + file + n * df;
            slider_hits(kind, s, t, occ) <==> {
                &&& kind == 3 ==> df != 0 && dr != 0
                &&& kind == 4 ==> df == 0 || dr == 0
                &&& forall|k: int|
                    1 <= k < n ==> !bit(occ, #[trigger] way_point(file, rank, df, dr, k))
            }
        }),
{
    let s = 8 * rank + file;
    let t = 8 * (rank + n * dr) + file + n * df;
    assert(n * 0 == 0 && n * 1 == n && n * -1 == -n);
    assert(s % 8 == file && s / 8 == rank);
    assert(t % 8 == file + n * df && t / 8 == rank + n * dr);
    assert(steps(s, t) == n);
    assert(toward(s / 8, t / 8) == dr);
    assert(toward(s % 8, t % 8) == df);
    assert forall|k: int| 1 <= k < n implies #[trigger] on_the_way(s, t, k) == way_point(
        file,
        rank,
        df,
        dr,
        k,
    ) by {}
    if clear_path(s, t, occ) {
        assert forall|k: int| 1 <= k < n implies !bit(
            occ,
            #[trigger] way_point(file, rank, df, dr, k),
        ) by {
            assert(!bit(occ, on_the_way(s, t, k)));
        }
    }
    if forall|k: int| 1 <= k < n ==> !bit(occ, #[trigger] way_point(file, rank, df, dr, k)) {
        assert forall|k: int| 1 <= k < steps(s, t) implies !bit(
            occ,
            #[trigger] on_the_way(s, t, k),
        ) by {
            assert(!bit(occ, way_point(file, rank, df, dr, k)));
        }
    }
}

/// The square some steps away in one direction.
pub open spec fn way_point(file: int, rank: int, df: int, dr: int, k: int) -> int {
    8 * (rank + k * dr) + file + k * df
}

/// The pieces by their codes: pawns, knights, bishops, rooks, queens and kings
/// from 1 to 6, eight more for Black, whose pawns go down the board.
pub proof fn law_codes_of_pieces(s: int, t: int)
    ensures
        pseudo_hits(1, s, t) == pawn_step(true, s, t),
        pseudo_hits(9, s, t) == pawn_step(false, s, t),
        pseudo_hits(2, s, t) == knight_step(s, t) && pseudo_hits(10, s, t) == knight_step(s, t),
        pseudo_hits(3, s, t) == on_line(3, s, t) && pseudo_hits(11, s, t) == on_line(3, s, t),
        pseudo_hits(4, s, t) == on_line(4, s, t) && pseudo_hits(12, s, t) == on_line(4, s, t),
        pseudo_hits(5, s, t) == (on_line(3, s, t) || on_line(4, s, t)),
        pseudo_hits(13, s, t) == (on_line(3, s, t) || on_line(4, s, t)),
        pseudo_hits(6, s, t) == king_step(s, t) && pseudo_hits(14, s, t) == king_step(s, t),
        !pseudo_hits(0, s, t) && !pseudo_hits(7, s, t) && !pseudo_hits(8, s, t),
{
}

} // verus!
