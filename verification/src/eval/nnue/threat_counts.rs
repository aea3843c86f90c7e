//! How many threat features there are: every attack that counts has a number,
//! and no two have the same.

use vstd::prelude::*;

use crate::bits::{bit, lemma_xor64};
use crate::board::Side;
use crate::eval::nnue::geometry::{hits_below, lemma_hits_bound, pseudo_hits};
use crate::eval::nnue::threat_tables::{
    attacker_code, edge, edges_from, edges_of, edges_to, is_code, lemma_offset_bound, offset_below,
    recoloured, threat_edges, threat_turn, victim_code, ThreatScheme,
};
use crate::eval::nnue::v16::pairs::{lemma_joined, pawn_rank, pawns_inside};
use crate::eval::nnue::v16::position::SfnnPosition;
use crate::math::{abs, max, min};

verus! {

/// Whether a piece with this code attacks the square so many files and ranks
/// away on an empty board.
spec fn reaches(code: int, df: int, dr: int) -> bool {
    let kind = code % 8;
    let moved = df != 0 || dr != 0;
    if kind == 1 {
        abs(df) == 1 && dr == if code < 8 {
            1int
        } else {
            -1int
        }
    } else if kind == 2 {
        (abs(df) == 1 && abs(dr) == 2) || (abs(df) == 2 && abs(dr) == 1)
    } else if kind == 3 {
        moved && abs(df) == abs(dr)
    } else if kind == 4 {
        moved && (df == 0 || dr == 0)
    } else if kind == 5 {
        moved && (abs(df) == abs(dr) || df == 0 || dr == 0)
    } else if kind == 6 {
        moved && abs(df) <= 1 && abs(dr) <= 1
    } else {
        false
    }
}

proof fn lemma_reaches(code: int, f: int, r: int, g: int, k: int)
    requires
        0 <= f < 8,
        0 <= r < 8,
        0 <= g < 8,
        0 <= k < 8,
    ensures
        pseudo_hits(code, 8 * r + f, 8 * k + g) == reaches(code, g - f, k - r),
{
    assert((8 * r + f) % 8 == f && (8 * r + f) / 8 == r);
    assert((8 * k + g) % 8 == g && (8 * k + g) / 8 == k);
}

/// Attacked squares among the first `n` files of a rank, `dr` ranks away from
/// a piece on file `f`.
spec fn row_hits(code: int, f: int, dr: int, n: int) -> int
    decreases n,
{
    if n <= 0 {
        0
    } else {
        row_hits(code, f, dr, n - 1) + if reaches(code, n - 1 - f, dr) {
            1int
        } else {
            0int
        }
    }
}

proof fn lemma_row(code: int, f: int, r: int, k: int, n: int)
    requires
        0 <= f < 8,
        0 <= r < 8,
        0 <= k < 8,
        0 <= n <= 8,
    ensures
        hits_below(code, 8 * r + f, 8 * k + n) == hits_below(code, 8 * r + f, 8 * k) + row_hits(
            code,
            f,
            k - r,
            n,
        ),
    decreases n,
{
    if n > 0 {
        lemma_row(code, f, r, k, n - 1);
        lemma_reaches(code, f, r, n - 1, k);
    }
}

/// What a full rank adds up to.
#[verifier::opaque]
spec fn row_total(code: int, f: int, dr: int) -> int {
    let kind = code % 8;
    let g = abs(dr);
    let sides = (if f >= 1 {
        1int
    } else {
        0int
    }) + (if f <= 6 {
        1int
    } else {
        0int
    });
    let diagonal = if g == 0 {
        0int
    } else {
        (if f >= g {
            1int
        } else {
            0int
        }) + (if f + g <= 7 {
            1int
        } else {
            0int
        })
    };
    let straight = if g == 0 {
        7int
    } else {
        1int
    };
    if kind == 1 {
        if dr == (if code < 8 {
            1int
        } else {
            -1int
        }) {
            sides
        } else {
            0
        }
    } else if kind == 2 {
        if g == 2 {
            sides
        } else if g == 1 {
            (if f >= 2 {
                1int
            } else {
                0int
            }) + (if f <= 5 {
                1int
            } else {
                0int
            })
        } else {
            0
        }
    } else if kind == 3 {
        diagonal
    } else if kind == 4 {
        straight
    } else if kind == 5 {
        diagonal + straight
    } else if kind == 6 {
        if g == 0 {
            sides
        } else if g == 1 {
            sides + 1
        } else {
            0
        }
    } else {
        0
    }
}

proof fn lemma_row_total(code: int, f: int, dr: int)
    requires
        0 <= f < 8,
        -8 < dr < 8,
    ensures
        row_hits(code, f, dr, 8) == row_total(code, f, dr),
{
    reveal(row_total);
    reveal_with_fuel(row_hits, 9);
}

/// Squares that a piece attacks, rank by rank.
spec fn square_total(code: int, f: int, r: int) -> int {
    row_total(code, f, -r) + row_total(code, f, 1 - r) + row_total(code, f, 2 - r) + row_total(
        code,
        f,
        3 - r,
    ) + row_total(code, f, 4 - r) + row_total(code, f, 5 - r) + row_total(code, f, 6 - r)
        + row_total(code, f, 7 - r)
}

proof fn lemma_square(code: int, f: int, r: int)
    requires
        0 <= f < 8,
        0 <= r < 8,
    ensures
        hits_below(code, 8 * r + f, 64) == square_total(code, f, r),
{
    lemma_row(code, f, r, 0, 8);
    lemma_row(code, f, r, 1, 8);
    lemma_row(code, f, r, 2, 8);
    lemma_row(code, f, r, 3, 8);
    lemma_row(code, f, r, 4, 8);
    lemma_row(code, f, r, 5, 8);
    lemma_row(code, f, r, 6, 8);
    lemma_row(code, f, r, 7, 8);
    lemma_row_total(code, f, 0 - r);
    lemma_row_total(code, f, 1 - r);
    lemma_row_total(code, f, 2 - r);
    lemma_row_total(code, f, 3 - r);
    lemma_row_total(code, f, 4 - r);
    lemma_row_total(code, f, 5 - r);
    lemma_row_total(code, f, 6 - r);
    lemma_row_total(code, f, 7 - r);
}

/// Attacks from all squares of a rank.
spec fn rank_total(kind: int, r: int) -> int {
    let edge = if r < 4 {
        r
    } else {
        7 - r
    };
    let bishops = if edge == 0 {
        56int
    } else if edge == 1 {
        68int
    } else if edge == 2 {
        76int
    } else {
        80int
    };
    if kind == 1 {
        if edge == 0 {
            0
        } else {
            14
        }
    } else if kind == 2 {
        if edge == 0 {
            26
        } else if edge == 1 {
            38
        } else {
            52
        }
    } else if kind == 3 {
        bishops
    } else if kind == 4 {
        112
    } else if kind == 5 {
        bishops + 112
    } else {
        if edge == 0 {
            36
        } else {
            58
        }
    }
}

/// Squares attacked from a rank, file by file.
spec fn rank_sum(code: int, r: int) -> int {
    square_total(code, 0, r) + square_total(code, 1, r) + square_total(code, 2, r) + square_total(
        code,
        3,
        r,
    ) + square_total(code, 4, r) + square_total(code, 5, r) + square_total(code, 6, r)
        + square_total(code, 7, r)
}

/// A pawn attacks a square on either side.
proof fn lemma_pawn_square(code: int, f: int, r: int)
    requires
        code == 1 || code == 9,
        0 <= f < 8,
        1 <= r < 7,
    ensures
        square_total(code, f, r) == (if f == 0 || f == 7 {
            1int
        } else {
            2int
        }),
{
    reveal(row_total);
}

proof fn lemma_pawn_rank(code: int, r: int)
    requires
        code == 1 || code == 9,
        0 <= r < 8,
        1 <= r < 7,
    ensures
        rank_sum(code, r) == rank_total(1, r),
{
    lemma_pawn_square(code, 0, r);
    lemma_pawn_square(code, 1, r);
    lemma_pawn_square(code, 2, r);
    lemma_pawn_square(code, 3, r);
    lemma_pawn_square(code, 4, r);
    lemma_pawn_square(code, 5, r);
    lemma_pawn_square(code, 6, r);
    lemma_pawn_square(code, 7, r);
}

/// Jumps of a knight by its distances from the edges.
spec fn knight_total(a: int, b: int) -> int {
    let near = min(a, b);
    let far = max(a, b);
    if near == 0 {
        if far == 0 {
            2
        } else if far == 1 {
            3
        } else {
            4
        }
    } else if near == 1 {
        if far == 1 {
            4
        } else {
            6
        }
    } else {
        8
    }
}

/// A knight has two to eight jumps.
proof fn lemma_knight_square(code: int, f: int, r: int)
    requires
        code == 2 || code == 10,
        0 <= f < 8,
        0 <= r < 8,
    ensures
        square_total(code, f, r) == knight_total(min(f, 7 - f), min(r, 7 - r)),
{
    reveal(row_total);
}

proof fn lemma_knight_rank(code: int, r: int)
    requires
        code == 2 || code == 10,
        0 <= r < 8,
    ensures
        rank_sum(code, r) == rank_total(2, r),
{
    lemma_knight_square(code, 0, r);
    lemma_knight_square(code, 1, r);
    lemma_knight_square(code, 2, r);
    lemma_knight_square(code, 3, r);
    lemma_knight_square(code, 4, r);
    lemma_knight_square(code, 5, r);
    lemma_knight_square(code, 6, r);
    lemma_knight_square(code, 7, r);
}

/// A bishop attacks more squares the farther it stands from the edges.
proof fn lemma_bishop_square(code: int, f: int, r: int)
    requires
        code == 3 || code == 11,
        0 <= f < 8,
        0 <= r < 8,
    ensures
        square_total(code, f, r) == 7 + 2 * min(min(f, 7 - f), min(r, 7 - r)),
{
    reveal(row_total);
}

proof fn lemma_bishop_rank(code: int, r: int)
    requires
        code == 3 || code == 11,
        0 <= r < 8,
    ensures
        rank_sum(code, r) == rank_total(3, r),
{
    lemma_bishop_square(code, 0, r);
    lemma_bishop_square(code, 1, r);
    lemma_bishop_square(code, 2, r);
    lemma_bishop_square(code, 3, r);
    lemma_bishop_square(code, 4, r);
    lemma_bishop_square(code, 5, r);
    lemma_bishop_square(code, 6, r);
    lemma_bishop_square(code, 7, r);
}

/// A rook attacks as many squares from everywhere.
proof fn lemma_rook_square(code: int, f: int, r: int)
    requires
        code == 4 || code == 12,
        0 <= r < 8,
    ensures
        square_total(code, f, r) == 14,
{
    reveal(row_total);
    assert forall|dr: int| #[trigger] row_total(code, f, dr) == (if dr == 0 {
        7int
    } else {
        1int
    }) by {}
}

proof fn lemma_rook_rank(code: int, r: int)
    requires
        code == 4 || code == 12,
        0 <= r < 8,
    ensures
        rank_sum(code, r) == rank_total(4, r),
{
    lemma_rook_square(code, 0, r);
    lemma_rook_square(code, 1, r);
    lemma_rook_square(code, 2, r);
    lemma_rook_square(code, 3, r);
    lemma_rook_square(code, 4, r);
    lemma_rook_square(code, 5, r);
    lemma_rook_square(code, 6, r);
    lemma_rook_square(code, 7, r);
}

/// A king has three, five or eight steps.
proof fn lemma_king_square(code: int, f: int, r: int)
    requires
        code == 6 || code == 14,
        0 <= f < 8,
        0 <= r < 8,
    ensures
        square_total(code, f, r) == (if (f == 0 || f == 7) && (r == 0 || r == 7) {
            3int
        } else if f == 0 || f == 7 || r == 0 || r == 7 {
            5int
        } else {
            8int
        }),
{
    reveal(row_total);
}

proof fn lemma_king_rank(code: int, r: int)
    requires
        code == 6 || code == 14,
        0 <= r < 8,
    ensures
        rank_sum(code, r) == rank_total(6, r),
{
    lemma_king_square(code, 0, r);
    lemma_king_square(code, 1, r);
    lemma_king_square(code, 2, r);
    lemma_king_square(code, 3, r);
    lemma_king_square(code, 4, r);
    lemma_king_square(code, 5, r);
    lemma_king_square(code, 6, r);
    lemma_king_square(code, 7, r);
}

proof fn lemma_queen_rank(code: int, r: int)
    requires
        code == 5 || code == 13,
        0 <= r < 8,
    ensures
        rank_sum(code, r) == rank_total(5, r),
{
    lemma_bishop_rank(3, r);
    lemma_rook_rank(4, r);
    assert forall|f: int, dr: int| #[trigger] row_total(code, f, dr) == row_total(3, f, dr)
        + row_total(4, f, dr) by {
        reveal(row_total);
    }
}

proof fn lemma_rank(code: int, r: int)
    requires
        1 <= code % 8 <= 6,
        1 <= code < 15,
        0 <= r < 8,
    ensures
        offset_below(code, 8 * r + 8) == offset_below(code, 8 * r) + rank_total(code % 8, r),
{
    let kind = code % 8;
    lemma_rank_counted(code, r);
    if kind == 1 {
        if 1 <= r < 7 {
            lemma_pawn_rank(code, r);
        }
    } else if kind == 2 {
        lemma_knight_rank(code, r);
    } else if kind == 3 {
        lemma_bishop_rank(code, r);
    } else if kind == 4 {
        lemma_rook_rank(code, r);
    } else if kind == 5 {
        lemma_queen_rank(code, r);
    } else {
        lemma_king_rank(code, r);
    }
}

/// Pawns on the outer ranks count for nothing.
proof fn lemma_rank_counted(code: int, r: int)
    requires
        0 <= r < 8,
    ensures
        offset_below(code, 8 * r + 8) == offset_below(code, 8 * r) + if code % 8 != 1 || 1 <= r
            < 7 {
            rank_sum(code, r)
        } else {
            0
        },
{
    lemma_square(code, 0, r);
    lemma_square(code, 1, r);
    lemma_square(code, 2, r);
    lemma_square(code, 3, r);
    lemma_square(code, 4, r);
    lemma_square(code, 5, r);
    lemma_square(code, 6, r);
    lemma_square(code, 7, r);
    reveal_with_fuel(offset_below, 9);
}

/// Attacks of one piece from all squares of an empty board: 84 for a pawn, 336
/// for a knight, 560 for a bishop, 896 for a rook, 1456 for a queen and 420 for
/// a king.
pub open spec fn attack_total(kind: int) -> int {
    if kind == 1 {
        84
    } else if kind == 2 {
        336
    } else if kind == 3 {
        560
    } else if kind == 4 {
        896
    } else if kind == 5 {
        1456
    } else {
        420
    }
}

pub proof fn law_attack_totals(code: int)
    requires
        1 <= code % 8 <= 6,
        1 <= code < 15,
    ensures
        offset_below(code, 64) == attack_total(code % 8),
{
    lemma_rank(code, 0);
    lemma_rank(code, 1);
    lemma_rank(code, 2);
    lemma_rank(code, 3);
    lemma_rank(code, 4);
    lemma_rank(code, 5);
    lemma_rank(code, 6);
    lemma_rank(code, 7);
}

impl ThreatScheme {
    /// Whether the numbers of an attacker's victims fit together: each counted
    /// victim has a place of its own below half of the targets, and all blocks
    /// together make up the number of features.
    pub open spec fn full(&self) -> bool {
        &&& forall|a: int, v: int|
            is_code(a) && is_code(v) ==> #[trigger] self.place(a, v) < self.targets@[a] as int / 2
        &&& forall|a: int, v: int, w: int|
            is_code(a) && is_code(v) && is_code(w) && #[trigger] self.place(a, v)
                == #[trigger] self.place(a, w) && self.place(a, v) >= 0 ==> v % 8 == w % 8
        &&& self.cumulative(16) == self.dims
    }

    /// Whether an attack is one that the scheme gives a number to.
    pub open spec fn counts(&self, attacker: int, from: int, to: int, attacked: int) -> bool {
        &&& real_attack(attacker, from, to)
        &&& is_code(attacked)
        &&& !self.excluded(attacker, attacked)
        &&& !(self.mutual(attacker, attacked) && from < to)
    }
}

/// Whether a piece can make this attack on some board; no pawn stands on an
/// outer rank.
pub open spec fn real_attack(attacker: int, from: int, to: int) -> bool {
    &&& is_code(attacker)
    &&& 0 <= from < 64
    &&& 0 <= to < 64
    &&& pseudo_hits(attacker, from, to)
    &&& attacker % 8 == 1 ==> 8 <= from < 56
}

proof fn lemma_hits_grow(code: int, s: int, m: int, n: int)
    requires
        0 <= m <= n,
    ensures
        hits_below(code, s, m) <= hits_below(code, s, n),
    decreases n,
{
    if m < n {
        lemma_hits_grow(code, s, m, n - 1);
    }
}

proof fn lemma_offsets_grow(code: int, m: int, n: int)
    requires
        0 <= m <= n,
    ensures
        offset_below(code, m) <= offset_below(code, n),
    decreases n,
{
    if m < n {
        lemma_offsets_grow(code, m, n - 1);
        lemma_hits_bound(code, n - 1, 64);
    }
}

proof fn lemma_blocks_grow(scheme: &ThreatScheme, m: int, n: int)
    requires
        scheme.wf(),
        0 <= m <= n <= 16,
    ensures
        scheme.cumulative(m) <= scheme.cumulative(n),
    decreases n,
{
    if m < n {
        lemma_blocks_grow(scheme, m, n - 1);
        lemma_offset_bound(n - 1, 64);
        let t = scheme.targets@[n - 1] as int;
        let o = offset_below(n - 1, 64);
        assert(0 <= t * o) by (nonlinear_arith)
            requires
                0 <= t,
                0 <= o,
        ;
    }
}

/// Number of an attack among those of its attacker.
spec fn attack_number(attacker: int, from: int, to: int) -> int {
    offset_below(attacker, from) + hits_below(attacker, from, to)
}

/// Block of a victim among those of its attacker.
spec fn victim_number(scheme: &ThreatScheme, attacker: int, attacked: int) -> int {
    attacked / 8 * (scheme.targets@[attacker] as int / 2) + scheme.place(attacker, attacked)
}

proof fn lemma_attack_number(attacker: int, from: int, to: int)
    requires
        real_attack(attacker, from, to),
    ensures
        offset_below(attacker, from) <= attack_number(attacker, from, to) < offset_below(
            attacker,
            from + 1,
        ),
        0 <= attack_number(attacker, from, to) < offset_below(attacker, 64),
        hits_below(attacker, from, to) < hits_below(attacker, from, to + 1),
{
    lemma_hits_bound(attacker, from, to);
    lemma_hits_grow(attacker, from, to + 1, 64);
    lemma_offset_bound(attacker, from);
    lemma_offsets_grow(attacker, from + 1, 64);
}

proof fn lemma_victim_number(scheme: &ThreatScheme, attacker: int, attacked: int)
    requires
        scheme.wf(),
        scheme.full(),
        is_code(attacker),
        is_code(attacked),
        !scheme.excluded(attacker, attacked),
    ensures
        0 <= victim_number(scheme, attacker, attacked) < scheme.targets@[attacker],
{
    let per = scheme.targets@[attacker] as int / 2;
    let c = attacked / 8;
    assert(c == 0 || c == 1);
    assert(scheme.place(attacker, attacked) < per);
    assert(c * per == if c == 0 {
        0
    } else {
        per
    }) by (nonlinear_arith)
        requires
            c == 0 || c == 1,
    ;
}

/// The number of an attack lies in the block of its attacker.
proof fn lemma_slot_block(scheme: &ThreatScheme, attacker: int, from: int, to: int, attacked: int)
    requires
        scheme.wf(),
        scheme.full(),
        scheme.counts(attacker, from, to, attacked),
    ensures
        scheme.slot(attacker, from, to, attacked) == Some(
            scheme.cumulative(attacker) + victim_number(scheme, attacker, attacked) * offset_below(
                attacker,
                64,
            ) + attack_number(attacker, from, to),
        ),
        scheme.cumulative(attacker) <= scheme.slot(attacker, from, to, attacked)->0
            < scheme.cumulative(attacker + 1),
{
    lemma_attack_number(attacker, from, to);
    lemma_victim_number(scheme, attacker, attacked);
    let k = victim_number(scheme, attacker, attacked);
    let o = offset_below(attacker, 64);
    let t = scheme.targets@[attacker] as int;
    assert(0 <= k * o && k * o + o <= t * o) by (nonlinear_arith)
        requires
            0 <= k < t,
            0 <= o,
    ;
    lemma_blocks_grow(scheme, attacker + 1, 16);
}

/// No attack that counts is without a feature.
pub proof fn law_no_attack_dropped(
    scheme: &ThreatScheme,
    attacker: int,
    from: int,
    to: int,
    attacked: int,
)
    requires
        scheme.wf(),
        scheme.full(),
        real_attack(attacker, from, to),
        is_code(attacked),
    ensures
        scheme.slot(attacker, from, to, attacked) is Some <==> scheme.counts(
            attacker,
            from,
            to,
            attacked,
        ),
{
    if scheme.counts(attacker, from, to, attacked) {
        lemma_slot_block(scheme, attacker, from, to, attacked);
    }
}

/// Two different attacks have different features.
pub proof fn law_slots_injective(
    scheme: &ThreatScheme,
    a: int,
    from: int,
    to: int,
    v: int,
    b: int,
    from2: int,
    to2: int,
    w: int,
)
    requires
        scheme.wf(),
        scheme.full(),
        scheme.counts(a, from, to, v),
        scheme.counts(b, from2, to2, w),
        scheme.slot(a, from, to, v) == scheme.slot(b, from2, to2, w),
    ensures
        a == b && from == from2 && to == to2 && v == w,
{
    lemma_slot_block(scheme, a, from, to, v);
    lemma_slot_block(scheme, b, from2, to2, w);
    if a < b {
        lemma_blocks_grow(scheme, a + 1, b);
    } else if b < a {
        lemma_blocks_grow(scheme, b + 1, a);
    }
    lemma_attack_number(a, from, to);
    lemma_attack_number(a, from2, to2);
    lemma_victim_number(scheme, a, v);
    lemma_victim_number(scheme, a, w);
    let k = victim_number(scheme, a, v);
    let m = victim_number(scheme, a, w);
    let o = offset_below(a, 64);
    let i = attack_number(a, from, to);
    let j = attack_number(a, from2, to2);
    assert(k == m && i == j) by (nonlinear_arith)
        requires
            k * o + i == m * o + j,
            0 <= i < o,
            0 <= j < o,
    ;
    let per = scheme.targets@[a] as int / 2;
    assert(scheme.place(a, v) < per && scheme.place(a, w) < per);
    assert(v / 8 == 0 || v / 8 == 1);
    assert(w / 8 == 0 || w / 8 == 1);
    assert(0 * per == 0 && 1 * per == per) by (nonlinear_arith);
    assert(v / 8 * per == (if v / 8 == 0 {
        0
    } else {
        per
    }));
    assert(w / 8 * per == (if w / 8 == 0 {
        0
    } else {
        per
    }));
    assert(scheme.place(a, v) == scheme.place(a, w));
    assert(v % 8 == w % 8);
    if from < from2 {
        lemma_offsets_grow(a, from + 1, from2);
    } else if from2 < from {
        lemma_offsets_grow(a, from2 + 1, from);
    }
    if to < to2 {
        lemma_hits_grow(a, from, to + 1, to2);
    } else if to2 < to {
        lemma_hits_grow(a, from, to2 + 1, to);
    }
}

/// How turning the board moves files and ranks.
proof fn lemma_turned_square(s: usize)
    requires
        s < 64,
    ensures
        (s ^ 0) == s,
        (s ^ 7) % 8 == 7 - s % 8 && (s ^ 7) / 8 == s / 8,
        (s ^ 56) % 8 == s % 8 && (s ^ 56) / 8 == 7 - s / 8,
        (s ^ 63) % 8 == 7 - s % 8 && (s ^ 63) / 8 == 7 - s / 8,
{
    assert((s ^ 0) == s && (s ^ 7) % 8 == 7 - s % 8 && (s ^ 7) / 8 == s / 8 && (s ^ 56) % 8 == s % 8
        && (s ^ 56) / 8 == 7 - s / 8 && (s ^ 63) % 8 == 7 - s % 8 && (s ^ 63) / 8 == 7 - s / 8)
        by (bit_vector)
        requires
            s < 64,
    ;
}

proof fn lemma_recoloured(code: usize)
    requires
        code < 16,
    ensures
        (code ^ 8) < 16,
        (code ^ 8) % 8 == code % 8,
        (code ^ 8) == if code < 8 {
            code + 8
        } else {
            code - 8
        },
{
    assert((code ^ 8) == (if code < 8 {
        (code + 8) as usize
    } else {
        (code - 8) as usize
    })) by (bit_vector)
        requires
            code < 16,
    ;
}

/// A real attack stays one when the board is turned to a perspective.
proof fn lemma_turned_attack(perspective: Side, ksq: int, attacker: usize, from: usize, to: usize)
    requires
        !(perspective is Both),
        real_attack(attacker as int, from as int, to as int),
    ensures
        real_attack(
            recoloured(perspective, attacker) as int,
            (from ^ threat_turn(perspective, ksq)) as int,
            (to ^ threat_turn(perspective, ksq)) as int,
        ),
{
    let turn = threat_turn(perspective, ksq);
    lemma_turned_square(from);
    lemma_turned_square(to);
    lemma_recoloured(attacker);
    lemma_xor64(from, turn);
    lemma_xor64(to, turn);
}

/// Two different attacks on a board have different features in every view of
/// it.
pub proof fn law_features_injective(
    scheme: &ThreatScheme,
    perspective: Side,
    ksq: usize,
    e: (usize, usize, usize, usize),
    g: (usize, usize, usize, usize),
)
    requires
        scheme.wf(),
        scheme.full(),
        !(perspective is Both),
        real_attack(e.0 as int, e.1 as int, e.2 as int),
        real_attack(g.0 as int, g.1 as int, g.2 as int),
        is_code(e.3 as int),
        is_code(g.3 as int),
        scheme.feature(perspective, e.0, e.1, e.2, e.3, ksq) is Some,
        scheme.feature(perspective, e.0, e.1, e.2, e.3, ksq) == scheme.feature(
            perspective,
            g.0,
            g.1,
            g.2,
            g.3,
            ksq,
        ),
    ensures
        e == g,
{
    let turn = threat_turn(perspective, ksq as int);
    lemma_turned_attack(perspective, ksq as int, e.0, e.1, e.2);
    lemma_turned_attack(perspective, ksq as int, g.0, g.1, g.2);
    lemma_recoloured(e.0);
    lemma_recoloured(e.3);
    lemma_recoloured(g.0);
    lemma_recoloured(g.3);
    law_slots_injective(
        scheme,
        recoloured(perspective, e.0) as int,
        (e.1 ^ turn) as int,
        (e.2 ^ turn) as int,
        recoloured(perspective, e.3) as int,
        recoloured(perspective, g.0) as int,
        (g.1 ^ turn) as int,
        (g.2 ^ turn) as int,
        recoloured(perspective, g.3) as int,
    );
    lemma_xor64(e.1, turn);
    lemma_xor64(e.2, turn);
    lemma_xor64(g.1, turn);
    lemma_xor64(g.2, turn);
}

/// Whether every edge of a list is an attack that a piece can make.
pub open spec fn edges_real(edges: Seq<(usize, usize, usize, usize)>) -> bool {
    forall|i: int|
        0 <= i < edges.len() ==> real_attack(
            (#[trigger] edges[i]).0 as int,
            edges[i].1 as int,
            edges[i].2 as int,
        ) && is_code(edges[i].3 as int)
}

/// Every listed feature is that of an edge.
pub proof fn law_listed_feature_has_an_edge(
    scheme: &ThreatScheme,
    perspective: Side,
    ksq: usize,
    edges: Seq<(usize, usize, usize, usize)>,
    n: int,
    i: int,
) -> (k: int)
    requires
        0 <= n <= edges.len(),
        0 <= i < scheme.features(perspective, ksq, edges, n).len(),
    ensures
        0 <= k < n,
        scheme.feature(perspective, edges[k].0, edges[k].1, edges[k].2, edges[k].3, ksq) == Some(
            scheme.features(perspective, ksq, edges, n)[i],
        ),
    decreases n,
{
    let rest = scheme.features(perspective, ksq, edges, n - 1);
    if n > 0 && i < rest.len() {
        law_listed_feature_has_an_edge(scheme, perspective, ksq, edges, n - 1, i)
    } else {
        n - 1
    }
}

/// Different edges have different features, so no feature is listed twice.
proof fn lemma_features_distinct(
    scheme: &ThreatScheme,
    perspective: Side,
    ksq: usize,
    edges: Seq<(usize, usize, usize, usize)>,
    n: int,
)
    requires
        scheme.wf(),
        scheme.full(),
        !(perspective is Both),
        edges_real(edges),
        edges.no_duplicates(),
        0 <= n <= edges.len(),
    ensures
        scheme.features(perspective, ksq, edges, n).no_duplicates(),
    decreases n,
{
    if n > 0 {
        lemma_features_distinct(scheme, perspective, ksq, edges, n - 1);
        let e = edges[n - 1];
        let rest = scheme.features(perspective, ksq, edges, n - 1);
        let all = scheme.features(perspective, ksq, edges, n);
        if let Some(f) = scheme.feature(perspective, e.0, e.1, e.2, e.3, ksq) {
            assert forall|i: int| 0 <= i < rest.len() implies #[trigger] rest[i] != f by {
                let k = law_listed_feature_has_an_edge(scheme, perspective, ksq, edges, n - 1, i);
                if rest[i] == f {
                    assert(real_attack(edges[k].0 as int, edges[k].1 as int, edges[k].2 as int));
                    assert(real_attack(e.0 as int, e.1 as int, e.2 as int));
                    law_features_injective(scheme, perspective, ksq, edges[k], e);
                }
            }
            assert(all =~= rest.push(f));
        }
    }
}

/// An edge of one colour and kind.
pub open spec fn edge_of(
    pos: &SfnnPosition,
    white: bool,
    kind: int,
    e: (usize, usize, usize, usize),
) -> bool {
    &&& e.0 == attacker_code(white, kind)
    &&& e.1 < 64
    &&& e.2 < 64
    &&& bit(pos.pieces@[kind] & own_squares(pos, white), e.1 as int)
    &&& edge(pos, white, kind, e.1 as int, e.2 as int)
    &&& e.3 == victim_code(pos, e.2 as int)
}

/// The squares of one colour.
pub open spec fn own_squares(pos: &SfnnPosition, white: bool) -> u64 {
    if white {
        pos.white
    } else {
        pos.black
    }
}

proof fn lemma_edges_to(pos: &SfnnPosition, white: bool, kind: int, from: int, n: int)
    requires
        0 <= from < 64,
        0 <= n <= 64,
        bit(pos.pieces@[kind] & own_squares(pos, white), from),
    ensures
        edges_to(pos, white, kind, from, n).no_duplicates(),
        forall|i: int|
            0 <= i < edges_to(pos, white, kind, from, n).len() ==> edge_of(
                pos,
                white,
                kind,
                #[trigger] edges_to(pos, white, kind, from, n)[i],
            ) && edges_to(pos, white, kind, from, n)[i].1 == from && edges_to(
                pos,
                white,
                kind,
                from,
                n,
            )[i].2 < n,
    decreases n,
{
    if n > 0 {
        lemma_edges_to(pos, white, kind, from, n - 1);
    }
}

proof fn lemma_edges_from(pos: &SfnnPosition, white: bool, kind: int, n: int)
    requires
        0 <= n <= 64,
    ensures
        edges_from(pos, white, kind, n).no_duplicates(),
        forall|i: int|
            0 <= i < edges_from(pos, white, kind, n).len() ==> edge_of(
                pos,
                white,
                kind,
                #[trigger] edges_from(pos, white, kind, n)[i],
            ) && edges_from(pos, white, kind, n)[i].1 < n,
    decreases n,
{
    if n > 0 {
        lemma_edges_from(pos, white, kind, n - 1);
        if bit(pos.pieces@[kind] & own_squares(pos, white), n - 1) {
            lemma_edges_to(pos, white, kind, n - 1, 64);
            let a = edges_from(pos, white, kind, n - 1);
            let b = edges_to(pos, white, kind, n - 1, 64);
            assert forall|i: int, j: int| 0 <= i < a.len() && 0 <= j < b.len() implies a[i]
                != b[j] by {}
            lemma_joined(a, b);
        }
    }
}

proof fn lemma_edges_of(pos: &SfnnPosition, white: bool, n: int)
    requires
        0 <= n <= 6,
    ensures
        edges_of(pos, white, n).no_duplicates(),
        forall|i: int|
            0 <= i < edges_of(pos, white, n).len() ==> edge_of(
                pos,
                white,
                (#[trigger] edges_of(pos, white, n)[i]).0 % 8 - 1,
                edges_of(pos, white, n)[i],
            ) && 1 <= edges_of(pos, white, n)[i].0 % 8 <= n,
    decreases n,
{
    if n > 0 {
        lemma_edges_of(pos, white, n - 1);
        lemma_edges_from(pos, white, n - 1, 64);
        let a = edges_of(pos, white, n - 1);
        let b = edges_from(pos, white, n - 1, 64);
        assert forall|i: int, j: int| 0 <= i < a.len() && 0 <= j < b.len() implies a[i] != b[j] by {
            assert(edge_of(pos, white, n - 1, b[j]));
        }
        lemma_joined(a, b);
    }
}

/// Every attack edge is listed once: no edge occurs twice, and each is one of a
/// piece that stands there.
pub proof fn law_edges_listed_once(pos: &SfnnPosition)
    ensures
        threat_edges(pos).no_duplicates(),
        forall|i: int|
            0 <= i < threat_edges(pos).len() ==> edge_of(
                pos,
                threat_edges(pos)[i].0 < 8,
                (#[trigger] threat_edges(pos)[i]).0 % 8 - 1,
                threat_edges(pos)[i],
            ),
{
    lemma_edges_of(pos, true, 6);
    lemma_edges_of(pos, false, 6);
    let a = edges_of(pos, true, 6);
    let b = edges_of(pos, false, 6);
    assert forall|i: int, j: int| 0 <= i < a.len() && 0 <= j < b.len() implies a[i] != b[j] by {
        assert(edge_of(pos, true, a[i].0 % 8 - 1, a[i]));
        assert(edge_of(pos, false, b[j].0 % 8 - 1, b[j]));
    }
    lemma_joined(a, b);
    let c = threat_edges(pos);
    assert forall|i: int| 0 <= i < c.len() implies edge_of(
        pos,
        c[i].0 < 8,
        (#[trigger] c[i]).0 % 8 - 1,
        c[i],
    ) by {
        if i < a.len() {
            assert(edge_of(pos, true, a[i].0 % 8 - 1, a[i]));
        } else {
            let j = i - a.len();
            assert(edge_of(pos, false, b[j].0 % 8 - 1, b[j]));
        }
    }
}

proof fn lemma_to_lists(pos: &SfnnPosition, white: bool, kind: int, from: int, to: int, n: int)
    requires
        0 <= to < n,
        edge(pos, white, kind, from, to),
    ensures
        edges_to(pos, white, kind, from, n).contains(
            (attacker_code(white, kind), from as usize, to as usize, victim_code(pos, to)),
        ),
    decreases n,
{
    let e = (attacker_code(white, kind), from as usize, to as usize, victim_code(pos, to));
    let all = edges_to(pos, white, kind, from, n);
    let rest = edges_to(pos, white, kind, from, n - 1);
    if to == n - 1 {
        assert(all[all.len() - 1] == e);
    } else {
        lemma_to_lists(pos, white, kind, from, to, n - 1);
        let i = choose|i: int| 0 <= i < rest.len() && rest[i] == e;
        assert(all[i] == e);
    }
}

proof fn lemma_from_lists(
    pos: &SfnnPosition,
    white: bool,
    kind: int,
    e: (usize, usize, usize, usize),
    n: int,
)
    requires
        edge_of(pos, white, kind, e),
        e.1 < n <= 64,
    ensures
        edges_from(pos, white, kind, n).contains(e),
    decreases n,
{
    let all = edges_from(pos, white, kind, n);
    let rest = edges_from(pos, white, kind, n - 1);
    if e.1 == n - 1 {
        lemma_to_lists(pos, white, kind, n - 1, e.2 as int, 64);
        let last = edges_to(pos, white, kind, n - 1, 64);
        let i = choose|i: int| 0 <= i < last.len() && last[i] == e;
        assert(all[rest.len() + i] == e);
    } else {
        lemma_from_lists(pos, white, kind, e, n - 1);
        let i = choose|i: int| 0 <= i < rest.len() && rest[i] == e;
        assert(all[i] == e);
    }
}

proof fn lemma_of_lists(
    pos: &SfnnPosition,
    white: bool,
    kind: int,
    e: (usize, usize, usize, usize),
    n: int,
)
    requires
        edge_of(pos, white, kind, e),
        0 <= kind < n <= 6,
    ensures
        edges_of(pos, white, n).contains(e),
    decreases n,
{
    let all = edges_of(pos, white, n);
    let rest = edges_of(pos, white, n - 1);
    if kind == n - 1 {
        lemma_from_lists(pos, white, kind, e, 64);
        let last = edges_from(pos, white, kind, 64);
        let i = choose|i: int| 0 <= i < last.len() && last[i] == e;
        assert(all[rest.len() + i] == e);
    } else {
        lemma_of_lists(pos, white, kind, e, n - 1);
        let i = choose|i: int| 0 <= i < rest.len() && rest[i] == e;
        assert(all[i] == e);
    }
}

/// No attack edge is left out.
pub proof fn law_every_edge_is_listed(
    pos: &SfnnPosition,
    white: bool,
    kind: int,
    e: (usize, usize, usize, usize),
)
    requires
        0 <= kind < 6,
        edge_of(pos, white, kind, e),
    ensures
        threat_edges(pos).contains(e),
{
    lemma_of_lists(pos, white, kind, e, 6);
    let a = edges_of(pos, true, 6);
    let b = edges_of(pos, false, 6);
    if white {
        let i = choose|i: int| 0 <= i < a.len() && a[i] == e;
        assert(threat_edges(pos)[i] == e);
    } else {
        let i = choose|i: int| 0 <= i < b.len() && b[i] == e;
        assert(threat_edges(pos)[a.len() + i] == e);
    }
}

/// The edges of a position whose pawns stand between the outer ranks are
/// attacks that pieces can make.
pub proof fn law_edges_real(pos: &SfnnPosition)
    requires
        pawns_inside(pos),
    ensures
        edges_real(threat_edges(pos)),
{
    law_edges_listed_once(pos);
    let c = threat_edges(pos);
    assert forall|i: int| 0 <= i < c.len() implies real_attack(
        (#[trigger] c[i]).0 as int,
        c[i].1 as int,
        c[i].2 as int,
    ) && is_code(c[i].3 as int) by {
        let e = c[i];
        let kind = e.0 % 8 - 1;
        lemma_edge_code(pos, e);
        if kind == 0 {
            let w = bit(pos.pieces@[0] & pos.white, e.1 as int);
            assert(pawn_rank(e.1 as int));
        }
    }
}

/// The codes of listed edges are those of pieces.
proof fn lemma_edge_code(pos: &SfnnPosition, e: (usize, usize, usize, usize))
    requires
        threat_edges(pos).contains(e),
    ensures
        is_code(e.0 as int),
        is_code(e.3 as int),
{
    lemma_edges_of(pos, true, 6);
    lemma_edges_of(pos, false, 6);
    let a = edges_of(pos, true, 6);
    let b = edges_of(pos, false, 6);
    let i = choose|i: int| 0 <= i < threat_edges(pos).len() && threat_edges(pos)[i] == e;
    if i < a.len() {
        assert(edge_of(pos, true, a[i].0 % 8 - 1, a[i]));
    } else {
        let j = i - a.len();
        assert(edge_of(pos, false, b[j].0 % 8 - 1, b[j]));
    }
}

/// No threat of a position is listed twice in any view of it.
pub proof fn law_threats_distinct(scheme: &ThreatScheme, pos: &SfnnPosition, perspective: Side, n: int)
    requires
        scheme.wf(),
        scheme.full(),
        !(perspective is Both),
        pawns_inside(pos),
        0 <= n <= threat_edges(pos).len(),
    ensures
        scheme.features(
            perspective,
            pos.king_square_spec(perspective) as usize,
            threat_edges(pos),
            n,
        ).no_duplicates(),
{
    law_edges_real(pos);
    law_edges_listed_once(pos);
    lemma_features_distinct(
        scheme,
        perspective,
        pos.king_square_spec(perspective) as usize,
        threat_edges(pos),
        n,
    );
}

} // verus!
