//! Pawn structure, open files, bishop pairs and king shelter. Squares are
//! numbered from the eighth rank down: White's pawns move to lower rows.

use vstd::prelude::*;

use crate::bits::{
    bit, chosen, is_set, law_size_counts_squares, lemma_bit_ops, lemma_chosen_empty, lemma_chosen_same,
    lemma_chosen_step, pop, popcount,
};
use crate::board::{BoardState, Piece, Side};
use crate::math::abs;

verus! {

#[derive(Debug, Clone, Copy, PartialEq, Eq, Default)]
pub struct StrategicSnapshot {
    pub white_pawn_islands: u8,
    pub black_pawn_islands: u8,
    pub white_passed_pawns: u8,
    pub black_passed_pawns: u8,
    pub white_isolated_pawns: u8,
    pub black_isolated_pawns: u8,
    pub white_backward_pawns: u8,
    pub black_backward_pawns: u8,
    pub white_bishop_pair: bool,
    pub black_bishop_pair: bool,
    pub open_files: u8,
    pub white_semi_open_files: u8,
    pub black_semi_open_files: u8,
    pub white_king_shelter: u8,
    pub black_king_shelter: u8,
}

/// Whether a pawn stands on a file, on one of the rows `from..to`.
pub open spec fn pawn_in(pawns: u64, file: int, from: int, to: int) -> bool {
    exists|row: int| from <= row < to && bit(pawns, #[trigger] square(row, file))
}

/// The square of a row and a file.
pub open spec fn square(row: int, file: int) -> int {
    row * 8 + file
}

/// Whether a pawn stands on a file at all.
pub open spec fn on_file(pawns: u64, file: int) -> bool {
    pawn_in(pawns, file, 0, 8)
}

fn has_pawn(pawns: u64, file: usize, from: usize, to: usize) -> (r: bool)
    requires
        file < 8,
        to <= 8,
    ensures
        r == pawn_in(pawns, file as int, from as int, to as int),
{
    let mut row: usize = from;
    while row < to
        invariant
            from <= row,
            row <= to || from > to,
            file < 8,
            to <= 8,
            forall|k: int| from <= k < row ==> !bit(pawns, #[trigger] square(k, file as int)),
        decreases to - row,
    {
        if is_set(pawns, row * 8 + file) {
            assert(bit(pawns, square(row as int, file as int)));
            return true;
        }
        assert(!bit(pawns, square(row as int, file as int)));
        row = row + 1;
    }
    false
}

/// Groups of neighbouring files with pawns, among the files below `n`: each is
/// counted where it starts.
pub open spec fn islands(pawns: u64, n: int) -> int
    decreases n,
{
    if n <= 0 {
        0
    } else {
        islands(pawns, n - 1) + if on_file(pawns, n - 1) && (n == 1 || !on_file(pawns, n - 2)) {
            1int
        } else {
            0int
        }
    }
}

fn count_pawn_islands(pawns: u64) -> (r: u8)
    ensures
        r == islands(pawns, 8),
        r <= 8,
{
    let mut count: u8 = 0;
    let mut in_island: bool = false;
    let mut f: usize = 0;
    while f < 8
        invariant
            f <= 8,
            count <= f,
            count == islands(pawns, f as int),
            in_island == (f > 0 && on_file(pawns, f - 1)),
        decreases 8 - f,
    {
        let here: bool = has_pawn(pawns, f, 0, 8);
        if here && !in_island {
            count = count + 1;
        }
        in_island = here;
        f = f + 1;
    }
    count
}

/// Whether a neighbouring file has a pawn on one of the rows `from..to`.
pub open spec fn beside(pawns: u64, file: int, from: int, to: int) -> bool {
    (file > 0 && pawn_in(pawns, file - 1, from, to)) || (file < 7 && pawn_in(
        pawns,
        file + 1,
        from,
        to,
    ))
}

fn has_beside(pawns: u64, file: usize, from: usize, to: usize) -> (r: bool)
    requires
        file < 8,
        to <= 8,
    ensures
        r == beside(pawns, file as int, from as int, to as int),
{
    (file > 0 && has_pawn(pawns, file - 1, from, to)) || (file < 7 && has_pawn(
        pawns,
        file + 1,
        from,
        to,
    ))
}

/// Whether no pawn of the same side stands on a neighbouring file.
pub open spec fn isolated(pawns: u64, sq: int) -> bool {
    !beside(pawns, sq % 8, 0, 8)
}

/// Isolated pawns on the squares below `n`.
pub open spec fn isolated_below(pawns: u64, n: int) -> int
    decreases n,
{
    if n <= 0 {
        0
    } else {
        isolated_below(pawns, n - 1) + if bit(pawns, n - 1) && isolated(pawns, n - 1) {
            1int
        } else {
            0int
        }
    }
}

fn count_isolated_pawns(pawns: u64) -> (r: u8)
    ensures
        r == isolated_below(pawns, 64),
        r <= 64,
{
    let mut count: u8 = 0;
    let mut sq: usize = 0;
    while sq < 64
        invariant
            sq <= 64,
            count <= sq,
            count == isolated_below(pawns, sq as int),
        decreases 64 - sq,
    {
        if is_set(pawns, sq) && !has_beside(pawns, sq % 8, 0, 8) {
            count = count + 1;
        }
        sq = sq + 1;
    }
    count
}

/// First row in front of a pawn, and the row after the last one.
pub open spec fn ahead_from(side: Side, row: int) -> int {
    if side is White {
        0
    } else {
        row + 1
    }
}

pub open spec fn ahead_to(side: Side, row: int) -> int {
    if side is White {
        row
    } else {
        8
    }
}

/// Whether no enemy pawn stands ahead on the own or a neighbouring file.
pub open spec fn passed(their_pawns: u64, side: Side, sq: int) -> bool {
    let from = ahead_from(side, sq / 8);
    let to = ahead_to(side, sq / 8);
    !pawn_in(their_pawns, sq % 8, from, to) && !beside(their_pawns, sq % 8, from, to)
}

/// Passed pawns on the squares below `n`.
pub open spec fn passed_below(our_pawns: u64, their_pawns: u64, side: Side, n: int) -> int
    decreases n,
{
    if n <= 0 {
        0
    } else {
        passed_below(our_pawns, their_pawns, side, n - 1) + if bit(our_pawns, n - 1) && passed(
            their_pawns,
            side,
            n - 1,
        ) {
            1int
        } else {
            0int
        }
    }
}

/// Whether one square lies ahead of another on its own or a neighbouring file:
/// nearer to the eighth rank for White, to the first for Black.
pub open spec fn in_front(side: Side, p: int, q: int) -> bool {
    &&& -1 <= q % 8 - p % 8 <= 1
    &&& if side is White {
        q / 8 < p / 8
    } else {
        q / 8 > p / 8
    }
}

/// A pawn is passed exactly where no enemy pawn stands in front of it.
#[verifier::rlimit(60)]
pub proof fn law_passed_has_none_in_front(their_pawns: u64, side: Side, p: int)
    requires
        0 <= p < 64,
    ensures
        passed(their_pawns, side, p) <==> forall|q: int|
            0 <= q < 64 && #[trigger] bit(their_pawns, q) ==> !in_front(side, p, q),
{
    let from = ahead_from(side, p / 8);
    let to = ahead_to(side, p / 8);
    if passed(their_pawns, side, p) {
        assert forall|q: int| 0 <= q < 64 && #[trigger] bit(their_pawns, q) implies !in_front(
            side,
            p,
            q,
        ) by {
            assert(q == square(q / 8, q % 8));
        }
    }
    if forall|q: int| 0 <= q < 64 && #[trigger] bit(their_pawns, q) ==> !in_front(side, p, q) {
        assert forall|file: int| 0 <= file < 8 && -1 <= file - p % 8 <= 1 implies !#[trigger] pawn_in(
            their_pawns,
            file,
            from,
            to,
        ) by {
            if pawn_in(their_pawns, file, from, to) {
                let row = choose|row: int|
                    from <= row < to && bit(their_pawns, #[trigger] square(row, file));
                let q = square(row, file);
                assert(q / 8 == row && q % 8 == file);
                assert(in_front(side, p, q));
            }
        }
    }
}

/// Two sets of squares that are the same with the ranks in reverse order.
pub open spec fn mirrored(a: u64, b: u64) -> bool {
    forall|row: int, file: int|
        0 <= row < 8 && 0 <= file < 8 ==> bit(b, #[trigger] square(row, file)) == bit(
            a,
            square(7 - row, file),
        )
}

/// A set with the bytes in reverse order is the set with the ranks in reverse
/// order.
pub proof fn law_flipped_is_mirrored(a: u64, b: u64)
    requires
        forall|s: int| 0 <= s < 64 ==> #[trigger] bit(b, s) == bit(a, ((s as usize) ^ 56) as int),
    ensures
        mirrored(a, b),
{
    assert forall|row: int, file: int| 0 <= row < 8 && 0 <= file < 8 implies bit(
        b,
        #[trigger] square(row, file),
    ) == bit(a, square(7 - row, file)) by {
        let r = row as usize;
        let f = file as usize;
        assert((8 * r + f) as usize ^ 56 == 8 * (7 - r) + f) by (bit_vector)
            requires
                r < 8,
                f < 8,
        ;
        assert(square(row, file) as usize == (8 * r + f) as usize);
    }
}

/// Passed pawns on the first `n` files of a row.
spec fn passed_in_row(our_pawns: u64, their_pawns: u64, side: Side, row: int, n: int) -> int
    decreases n,
{
    if n <= 0 {
        0
    } else {
        passed_in_row(our_pawns, their_pawns, side, row, n - 1) + if bit(
            our_pawns,
            8 * row + n - 1,
        ) && passed(their_pawns, side, 8 * row + n - 1) {
            1int
        } else {
            0int
        }
    }
}

proof fn lemma_passed_row(our_pawns: u64, their_pawns: u64, side: Side, row: int, n: int)
    requires
        0 <= row < 8,
        0 <= n <= 8,
    ensures
        passed_below(our_pawns, their_pawns, side, 8 * row + n) == passed_below(
            our_pawns,
            their_pawns,
            side,
            8 * row,
        ) + passed_in_row(our_pawns, their_pawns, side, row, n),
    decreases n,
{
    if n > 0 {
        lemma_passed_row(our_pawns, their_pawns, side, row, n - 1);
    }
}

proof fn lemma_pawn_in_mirrored(a: u64, b: u64, file: int, from: int, to: int)
    requires
        mirrored(a, b),
        0 <= file < 8,
        0 <= from,
        to <= 8,
    ensures
        pawn_in(b, file, 8 - to, 8 - from) == pawn_in(a, file, from, to),
{
    if pawn_in(a, file, from, to) {
        let row = choose|row: int| from <= row < to && bit(a, #[trigger] square(row, file));
        assert(bit(b, square(7 - row, file)) == bit(a, square(7 - (7 - row), file)));
    }
    if pawn_in(b, file, 8 - to, 8 - from) {
        let row = choose|row: int|
            8 - to <= row < 8 - from && bit(b, #[trigger] square(row, file));
        assert(bit(a, square(7 - row, file)));
    }
}

proof fn lemma_passed_mirrored(a: u64, b: u64, side: Side, row: int, file: int)
    requires
        mirrored(a, b),
        !(side is Both),
        0 <= row < 8,
        0 <= file < 8,
    ensures
        passed(b, side.other_spec(), 8 * (7 - row) + file) == passed(a, side, 8 * row + file),
{
    let from = ahead_from(side, row);
    let to = ahead_to(side, row);
    assert((8 * row + file) / 8 == row && (8 * row + file) % 8 == file);
    assert((8 * (7 - row) + file) / 8 == 7 - row && (8 * (7 - row) + file) % 8 == file);
    lemma_pawn_in_mirrored(a, b, file, from, to);
    if file > 0 {
        lemma_pawn_in_mirrored(a, b, file - 1, from, to);
    }
    if file < 7 {
        lemma_pawn_in_mirrored(a, b, file + 1, from, to);
    }
}

proof fn lemma_row_mirrored(
    our: u64,
    their: u64,
    our2: u64,
    their2: u64,
    side: Side,
    row: int,
    n: int,
)
    requires
        mirrored(our, our2),
        mirrored(their, their2),
        !(side is Both),
        0 <= row < 8,
        0 <= n <= 8,
    ensures
        passed_in_row(our2, their2, side.other_spec(), 7 - row, n) == passed_in_row(
            our,
            their,
            side,
            row,
            n,
        ),
    decreases n,
{
    if n > 0 {
        lemma_row_mirrored(our, their, our2, their2, side, row, n - 1);
        lemma_passed_mirrored(their, their2, side, row, n - 1);
        assert(bit(our2, square(7 - row, n - 1)) == bit(our, square(7 - (7 - row), n - 1)));
    }
}

/// With the board mirrored and the sides exchanged there are as many passed
/// pawns.
pub proof fn law_passed_pawns_mirror(our: u64, their: u64, our2: u64, their2: u64, side: Side)
    requires
        mirrored(our, our2),
        mirrored(their, their2),
        !(side is Both),
    ensures
        passed_below(our2, their2, side.other_spec(), 64) == passed_below(our, their, side, 64),
{
    let other = side.other_spec();
    lemma_passed_row(our, their, side, 0, 8);
    lemma_passed_row(our, their, side, 1, 8);
    lemma_passed_row(our, their, side, 2, 8);
    lemma_passed_row(our, their, side, 3, 8);
    lemma_passed_row(our, their, side, 4, 8);
    lemma_passed_row(our, their, side, 5, 8);
    lemma_passed_row(our, their, side, 6, 8);
    lemma_passed_row(our, their, side, 7, 8);
    lemma_passed_row(our2, their2, other, 0, 8);
    lemma_passed_row(our2, their2, other, 1, 8);
    lemma_passed_row(our2, their2, other, 2, 8);
    lemma_passed_row(our2, their2, other, 3, 8);
    lemma_passed_row(our2, their2, other, 4, 8);
    lemma_passed_row(our2, their2, other, 5, 8);
    lemma_passed_row(our2, their2, other, 6, 8);
    lemma_passed_row(our2, their2, other, 7, 8);
    lemma_row_mirrored(our, their, our2, their2, side, 0, 8);
    lemma_row_mirrored(our, their, our2, their2, side, 1, 8);
    lemma_row_mirrored(our, their, our2, their2, side, 2, 8);
    lemma_row_mirrored(our, their, our2, their2, side, 3, 8);
    lemma_row_mirrored(our, their, our2, their2, side, 4, 8);
    lemma_row_mirrored(our, their, our2, their2, side, 5, 8);
    lemma_row_mirrored(our, their, our2, their2, side, 6, 8);
    lemma_row_mirrored(our, their, our2, their2, side, 7, 8);
}

/// Passed pawns of a side: those without an enemy pawn ahead of them on their
/// own or a neighbouring file.
pub fn count_passed_pawns(our_pawns: u64, their_pawns: u64, side: Side) -> (r: u8)
    ensures
        r == passed_below(our_pawns, their_pawns, side, 64),
        r <= 64,
{
    let mut count: u8 = 0;
    let mut sq: usize = 0;
    while sq < 64
        invariant
            sq <= 64,
            count <= sq,
            count == passed_below(our_pawns, their_pawns, side, sq as int),
        decreases 64 - sq,
    {
        let from: usize = if side == Side::White {
            0
        } else {
            sq / 8 + 1
        };
        let to: usize = if side == Side::White {
            sq / 8
        } else {
            8
        };
        if is_set(our_pawns, sq) && !has_pawn(their_pawns, sq % 8, from, to) && !has_beside(
            their_pawns,
            sq % 8,
            from,
            to,
        ) {
            count = count + 1;
        }
        sq = sq + 1;
    }
    count
}

/// Rows level with a pawn or behind it.
pub open spec fn behind_from(side: Side, row: int) -> int {
    if side is White {
        row
    } else {
        0
    }
}

pub open spec fn behind_to(side: Side, row: int) -> int {
    if side is White {
        8
    } else {
        row + 1
    }
}

/// The square in front of a pawn; White's stops at the first square.
pub open spec fn stop_square(side: Side, sq: int) -> int {
    if side is White {
        if sq >= 8 {
            sq - 8
        } else {
            0
        }
    } else {
        sq + 8
    }
}

/// Whether an enemy pawn stands on a square that an enemy pawn on the stop
/// square would attack: one row down for White's stop square, one row up for
/// Black's.
pub open spec fn watched(their_pawns: u64, side: Side, stop: int) -> bool {
    let row = if side is White {
        stop / 8 + 1
    } else {
        stop / 8 - 1
    };
    beside(their_pawns, stop % 8, row, row + 1) && 0 <= row < 8
}

/// Whether a pawn can no longer be supported and its stop square is watched.
pub open spec fn backward(our_pawns: u64, their_pawns: u64, side: Side, sq: int) -> bool {
    let stop = stop_square(side, sq);
    &&& !beside(our_pawns, sq % 8, behind_from(side, sq / 8), behind_to(side, sq / 8))
    &&& stop < 64
    &&& watched(their_pawns, side, stop)
}

/// Backward pawns on the squares below `n`.
pub open spec fn backward_below(our_pawns: u64, their_pawns: u64, side: Side, n: int) -> int
    decreases n,
{
    if n <= 0 {
        0
    } else {
        backward_below(our_pawns, their_pawns, side, n - 1) + if bit(our_pawns, n - 1) && backward(
            our_pawns,
            their_pawns,
            side,
            n - 1,
        ) {
            1int
        } else {
            0int
        }
    }
}

fn is_backward(our_pawns: u64, their_pawns: u64, side: Side, sq: usize) -> (r: bool)
    requires
        sq < 64,
    ensures
        r == backward(our_pawns, their_pawns, side, sq as int),
{
    let from: usize = if side == Side::White {
        sq / 8
    } else {
        0
    };
    let to: usize = if side == Side::White {
        8
    } else {
        sq / 8 + 1
    };
    if has_beside(our_pawns, sq % 8, from, to) {
        return false;
    }
    let stop: usize = if side == Side::White {
        sq.saturating_sub(8)
    } else {
        sq + 8
    };
    if stop >= 64 {
        return false;
    }
    if side == Side::White {
        let row: usize = stop / 8 + 1;
        row < 8 && has_beside(their_pawns, stop % 8, row, row + 1)
    } else {
        let row: usize = stop / 8 - 1;
        has_beside(their_pawns, stop % 8, row, row + 1)
    }
}

fn count_backward_pawns(our_pawns: u64, their_pawns: u64, side: Side) -> (r: u8)
    ensures
        r == backward_below(our_pawns, their_pawns, side, 64),
        r <= 64,
{
    let mut count: u8 = 0;
    let mut sq: usize = 0;
    while sq < 64
        invariant
            sq <= 64,
            count <= sq,
            count == backward_below(our_pawns, their_pawns, side, sq as int),
        decreases 64 - sq,
    {
        if is_set(our_pawns, sq) && is_backward(our_pawns, their_pawns, side, sq) {
            count = count + 1;
        }
        sq = sq + 1;
    }
    count
}

/// The row of the pawn on a file that is nearest to its own side's first row.
pub open spec fn home_row(pawns: u64, side: Side, file: int, k: int) -> int
    decreases k,
{
    if k <= 0 {
        0
    } else {
        let row = if side is White {
            k - 1
        } else {
            8 - k
        };
        if bit(pawns, square(row, file)) {
            row
        } else {
            home_row(pawns, side, file, k - 1)
        }
    }
}

fn find_home_row(pawns: u64, side: Side, file: usize) -> (r: usize)
    requires
        file < 8,
    ensures
        r == home_row(pawns, side, file as int, 8),
        r < 8,
{
    let mut k: usize = 8;
    while k > 0
        invariant
            k <= 8,
            file < 8,
            home_row(pawns, side, file as int, 8) == home_row(pawns, side, file as int, k as int),
        decreases k,
    {
        let row: usize = if side == Side::White {
            k - 1
        } else {
            8 - k
        };
        if is_set(pawns, row * 8 + file) {
            return row;
        }
        k = k - 1;
    }
    0
}

/// Shelter of one file: two points for a pawn, one more if it is within a row
/// of the king.
pub open spec fn file_shelter(pawns: u64, side: Side, king_row: int, file: int) -> int {
    if !on_file(pawns, file) {
        0
    } else if abs(home_row(pawns, side, file, 8) - king_row) <= 1 {
        3
    } else {
        2
    }
}

/// Shelter of the king's own and neighbouring files.
pub open spec fn shelter(pawns: u64, side: Side, king: int) -> int {
    let file = king % 8;
    let row = king / 8;
    file_shelter(pawns, side, row, file) + (if file > 0 {
        file_shelter(pawns, side, row, file - 1)
    } else {
        0
    }) + (if file < 7 {
        file_shelter(pawns, side, row, file + 1)
    } else {
        0
    })
}

/// Shelter of the first king of a side; nothing without a king.
pub open spec fn shelter_of(kings: u64, pawns: u64, side: Side) -> int {
    if kings == 0 {
        0
    } else {
        shelter(pawns, side, vstd::std_specs::bits::u64_trailing_zeros(kings) as int)
    }
}

fn shelter_of_file(pawns: u64, side: Side, king_row: usize, file: usize) -> (r: u8)
    requires
        file < 8,
        king_row < 8,
    ensures
        r == file_shelter(pawns, side, king_row as int, file as int),
        r <= 3,
{
    if !has_pawn(pawns, file, 0, 8) {
        return 0;
    }
    let row: usize = find_home_row(pawns, side, file);
    let gap: usize = if row >= king_row {
        row - king_row
    } else {
        king_row - row
    };
    if gap <= 1 {
        3
    } else {
        2
    }
}

fn king_shelter_score(board: &BoardState, side: Side, our_pawns: u64) -> (r: u8)
    requires
        !(side is Both),
    ensures
        r == shelter_of(board.pieces_of(side, Piece::King), our_pawns, side),
        r <= 9,
{
    let kings: u64 = board.get_pieces(side, Piece::King);
    if kings == 0 {
        return 0;
    }
    proof {
        vstd::std_specs::bits::axiom_u64_trailing_zeros(kings);
    }
    let king: usize = kings.trailing_zeros() as usize;
    let file: usize = king % 8;
    let row: usize = king / 8;
    let mut score: u8 = shelter_of_file(our_pawns, side, row, file);
    if file > 0 {
        score = score + shelter_of_file(our_pawns, side, row, file - 1);
    }
    if file < 7 {
        score = score + shelter_of_file(our_pawns, side, row, file + 1);
    }
    score
}

/// Files below `n` whose pawns are as asked for.
pub open spec fn files_with(wp: u64, bp: u64, white: bool, black: bool, n: int) -> int
    decreases n,
{
    if n <= 0 {
        0
    } else {
        files_with(wp, bp, white, black, n - 1) + if on_file(wp, n - 1) == white && on_file(
            bp,
            n - 1,
        ) == black {
            1int
        } else {
            0int
        }
    }
}

fn count_files(wp: u64, bp: u64, white: bool, black: bool) -> (r: u8)
    ensures
        r == files_with(wp, bp, white, black, 8),
        r <= 8,
{
    let mut count: u8 = 0;
    let mut f: usize = 0;
    while f < 8
        invariant
            f <= 8,
            count <= f,
            count == files_with(wp, bp, white, black, f as int),
        decreases 8 - f,
    {
        if has_pawn(wp, f, 0, 8) == white && has_pawn(bp, f, 0, 8) == black {
            count = count + 1;
        }
        f = f + 1;
    }
    count
}

/// Whether a snapshot says what is so on a board.
pub open spec fn shows_structure(r: StrategicSnapshot, board: &BoardState) -> bool {
    let wp = board.pieces_of(Side::White, Piece::Pawn);
    let bp = board.pieces_of(Side::Black, Piece::Pawn);
    &&& r.white_pawn_islands == islands(wp, 8)
    &&& r.black_pawn_islands == islands(bp, 8)
    &&& r.white_passed_pawns == passed_below(wp, bp, Side::White, 64)
    &&& r.black_passed_pawns == passed_below(bp, wp, Side::Black, 64)
    &&& r.white_isolated_pawns == isolated_below(wp, 64)
    &&& r.black_isolated_pawns == isolated_below(bp, 64)
    &&& r.white_backward_pawns == backward_below(wp, bp, Side::White, 64)
    &&& r.black_backward_pawns == backward_below(bp, wp, Side::Black, 64)
    &&& r.white_bishop_pair == (pop(board.pieces_of(Side::White, Piece::Bishop)) >= 2)
    &&& r.black_bishop_pair == (pop(board.pieces_of(Side::Black, Piece::Bishop)) >= 2)
    &&& r.open_files == files_with(wp, bp, false, false, 8)
    &&& r.white_semi_open_files == files_with(wp, bp, false, true, 8)
    &&& r.black_semi_open_files == files_with(wp, bp, true, false, 8)
    &&& r.white_king_shelter == shelter_of(
        board.pieces_of(Side::White, Piece::King),
        wp,
        Side::White,
    )
    &&& r.black_king_shelter == shelter_of(
        board.pieces_of(Side::Black, Piece::King),
        bp,
        Side::Black,
    )
}

/// The structural facts of a position.
pub fn compute_strategic_snapshot(board: &BoardState) -> (r: StrategicSnapshot)
    ensures
        shows_structure(r, board),
        r.white_king_shelter <= 9,
        r.black_king_shelter <= 9,
        r.white_isolated_pawns <= 64,
        r.black_isolated_pawns <= 64,
        r.white_backward_pawns <= 64,
        r.black_backward_pawns <= 64,
{
    let wp: u64 = board.get_pieces(Side::White, Piece::Pawn);
    let bp: u64 = board.get_pieces(Side::Black, Piece::Pawn);
    StrategicSnapshot {
        white_pawn_islands: count_pawn_islands(wp),
        black_pawn_islands: count_pawn_islands(bp),
        white_passed_pawns: count_passed_pawns(wp, bp, Side::White),
        black_passed_pawns: count_passed_pawns(bp, wp, Side::Black),
        white_isolated_pawns: count_isolated_pawns(wp),
        black_isolated_pawns: count_isolated_pawns(bp),
        white_backward_pawns: count_backward_pawns(wp, bp, Side::White),
        black_backward_pawns: count_backward_pawns(bp, wp, Side::Black),
        white_bishop_pair: popcount(board.get_pieces(Side::White, Piece::Bishop)) >= 2,
        black_bishop_pair: popcount(board.get_pieces(Side::Black, Piece::Bishop)) >= 2,
        open_files: count_files(wp, bp, false, false),
        white_semi_open_files: count_files(wp, bp, false, true),
        black_semi_open_files: count_files(wp, bp, true, false),
        white_king_shelter: king_shelter_score(board, Side::White, wp),
        black_king_shelter: king_shelter_score(board, Side::Black, bp),
    }
}

/// Every file is open, half open for one side, or closed.
pub proof fn law_files_partition(wp: u64, bp: u64, n: int)
    requires
        0 <= n <= 8,
    ensures
        files_with(wp, bp, false, false, n) + files_with(wp, bp, false, true, n) + files_with(
            wp,
            bp,
            true,
            false,
            n,
        ) + files_with(wp, bp, true, true, n) == n,
    decreases n,
{
    if n > 0 {
        law_files_partition(wp, bp, n - 1);
    }
}

/// Whether a pawn stands on a file.
pub open spec fn file_has(pawns: u64, file: int) -> bool {
    exists|q: int| 0 <= q < 64 && #[trigger] bit(pawns, q) && q % 8 == file
}

/// A file has a pawn where one of its squares does.
proof fn lemma_on_file(pawns: u64, file: int)
    requires
        0 <= file < 8,
    ensures
        on_file(pawns, file) == file_has(pawns, file),
{
    if on_file(pawns, file) {
        let row = choose|row: int| 0 <= row < 8 && bit(pawns, #[trigger] square(row, file));
        let q = square(row, file);
        assert(bit(pawns, q) && q % 8 == file && 0 <= q < 64);
    }
    if file_has(pawns, file) {
        let q = choose|q: int| 0 <= q < 64 && #[trigger] bit(pawns, q) && q % 8 == file;
        assert(q == square(q / 8, file));
        assert(0 <= q / 8 < 8);
    }
}

/// The islands of a side are counted by the files where one starts: a file with
/// a pawn and none on the file to its left.
pub proof fn law_islands_start_at_gaps(pawns: u64, n: int)
    requires
        0 <= n <= 8,
    ensures
        islands(pawns, n) == chosen(
            |f: int| file_has(pawns, f) && (f == 0 || !file_has(pawns, f - 1)),
            n,
        ).len(),
    decreases n,
{
    let starts = |f: int| file_has(pawns, f) && (f == 0 || !file_has(pawns, f - 1));
    if n > 0 {
        law_islands_start_at_gaps(pawns, n - 1);
        lemma_chosen_step(starts, n);
        lemma_on_file(pawns, n - 1);
        if n > 1 {
            lemma_on_file(pawns, n - 2);
        }
    } else {
        lemma_chosen_empty(starts);
    }
}

/// Whether a pawn of the same side stands on a file next to a square's.
pub open spec fn has_neighbour(pawns: u64, p: int) -> bool {
    exists|q: int| 0 <= q < 64 && #[trigger] bit(pawns, q) && (q % 8 == p % 8 + 1 || q % 8 == p % 8
        - 1)
}

/// The isolated pawns are those without a pawn of their own side on a
/// neighbouring file.
pub proof fn law_isolated_pawns_have_no_neighbour(pawns: u64, n: int)
    requires
        0 <= n <= 64,
    ensures
        isolated_below(pawns, n) == chosen(
            |p: int| bit(pawns, p) && !has_neighbour(pawns, p),
            n,
        ).len(),
    decreases n,
{
    let alone = |p: int| bit(pawns, p) && !has_neighbour(pawns, p);
    if n > 0 {
        law_isolated_pawns_have_no_neighbour(pawns, n - 1);
        lemma_chosen_step(alone, n);
        lemma_isolated(pawns, n - 1);
    } else {
        lemma_chosen_empty(alone);
    }
}

proof fn lemma_isolated(pawns: u64, p: int)
    requires
        0 <= p < 64,
    ensures
        isolated(pawns, p) == !has_neighbour(pawns, p),
{
    let file = p % 8;
    if file > 0 {
        lemma_on_file(pawns, file - 1);
    }
    if file < 7 {
        lemma_on_file(pawns, file + 1);
    }
    if has_neighbour(pawns, p) {
        let q = choose|q: int|
            0 <= q < 64 && #[trigger] bit(pawns, q) && (q % 8 == p % 8 + 1 || q % 8 == p % 8 - 1);
        assert(file_has(pawns, q % 8));
    }
}

/// The passed pawns are those with no enemy pawn in front of them.
pub proof fn law_passed_pawns_are_counted(our: u64, their: u64, side: Side, n: int)
    requires
        0 <= n <= 64,
    ensures
        passed_below(our, their, side, n) == chosen(
            |p: int|
                bit(our, p) && forall|q: int|
                    0 <= q < 64 && #[trigger] bit(their, q) ==> !in_front(side, p, q),
            n,
        ).len(),
    decreases n,
{
    let free = |p: int|
        bit(our, p) && forall|q: int|
            0 <= q < 64 && #[trigger] bit(their, q) ==> !in_front(side, p, q);
    if n > 0 {
        law_passed_pawns_are_counted(our, their, side, n - 1);
        lemma_chosen_step(free, n);
        law_passed_has_none_in_front(their, side, n - 1);
    } else {
        lemma_chosen_empty(free);
    }
}

/// Whether a square lies on a file next to another's, level with it or nearer
/// to the side's own first rank.
pub open spec fn beside_or_behind(side: Side, p: int, q: int) -> bool {
    &&& q % 8 == p % 8 + 1 || q % 8 == p % 8 - 1
    &&& if side is White {
        q / 8 >= p / 8
    } else {
        q / 8 <= p / 8
    }
}

/// A pawn that can still advance is backward where no pawn of its own side
/// stands on a neighbouring file level with it or behind it, and an enemy pawn
/// stands right beside it.
#[verifier::rlimit(60)]
pub proof fn law_backward_pawns(our: u64, their: u64, side: Side, p: int)
    requires
        0 <= p < 64,
        side is White ==> p >= 8,
        !(side is White) ==> p < 56,
    ensures
        backward(our, their, side, p) <==> {
            &&& forall|q: int| 0 <= q < 64 && #[trigger] bit(our, q) ==> !beside_or_behind(side, p, q)
            &&& exists|q: int|
                0 <= q < 64 && #[trigger] bit(their, q) && q / 8 == p / 8 && (q == p + 1 || q == p
                    - 1)
        },
{
    let row = p / 8;
    let file = p % 8;
    let stop = stop_square(side, p);
    assert(stop % 8 == file);
    assert(watched(their, side, stop) == beside(their, file, row, row + 1));
    lemma_beside(our, file, behind_from(side, row), behind_to(side, row));
    lemma_beside(their, file, row, row + 1);
    let here = exists|q: int|
        0 <= q < 64 && #[trigger] bit(their, q) && row <= q / 8 < row + 1 && (q % 8 == file + 1 || q
            % 8 == file - 1);
    if here {
        let q = choose|q: int|
            0 <= q < 64 && #[trigger] bit(their, q) && row <= q / 8 < row + 1 && (q % 8 == file + 1
                || q % 8 == file - 1);
        assert(q / 8 == p / 8 && (q == p + 1 || q == p - 1));
    }
    if exists|q: int|
        0 <= q < 64 && #[trigger] bit(their, q) && q / 8 == p / 8 && (q == p + 1 || q == p - 1) {
        let q = choose|q: int|
            0 <= q < 64 && #[trigger] bit(their, q) && q / 8 == p / 8 && (q == p + 1 || q == p - 1);
        assert(row <= q / 8 < row + 1 && (q % 8 == file + 1 || q % 8 == file - 1));
    }
    let from = behind_from(side, row);
    let to = behind_to(side, row);
    let backed = exists|q: int|
        0 <= q < 64 && #[trigger] bit(our, q) && from <= q / 8 < to && (q % 8 == file + 1 || q % 8
            == file - 1);
    if backed {
        let q = choose|q: int|
            0 <= q < 64 && #[trigger] bit(our, q) && from <= q / 8 < to && (q % 8 == file + 1 || q
                % 8 == file - 1);
        assert(beside_or_behind(side, p, q));
    }
    if exists|q: int| 0 <= q < 64 && #[trigger] bit(our, q) && beside_or_behind(side, p, q) {
        let q = choose|q: int|
            0 <= q < 64 && #[trigger] bit(our, q) && beside_or_behind(side, p, q);
        assert(from <= q / 8 < to);
        assert(backed);
    }
}

proof fn lemma_beside(pawns: u64, file: int, from: int, to: int)
    requires
        0 <= file < 8,
        0 <= from,
        to <= 8,
    ensures
        beside(pawns, file, from, to) == exists|q: int|
            0 <= q < 64 && #[trigger] bit(pawns, q) && from <= q / 8 < to && (q % 8 == file + 1 || q
                % 8 == file - 1),
{
    if beside(pawns, file, from, to) {
        let f = if file > 0 && pawn_in(pawns, file - 1, from, to) {
            file - 1
        } else {
            file + 1
        };
        let row = choose|row: int| from <= row < to && bit(pawns, #[trigger] square(row, f));
        let q = square(row, f);
        assert(bit(pawns, q) && 0 <= q < 64 && q / 8 == row && q % 8 == f);
    }
    if exists|q: int|
        0 <= q < 64 && #[trigger] bit(pawns, q) && from <= q / 8 < to && (q % 8 == file + 1 || q % 8
            == file - 1) {
        let q = choose|q: int|
            0 <= q < 64 && #[trigger] bit(pawns, q) && from <= q / 8 < to && (q % 8 == file + 1 || q
                % 8 == file - 1);
        assert(q == square(q / 8, q % 8));
        assert(pawn_in(pawns, q % 8, from, to));
    }
}

/// The backward pawns of a side are all those that are backward.
pub proof fn law_backward_pawns_are_counted(our: u64, their: u64, side: Side, n: int)
    requires
        0 <= n <= 64,
    ensures
        backward_below(our, their, side, n) == chosen(
            |p: int| bit(our, p) && backward(our, their, side, p),
            n,
        ).len(),
    decreases n,
{
    let weak = |p: int| bit(our, p) && backward(our, their, side, p);
    if n > 0 {
        law_backward_pawns_are_counted(our, their, side, n - 1);
        lemma_chosen_step(weak, n);
    } else {
        lemma_chosen_empty(weak);
    }
}

/// Files are counted by which sides have a pawn on them.
pub proof fn law_files_are_counted(wp: u64, bp: u64, white: bool, black: bool, n: int)
    requires
        0 <= n <= 8,
    ensures
        files_with(wp, bp, white, black, n) == chosen(
            |f: int| file_has(wp, f) == white && file_has(bp, f) == black,
            n,
        ).len(),
    decreases n,
{
    let fits = |f: int| file_has(wp, f) == white && file_has(bp, f) == black;
    if n > 0 {
        law_files_are_counted(wp, bp, white, black, n - 1);
        lemma_chosen_step(fits, n);
        lemma_on_file(wp, n - 1);
        lemma_on_file(bp, n - 1);
    } else {
        lemma_chosen_empty(fits);
    }
}

/// Whether the pawn on a row is the one on its file that is nearest to its own
/// side's first rank.
pub open spec fn is_home_pawn(pawns: u64, side: Side, file: int, row: int) -> bool {
    &&& 0 <= row < 8
    &&& bit(pawns, 8 * row + file)
    &&& forall|other: int|
        0 <= other < 8 && #[trigger] bit(pawns, square(other, file)) ==> if side is White {
            other <= row
        } else {
            other >= row
        }
}

/// The pawn that shelters a king on a file is the one nearest to its own side's
/// first rank.
pub proof fn law_home_row_is_nearest(pawns: u64, side: Side, file: int, row: int)
    requires
        0 <= file < 8,
        is_home_pawn(pawns, side, file, row),
    ensures
        home_row(pawns, side, file, 8) == row,
{
    assert(bit(pawns, square(row, file)));
    let k = if side is White {
        row + 1
    } else {
        8 - row
    };
    lemma_home_row(pawns, side, file, row, k, 8);
}

proof fn lemma_home_row(pawns: u64, side: Side, file: int, row: int, k: int, n: int)
    requires
        0 <= file < 8,
        is_home_pawn(pawns, side, file, row),
        k == if side is White {
            row + 1
        } else {
            8 - row
        },
        k <= n <= 8,
    ensures
        home_row(pawns, side, file, n) == row,
    decreases n,
{
    assert(bit(pawns, square(row, file)));
    if n > k {
        let other = if side is White {
            n - 1
        } else {
            8 - n
        };
        assert(!bit(pawns, square(other, file)));
        lemma_home_row(pawns, side, file, row, k, n - 1);
    }
}

/// The shelter of a file: none without a pawn, three points where its home pawn
/// is within one row of the king, two where it is farther away.
pub proof fn law_near_pawns_shelter_more(
    near: u64,
    far: u64,
    none: u64,
    side: Side,
    king_row: int,
    file: int,
    near_row: int,
    far_row: int,
)
    requires
        0 <= file < 8,
        is_home_pawn(near, side, file, near_row),
        -1 <= near_row - king_row <= 1,
        is_home_pawn(far, side, file, far_row),
        far_row - king_row > 1 || king_row - far_row > 1,
        !file_has(none, file),
    ensures
        file_shelter(near, side, king_row, file) > file_shelter(far, side, king_row, file)
            > file_shelter(none, side, king_row, file),
        file_shelter(near, side, king_row, file) == 3,
        file_shelter(far, side, king_row, file) == 2,
        file_shelter(none, side, king_row, file) == 0,
{
    law_home_row_is_nearest(near, side, file, near_row);
    law_home_row_is_nearest(far, side, file, far_row);
    assert(bit(near, square(near_row, file)));
    assert(bit(far, square(far_row, file)));
    assert(on_file(near, file));
    assert(on_file(far, file));
    lemma_on_file(none, file);
}

/// Whether the home pawn of a file is within one row of a king.
pub open spec fn pawn_is_near(pawns: u64, side: Side, file: int, king_row: int) -> bool {
    exists|row: int|
        #[trigger] is_home_pawn(pawns, side, file, row) && -1 <= row - king_row <= 1
}

/// Three pawns within a row of the king, on its own and both neighbouring
/// files, give the largest shelter; no pawns on these files give none. Pawns on
/// other files do not matter.
#[verifier::rlimit(60)]
pub proof fn law_full_shelter(pawns: u64, other: u64, side: Side, king: int)
    requires
        0 <= king < 64,
    ensures
        0 <= shelter(pawns, side, king) <= 9,
        (forall|f: int|
            0 <= f < 8 && -1 <= f - king % 8 <= 1 ==> #[trigger] pawn_is_near(
                pawns,
                side,
                f,
                king / 8,
            )) ==> shelter(pawns, side, king) == if king % 8 == 0 || king % 8 == 7 {
            6int
        } else {
            9int
        },
        (forall|f: int| 0 <= f < 8 && -1 <= f - king % 8 <= 1 ==> !#[trigger] file_has(pawns, f))
            ==> shelter(pawns, side, king) == 0,
        (forall|f: int|
            0 <= f < 8 && -1 <= f - king % 8 <= 1 ==> #[trigger] file_shelter(
                pawns,
                side,
                king / 8,
                f,
            ) == file_shelter(other, side, king / 8, f)) ==> shelter(pawns, side, king) == shelter(
            other,
            side,
            king,
        ),
{
    let file = king % 8;
    let row = king / 8;
    lemma_full_file(pawns, side, row, file);
    if file > 0 {
        lemma_full_file(pawns, side, row, file - 1);
        assert(file_shelter(pawns, side, row, file - 1) >= 0);
    }
    if file < 7 {
        lemma_full_file(pawns, side, row, file + 1);
        assert(file_shelter(pawns, side, row, file + 1) >= 0);
    }
    if forall|f: int|
        0 <= f < 8 && -1 <= f - king % 8 <= 1 ==> #[trigger] pawn_is_near(
            pawns,
            side,
            f,
            king / 8,
        ) {
        assert(pawn_is_near(pawns, side, file, row));
        assert(file > 0 ==> pawn_is_near(pawns, side, file - 1, row));
        assert(file < 7 ==> pawn_is_near(pawns, side, file + 1, row));
        assert(file_shelter(pawns, side, row, file) == 3);
        assert(file > 0 ==> file_shelter(pawns, side, row, file - 1) == 3);
        assert(file < 7 ==> file_shelter(pawns, side, row, file + 1) == 3);
    }
    if forall|f: int|
        0 <= f < 8 && -1 <= f - king % 8 <= 1 ==> #[trigger] file_shelter(
            pawns,
            side,
            king / 8,
            f,
        ) == file_shelter(other, side, king / 8, f) {
        assert(file_shelter(pawns, side, row, file) == file_shelter(other, side, row, file));
        assert(file > 0 ==> file_shelter(pawns, side, row, file - 1) == file_shelter(
            other,
            side,
            row,
            file - 1,
        ));
        assert(file < 7 ==> file_shelter(pawns, side, row, file + 1) == file_shelter(
            other,
            side,
            row,
            file + 1,
        ));
    }
}

proof fn lemma_full_file(pawns: u64, side: Side, king_row: int, file: int)
    requires
        0 <= file < 8,
    ensures
        pawn_is_near(pawns, side, file, king_row) ==> file_shelter(pawns, side, king_row, file)
            == 3,
        !file_has(pawns, file) ==> file_shelter(pawns, side, king_row, file) == 0,
        0 <= file_shelter(pawns, side, king_row, file) <= 3,
{
    lemma_on_file(pawns, file);
    if pawn_is_near(pawns, side, file, king_row) {
        let row = choose|row: int|
            #[trigger] is_home_pawn(pawns, side, file, row) && -1 <= row - king_row <= 1;
        law_home_row_is_nearest(pawns, side, file, row);
        assert(bit(pawns, square(row, file)));
    }
}

/// The shelter is that of the king on the lowest square; without a king there
/// is none.
pub proof fn law_shelter_of_the_king(kings: u64, pawns: u64, side: Side, king: int)
    requires
        0 <= king < 64,
        bit(kings, king),
        forall|s: int| 0 <= s < king ==> !#[trigger] bit(kings, s),
    ensures
        shelter_of(kings, pawns, side) == shelter(pawns, side, king),
        shelter_of(0, pawns, side) == 0,
{
    if kings == 0 {
        lemma_bit_ops(0, 0, king);
    }
    vstd::std_specs::bits::axiom_u64_trailing_zeros(kings);
    let t = vstd::std_specs::bits::u64_trailing_zeros(kings) as int;
    assert(bit(kings, t));
    if king < t {
        let j = king as u64;
        assert((kings >> j) & 1u64 == 0u64);
    }
}

/// Whether a pawn of a side stands on a square of a board.
pub open spec fn pawn_at(board: &BoardState, side: int, q: int) -> bool {
    bit(board.pieces@[0], q) && bit(board.occupancies@[side], q)
}

/// A snapshot counts each side's own pawns and bishops: White's are the pieces
/// on White's squares, Black's those on Black's.
#[verifier::rlimit(60)]
pub proof fn law_snapshot_tells_sides_apart(board: &BoardState, r: StrategicSnapshot)
    requires
        shows_structure(r, board),
    ensures
        r.white_isolated_pawns == chosen(
            |p: int|
                pawn_at(board, 0, p) && !exists|q: int|
                    0 <= q < 64 && #[trigger] pawn_at(board, 0, q) && (q % 8 == p % 8 + 1 || q % 8
                        == p % 8 - 1),
            64,
        ).len(),
        r.black_isolated_pawns == chosen(
            |p: int|
                pawn_at(board, 1, p) && !exists|q: int|
                    0 <= q < 64 && #[trigger] pawn_at(board, 1, q) && (q % 8 == p % 8 + 1 || q % 8
                        == p % 8 - 1),
            64,
        ).len(),
        r.white_passed_pawns == chosen(
            |p: int|
                pawn_at(board, 0, p) && forall|q: int|
                    0 <= q < 64 && #[trigger] pawn_at(board, 1, q) ==> q / 8 >= p / 8 || q % 8 > p
                        % 8 + 1 || q % 8 < p % 8 - 1,
            64,
        ).len(),
        r.black_passed_pawns == chosen(
            |p: int|
                pawn_at(board, 1, p) && forall|q: int|
                    0 <= q < 64 && #[trigger] pawn_at(board, 0, q) ==> q / 8 <= p / 8 || q % 8 > p
                        % 8 + 1 || q % 8 < p % 8 - 1,
            64,
        ).len(),
        r.white_bishop_pair <==> chosen(
            |s: int| bit(board.pieces@[2], s) && bit(board.occupancies@[0], s),
            64,
        ).len() >= 2,
        r.black_bishop_pair <==> chosen(
            |s: int| bit(board.pieces@[2], s) && bit(board.occupancies@[1], s),
            64,
        ).len() >= 2,
{
    lemma_isolated_of_side(board, Side::White, 0);
    lemma_isolated_of_side(board, Side::Black, 1);
    lemma_passed_of_side(board, Side::White);
    lemma_passed_of_side(board, Side::Black);
    lemma_bishops_of_side(board, Side::White);
    lemma_bishops_of_side(board, Side::Black);
}

proof fn lemma_pawns_of(board: &BoardState, side: Side, c: int)
    requires
        !(side is Both),
        c == side as int,
    ensures
        forall|q: int|
            0 <= q < 64 ==> #[trigger] bit(board.pieces_of(side, Piece::Pawn), q) == pawn_at(
                board,
                c,
                q,
            ),
        forall|q: int|
            0 <= q < 64 ==> bit(board.pieces_of(side, Piece::Pawn), q) == #[trigger] pawn_at(
                board,
                c,
                q,
            ),
{
    assert forall|q: int| 0 <= q < 64 implies #[trigger] bit(
        board.pieces_of(side, Piece::Pawn),
        q,
    ) == pawn_at(board, c, q) by {
        lemma_bit_ops(board.pieces@[0], board.occupancies@[c], q);
    }
}

#[verifier::rlimit(60)]
proof fn lemma_isolated_of_side(board: &BoardState, side: Side, c: int)
    requires
        !(side is Both),
        c == side as int,
    ensures
        isolated_below(board.pieces_of(side, Piece::Pawn), 64) == chosen(
            |p: int|
                pawn_at(board, c, p) && !exists|q: int|
                    0 <= q < 64 && #[trigger] pawn_at(board, c, q) && (q % 8 == p % 8 + 1
                        || q % 8 == p % 8 - 1),
            64,
        ).len(),
{
    let pawns = board.pieces_of(side, Piece::Pawn);
    let a = |p: int| bit(pawns, p) && !has_neighbour(pawns, p);
    let b = |p: int|
        pawn_at(board, c, p) && !exists|q: int|
            0 <= q < 64 && #[trigger] pawn_at(board, c, q) && (q % 8 == p % 8 + 1 || q % 8
                == p % 8 - 1);
    law_isolated_pawns_have_no_neighbour(pawns, 64);
    lemma_pawns_of(board, side, c);
    assert forall|p: int| 0 <= p < 64 implies #[trigger] a(p) == b(p) by {
        if has_neighbour(pawns, p) {
            let q = choose|q: int|
                0 <= q < 64 && #[trigger] bit(pawns, q) && (q % 8 == p % 8 + 1 || q % 8 == p % 8
                    - 1);
            assert(pawn_at(board, c, q));
        }
        if exists|q: int|
            0 <= q < 64 && #[trigger] pawn_at(board, c, q) && (q % 8 == p % 8 + 1 || q % 8
                == p % 8 - 1) {
            let q = choose|q: int|
                0 <= q < 64 && #[trigger] pawn_at(board, c, q) && (q % 8 == p % 8 + 1 || q
                    % 8 == p % 8 - 1);
            assert(bit(pawns, q));
        }
    }
    lemma_chosen_same(a, b, 64);
}

#[verifier::rlimit(60)]
proof fn lemma_passed_of_side(board: &BoardState, side: Side)
    requires
        !(side is Both),
    ensures
        side is White ==> passed_below(
            board.pieces_of(Side::White, Piece::Pawn),
            board.pieces_of(Side::Black, Piece::Pawn),
            Side::White,
            64,
        ) == chosen(
            |p: int|
                pawn_at(board, 0, p) && forall|q: int|
                    0 <= q < 64 && #[trigger] pawn_at(board, 1, q) ==> q / 8 >= p / 8 || q % 8 > p
                        % 8 + 1 || q % 8 < p % 8 - 1,
            64,
        ).len(),
        side is Black ==> passed_below(
            board.pieces_of(Side::Black, Piece::Pawn),
            board.pieces_of(Side::White, Piece::Pawn),
            Side::Black,
            64,
        ) == chosen(
            |p: int|
                pawn_at(board, 1, p) && forall|q: int|
                    0 <= q < 64 && #[trigger] pawn_at(board, 0, q) ==> q / 8 <= p / 8 || q % 8 > p
                        % 8 + 1 || q % 8 < p % 8 - 1,
            64,
        ).len(),
{
    lemma_pawns_of(board, Side::White, 0);
    lemma_pawns_of(board, Side::Black, 1);
    let wp = board.pieces_of(Side::White, Piece::Pawn);
    let bp = board.pieces_of(Side::Black, Piece::Pawn);
    law_passed_pawns_are_counted(wp, bp, Side::White, 64);
    law_passed_pawns_are_counted(bp, wp, Side::Black, 64);
    let a = |p: int|
        bit(wp, p) && forall|q: int|
            0 <= q < 64 && #[trigger] bit(bp, q) ==> !in_front(Side::White, p, q);
    let b = |p: int|
        pawn_at(board, 0, p) && forall|q: int|
            0 <= q < 64 && #[trigger] pawn_at(board, 1, q) ==> q / 8 >= p / 8 || q % 8 > p % 8 + 1
                || q % 8 < p % 8 - 1;
    let c = |p: int|
        bit(bp, p) && forall|q: int|
            0 <= q < 64 && #[trigger] bit(wp, q) ==> !in_front(Side::Black, p, q);
    let d = |p: int|
        pawn_at(board, 1, p) && forall|q: int|
            0 <= q < 64 && #[trigger] pawn_at(board, 0, q) ==> q / 8 <= p / 8 || q % 8 > p % 8 + 1
                || q % 8 < p % 8 - 1;
    assert forall|p: int| 0 <= p < 64 implies #[trigger] a(p) == b(p) by {
        assert forall|q: int| 0 <= q < 64 implies #[trigger] bit(bp, q) == pawn_at(board, 1, q) by {}
        if a(p) {
            assert forall|q: int| 0 <= q < 64 && #[trigger] pawn_at(board, 1, q) implies q / 8 >= p
                / 8 || q % 8 > p % 8 + 1 || q % 8 < p % 8 - 1 by {
                assert(bit(bp, q));
            }
        }
        if b(p) {
            assert forall|q: int| 0 <= q < 64 && #[trigger] bit(bp, q) implies !in_front(
                Side::White,
                p,
                q,
            ) by {
                assert(pawn_at(board, 1, q));
            }
        }
    }
    assert forall|p: int| 0 <= p < 64 implies #[trigger] c(p) == d(p) by {
        if c(p) {
            assert forall|q: int| 0 <= q < 64 && #[trigger] pawn_at(board, 0, q) implies q / 8 <= p
                / 8 || q % 8 > p % 8 + 1 || q % 8 < p % 8 - 1 by {
                assert(bit(wp, q));
            }
        }
        if d(p) {
            assert forall|q: int| 0 <= q < 64 && #[trigger] bit(wp, q) implies !in_front(
                Side::Black,
                p,
                q,
            ) by {
                assert(pawn_at(board, 0, q));
            }
        }
    }
    lemma_chosen_same(a, b, 64);
    lemma_chosen_same(c, d, 64);
}

proof fn lemma_bishops_of_side(board: &BoardState, side: Side)
    requires
        !(side is Both),
    ensures
        pop(board.pieces_of(side, Piece::Bishop)) == chosen(
            |s: int| bit(board.pieces@[2], s) && bit(board.occupancies@[side as int], s),
            64,
        ).len(),
{
    let set = board.pieces_of(side, Piece::Bishop);
    let a = |s: int| bit(set, s);
    let b = |s: int| bit(board.pieces@[2], s) && bit(board.occupancies@[side as int], s);
    law_size_counts_squares(set, 64);
    assert forall|s: int| 0 <= s < 64 implies #[trigger] a(s) == b(s) by {
        lemma_bit_ops(board.pieces@[2], board.occupancies@[side as int], s);
    }
    lemma_chosen_same(a, b, 64);
}

/// What a snapshot says of one side's pawns and king does not change with
/// anything else on the board, and a file is half open for the side that has no
/// pawn on it while the other has.
#[verifier::rlimit(60)]
pub proof fn law_snapshot_fields(
    board: &BoardState,
    r: StrategicSnapshot,
    other: &BoardState,
    t: StrategicSnapshot,
)
    requires
        shows_structure(r, board),
        shows_structure(t, other),
        board.pieces@[0] == other.pieces@[0],
        board.pieces@[5] == other.pieces@[5],
    ensures
        board.occupancies@[0] == other.occupancies@[0] ==> r.white_pawn_islands
            == t.white_pawn_islands && r.white_king_shelter == t.white_king_shelter,
        board.occupancies@[1] == other.occupancies@[1] ==> r.black_pawn_islands
            == t.black_pawn_islands && r.black_king_shelter == t.black_king_shelter,
        ({
            let wp = board.pieces@[0] & board.occupancies@[0];
            let bp = board.pieces@[0] & board.occupancies@[1];
            &&& r.white_backward_pawns == chosen(
                |p: int| bit(wp, p) && backward(wp, bp, Side::White, p),
                64,
            ).len()
            &&& r.black_backward_pawns == chosen(
                |p: int| bit(bp, p) && backward(bp, wp, Side::Black, p),
                64,
            ).len()
            &&& r.open_files == chosen(|f: int| !file_has(wp, f) && !file_has(bp, f), 8).len()
            &&& r.white_semi_open_files == chosen(
                |f: int| !file_has(wp, f) && file_has(bp, f),
                8,
            ).len()
            &&& r.black_semi_open_files == chosen(
                |f: int| file_has(wp, f) && !file_has(bp, f),
                8,
            ).len()
        }),
{
    let wp = board.pieces@[0] & board.occupancies@[0];
    let bp = board.pieces@[0] & board.occupancies@[1];
    law_backward_pawns_are_counted(wp, bp, Side::White, 64);
    law_backward_pawns_are_counted(bp, wp, Side::Black, 64);
    law_files_are_counted(wp, bp, false, false, 8);
    law_files_are_counted(wp, bp, false, true, 8);
    law_files_are_counted(wp, bp, true, false, 8);
    lemma_chosen_same(
        |f: int| file_has(wp, f) == false && file_has(bp, f) == false,
        |f: int| !file_has(wp, f) && !file_has(bp, f),
        8,
    );
    lemma_chosen_same(
        |f: int| file_has(wp, f) == false && file_has(bp, f) == true,
        |f: int| !file_has(wp, f) && file_has(bp, f),
        8,
    );
    lemma_chosen_same(
        |f: int| file_has(wp, f) == true && file_has(bp, f) == false,
        |f: int| file_has(wp, f) && !file_has(bp, f),
        8,
    );
}

} // verus!
