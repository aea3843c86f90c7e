//! Input features of the small network.

use vstd::prelude::*;

use crate::bits::lemma_xor64;
use crate::board::{Piece, Side, Square};

verus! {

pub const PIECE_FEATURES: usize = 768;

pub const HALFMOVE_BUCKETS: usize = 4;

pub const REPETITION_BUCKETS: usize = 3;

pub const CASTLING_PROGRESS_FEATURES: usize = 2;

pub const TOTAL_FEATURES: usize = 777;

pub const HALFMOVE_BASE: usize = 768;

pub const REPETITION_BASE: usize = 772;

pub const CASTLING_BASE: usize = 775;

pub const NO_PROGRESS_HALFMOVE: u8 = 50;

/// Feature of a piece on a square: one block per side, one plane per kind,
/// squares from the first rank up.
pub open spec fn piece_feature(piece: Piece, relative_side: Side, square: Square) -> int {
    relative_side as int * 384 + piece as int * 64 + ((square as usize) ^ 56) as int
}

pub fn get_feature_index(piece: Piece, relative_side: Side, square: Square) -> (r: Option<usize>)
    ensures
        r is None <==> piece is NoPiece,
        r matches Some(i) ==> i == piece_feature(piece, relative_side, square),
{
    if piece == Piece::NoPiece {
        return None;
    }
    let side_offset: usize = (relative_side as usize) * 384;
    let piece_offset: usize = (piece as usize) * 64;
    let s: usize = square as usize;
    assert((s ^ 56) < 128) by (bit_vector)
        requires
            s <= 64,
    ;
    let sq: usize = s ^ 56;
    Some(side_offset + piece_offset + sq)
}

/// Every piece of a side on a square of the board has a feature of its own.
pub proof fn law_piece_feature_injective(
    p1: Piece,
    s1: Side,
    q1: Square,
    p2: Piece,
    s2: Side,
    q2: Square,
)
    requires
        !(p1 is NoPiece),
        !(p2 is NoPiece),
        !(s1 is Both),
        !(s2 is Both),
        !(q1 is NoSquare),
        !(q2 is NoSquare),
    ensures
        0 <= piece_feature(p1, s1, q1) < PIECE_FEATURES,
        piece_feature(p1, s1, q1) == piece_feature(p2, s2, q2) ==> p1 == p2 && s1 == s2 && q1 == q2,
{
    lemma_xor64(q1 as usize, 56);
    lemma_xor64(q2 as usize, 56);
    let a = (q1 as usize) ^ 56;
    let b = (q2 as usize) ^ 56;
    if piece_feature(p1, s1, q1) == piece_feature(p2, s2, q2) {
        assert(a == b);
        assert(q1 as usize == q2 as usize);
    }
}

/// Bucket of the halfmove clock: one for every 25 moves, four in all.
pub open spec fn halfmove_bucket_spec(halfmove: u8) -> int {
    if halfmove as int / 25 > 3 {
        3
    } else {
        halfmove as int / 25
    }
}

pub fn halfmove_bucket(halfmove: u8) -> (r: usize)
    ensures
        r == halfmove_bucket_spec(halfmove),
        r < HALFMOVE_BUCKETS,
{
    let b: usize = (halfmove as usize) / 25;
    if b > HALFMOVE_BUCKETS - 1 {
        HALFMOVE_BUCKETS - 1
    } else {
        b
    }
}

pub fn halfmove_feature_index(halfmove: u8) -> (r: usize)
    ensures
        r == HALFMOVE_BASE + halfmove_bucket_spec(halfmove),
{
    HALFMOVE_BASE + halfmove_bucket(halfmove)
}

/// Bucket of a repetition count: none, one, more.
pub open spec fn repetition_bucket_spec(count: u8) -> int {
    if count > 2 {
        2
    } else {
        count as int
    }
}

pub fn repetition_bucket(count: u8) -> (r: usize)
    ensures
        r == repetition_bucket_spec(count),
        r < REPETITION_BUCKETS,
{
    let c: usize = count as usize;
    if c > REPETITION_BUCKETS - 1 {
        REPETITION_BUCKETS - 1
    } else {
        c
    }
}

pub fn repetition_feature_index(count: u8) -> (r: usize)
    ensures
        r == REPETITION_BASE + repetition_bucket_spec(count),
{
    REPETITION_BASE + repetition_bucket(count)
}

pub fn castling_feature_index() -> (r: usize)
    ensures
        r == CASTLING_BASE,
{
    CASTLING_BASE
}

pub fn no_progress_feature_index() -> (r: usize)
    ensures
        r == CASTLING_BASE + 1,
{
    CASTLING_BASE + 1
}

pub fn castling_active(has_rights: bool) -> (r: Option<usize>)
    ensures
        r == (if has_rights {
            Some(CASTLING_BASE)
        } else {
            None
        }),
{
    if has_rights {
        Some(castling_feature_index())
    } else {
        None
    }
}

pub fn no_progress_active(halfmove: u8) -> (r: Option<usize>)
    ensures
        r == (if halfmove >= NO_PROGRESS_HALFMOVE {
            Some((CASTLING_BASE + 1) as usize)
        } else {
            None
        }),
{
    if halfmove >= NO_PROGRESS_HALFMOVE {
        Some(no_progress_feature_index())
    } else {
        None
    }
}

/// The features of a position beyond its pieces, in order.
pub open spec fn aux_features(halfmove: u8, repetitions: u8, has_castling: bool) -> Seq<int> {
    let always = seq![
        HALFMOVE_BASE + halfmove_bucket_spec(halfmove),
        REPETITION_BASE + repetition_bucket_spec(repetitions),
    ];
    let castling = if has_castling {
        always.push(CASTLING_BASE as int)
    } else {
        always
    };
    if halfmove >= NO_PROGRESS_HALFMOVE {
        castling.push(CASTLING_BASE + 1)
    } else {
        castling
    }
}

/// Writes the features beyond the pieces to `out` and returns their number.
pub fn aux_feature_indices(
    halfmove: u8,
    repetitions: u8,
    has_castling: bool,
    out: &mut [usize; 4],
) -> (n: usize)
    ensures
        n == aux_features(halfmove, repetitions, has_castling).len(),
        forall|i: int|
            0 <= i < n ==> #[trigger] final(out)@[i] == aux_features(
                halfmove,
                repetitions,
                has_castling,
            )[i],
        forall|i: int| n <= i < 4 ==> #[trigger] final(out)@[i] == old(out)@[i],
{
    out[0] = halfmove_feature_index(halfmove);
    out[1] = repetition_feature_index(repetitions);
    let mut n: usize = 2;
    if let Some(idx) = castling_active(has_castling) {
        out[n] = idx;
        n = n + 1;
    }
    if let Some(idx) = no_progress_active(halfmove) {
        out[n] = idx;
        n = n + 1;
    }
    n
}

/// The features beyond the pieces are distinct, ascending and past the piece
/// features.
pub proof fn law_aux_features_ascend(halfmove: u8, repetitions: u8, has_castling: bool)
    ensures
        2 <= aux_features(halfmove, repetitions, has_castling).len() <= 4,
        forall|i: int|
            0 <= i < aux_features(halfmove, repetitions, has_castling).len() ==> PIECE_FEATURES
                <= #[trigger] aux_features(halfmove, repetitions, has_castling)[i]
                < TOTAL_FEATURES,
        forall|i: int, j: int|
            0 <= i < j < aux_features(halfmove, repetitions, has_castling).len()
                ==> #[trigger] aux_features(halfmove, repetitions, has_castling)[i]
                < #[trigger] aux_features(halfmove, repetitions, has_castling)[j],
{
}

/// The features of one piece of one side follow the squares from the first rank
/// up and from left to right: one more for each file, eight for each rank, 64
/// for each kind of piece, 384 for the other side.
pub proof fn law_piece_feature_follows_the_board(piece: Piece, side: Side, square: Square)
    requires
        !(piece is NoPiece),
        !(side is Both),
        !(square is NoSquare),
    ensures
        ({
            let file = square as int % 8;
            let rank = 7 - square as int / 8;
            piece_feature(piece, side, square) == 384 * (side as int) + 64 * (piece as int) + 8
                * rank + file
        }),
{
    let s = square as usize;
    assert(s ^ 56 == 8 * (7 - s / 8) + s % 8) by (bit_vector)
        requires
            s < 64,
    ;
}

/// The half-move bucket is the number of full 25s, up to three, and that of
/// repetitions their number, up to two.
pub proof fn law_clock_buckets(halfmove: u8, count: u8, b: int)
    requires
        0 <= b <= 3,
    ensures
        b < 3 ==> (halfmove_bucket_spec(halfmove) == b <==> 25 * b <= halfmove < 25 * b + 25),
        halfmove_bucket_spec(halfmove) == 3 <==> halfmove >= 75,
        count <= 2 ==> repetition_bucket_spec(count) == count,
        count >= 2 ==> repetition_bucket_spec(count) == 2,
{
}

/// Which features beyond the pieces are active: one for the half-move clock,
/// one for repetitions, one for castling rights, and one where nothing has
/// happened for 50 half-moves.
pub proof fn law_aux_features_active(halfmove: u8, repetitions: u8, has_castling: bool)
    ensures
        ({
            let list = aux_features(halfmove, repetitions, has_castling);
            &&& list[0] == 768 + halfmove_bucket_spec(halfmove)
            &&& list[1] == 772 + repetition_bucket_spec(repetitions)
            &&& list.contains(775) <==> has_castling
            &&& list.contains(776) <==> halfmove >= 50
        }),
{
    let list = aux_features(halfmove, repetitions, has_castling);
    if has_castling {
        assert(list[2] == 775);
    }
    if halfmove >= 50 {
        assert(list[list.len() - 1] == 776);
    }
}

} // verus!
