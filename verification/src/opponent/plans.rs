//! Moves and defenders the side to move can count on.

use vstd::prelude::*;

use crate::bits::{bit, chosen, lemma_bit_ops, lemma_chosen_empty, lemma_chosen_step, popcount};
use crate::board::{BoardState, Move, Piece, Side, Square};
use crate::eval::nnue::geometry::{
    king_attacks_sf, king_step, knight_attacks_sf, knight_step, pawn_attacks_sf, pawn_step,
    slider_attacks_sf, slider_hits,
};

verus! {

/// Whether a generated move counts: legal, by the piece asked for, and quiet
/// where captures are left out.
pub open spec fn counted_move(
    board: &BoardState,
    mv: Move,
    legal: bool,
    piece: Piece,
    non_captures_only: bool,
) -> bool {
    &&& legal
    &&& !(non_captures_only && mv.move_type.captures())
    &&& board.piece_mapping@[mv.source as int] == piece
}

/// How many of the first `n` generated moves count.
pub open spec fn counted_moves(
    board: &BoardState,
    moves: Seq<(Move, bool)>,
    piece: Piece,
    non_captures_only: bool,
    n: int,
) -> int
    decreases n,
{
    if n <= 0 {
        0
    } else {
        counted_moves(board, moves, piece, non_captures_only, n - 1) + if counted_move(
            board,
            moves[n - 1].0,
            moves[n - 1].1,
            piece,
            non_captures_only,
        ) {
            1int
        } else {
            0int
        }
    }
}

/// Generated moves start on the board and are not too many to count.
pub open spec fn countable(moves: Seq<(Move, bool)>) -> bool {
    &&& moves.len() <= u32::MAX
    &&& forall|i: int| 0 <= i < moves.len() ==> !((#[trigger] moves[i]).0.source is NoSquare)
}

fn count_piece_moves(
    board: &BoardState,
    moves: &[(Move, bool)],
    piece: Piece,
    non_captures_only: bool,
) -> (r: u32)
    requires
        countable(moves@),
    ensures
        r == counted_moves(board, moves@, piece, non_captures_only, moves.len() as int),
{
    let mut n: u32 = 0;
    let mut i: usize = 0;
    while i < moves.len()
        invariant
            i <= moves.len(),
            countable(moves@),
            n <= i,
            n == counted_moves(board, moves@, piece, non_captures_only, i as int),
        decreases moves.len() - i,
    {
        let m: (Move, bool) = moves[i];
        assert(!(moves@[i as int].0.source is NoSquare));
        if m.1 && !(non_captures_only && m.0.is_capture()) && board.piece_mapping[m.0.source as usize]
            == piece {
            n = n + 1;
        }
        i = i + 1;
    }
    n
}

/// Pawn advances available, among the generated moves with their legality.
pub fn available_pawn_breaks(board: &BoardState, moves: &[(Move, bool)]) -> (r: u32)
    requires
        countable(moves@),
    ensures
        r == counted_moves(board, moves@, Piece::Pawn, true, moves.len() as int),
{
    count_piece_moves(board, moves, Piece::Pawn, true)
}

/// Knight moves available, among the generated moves with their legality.
pub fn knight_routes(board: &BoardState, moves: &[(Move, bool)]) -> (r: u32)
    requires
        countable(moves@),
    ensures
        r == counted_moves(board, moves@, Piece::Knight, false, moves.len() as int),
{
    count_piece_moves(board, moves, Piece::Knight, false)
}

/// Ways in which the piece on `from` protects `s`: a square listed under
/// several kinds counts once for each.
pub open spec fn protections(board: &BoardState, side: Side, from: int, s: int) -> int {
    let occ = board.occupancies@[0] | board.occupancies@[1];
    (if bit(board.pieces_of(side, Piece::Pawn), from) && pawn_step(side is White, s, from) {
        1int
    } else {
        0int
    }) + (if bit(board.pieces_of(side, Piece::Knight), from) && knight_step(s, from) {
        1int
    } else {
        0int
    }) + (if bit(board.pieces_of(side, Piece::King), from) && king_step(s, from) {
        1int
    } else {
        0int
    }) + (if (bit(board.pieces_of(side, Piece::Bishop), from) || bit(
        board.pieces_of(side, Piece::Queen),
        from,
    )) && slider_hits(3, s, from, occ) {
        1int
    } else {
        0int
    }) + (if (bit(board.pieces_of(side, Piece::Rook), from) || bit(
        board.pieces_of(side, Piece::Queen),
        from,
    )) && slider_hits(4, s, from, occ) {
        1int
    } else {
        0int
    })
}

/// Protections of `s` from the squares below `n`.
pub open spec fn protections_below(board: &BoardState, side: Side, s: int, n: int) -> int
    decreases n,
{
    if n <= 0 {
        0
    } else {
        protections_below(board, side, s, n - 1) + protections(board, side, n - 1, s)
    }
}

/// Five sets counted together are five conditions counted square by square.
proof fn lemma_counts(
    board: &BoardState,
    side: Side,
    s: int,
    p: u64,
    k: u64,
    g: u64,
    b: u64,
    r: u64,
    n: int,
)
    requires
        0 <= n <= 64,
        forall|t: int|
            0 <= t < 64 ==> #[trigger] protections(board, side, t, s) == (if bit(p, t) {
                1int
            } else {
                0int
            }) + (if bit(k, t) {
                1int
            } else {
                0int
            }) + (if bit(g, t) {
                1int
            } else {
                0int
            }) + (if bit(b, t) {
                1int
            } else {
                0int
            }) + (if bit(r, t) {
                1int
            } else {
                0int
            }),
    ensures
        protections_below(board, side, s, n) == crate::bits::count_below_spec(p, n)
            + crate::bits::count_below_spec(k, n) + crate::bits::count_below_spec(g, n)
            + crate::bits::count_below_spec(b, n) + crate::bits::count_below_spec(r, n),
    decreases n,
{
    if n > 0 {
        lemma_counts(board, side, s, p, k, g, b, r, n - 1);
        let x = protections(board, side, n - 1, s);
    }
}

/// Pieces of one side that protect a square.
pub fn defenders_of(board: &BoardState, sq: Square, side: Side) -> (r: u32)
    requires
        !(sq is NoSquare),
        !(side is Both),
    ensures
        r == protections_below(board, side, sq as int, 64),
        r <= 320,
{
    let s: usize = sq as usize;
    let occ: u64 = board.occupancy();
    let queens: u64 = board.get_pieces(side, Piece::Queen);
    let bishops: u64 = board.get_pieces(side, Piece::Bishop);
    let rooks: u64 = board.get_pieces(side, Piece::Rook);
    let pawns: u64 = board.get_pieces(side, Piece::Pawn);
    let knights: u64 = board.get_pieces(side, Piece::Knight);
    let kings: u64 = board.get_pieces(side, Piece::King);
    let ap: u64 = pawn_attacks_sf(side, s);
    let ak: u64 = knight_attacks_sf(s);
    let ag: u64 = king_attacks_sf(s);
    let ab: u64 = slider_attacks_sf(3, s, occ);
    let ar: u64 = slider_attacks_sf(4, s, occ);
    let p: u64 = pawns & ap;
    let k: u64 = knights & ak;
    let g: u64 = kings & ag;
    let b: u64 = ab & (bishops | queens);
    let r: u64 = ar & (rooks | queens);
    proof {
        assert forall|t: int| 0 <= t < 64 implies #[trigger] protections(board, side, t, s as int)
            == (if bit(p, t) {
            1int
        } else {
            0int
        }) + (if bit(k, t) {
            1int
        } else {
            0int
        }) + (if bit(g, t) {
            1int
        } else {
            0int
        }) + (if bit(b, t) {
            1int
        } else {
            0int
        }) + (if bit(r, t) {
            1int
        } else {
            0int
        }) by {
            lemma_bit_ops(pawns, ap, t);
            lemma_bit_ops(knights, ak, t);
            lemma_bit_ops(kings, ag, t);
            lemma_bit_ops(bishops, queens, t);
            lemma_bit_ops(rooks, queens, t);
            lemma_bit_ops(ab, bishops | queens, t);
            lemma_bit_ops(ar, rooks | queens, t);
        }
        lemma_counts(board, side, s as int, p, k, g, b, r, 64);
    }
    popcount(p) + popcount(k) + popcount(g) + popcount(b) + popcount(r)
}

/// The moves counted are the legal ones of the piece asked for, without the
/// captures where they are left out.
pub proof fn law_moves_are_counted(
    board: &BoardState,
    moves: Seq<(Move, bool)>,
    piece: Piece,
    quiet: bool,
    n: int,
)
    requires
        0 <= n <= moves.len(),
    ensures
        counted_moves(board, moves, piece, quiet, n) == chosen(
            |i: int|
                moves[i].1 && board.piece_mapping@[moves[i].0.source as int] == piece && !(quiet
                    && moves[i].0.move_type.captures()),
            n,
        ).len(),
    decreases n,
{
    let fits = |i: int|
        moves[i].1 && board.piece_mapping@[moves[i].0.source as int] == piece && !(quiet
            && moves[i].0.move_type.captures());
    if n > 0 {
        law_moves_are_counted(board, moves, piece, quiet, n - 1);
        lemma_chosen_step(fits, n);
    } else {
        lemma_chosen_empty(fits);
    }
}

/// A piece of one kind defends a square where it could move to it: a pawn from
/// one rank behind, a knight by a jump, a king by a step, a bishop, a rook or a
/// queen along a free line. No other piece defends anything.
#[verifier::rlimit(60)]
pub proof fn law_defender(board: &BoardState, side: Side, from: int, s: int, kind: Piece)
    requires
        0 <= from < 64,
        0 <= s < 64,
        !(side is Both),
        !(kind is NoPiece),
        forall|k: Piece|
            !(k is NoPiece) ==> #[trigger] bit(board.pieces_of(side, k), from) == (k == kind),
    ensures
        ({
            let occ = board.occupancies@[0] | board.occupancies@[1];
            let one = |yes: bool|
                if yes {
                    1int
                } else {
                    0int
                };
            &&& kind is Pawn ==> protections(board, side, from, s) == one(
                pawn_step(side is White, s, from),
            )
            &&& kind is Knight ==> protections(board, side, from, s) == one(knight_step(s, from))
            &&& kind is King ==> protections(board, side, from, s) == one(king_step(s, from))
            &&& kind is Bishop ==> protections(board, side, from, s) == one(
                slider_hits(3, s, from, occ),
            )
            &&& kind is Rook ==> protections(board, side, from, s) == one(
                slider_hits(4, s, from, occ),
            )
            &&& kind is Queen ==> protections(board, side, from, s) == one(
                slider_hits(3, s, from, occ),
            ) + one(slider_hits(4, s, from, occ))
        }),
{
    assert(bit(board.pieces_of(side, Piece::Pawn), from) == (kind == Piece::Pawn));
    assert(bit(board.pieces_of(side, Piece::Knight), from) == (kind == Piece::Knight));
    assert(bit(board.pieces_of(side, Piece::Bishop), from) == (kind == Piece::Bishop));
    assert(bit(board.pieces_of(side, Piece::Rook), from) == (kind == Piece::Rook));
    assert(bit(board.pieces_of(side, Piece::Queen), from) == (kind == Piece::Queen));
    assert(bit(board.pieces_of(side, Piece::King), from) == (kind == Piece::King));
}

/// Defenders are counted square by square.
pub proof fn law_defenders_add_up(board: &BoardState, side: Side, s: int, n: int)
    requires
        0 < n,
    ensures
        protections_below(board, side, s, 0) == 0,
        protections_below(board, side, s, n) - protections_below(board, side, s, n - 1)
            == protections(board, side, n - 1, s),
{
}

} // verus!
