//! How well the opponent can defend, escape and consolidate.

use vstd::prelude::*;

use crate::bits::{bit, lemma_bit_ops};
use crate::board::{BoardState, Move, Piece, Side, Square};
use crate::math::{clamp, clamp_i32, is_quotient, min};
use crate::opponent::plans::{
    available_pawn_breaks, countable, counted_moves, defenders_of, protections_below,
};

verus! {

#[derive(Debug, Clone, Copy, PartialEq, Eq, Default)]
pub struct OpponentModel {
    pub counterplay_capacity: i32,
    pub defense_capacity: i32,
    pub escape_capacity: u32,
    pub consolidation_risk: i32,
    pub freedom: u32,
    pub pawn_breaks: u32,
}

/// Defenders of the king of the side to move.
pub open spec fn king_defenders(board: &BoardState) -> int {
    let kings = board.pieces_of(board.side_to_move, Piece::King);
    if kings == 0 {
        0
    } else {
        protections_below(
            board,
            board.side_to_move,
            vstd::std_specs::bits::u64_trailing_zeros(kings) as int,
            64,
        )
    }
}

/// Capacity to defend: king defenders and freedom of movement.
pub open spec fn defense_of(board: &BoardState, freedom: u32) -> int {
    clamp(king_defenders(board) * 15 + freedom as int / 4, 0, 150)
}

/// Capacity to escape: moves that are no pawn breaks.
pub open spec fn escape_of(freedom: u32, pawn_breaks: u32) -> int {
    if freedom <= pawn_breaks {
        0
    } else {
        min(freedom - pawn_breaks, 40)
    }
}

/// Whether a model is that of a position.
pub open spec fn models(
    r: OpponentModel,
    board: &BoardState,
    moves: Seq<(Move, bool)>,
    cpi: i32,
    freedom: u32,
) -> bool {
    &&& r.pawn_breaks == counted_moves(board, moves, Piece::Pawn, true, moves.len() as int)
    &&& r.counterplay_capacity == cpi
    &&& r.defense_capacity == defense_of(board, freedom)
    &&& r.escape_capacity == escape_of(freedom, r.pawn_breaks)
    &&& r.consolidation_risk == clamp(
        defense_of(board, freedom) / 2 + escape_of(freedom, r.pawn_breaks) * 2,
        0,
        150,
    )
    &&& r.freedom == freedom
}

/// The model of the side to move, from its generated moves with their
/// legality, its counterplay and its freedom.
pub fn evaluate_opponent(
    board: &BoardState,
    moves: &[(Move, bool)],
    cpi: i32,
    freedom: u32,
) -> (r: OpponentModel)
    requires
        !(board.side_to_move is Both),
        countable(moves@),
        freedom <= i32::MAX,
    ensures
        models(r, board, moves@, cpi, freedom),
{
    let pawn_breaks: u32 = available_pawn_breaks(board, moves);
    let k_defenders: i32 = match board.get_king_square_safe(board.side_to_move) {
        Some(sq) => defenders_of(board, sq, board.side_to_move) as i32,
        None => 0,
    };
    let defense_capacity: i32 = clamp_i32(k_defenders * 15 + (freedom / 4) as i32, 0, 150);
    let spare: u32 = freedom.saturating_sub(pawn_breaks);
    let escape_capacity: u32 = if spare < 40 {
        spare
    } else {
        40
    };
    let consolidation_risk: i32 = clamp_i32(
        (defense_capacity / 2) + (escape_capacity as i32 * 2),
        0,
        150,
    );
    OpponentModel {
        counterplay_capacity: cpi,
        defense_capacity,
        escape_capacity,
        consolidation_risk,
        freedom,
        pawn_breaks,
    }
}

impl BoardState {
    /// The first king of a side, if it has one.
    pub fn get_king_square_safe(&self, side: Side) -> (r: Option<Square>)
        requires
            !(side is Both),
        ensures
            r is None <==> self.pieces_of(side, Piece::King) == 0,
            r matches Some(sq) ==> !(sq is NoSquare) && sq as int
                == vstd::std_specs::bits::u64_trailing_zeros(self.pieces_of(side, Piece::King)),
    {
        let bb: u64 = self.get_pieces(side, Piece::King);
        if bb == 0 {
            return None;
        }
        proof {
            vstd::std_specs::bits::axiom_u64_trailing_zeros(bb);
        }
        Some(Square::from_index(bb.trailing_zeros() as usize))
    }
}

/// What the model says: 15 points of defence for every defender of the king and
/// one for every four free moves, at most 150; an escape for every free move
/// beyond the pawn breaks, at most 40; half the defence and twice the escapes as
/// the risk of consolidation, at most 150.
#[verifier::rlimit(60)]
pub proof fn law_model_value(
    r: OpponentModel,
    board: &BoardState,
    moves: Seq<(Move, bool)>,
    cpi: i32,
    freedom: u32,
    quarter: int,
    half: int,
)
    requires
        models(r, board, moves, cpi, freedom),
        is_quotient(freedom as int, 4, quarter),
        is_quotient(r.defense_capacity as int, 2, half),
        king_defenders(board) >= 0,
    ensures
        15 * king_defenders(board) + quarter <= 150 ==> r.defense_capacity == 15 * king_defenders(
            board,
        ) + quarter,
        15 * king_defenders(board) + quarter > 150 ==> r.defense_capacity == 150,
        freedom <= r.pawn_breaks ==> r.escape_capacity == 0,
        r.pawn_breaks <= freedom <= r.pawn_breaks + 40 ==> r.escape_capacity == freedom
            - r.pawn_breaks,
        freedom >= r.pawn_breaks + 40 ==> r.escape_capacity == 40,
        half + 2 * r.escape_capacity <= 150 ==> r.consolidation_risk == half + 2
            * r.escape_capacity,
        half + 2 * r.escape_capacity > 150 ==> r.consolidation_risk == 150,
        r.counterplay_capacity == cpi && r.freedom == freedom,
{
}

/// The king whose defenders count is that of the side to move, on its lowest
/// square.
pub proof fn law_own_king_is_defended(board: &BoardState, king: int)
    requires
        !(board.side_to_move is Both),
        0 <= king < 64,
        ({
            let own = board.occupancies@[board.side_to_move as int];
            &&& bit(board.pieces@[5], king) && bit(own, king)
            &&& forall|s: int|
                0 <= s < king ==> !(#[trigger] bit(board.pieces@[5], s) && bit(own, s))
        }),
    ensures
        king_defenders(board) == protections_below(board, board.side_to_move, king, 64),
{
    let own = board.occupancies@[board.side_to_move as int];
    let kings = board.pieces@[5] & own;
    lemma_bit_ops(board.pieces@[5], own, king);
    lemma_bit_ops(0, 0, king);
    vstd::std_specs::bits::axiom_u64_trailing_zeros(kings);
    let t = vstd::std_specs::bits::u64_trailing_zeros(kings) as int;
    assert(bit(kings, t));
    if t < king {
        lemma_bit_ops(board.pieces@[5], own, t);
        assert(!(bit(board.pieces@[5], t) && bit(own, t)));
    }
    if king < t {
        let j = king as u64;
        assert((kings >> j) & 1u64 == 0u64);
    }
}

} // verus!
