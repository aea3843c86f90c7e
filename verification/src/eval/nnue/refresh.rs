//! The sums of the small network that a position asks for, and bringing those
//! of the newest ply up to date.

use vstd::prelude::*;

use crate::bits::{bit, is_set, lemma_xor64};
use crate::board::{BoardState, Piece, Side, Square};
use crate::eval::nnue::accumulator::{lane_weight, Accumulator};
use crate::eval::nnue::features::{get_feature_index, piece_feature};
use crate::eval::nnue::loader::Network;
use crate::math::{lemma_wrap16_step, wrap16};

verus! {

/// The side of a piece as one perspective sees it: its own pieces are White's.
pub open spec fn seen_side(view: Side, white: bool) -> Side {
    if white == (view is White) {
        Side::White
    } else {
        Side::Black
    }
}

/// Feature of a piece as one perspective sees it: Black sees the ranks in
/// reverse order.
pub open spec fn seen_feature(view: Side, white: bool, piece: Piece, s: int) -> int {
    seen_side(view, white) as int * 384 + piece as int * 64 + if view is White {
        ((s as usize) ^ 56) as int
    } else {
        s
    }
}

/// Weights that the pieces on the squares below `n` add to one lane.
pub open spec fn lane_total(
    mapping: Seq<Piece>,
    white: u64,
    black: u64,
    network: &Network,
    view: Side,
    lane: int,
    n: int,
) -> int
    decreases n,
{
    if n <= 0 {
        0
    } else {
        lane_total(mapping, white, black, network, view, lane, n - 1) + if !(mapping[n
            - 1] is NoPiece) && (bit(white, n - 1) || bit(black, n - 1)) {
            lane_weight(
                network,
                seen_feature(view, bit(white, n - 1), mapping[n - 1], n - 1),
                lane,
            )
        } else {
            0
        }
    }
}

/// The sum of one lane for a position: the bias and the weights of all pieces.
pub open spec fn fresh_lane(board: &BoardState, network: &Network, view: Side, lane: int) -> int {
    wrap16(
        network.transformer_biases@[lane] + lane_total(
            board.piece_mapping@,
            board.occupancies@[0],
            board.occupancies@[1],
            network,
            view,
            lane,
            64,
        ),
    )
}

/// All sums of one perspective for a position.
pub open spec fn fresh_state(board: &BoardState, network: &Network, view: Side) -> Seq<i16> {
    Seq::new(256, |j: int| fresh_lane(board, network, view, j) as i16)
}

/// Whether the small network has a place for the sums of the newest ply.
pub open spec fn summed(board: &BoardState) -> bool {
    &&& board.history.index < board.history.accumulators.len()
    &&& board.history.index < board.history.computed.len()
}

/// Whether the sums of the newest ply are those of the position.
pub open spec fn accurate(board: &BoardState, network: &Network) -> bool {
    let a = board.history.accumulators@[board.history.index as int];
    &&& a.white.state@ == fresh_state(board, network, Side::White)
    &&& a.black.state@ == fresh_state(board, network, Side::Black)
}

/// Whether the mark of the newest ply tells the truth: marked sums are those of
/// the position. Sums without a mark may be anything.
pub open spec fn honest(board: &BoardState, network: &Network) -> bool {
    board.history.computed@[board.history.index as int] ==> accurate(board, network)
}

/// The sums of the newest ply were brought up to date where they were not;
/// nothing else changed.
pub open spec fn sums_ensured(before: &BoardState, after: &BoardState, network: &Network) -> bool {
    let idx = before.history.index as int;
    &&& after.same_position(before)
    &&& after.history.same_v16(&before.history)
    &&& accurate(after, network)
    &&& if before.history.computed@[idx] {
        after.history == before.history
    } else {
        &&& after.history.computed@ == before.history.computed@.update(idx, true)
        &&& after.history.accumulators@ == before.history.accumulators@.update(
            idx,
            after.history.accumulators@[idx],
        )
    }
}

/// Sums the pieces of a position for one perspective.
fn sum_pieces(board: &BoardState, network: &Network, view: Side) -> (r: Accumulator)
    requires
        network.wf(),
        !(view is Both),
    ensures
        r.state@ == fresh_state(board, network, view),
{
    let mut acc: Accumulator = Accumulator::new();
    acc.init_with_biases(network);
    let ghost mapping = board.piece_mapping@;
    let ghost white = board.occupancies@[0];
    let ghost black = board.occupancies@[1];
    let mut s: usize = 0;
    while s < 64
        invariant
            s <= 64,
            network.wf(),
            !(view is Both),
            mapping == board.piece_mapping@,
            white == board.occupancies@[0],
            black == board.occupancies@[1],
            forall|j: int|
                0 <= j < 256 ==> #[trigger] acc.state@[j] == wrap16(
                    network.transformer_biases@[j] + lane_total(
                        mapping,
                        white,
                        black,
                        network,
                        view,
                        j,
                        s as int,
                    ),
                ),
        decreases 64 - s,
    {
        let piece: Piece = board.piece_mapping[s];
        let is_white: bool = is_set(board.occupancies[0], s);
        let occupied: bool = is_white || is_set(board.occupancies[1], s);
        if piece != Piece::NoPiece && occupied {
            let seen: Side = if is_white == (view == Side::White) {
                Side::White
            } else {
                Side::Black
            };
            let sq: usize = if view == Side::White {
                s
            } else {
                s ^ 56
            };
            proof {
                lemma_xor64(s, 56);
            }
            if let Some(f) = get_feature_index(piece, seen, Square::from_index(sq)) {
                let ghost before = acc.state@;
                assert(f == seen_feature(view, bit(white, s as int), mapping[s as int], s as int));
                acc.add_feature(f, network);
                proof {
                    assert forall|j: int| 0 <= j < 256 implies #[trigger] acc.state@[j] == wrap16(
                        network.transformer_biases@[j] + lane_total(
                            mapping,
                            white,
                            black,
                            network,
                            view,
                            j,
                            s + 1,
                        ),
                    ) by {
                        let x = network.transformer_biases@[j] + lane_total(
                            mapping,
                            white,
                            black,
                            network,
                            view,
                            j,
                            s as int,
                        );
                        assert(before[j] == wrap16(x));
                        lemma_wrap16_step(x, lane_weight(network, f as int, j));
                    }
                }
            }
        }
        s = s + 1;
    }
    assert(acc.state@ =~= fresh_state(board, network, view));
    acc
}

impl BoardState {
    /// Sums one perspective of the newest ply from scratch and marks the ply.
    /// Where it had no mark, the other perspective is summed as well.
    pub fn refresh_accumulator(&mut self, side: Side, network: &Network)
        requires
            network.wf(),
            summed(old(self)),
            !(side is Both),
        ensures
            final(self).same_position(old(self)),
            final(self).history.same_v16(&old(self).history),
            ({
                let idx = old(self).history.index as int;
                let marked = old(self).history.computed@[idx];
                let a = final(self).history.accumulators@[idx];
                let b = old(self).history.accumulators@[idx];
                &&& final(self).history.computed@ == old(self).history.computed@.update(idx, true)
                &&& final(self).history.accumulators@ == old(self).history.accumulators@.update(idx, a)
                &&& if side is White || !marked {
                    a.white.state@ == fresh_state(old(self), network, Side::White)
                } else {
                    a.white == b.white
                }
                &&& if side is Black || !marked {
                    a.black.state@ == fresh_state(old(self), network, Side::Black)
                } else {
                    a.black == b.black
                }
            }),
            honest(old(self), network) ==> accurate(final(self), network),
    {
        let idx: usize = self.history.index;
        let marked: bool = self.history.computed[idx];
        if side == Side::White || !marked {
            let white: Accumulator = sum_pieces(self, network, Side::White);
            self.history.accumulators[idx].white = white;
        }
        if side == Side::Black || !marked {
            let black: Accumulator = sum_pieces(self, network, Side::Black);
            self.history.accumulators[idx].black = black;
        }
        self.history.computed[idx] = true;
        proof {
            lemma_fresh_state_same(old(self), self, network, Side::White);
            lemma_fresh_state_same(old(self), self, network, Side::Black);
            assert(self.history.accumulators@ =~= old(self).history.accumulators@.update(
                idx as int,
                self.history.accumulators@[idx as int],
            ));
            if honest(old(self), network) {
                let a = self.history.accumulators@[idx as int];
                assert(marked ==> accurate(old(self), network));
                assert(a.white.state@ == fresh_state(self, network, Side::White));
                assert(a.black.state@ == fresh_state(self, network, Side::Black));
            }
        }
    }

    /// Brings the sums of the newest ply up to date, unless they are marked so.
    pub fn ensure_accumulators_fresh(&mut self, network: &Network)
        requires
            network.wf(),
            summed(old(self)),
            honest(old(self), network),
        ensures
            sums_ensured(old(self), final(self), network),
            summed(final(self)),
            honest(final(self), network),
    {
        let idx: usize = self.history.index;
        if !self.history.computed[idx] {
            self.refresh_accumulator(Side::White, network);
        }
    }
}

/// The sums of a position depend on the position alone.
pub proof fn lemma_fresh_state_same(a: &BoardState, b: &BoardState, network: &Network, view: Side)
    requires
        a.same_position(b),
    ensures
        fresh_state(a, network, view) == fresh_state(b, network, view),
{
    assert(fresh_state(a, network, view) =~= fresh_state(b, network, view));
}

/// A board that was just changed claims nothing of its sums, so it can be scored
/// with any network.
pub proof fn law_changed_board_is_honest(before: &BoardState, after: &BoardState, network: &Network)
    requires
        summed(after),
        after.history.unmarked(&before.history),
    ensures
        honest(after, network),
{
}

/// Sums that are up to date stay so: bringing them up to date again changes
/// nothing.
pub proof fn law_ensuring_twice_is_once(
    before: &BoardState,
    once: &BoardState,
    twice: &BoardState,
    network: &Network,
)
    requires
        summed(before),
        sums_ensured(before, once, network),
        sums_ensured(once, twice, network),
    ensures
        *twice == *once,
{
}

/// Whether two placements have the same piece, or none, on a square.
pub open spec fn agree_on(
    mapping: Seq<Piece>,
    white: u64,
    black: u64,
    mapping2: Seq<Piece>,
    white2: u64,
    black2: u64,
    s: int,
) -> bool {
    mapping[s] == mapping2[s] && bit(white, s) == bit(white2, s) && bit(black, s) == bit(black2, s)
}

/// Two placements that agree below `n` ask for the same weights there.
proof fn lemma_lane_total_same(
    mapping: Seq<Piece>,
    white: u64,
    black: u64,
    mapping2: Seq<Piece>,
    white2: u64,
    black2: u64,
    network: &Network,
    view: Side,
    lane: int,
    n: int,
)
    requires
        forall|s: int|
            0 <= s < n ==> #[trigger] agree_on(mapping, white, black, mapping2, white2, black2, s),
    ensures
        lane_total(mapping, white, black, network, view, lane, n) == lane_total(
            mapping2,
            white2,
            black2,
            network,
            view,
            lane,
            n,
        ),
    decreases n,
{
    if n > 0 {
        lemma_lane_total_same(
            mapping,
            white,
            black,
            mapping2,
            white2,
            black2,
            network,
            view,
            lane,
            n - 1,
        );
        assert(agree_on(mapping, white, black, mapping2, white2, black2, n - 1));
    }
}

/// A piece on a square adds the weight of its feature to a lane.
proof fn lemma_lane_follows_a_piece(
    mapping: Seq<Piece>,
    white: u64,
    black: u64,
    mapping2: Seq<Piece>,
    white2: u64,
    black2: u64,
    network: &Network,
    view: Side,
    lane: int,
    s: int,
    n: int,
)
    requires
        0 <= s < n,
        forall|t: int|
            0 <= t < n && t != s ==> #[trigger] agree_on(
                mapping,
                white,
                black,
                mapping2,
                white2,
                black2,
                t,
            ),
        mapping[s] is NoPiece || !(bit(white, s) || bit(black, s)),
        !(mapping2[s] is NoPiece),
        bit(white2, s) || bit(black2, s),
    ensures
        lane_total(mapping2, white2, black2, network, view, lane, n) == lane_total(
            mapping,
            white,
            black,
            network,
            view,
            lane,
            n,
        ) + lane_weight(network, seen_feature(view, bit(white2, s), mapping2[s], s), lane),
    decreases n,
{
    if s == n - 1 {
        lemma_lane_total_same(
            mapping,
            white,
            black,
            mapping2,
            white2,
            black2,
            network,
            view,
            lane,
            n - 1,
        );
    } else {
        lemma_lane_follows_a_piece(
            mapping,
            white,
            black,
            mapping2,
            white2,
            black2,
            network,
            view,
            lane,
            s,
            n - 1,
        );
        assert(agree_on(mapping, white, black, mapping2, white2, black2, n - 1));
    }
}

/// Sums can be moved on with the pieces: adding the feature of a piece that
/// appears on an empty square gives the sums of the new position, and taking
/// away that of a piece that leaves gives those without it.
pub proof fn law_sums_follow_a_piece(
    bare: &BoardState,
    filled: &BoardState,
    network: &Network,
    view: Side,
    s: int,
    lane: int,
)
    requires
        0 <= s < 64,
        0 <= lane < 256,
        forall|t: int|
            0 <= t < 64 && t != s ==> #[trigger] agree_on(
                bare.piece_mapping@,
                bare.occupancies@[0],
                bare.occupancies@[1],
                filled.piece_mapping@,
                filled.occupancies@[0],
                filled.occupancies@[1],
                t,
            ),
        bare.piece_mapping@[s] is NoPiece || !(bit(bare.occupancies@[0], s) || bit(
            bare.occupancies@[1],
            s,
        )),
        !(filled.piece_mapping@[s] is NoPiece),
        bit(filled.occupancies@[0], s) || bit(filled.occupancies@[1], s),
    ensures
        ({
            let white = bit(filled.occupancies@[0], s);
            let weight = lane_weight(
                network,
                seen_feature(view, white, filled.piece_mapping@[s], s),
                lane,
            );
            let without = fresh_state(bare, network, view)[lane];
            let sum = fresh_state(filled, network, view)[lane];
            sum == wrap16(without + weight) && without == wrap16(sum - weight)
        }),
{
    lemma_lane_follows_a_piece(
        bare.piece_mapping@,
        bare.occupancies@[0],
        bare.occupancies@[1],
        filled.piece_mapping@,
        filled.occupancies@[0],
        filled.occupancies@[1],
        network,
        view,
        lane,
        s,
        64,
    );
    let white = bit(filled.occupancies@[0], s);
    let weight = lane_weight(
        network,
        seen_feature(view, white, filled.piece_mapping@[s], s),
        lane,
    );
    let x = network.transformer_biases@[lane] + lane_total(
        bare.piece_mapping@,
        bare.occupancies@[0],
        bare.occupancies@[1],
        network,
        view,
        lane,
        64,
    );
    lemma_wrap16_step(x, weight);
    lemma_wrap16_step(x + weight, weight);
}

/// The feature that a perspective sees is the one of the piece, its side as
/// seen, and its square: for Black the square with its rank mirrored.
pub proof fn law_seen_feature(view: Side, white: bool, piece: Piece, sq: Square, flipped: Square)
    requires
        !(view is Both),
        !(sq is NoSquare),
        !(piece is NoPiece),
        flipped as int == ((sq as usize) ^ 56) as int,
    ensures
        seen_feature(view, white, piece, sq as int) == piece_feature(
            piece,
            seen_side(view, white),
            if view is White {
                sq
            } else {
                flipped
            },
        ),
        0 <= seen_feature(view, white, piece, sq as int) < 768,
{
    lemma_xor64(sq as usize, 56);
}

/// The two perspectives are alike: Black sees a piece where White would see a
/// piece of the other colour on the square with its rank mirrored.
pub proof fn law_perspectives_are_alike(white: bool, piece: Piece, s: int)
    requires
        0 <= s < 64,
    ensures
        seen_feature(Side::Black, white, piece, s) == seen_feature(
            Side::White,
            !white,
            piece,
            ((s as usize) ^ 56) as int,
        ),
        seen_side(Side::White, true) is White && seen_side(Side::White, false) is Black,
        seen_side(Side::Black, true) is Black && seen_side(Side::Black, false) is White,
{
    lemma_xor64(s as usize, 56);
}

/// A position without pieces has the biases as its sums.
pub proof fn law_empty_board_has_the_biases(
    board: &BoardState,
    network: &Network,
    view: Side,
    lane: int,
)
    requires
        0 <= lane < 256,
        network.wf(),
        forall|s: int|
            0 <= s < 64 ==> #[trigger] board.piece_mapping@[s] is NoPiece || !(bit(
                board.occupancies@[0],
                s,
            ) || bit(board.occupancies@[1], s)),
    ensures
        fresh_state(board, network, view)[lane] == network.transformer_biases@[lane],
{
    lemma_lane_total_empty(
        board.piece_mapping@,
        board.occupancies@[0],
        board.occupancies@[1],
        network,
        view,
        lane,
        64,
    );
}

proof fn lemma_lane_total_empty(
    mapping: Seq<Piece>,
    white: u64,
    black: u64,
    network: &Network,
    view: Side,
    lane: int,
    n: int,
)
    requires
        n <= 64,
        forall|s: int|
            0 <= s < 64 ==> #[trigger] mapping[s] is NoPiece || !(bit(white, s) || bit(black, s)),
    ensures
        lane_total(mapping, white, black, network, view, lane, n) == 0,
    decreases n,
{
    if n > 0 {
        lemma_lane_total_empty(mapping, white, black, network, view, lane, n - 1);
        let m = mapping[n - 1];
    }
}

} // verus!
