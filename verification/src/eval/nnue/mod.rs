//! Scores from networks: the small network, the v16 network, and how the two
//! work together.

use vstd::prelude::*;

use crate::bits::{count_below_spec, pop, popcount};
use crate::board::{BoardState, Piece, Side};
use crate::eval::nnue::cache::{probe_eval_cache, slot_of, store_eval_cache, EvalCache};
use crate::eval::nnue::dcn::{conditioned, conditioned_on, DcnConfig, DcnModel};
use crate::eval::nnue::loader::Network;
use crate::eval::nnue::refresh::{
    accurate, fresh_state, honest, lemma_fresh_state_same, summed, sums_ensured,
};
use crate::eval::nnue::state::{maintenance_active, EvalState};
use crate::eval::nnue::v16::evaluate::{
    board_evaluated, evaluate_board_detailed, pairs_covered, SfnnEval,
};
use crate::eval::nnue::v16::position::{kings_present_spec, SfnnPosition};
use crate::math::{abs, clamp, clamp_i64, div_toward_zero, is_quotient, law_quotient};

pub mod accumulator;
pub mod arr;
pub mod cache;
pub mod dcn;
pub mod features;
pub mod geometry;
pub mod leb128;
pub mod loader;
pub mod refresh;
pub mod state;
pub mod threat_counts;
pub mod threat_tables;
pub mod v2;
pub mod v16;

verus! {

pub const ACC_SIZE: usize = 256;
pub const INPUT_SIZE: usize = 768;

pub const SCALE: i32 = 400;

/// Square of a sum clipped to a byte.
pub open spec fn screlu(x: int) -> int {
    clamp(x, 0, 255) * clamp(x, 0, 255)
}

/// Weighted sum of the first `n` squares of one perspective.
pub open spec fn side_sum(state: Seq<i16>, weights: Seq<i16>, base: int, n: int) -> int
    decreases n,
{
    if n <= 0 {
        0
    } else {
        side_sum(state, weights, base, n - 1) + screlu(state[n - 1] as int) * weights[base + n - 1]
    }
}

/// The sums of the side to move, or of the other side.
pub open spec fn sums_of(board: &BoardState, moving: bool) -> Seq<i16> {
    let a = board.history.accumulators@[board.history.index as int];
    if (board.side_to_move is White) == moving {
        a.white.state@
    } else {
        a.black.state@
    }
}

/// Score of the small network from the sums of the side to move and of the
/// other side.
pub open spec fn score_of_sums(own: Seq<i16>, other: Seq<i16>, network: &Network) -> int {
    let total = side_sum(own, network.output_weights@, 0, 256) + side_sum(
        other,
        network.output_weights@,
        256,
        256,
    );
    clamp(
        div_toward_zero((div_toward_zero(total, 255) + network.output_bias) * 400, 16_320),
        -29_000,
        29_000,
    )
}

/// Score of the small network from the sums kept for the newest ply.
pub open spec fn internal_score(board: &BoardState, network: &Network) -> int {
    score_of_sums(sums_of(board, true), sums_of(board, false), network)
}

/// Score of the small network for a position.
pub open spec fn position_score(board: &BoardState, network: &Network) -> int {
    let white = fresh_state(board, network, Side::White);
    let black = fresh_state(board, network, Side::Black);
    if board.side_to_move is White {
        score_of_sums(white, black, network)
    } else {
        score_of_sums(black, white, network)
    }
}

/// Sums that are those of the position give the score of the position.
pub proof fn law_accurate_sums_give_position_score(board: &BoardState, network: &Network)
    requires
        accurate(board, network),
    ensures
        internal_score(board, network) == position_score(board, network),
{
}

fn evaluate_side(state: &[i16; 256], weights: &Vec<i16>, base: usize) -> (r: i64)
    requires
        base + 256 <= weights.len(),
    ensures
        r == side_sum(state@, weights@, base as int, 256),
        -545_473_536_000 <= r <= 545_473_536_000,
{
    let mut output: i64 = 0;
    let mut i: usize = 0;
    while i < 256
        invariant
            i <= 256,
            base + 256 <= weights.len(),
            output == side_sum(state@, weights@, base as int, i as int),
            -2_130_739_200 * i <= output <= 2_130_739_200 * i,
        decreases 256 - i,
    {
        let val: i64 = clamp_i64(state[i] as i64, 0, 255);
        let w: i64 = weights[base + i] as i64;
        assert(0 <= val * val <= 65_025) by (nonlinear_arith)
            requires
                0 <= val <= 255,
        ;
        let square: i64 = val * val;
        assert(-2_130_739_200 <= square * w <= 2_130_739_200) by (nonlinear_arith)
            requires
                0 <= square <= 65_025,
                -32_768 <= w <= 32_767,
        ;
        output = output + square * w;
        i = i + 1;
    }
    output
}

/// Score of the small network for the side to move, from the sums of the
/// newest ply.
pub fn evaluate_internal(board: &BoardState, network: &Network) -> (r: i16)
    requires
        network.wf(),
        summed(board),
    ensures
        r == internal_score(board, network),
        -29_000 <= r <= 29_000,
{
    let idx: usize = board.history.index;
    let mut output: i64;
    if board.side_to_move == Side::White {
        output = evaluate_side(
            &board.history.accumulators[idx].white.state,
            &network.output_weights,
            0,
        ) + evaluate_side(
            &board.history.accumulators[idx].black.state,
            &network.output_weights,
            ACC_SIZE,
        );
    } else {
        output = evaluate_side(
            &board.history.accumulators[idx].black.state,
            &network.output_weights,
            0,
        ) + evaluate_side(
            &board.history.accumulators[idx].white.state,
            &network.output_weights,
            ACC_SIZE,
        );
    }
    output = output / 255;
    output = output + network.output_bias as i64;
    output = output * 400;
    output = output / (255 * 64);
    clamp_i64(output, -29_000, 29_000) as i16
}

/// Material on the board, both sides together.
pub open spec fn material_of(board: &BoardState) -> int {
    534 * pop(board.pieces@[0]) + pop(board.pieces@[1]) * 781 + pop(board.pieces@[2]) * 825 + pop(
        board.pieces@[3],
    ) * 1276 + pop(board.pieces@[4]) * 2538
}

fn material(board: &BoardState) -> (r: i64)
    ensures
        r == material_of(board),
        0 <= r <= 381_056,
{
    let pawn_cnt: i64 = popcount(board.pieces[0]) as i64;
    let knight_cnt: i64 = popcount(board.pieces[1]) as i64;
    let bishop_cnt: i64 = popcount(board.pieces[2]) as i64;
    let rook_cnt: i64 = popcount(board.pieces[3]) as i64;
    let queen_cnt: i64 = popcount(board.pieces[4]) as i64;
    let non_pawn_mat: i64 = knight_cnt * 781 + bishop_cnt * 825 + rook_cnt * 1276 + queen_cnt
        * 2538;
    534 * pawn_cnt + non_pawn_mat
}

/// A score scaled by material and optimism, damped by the move counter.
pub open spec fn scaled_score(score: int, optimism: int, material: int, halfmove: int) -> int {
    let v = score + div_toward_zero(score * material + optimism * 7675, 91_000);
    clamp(v - div_toward_zero(v * halfmove, 199), -29_000, 29_000)
}

/// Score of the small network for a position, scaled.
pub open spec fn fast_score(board: &BoardState, network: &Network, optimism: i32) -> int {
    scaled_score(
        position_score(board, network),
        optimism as int,
        material_of(board),
        board.half_move_clock as int,
    )
}

fn scale_score(score: i64, optimism: i64, mat: i64, halfmove: u8) -> (r: i16)
    requires
        -3_000_000_000_000 <= score <= 3_000_000_000_000,
        -930_000_000_000_000 <= optimism <= 930_000_000_000_000,
        0 <= mat <= 381_056,
    ensures
        r == scaled_score(score as int, optimism as int, mat as int, halfmove as int),
        -29_000 <= r <= 29_000,
{
    assert(-1_143_168_000_000_000_000 <= score * mat <= 1_143_168_000_000_000_000)
        by (nonlinear_arith)
        requires
            -3_000_000_000_000 <= score <= 3_000_000_000_000,
            0 <= mat <= 381_056,
    ;
    let v: i64 = score + (score * mat + optimism * 7675) / 91_000;
    let h: i64 = halfmove as i64;
    assert(-30_000_000_000_000_000 <= v * h <= 30_000_000_000_000_000) by (nonlinear_arith)
        requires
            -100_000_000_000_000 <= v <= 100_000_000_000_000,
            0 <= h <= 255,
    ;
    clamp_i64(v - v * h / 199, -29_000, 29_000) as i16
}

/// The fast score depends on the position alone, whatever sums are kept.
pub proof fn law_fast_score_of_position(
    a: &BoardState,
    b: &BoardState,
    network: &Network,
    optimism: i32,
)
    requires
        a.same_position(b),
    ensures
        position_score(a, network) == position_score(b, network),
        fast_score(a, network, optimism) == fast_score(b, network, optimism),
{
    lemma_fresh_state_same(a, b, network, Side::White);
    lemma_fresh_state_same(a, b, network, Side::Black);
}

/// Score of the small network for a position, scaled by material, optimism and
/// the move counter. Sums that are not up to date are brought so first.
pub fn evaluate_fast(board: &mut BoardState, network: &Network, optimism: i32) -> (r: i16)
    requires
        network.wf(),
        summed(old(board)),
        honest(old(board), network),
    ensures
        r == fast_score(old(board), network, optimism),
        -29_000 <= r <= 29_000,
        sums_ensured(old(board), final(board), network),
        summed(final(board)),
        honest(final(board), network),
{
    board.ensure_accumulators_fresh(network);
    proof {
        law_accurate_sums_give_position_score(board, network);
        law_fast_score_of_position(old(board), board, network, optimism);
    }
    let s: i16 = evaluate_internal(board, network);
    scale_score(s as i64, optimism as i64, material(board), board.half_move_clock)
}

/// Score of the v16 network, scaled: disagreement between its terms feeds the
/// optimism and shrinks the score.
pub open spec fn blended_score(board: &BoardState, psqt: int, positional: int, optimism: int) -> int {
    let complexity = abs(psqt - positional);
    let nnue = psqt + positional;
    scaled_score(
        nnue - div_toward_zero(nnue * complexity, 18_236),
        optimism + div_toward_zero(optimism * complexity, 476),
        material_of(board),
        board.half_move_clock as int,
    )
}

/// Scales an evaluation of the v16 network.
pub fn blend_eval(board: &BoardState, ev: &SfnnEval, optimism: i32) -> (r: i16)
    requires
        ev.in_scale(),
    ensures
        r == blended_score(board, ev.psqt as int, ev.positional as int, optimism as int),
        -29_000 <= r <= 29_000,
{
    let psqt: i64 = ev.psqt as i64;
    let positional: i64 = ev.positional as i64;
    let nnue: i64 = psqt + positional;
    let gap: i64 = psqt - positional;
    let complexity: i64 = if gap < 0 {
        -gap
    } else {
        gap
    };
    let o: i64 = optimism as i64;
    assert(-432_345_564_227_567_616 <= o * complexity <= 432_345_564_227_567_616)
        by (nonlinear_arith)
        requires
            -2_147_483_648 <= o <= 2_147_483_647,
            0 <= complexity <= 201_326_592,
    ;
    let opt: i64 = o + o * complexity / 476;
    assert(-40_532_396_646_334_464 <= nnue * complexity <= 40_532_396_646_334_464)
        by (nonlinear_arith)
        requires
            -201_326_592 <= nnue <= 201_326_592,
            0 <= complexity <= 201_326_592,
    ;
    let v: i64 = nnue - nnue * complexity / 18_236;
    scale_score(v, opt, material(board), board.half_move_clock)
}

/// What a state and a board must offer for an evaluation.
pub open spec fn evaluable_with(board: &BoardState, state: &EvalState) -> bool {
    &&& state.wf()
    &&& summed(board)
    &&& honest(board, &state.network)
    &&& !(board.side_to_move is Both)
    &&& state.nets matches Some(n) ==> {
        &&& !n.net.is_rudi
        &&& kings_present_spec(&SfnnPosition::of(board)) ==> board.history.covers()
            && pairs_covered(&SfnnPosition::of(board), &n.net)
    }
}

/// How an evaluation starts.
#[derive(Clone, Copy, Debug, PartialEq, Eq)]
pub enum EvalStart {
    /// The score was kept from before.
    Known(i16),
    /// The small network decides; the score is to be kept.
    Fast(i16),
    /// The v16 network is to be asked.
    AskNetwork,
}

/// Whether the small network alone decides.
pub open spec fn fast_decides(board: &BoardState, state: &EvalState, optimism: i32) -> bool {
    state.nets is None || (state.dual_net && abs(fast_score(board, &state.network, optimism))
        >= 380)
}

/// Whether an evaluation looks at the small network first.
pub open spec fn fast_is_asked(state: &EvalState) -> bool {
    state.nets is None || state.dual_net
}

/// What an evaluation does to the sums of the small network: where it asks it,
/// they are brought up to date.
pub open spec fn begun(before: &BoardState, after: &BoardState, state: &EvalState) -> bool {
    if fast_is_asked(state) {
        sums_ensured(before, after, &state.network)
    } else {
        *after == *before
    }
}

/// Starts an evaluation.
pub fn begin_evaluation(board: &mut BoardState, state: &EvalState, optimism: i32) -> (r: EvalStart)
    requires
        state.wf(),
        summed(old(board)),
        honest(old(board), &state.network),
    ensures
        match state.cache.lookup(old(board).board_hash, optimism, old(board).half_move_clock) {
            Some(hit) => r == EvalStart::Known(hit) && *final(board) == *old(board),
            None => {
                &&& begun(old(board), final(board), state)
                &&& if fast_decides(old(board), state, optimism) {
                    r matches EvalStart::Fast(v) && v == fast_score(
                        old(board),
                        &state.network,
                        optimism,
                    )
                } else {
                    r is AskNetwork
                }
            },
        },
        summed(final(board)),
        honest(final(board), &state.network),
        final(board).same_position(old(board)),
        final(board).history.same_v16(&old(board).history),
{
    if let Some(hit) = probe_eval_cache(
        &state.cache,
        board.board_hash,
        optimism,
        board.half_move_clock,
    ) {
        return EvalStart::Known(hit);
    }
    if !maintenance_active(state) {
        return EvalStart::Fast(evaluate_fast(board, &state.network, optimism));
    }
    if state.dual_net {
        let fast: i16 = evaluate_fast(board, &state.network, optimism);
        if fast >= 380 || fast <= -380 {
            return EvalStart::Fast(fast);
        }
    }
    EvalStart::AskNetwork
}

/// A score limited to the range of scores that are no mates.
pub open spec fn limited(score: int) -> int {
    clamp(score, -29_000, 29_000)
}

/// The score that an answer of the v16 network leads to.
pub open spec fn network_score(board: &BoardState, ev: Option<SfnnEval>, optimism: i32) -> int {
    match ev {
        Some(e) => blended_score(board, e.psqt as int, e.positional as int, optimism as int),
        None => 0,
    }
}

/// Ends an evaluation: turns its start, and the answer of the v16 network
/// where it was asked, into a score, and keeps a new one.
pub fn finish_evaluation(
    board: &BoardState,
    cache: &mut EvalCache,
    start: EvalStart,
    ev: Option<SfnnEval>,
    optimism: i32,
) -> (r: i16)
    requires
        old(cache).wf(),
        ev matches Some(e) ==> e.in_scale(),
    ensures
        final(cache).wf(),
        match start {
            EvalStart::Known(v) => r == limited(v as int) && *final(cache) == *old(cache),
            EvalStart::Fast(v) => r == limited(v as int) && final(cache).entries@ == old(cache).stored(board.board_hash, optimism, board.half_move_clock, v),
            EvalStart::AskNetwork => r == network_score(board, ev, optimism) && final(cache).entries@ == old(cache).stored(
                board.board_hash,
                optimism,
                board.half_move_clock,
                network_score(board, ev, optimism) as i16,
            ),
        },
        -29_000 <= r <= 29_000,
        old(cache).scores_in_range() && (start matches EvalStart::Fast(v) ==> -29_000 <= v
            <= 29_000) ==> final(cache).scores_in_range(),
{
    let raw: i16 = match start {
        EvalStart::Known(v) => {
            return clamp_i64(v as i64, -29_000, 29_000) as i16;
        },
        EvalStart::Fast(v) => v,
        EvalStart::AskNetwork => match ev {
            Some(e) => blend_eval(board, &e, optimism),
            None => 0,
        },
    };
    store_eval_cache(cache, board.board_hash, optimism, board.half_move_clock, raw);
    clamp_i64(raw as i64, -29_000, 29_000) as i16
}

/// What an evaluation leaves alone.
pub open spec fn same_setup(before: &EvalState, after: &EvalState) -> bool {
    &&& after.network == before.network
    &&& after.nets == before.nets
    &&& after.generation == before.generation
    &&& after.pending_path == before.pending_path
    &&& after.luts == before.luts
    &&& after.dual_net == before.dual_net
}

/// The effect and the value of an evaluation.
pub open spec fn evaluated(
    before: &BoardState,
    after: &BoardState,
    state: &EvalState,
    next: &EvalState,
    optimism: i32,
    r: int,
) -> bool {
    let hash = before.board_hash;
    let halfmove = before.half_move_clock;
    &&& next.wf()
    &&& same_setup(state, next)
    &&& after.same_position(before)
    &&& after.history.index == before.history.index
    &&& summed(after)
    &&& honest(after, &state.network)
    &&& match state.cache.lookup(hash, optimism, halfmove) {
        Some(hit) => {
            &&& r == limited(hit as int)
            &&& *next == *state
            &&& after.history == before.history
        },
        None => if fast_decides(before, state, optimism) {
            let fast = fast_score(before, &state.network, optimism);
            &&& r == fast
            &&& next.cache.entries@ == state.cache.stored(hash, optimism, halfmove, fast as i16)
            &&& next.finny == state.finny
            &&& sums_ensured(before, after, &state.network)
        } else {
            exists|mid: BoardState, e: Option<SfnnEval>|
                begun(before, &mid, state) && #[trigger] board_evaluated(
                    &mid,
                    after,
                    Some(&state.nets->0),
                    state.generation,
                    e,
                ) && r == network_score(before, e, optimism) && next.cache.entries@
                    == state.cache.stored(hash, optimism, halfmove, r as i16)
        },
    }
}

/// Scores a position, with the networks in use and what is kept from before.
pub fn evaluate_with_optimism(board: &mut BoardState, state: &mut EvalState, optimism: i32) -> (r:
    i16)
    requires
        evaluable_with(old(board), old(state)),
    ensures
        evaluated(old(board), final(board), old(state), final(state), optimism, r as int),
        -29_000 <= r <= 29_000,
{
    let start: EvalStart = begin_evaluation(board, state, optimism);
    let ghost mid = *board;
    let mut ev: Option<SfnnEval> = None;
    if let EvalStart::AskNetwork = start {
        let nets: Option<&v16::eval::LoadedNets> = match &state.nets {
            Some(n) => Some(n),
            None => None,
        };
        ev = evaluate_board_detailed(
            board,
            nets,
            state.generation,
            &state.luts,
            &mut state.finny,
        );
    }
    proof {
        if start is AskNetwork {
            lemma_still_honest(&mid, board, &state.network);
            assert(board_evaluated(&mid, board, Some(&state.nets->0), state.generation, ev));
        }
    }
    finish_evaluation(board, &mut state.cache, start, ev, optimism)
}

/// An evaluation with the v16 network leaves the sums of the small one alone.
proof fn lemma_still_honest(before: &BoardState, after: &BoardState, network: &Network)
    requires
        summed(before),
        honest(before, network),
        after.same_position(before),
        after.history.index == before.history.index,
        after.history.accumulators == before.history.accumulators,
        after.history.computed == before.history.computed,
    ensures
        summed(after),
        honest(after, network),
{
    lemma_fresh_state_same(before, after, network, Side::White);
    lemma_fresh_state_same(before, after, network, Side::Black);
}

/// Scores a position without optimism.
pub fn evaluate(board: &mut BoardState, state: &mut EvalState) -> (r: i16)
    requires
        evaluable_with(old(board), old(state)),
    ensures
        evaluated(old(board), final(board), old(state), final(state), 0, r as int),
        -29_000 <= r <= 29_000,
{
    evaluate_with_optimism(board, state, 0)
}

/// Whether a fast score settles a quiescence node: it is far outside the
/// window or far from balance.
pub open spec fn fast_settles(fast: int, alpha: int, beta: int) -> bool {
    fast >= beta + 120 || fast <= alpha - 426 || abs(fast) >= 380
}

/// Scores a quiescence node: the small network decides where its score is far
/// outside the window or far from balance.
pub fn evaluate_qsearch(
    board: &mut BoardState,
    state: &mut EvalState,
    optimism: i32,
    alpha: i16,
    beta: i16,
) -> (r: i16)
    requires
        evaluable_with(old(board), old(state)),
        old(state).cache.lookup(
            old(board).board_hash,
            optimism,
            old(board).half_move_clock,
        ) is None && old(state).nets is Some && old(state).dual_net ==> beta + 120 <= i16::MAX && (
        fast_score(old(board), &old(state).network, optimism) < beta + 120 ==> alpha - 426
            >= i16::MIN),
    ensures
        match old(state).cache.lookup(
            old(board).board_hash,
            optimism,
            old(board).half_move_clock,
        ) {
            Some(hit) => r == hit && *final(state) == *old(state) && *final(board) == *old(board),
            None => {
                let fast = fast_score(old(board), &old(state).network, optimism);
                if old(state).nets is Some && old(state).dual_net && fast_settles(
                    fast,
                    alpha as int,
                    beta as int,
                ) {
                    &&& r == fast
                    &&& sums_ensured(old(board), final(board), &old(state).network)
                    &&& final(state).wf()
                    &&& same_setup(old(state), final(state))
                    &&& final(state).finny == old(state).finny
                    &&& final(state).cache.entries@ == old(state).cache.stored(
                        old(board).board_hash,
                        optimism,
                        old(board).half_move_clock,
                        fast as i16,
                    )
                } else {
                    evaluated(
                        old(board),
                        final(board),
                        old(state),
                        final(state),
                        optimism,
                        r as int,
                    )
                }
            },
        },
{
    if let Some(hit) = probe_eval_cache(
        &state.cache,
        board.board_hash,
        optimism,
        board.half_move_clock,
    ) {
        return hit;
    }
    if !maintenance_active(state) || !state.dual_net {
        return evaluate_with_optimism(board, state, optimism);
    }
    let fast: i16 = evaluate_fast(board, &state.network, optimism);
    if fast >= beta + 120 || fast <= alpha - 426 || fast >= 380 || fast <= -380 {
        store_eval_cache(
            &mut state.cache,
            board.board_hash,
            optimism,
            board.half_move_clock,
            fast,
        );
        return fast;
    }
    let ghost mid = *board;
    let r: i16 = evaluate_with_optimism(board, state, optimism);
    proof {
        lemma_evaluated_from_start(old(board), &mid, board, old(state), state, optimism, r as int);
    }
    r
}

/// An evaluation that finds the sums brought up to date just before is one
/// that brings them up to date itself.
proof fn lemma_evaluated_from_start(
    before: &BoardState,
    mid: &BoardState,
    after: &BoardState,
    state: &EvalState,
    next: &EvalState,
    optimism: i32,
    r: int,
)
    requires
        summed(before),
        state.nets is Some,
        state.dual_net,
        state.cache.lookup(before.board_hash, optimism, before.half_move_clock) is None,
        !fast_decides(before, state, optimism),
        sums_ensured(before, mid, &state.network),
        mid.history.computed@[mid.history.index as int],
        evaluated(mid, after, state, next, optimism, r),
    ensures
        evaluated(before, after, state, next, optimism, r),
{
    law_fast_score_of_position(before, mid, &state.network, optimism);
    let (third, e) = choose|third: BoardState, e: Option<SfnnEval>|
        begun(mid, &third, state) && #[trigger] board_evaluated(
            &third,
            after,
            Some(&state.nets->0),
            state.generation,
            e,
        ) && r == network_score(mid, e, optimism) && next.cache.entries@ == state.cache.stored(
            mid.board_hash,
            optimism,
            mid.half_move_clock,
            r as i16,
        );
    assert(sums_ensured(before, &third, &state.network));
    assert(network_score(before, e, optimism) == network_score(mid, e, optimism));
}

/// Scores a position for a search depth, given the checkers and the squares
/// where a queen of either side is attacked by a lesser piece.
pub fn evaluate_with_depth(
    board: &mut BoardState,
    state: &mut EvalState,
    optimism: i32,
    depth: u8,
    checkers: u64,
    queen_danger_us: u64,
    queen_danger_them: u64,
) -> (r: i16)
    requires
        evaluable_with(old(board), old(state)),
    ensures
        exists|base: i16|
            #[trigger] evaluated(
                old(board),
                final(board),
                old(state),
                final(state),
                optimism,
                base as int,
            ) && r == conditioned_on(
                base,
                depth,
                old(board),
                checkers,
                queen_danger_us,
                queen_danger_them,
            ),
        -29_000 <= r <= 29_000,
{
    let base: i16 = evaluate_with_optimism(board, state, optimism);
    assert(evaluated(old(board), board, old(state), state, optimism, base as int));
    let r: i16 = DcnModel::condition_evaluation(
        base,
        depth,
        board,
        checkers,
        queen_danger_us,
        queen_danger_them,
        DcnConfig::default(),
    );
    proof {
        let us = board.side_to_move;
        dcn::lemma_conditioned_same(
            base,
            depth,
            board,
            old(board),
            pop(checkers),
            pop(checkers),
            pop(queen_danger_us & board.pieces_of(us, Piece::Queen)),
            pop(queen_danger_them & board.pieces_of(us.other_spec(), Piece::Queen)),
        );
    }
    r
}

/// Scores a position for a search depth with counts known beforehand: the
/// checkers on the board, and the checks and attacked queens of the node.
pub fn evaluate_with_depth_cached(
    board: &mut BoardState,
    state: &mut EvalState,
    optimism: i32,
    depth: u8,
    board_checks: u32,
    checks: u32,
    queen_threat_us: u32,
    queen_threat_them: u32,
) -> (r: i16)
    requires
        evaluable_with(old(board), old(state)),
    ensures
        exists|base: i16|
            #[trigger] evaluated(
                old(board),
                final(board),
                old(state),
                final(state),
                optimism,
                base as int,
            ) && r == conditioned(
                base,
                depth,
                old(board),
                board_checks as int,
                checks as int,
                queen_threat_us as int,
                queen_threat_them as int,
            ),
        -29_000 <= r <= 29_000,
{
    let base: i16 = evaluate_with_optimism(board, state, optimism);
    assert(evaluated(old(board), board, old(state), state, optimism, base as int));
    proof {
        dcn::lemma_conditioned_same(
            base,
            depth,
            board,
            old(board),
            board_checks as int,
            checks as int,
            queen_threat_us as int,
            queen_threat_them as int,
        );
    }
    DcnModel::condition_evaluation_cached(
        base,
        depth,
        board,
        board_checks,
        checks,
        queen_threat_us,
        queen_threat_them,
        DcnConfig::default(),
    )
}

/// After an evaluation its score is kept for the position, whether it was new
/// or known.
pub proof fn law_second_evaluation_is_known(
    before: &BoardState,
    after: &BoardState,
    state: &EvalState,
    next: &EvalState,
    optimism: i32,
    r: int,
)
    requires
        state.wf(),
        evaluated(before, after, state, next, optimism, r),
    ensures
        -29_000 <= r <= 29_000,
        next.cache.lookup(after.board_hash, optimism, after.half_move_clock) matches Some(hit)
            && hit == r,
{
    let slot = slot_of(before.board_hash);
    let e = state.cache.entries@[slot];
    law_scores_limited(before, &state.network, None, optimism);
}

/// Evaluating a position again gives the same score and changes nothing.
pub proof fn law_repeated_evaluation_agrees(
    before: &BoardState,
    after: &BoardState,
    again: &BoardState,
    state: &EvalState,
    next: &EvalState,
    last: &EvalState,
    optimism: i32,
    r: int,
    r2: int,
)
    requires
        state.wf(),
        evaluated(before, after, state, next, optimism, r),
        evaluated(after, again, next, last, optimism, r2),
    ensures
        r2 == r,
        *last == *next,
        again.same_position(before),
        again.history == after.history,
{
    law_second_evaluation_is_known(before, after, state, next, optimism, r);
}

/// Scores stay in the range of scores that are no mates.
pub proof fn law_scores_limited(board: &BoardState, network: &Network, ev: Option<SfnnEval>, optimism: i32)
    ensures
        -29_000 <= internal_score(board, network) <= 29_000,
        -29_000 <= position_score(board, network) <= 29_000,
        -29_000 <= fast_score(board, network, optimism) <= 29_000,
        -29_000 <= network_score(board, ev, optimism) <= 29_000,
{
}

/// More optimism never lowers the fast score while the move counter does not
/// turn scores around.
pub proof fn law_optimism_raises_fast_score(
    board: &BoardState,
    network: &Network,
    low: i32,
    high: i32,
)
    requires
        low <= high,
        board.half_move_clock <= 199,
    ensures
        fast_score(board, network, low) <= fast_score(board, network, high),
{
    let s = position_score(board, network);
    let m = material_of(board);
    let x = s * m + low * 7675;
    let y = s * m + high * 7675;
    assert(div_toward_zero(x, 91_000) <= div_toward_zero(y, 91_000));
    let v = s + div_toward_zero(x, 91_000);
    let w = s + div_toward_zero(y, 91_000);
    lemma_damping_monotone(v, w, board.half_move_clock as int);
}

/// Damping keeps the order of scores.
proof fn lemma_damping_monotone(v: int, w: int, h: int)
    requires
        v <= w,
        0 <= h <= 199,
    ensures
        v - div_toward_zero(v * h, 199) <= w - div_toward_zero(w * h, 199),
{
    let p = v * h;
    let q = w * h;
    assert(p <= q && q - p <= 199 * (w - v)) by (nonlinear_arith)
        requires
            p == v * h,
            q == w * h,
            v <= w,
            0 <= h <= 199,
    ;
    assert(p >= 0 <==> (v >= 0 || h == 0)) by (nonlinear_arith)
        requires
            p == v * h,
            0 <= h,
    ;
}

/// A running move counter never takes a score farther from zero.
pub proof fn law_halfmoves_damp(score: int, optimism: int, material: int, halfmove: u8)
    ensures
        abs(scaled_score(score, optimism, material, halfmove as int)) <= abs(
            scaled_score(score, optimism, material, 0),
        ),
{
    let v = score + div_toward_zero(score * material + optimism * 7675, 91_000);
    let h = halfmove as int;
    let p = v * h;
    let d = div_toward_zero(p, 199);
    assert(v * 0 == 0);
    if v >= 0 {
        assert(0 <= p <= v * 255) by (nonlinear_arith)
            requires
                p == v * h,
                0 <= v,
                0 <= h <= 255,
        ;
        assert(0 <= d <= 2 * v);
    } else {
        assert(v * 255 <= p <= 0) by (nonlinear_arith)
            requires
                p == v * h,
                v < 0,
                0 <= h <= 255,
        ;
        assert(2 * v <= d <= 0);
    }
}

/// What a score becomes: it grows by its product with the material and by 7675
/// for every point of optimism, over 91000 together; then the move counter
/// takes its share over 199; then it is limited. Fractions are dropped each
/// time.
#[verifier::rlimit(60)]
pub proof fn law_scaled_score_value(
    score: int,
    optimism: int,
    material: int,
    halfmove: int,
    growth: int,
    share: int,
)
    requires
        is_quotient(score * material + 7675 * optimism, 91_000, growth),
        is_quotient((score + growth) * halfmove, 199, share),
    ensures
        ({
            let r = scaled_score(score, optimism, material, halfmove);
            let v = score + growth - share;
            &&& -29_000 <= v <= 29_000 ==> r == v
            &&& v > 29_000 ==> r == 29_000
            &&& v < -29_000 ==> r == -29_000
        }),
{
    law_quotient(score * material + 7675 * optimism, 91_000, growth);
    law_quotient((score + growth) * halfmove, 199, share);
}

/// Without optimism scaling keeps the sign of a score and treats both sides
/// alike, and where the counter is at rest it never brings a score nearer to
/// zero, up to the limit.
#[verifier::rlimit(60)]
pub proof fn law_scaling_keeps_the_sign(score: int, optimism: int, material: int, halfmove: int)
    requires
        material >= 0,
        0 <= halfmove <= 199,
    ensures
        score >= 0 ==> scaled_score(score, 0, material, halfmove) >= 0,
        score <= 0 ==> scaled_score(score, 0, material, halfmove) <= 0,
        0 <= score <= 29_000 ==> scaled_score(score, 0, material, 0) >= score,
        scaled_score(-score, -optimism, material, halfmove) == -scaled_score(
            score,
            optimism,
            material,
            halfmove,
        ),
{
    let p = score * material;
    assert(score >= 0 ==> p >= 0) by (nonlinear_arith)
        requires
            p == score * material,
            material >= 0,
    ;
    assert(score <= 0 ==> p <= 0) by (nonlinear_arith)
        requires
            p == score * material,
            material >= 0,
    ;
    assert((-score) * material == -p) by (nonlinear_arith)
        requires
            p == score * material,
    ;
    let v = score + div_toward_zero(p, 91_000);
    assert(v >= 0 ==> 0 <= v * halfmove <= 199 * v) by (nonlinear_arith)
        requires
            0 <= halfmove <= 199,
    ;
    assert(v <= 0 ==> 199 * v <= v * halfmove <= 0) by (nonlinear_arith)
        requires
            0 <= halfmove <= 199,
    ;
    assert(v * 0 == 0);
    let w = score + div_toward_zero(p + optimism * 7675, 91_000);
    assert((-w) * halfmove == -(w * halfmove)) by (nonlinear_arith);
    assert((-optimism) * 7675 == -(optimism * 7675));
}

/// The material of a board counts every piece once: 534 for a pawn, 781 for a
/// knight, 825 for a bishop, 1276 for a rook, 2538 for a queen, nothing for a
/// king.
#[verifier::rlimit(60)]
pub proof fn law_material_counts_pieces(a: &BoardState, b: &BoardState, kind: int)
    requires
        0 <= kind < 6,
        forall|k: int| 0 <= k < 6 && k != kind ==> #[trigger] b.pieces@[k] == a.pieces@[k],
        pop(b.pieces@[kind]) == pop(a.pieces@[kind]) + 1,
    ensures
        material_of(b) - material_of(a) == seq![534int, 781, 825, 1276, 2538, 0][kind],
{
    assert(forall|k: int| 0 <= k < 6 && k != kind ==> #[trigger] b.pieces@[k] == a.pieces@[k]);
    assert(0 != kind ==> b.pieces@[0] == a.pieces@[0]);
    assert(1 != kind ==> b.pieces@[1] == a.pieces@[1]);
    assert(2 != kind ==> b.pieces@[2] == a.pieces@[2]);
    assert(3 != kind ==> b.pieces@[3] == a.pieces@[3]);
    assert(4 != kind ==> b.pieces@[4] == a.pieces@[4]);
}

/// A board without pieces has no material.
pub proof fn law_empty_board_has_no_material(board: &BoardState)
    requires
        forall|k: int| 0 <= k < 6 ==> #[trigger] pop(board.pieces@[k]) == 0,
    ensures
        material_of(board) == 0,
{
    assert(pop(board.pieces@[0]) == 0 && pop(board.pieces@[1]) == 0 && pop(board.pieces@[2]) == 0);
    assert(pop(board.pieces@[3]) == 0 && pop(board.pieces@[4]) == 0);
}

/// The two terms of the v16 network add up; their disagreement takes its share
/// of the sum over 18236, and gives the optimism its share over 476. What comes
/// out is scaled as any score.
#[verifier::rlimit(60)]
pub proof fn law_blended_score_value(
    board: &BoardState,
    psqt: int,
    positional: int,
    optimism: int,
    gap: int,
    loss: int,
    gain: int,
)
    requires
        gap == if psqt >= positional {
            psqt - positional
        } else {
            positional - psqt
        },
        is_quotient((psqt + positional) * gap, 18_236, loss),
        is_quotient(optimism * gap, 476, gain),
    ensures
        blended_score(board, psqt, positional, optimism) == scaled_score(
            psqt + positional - loss,
            optimism + gain,
            material_of(board),
            board.half_move_clock as int,
        ),
{
    law_quotient((psqt + positional) * gap, 18_236, loss);
    law_quotient(optimism * gap, 476, gain);
}

/// Two terms that favour the side to move never give a negative score.
#[verifier::rlimit(60)]
pub proof fn law_blend_of_good_terms_is_good(board: &BoardState, psqt: int, positional: int)
    requires
        psqt >= 0,
        positional >= 0,
        psqt + positional <= 18_236,
        board.half_move_clock <= 199,
    ensures
        blended_score(board, psqt, positional, 0) >= 0,
        blended_score(board, -psqt, -positional, 0) <= 0,
{
    let gap = abs(psqt - positional);
    let sum = psqt + positional;
    let q = div_toward_zero(sum * gap, 18_236);
    law_quotient(sum * gap, 18_236, q);
    assert(0 <= sum * gap <= sum * 18_236) by (nonlinear_arith)
        requires
            0 <= gap <= 18_236,
            0 <= sum,
    ;
    assert((-sum) * gap == -(sum * gap)) by (nonlinear_arith);
    assert(abs(-psqt - -positional) == gap);
    assert(0 * gap == 0);
    lemma_material_is_positive(board);
    law_scaling_keeps_the_sign(sum - q, 0, material_of(board), board.half_move_clock as int);
    law_scaling_keeps_the_sign(-(sum - q), 0, material_of(board), board.half_move_clock as int);
}

proof fn lemma_material_is_positive(board: &BoardState)
    ensures
        material_of(board) >= 0,
{
    lemma_pop_is_positive(board.pieces@[0], 64);
    lemma_pop_is_positive(board.pieces@[1], 64);
    lemma_pop_is_positive(board.pieces@[2], 64);
    lemma_pop_is_positive(board.pieces@[3], 64);
    lemma_pop_is_positive(board.pieces@[4], 64);
}

proof fn lemma_pop_is_positive(bb: u64, n: int)
    ensures
        count_below_spec(bb, n) >= 0,
    decreases n,
{
    if n > 0 {
        lemma_pop_is_positive(bb, n - 1);
    }
}

/// The two terms of the v16 network have the same say, both sides are treated
/// alike, and equal terms lose nothing: they count twice.
#[verifier::rlimit(60)]
pub proof fn law_blend_treats_terms_alike(
    board: &BoardState,
    psqt: int,
    positional: int,
    optimism: int,
)
    requires
        board.half_move_clock <= 199,
    ensures
        blended_score(board, positional, psqt, optimism) == blended_score(
            board,
            psqt,
            positional,
            optimism,
        ),
        blended_score(board, -psqt, -positional, -optimism) == -blended_score(
            board,
            psqt,
            positional,
            optimism,
        ),
        blended_score(board, psqt, psqt, optimism) == scaled_score(
            2 * psqt,
            optimism,
            material_of(board),
            board.half_move_clock as int,
        ),
{
    let gap = abs(psqt - positional);
    let sum = psqt + positional;
    assert((-sum) * gap == -(sum * gap)) by (nonlinear_arith);
    assert((-optimism) * gap == -(optimism * gap)) by (nonlinear_arith);
    assert(abs(-psqt - -positional) == gap);
    assert(abs(positional - psqt) == gap);
    assert(-psqt + -positional == -sum);
    assert(positional + psqt == sum);
    let v = sum - div_toward_zero(sum * gap, 18_236);
    let o = optimism + div_toward_zero(optimism * gap, 476);
    lemma_material_is_positive(board);
    law_scaling_keeps_the_sign(v, o, material_of(board), board.half_move_clock as int);
    assert((psqt + psqt) * 0 == 0);
    assert(optimism * 0 == 0);
}

/// With the counter at rest and no optimism, equal terms of the v16 network
/// give twice the term and its product with the material over 91000, up to the
/// limit.
pub proof fn law_blend_of_equal_terms(board: &BoardState, term: int, growth: int)
    requires
        board.half_move_clock == 0,
        is_quotient(2 * term * material_of(board), 91_000, growth),
        -29_000 <= 2 * term + growth <= 29_000,
    ensures
        blended_score(board, term, term, 0) == 2 * term + growth,
{
    law_blend_treats_terms_alike(board, term, term, 0);
    assert((2 * term + growth) * 0 == 0);
    law_scaled_score_value(2 * term, 0, material_of(board), 0, growth, 0);
}

/// The more the terms of the v16 network disagree on the same sum, the nearer
/// the score is to zero.
#[verifier::rlimit(60)]
pub proof fn law_disagreement_costs(board: &BoardState, a: int, b: int, c: int, d: int)
    requires
        a + b == c + d,
        abs(a - b) <= abs(c - d) <= 18_236,
        board.half_move_clock <= 199,
    ensures
        a + b >= 0 ==> blended_score(board, a, b, 0) >= blended_score(board, c, d, 0) >= 0,
        a + b <= 0 ==> blended_score(board, a, b, 0) <= blended_score(board, c, d, 0) <= 0,
{
    if a + b >= 0 {
        lemma_disagreement_costs(board, a, b, c, d);
    }
    if a + b <= 0 {
        lemma_disagreement_costs(board, -a, -b, -c, -d);
        law_blend_treats_terms_alike(board, a, b, 0);
        law_blend_treats_terms_alike(board, c, d, 0);
    }
}

#[verifier::rlimit(60)]
proof fn lemma_disagreement_costs(board: &BoardState, a: int, b: int, c: int, d: int)
    requires
        a + b == c + d,
        a + b >= 0,
        abs(a - b) <= abs(c - d) <= 18_236,
        board.half_move_clock <= 199,
    ensures
        blended_score(board, a, b, 0) >= blended_score(board, c, d, 0) >= 0,
{
    let sum = a + b;
    let near = abs(a - b);
    let far = abs(c - d);
    assert(0 <= sum * near <= sum * far <= sum * 18_236) by (nonlinear_arith)
        requires
            0 <= near <= far <= 18_236,
            0 <= sum,
    ;
    let p = div_toward_zero(sum * near, 18_236);
    let q = div_toward_zero(sum * far, 18_236);
    assert(0 <= p <= q <= sum);
    assert(0 * near == 0 && 0 * far == 0);
    lemma_material_is_positive(board);
    lemma_scaled_monotone(sum - q, sum - p, material_of(board), board.half_move_clock as int);
    law_scaling_keeps_the_sign(sum - q, 0, material_of(board), board.half_move_clock as int);
}

/// A higher score stays the higher one when both are scaled.
#[verifier::rlimit(60)]
proof fn lemma_scaled_monotone(low: int, high: int, material: int, halfmove: int)
    requires
        low <= high,
        material >= 0,
        0 <= halfmove <= 199,
    ensures
        scaled_score(low, 0, material, halfmove) <= scaled_score(high, 0, material, halfmove),
{
    assert(low * material <= high * material) by (nonlinear_arith)
        requires
            low <= high,
            material >= 0,
    ;
    let v = low + div_toward_zero(low * material, 91_000);
    let w = high + div_toward_zero(high * material, 91_000);
    assert(v <= w);
    lemma_damping_monotone(v, w, halfmove);
}

/// A better score of the small network never gives a lower scaled score.
pub proof fn law_fast_score_follows_the_network(
    a: &BoardState,
    b: &BoardState,
    network: &Network,
    other: &Network,
)
    requires
        a.same_position(b),
        a.half_move_clock <= 199,
        position_score(a, network) <= position_score(b, other),
    ensures
        fast_score(a, network, 0) <= fast_score(b, other, 0),
        position_score(a, network) >= 0 ==> fast_score(a, network, 0) >= 0,
        position_score(a, network) <= 0 ==> fast_score(a, network, 0) <= 0,
{
    lemma_material_is_positive(a);
    lemma_scaled_monotone(
        position_score(a, network),
        position_score(b, other),
        material_of(a),
        a.half_move_clock as int,
    );
    law_scaling_keeps_the_sign(
        position_score(a, network),
        0,
        material_of(a),
        a.half_move_clock as int,
    );
}

/// A sum that is not positive counts nothing, one from 0 to 255 its square, and
/// a larger one as 255.
pub proof fn law_screlu_values(x: int)
    ensures
        x <= 0 ==> screlu(x) == 0,
        0 <= x <= 255 ==> screlu(x) == x * x,
        x >= 255 ==> screlu(x) == 65_025,
        0 <= screlu(x) <= 65_025,
{
    let c = clamp(x, 0, 255);
    assert(0 <= c * c <= 65_025) by (nonlinear_arith)
        requires
            0 <= c <= 255,
    ;
    assert(0int * 0int == 0);
    assert(255int * 255int == 65_025);
}

/// A side's part of the score is zero without weights, and raising one weight
/// raises it by as much times the activation that the weight belongs to.
pub proof fn law_side_sum_is_linear(
    state: Seq<i16>,
    w: Seq<i16>,
    v: Seq<i16>,
    base: int,
    n: int,
    k: int,
    d: int,
)
    requires
        0 <= k,
        forall|i: int| 0 <= i < n && i != k ==> #[trigger] v[base + i] == w[base + i],
        k < n ==> v[base + k] == w[base + k] + d,
    ensures
        side_sum(state, v, base, n) == side_sum(state, w, base, n) + if k < n {
            d * screlu(state[k] as int)
        } else {
            0
        },
        (forall|i: int| 0 <= i < n ==> #[trigger] w[base + i] == 0) ==> side_sum(
            state,
            w,
            base,
            n,
        ) == 0,
    decreases n,
{
    if n > 0 {
        law_side_sum_is_linear(state, w, v, base, n - 1, k, d);
        assert(v[base + (n - 1)] == v[base + n - 1]);
        assert(w[base + (n - 1)] == w[base + n - 1]);
        let a = screlu(state[n - 1] as int);
        if k == n - 1 {
            assert(a * (w[base + n - 1] + d) == a * w[base + n - 1] + d * a) by (nonlinear_arith);
        }
        if forall|i: int| 0 <= i < n ==> #[trigger] w[base + i] == 0 {
            assert(w[base + (n - 1)] == 0);
            assert(a * 0 == 0);
        }
    }
}

/// The score of the small network: both sides' parts together over 255, then
/// the bias, then 400 over 255 times 64, without fractions and limited. The
/// sums of the side to move meet the first 256 output weights, those of the
/// other side the rest.
#[verifier::rlimit(60)]
pub proof fn law_score_of_sums_value(
    own: Seq<i16>,
    other: Seq<i16>,
    network: &Network,
    part: int,
    score: int,
)
    requires
        is_quotient(
            side_sum(own, network.output_weights@, 0, 256) + side_sum(
                other,
                network.output_weights@,
                256,
                256,
            ),
            255,
            part,
        ),
        is_quotient(400 * (part + network.output_bias), 16_320, score),
    ensures
        ({
            let r = score_of_sums(own, other, network);
            &&& -29_000 <= score <= 29_000 ==> r == score
            &&& score > 29_000 ==> r == 29_000
            &&& score < -29_000 ==> r == -29_000
        }),
{
    let total = side_sum(own, network.output_weights@, 0, 256) + side_sum(
        other,
        network.output_weights@,
        256,
        256,
    );
    law_quotient(total, 255, part);
    law_quotient(400 * (part + network.output_bias), 16_320, score);
}

/// What the side to move sees meets the first 256 output weights: where the
/// rest are zero, the score depends on its own view alone; where the first 256
/// are, on the other side's view alone.
#[verifier::rlimit(60)]
pub proof fn law_score_is_from_the_side_to_move(
    board: &BoardState,
    network: &Network,
    any: Seq<i16>,
)
    requires
        !(board.side_to_move is Both),
    ensures
        (forall|i: int| 0 <= i < 256 ==> #[trigger] network.output_weights@[256 + i] == 0)
            ==> position_score(board, network) == score_of_sums(
            fresh_state(board, network, board.side_to_move),
            any,
            network,
        ),
        (forall|i: int| 0 <= i < 256 ==> #[trigger] network.output_weights@[0 + i] == 0)
            ==> position_score(board, network) == score_of_sums(
            any,
            fresh_state(board, network, board.side_to_move.other_spec()),
            network,
        ),
{
    let w = network.output_weights@;
    let white = fresh_state(board, network, Side::White);
    let black = fresh_state(board, network, Side::Black);
    law_side_sum_is_linear(white, w, w, 256, 256, 256, 0);
    law_side_sum_is_linear(black, w, w, 256, 256, 256, 0);
    law_side_sum_is_linear(any, w, w, 256, 256, 256, 0);
    law_side_sum_is_linear(white, w, w, 0, 256, 256, 0);
    law_side_sum_is_linear(black, w, w, 0, 256, 256, 0);
    law_side_sum_is_linear(any, w, w, 0, 256, 256, 0);
}

/// A higher output bias never gives a lower score.
#[verifier::rlimit(60)]
pub proof fn law_bias_raises_the_score(
    own: Seq<i16>,
    other: Seq<i16>,
    low: &Network,
    high: &Network,
)
    requires
        low.output_weights@ == high.output_weights@,
        low.output_bias <= high.output_bias,
    ensures
        score_of_sums(own, other, low) <= score_of_sums(own, other, high),
{
}

/// The small network has the last word exactly where there is no other, or
/// where it is asked and finds one side at least 380 ahead.
pub proof fn law_fast_decides_when_one_side_is_far_ahead(
    board: &BoardState,
    state: &EvalState,
    optimism: i32,
)
    ensures
        state.nets is None ==> fast_decides(board, state, optimism),
        state.nets is Some && !state.dual_net ==> !fast_decides(board, state, optimism),
        state.nets is Some && state.dual_net ==> (fast_decides(board, state, optimism) <==> !(-380
            < fast_score(board, &state.network, optimism) < 380)),
{
}

/// A quiescence node is settled where the fast score beats the upper bound by
/// 120, misses the lower one by 426, or is 380 from balance; raising the upper
/// bound or lowering the lower one never settles a node.
pub proof fn law_wider_window_settles_less(
    fast: int,
    alpha: int,
    beta: int,
    wider_alpha: int,
    wider_beta: int,
)
    requires
        wider_alpha <= alpha,
        beta <= wider_beta,
    ensures
        fast_settles(fast, wider_alpha, wider_beta) ==> fast_settles(fast, alpha, beta),
        fast_settles(fast, alpha, beta) <==> (fast - beta >= 120 || alpha - fast >= 426 || fast
            >= 380 || fast <= -380),
{
}

/// A score that is kept or found is limited without being changed where it is
/// in range.
pub proof fn law_limited_scores(score: int)
    ensures
        -29_000 <= limited(score) <= 29_000,
        -29_000 <= score <= 29_000 ==> limited(score) == score,
        score > 29_000 ==> limited(score) == 29_000,
        score < -29_000 ==> limited(score) == -29_000,
{
}

/// Without both kings the v16 network has no answer and the score is zero.
pub proof fn law_no_answer_scores_nothing(board: &BoardState, optimism: i32)
    ensures
        network_score(board, None, optimism) == 0,
        forall|e: SfnnEval| #[trigger]
            network_score(board, Some(e), optimism) == blended_score(
                board,
                e.psqt as int,
                e.positional as int,
                optimism as int,
            ),
{
}

} // verus!
