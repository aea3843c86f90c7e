//! Depth-conditioned evaluation: the score is scaled and shifted by depth, and
//! adjusted by what matters at that depth.

use vstd::prelude::*;

use crate::bits::{pop, popcount};
use crate::board::{BoardState, Piece, Side};
use crate::math::{
    clamp, clamp_i32, clamp_i64, div_toward_zero, is_quotient, law_quotient, max,
};

verus! {

#[derive(Debug, Clone, Copy, PartialEq, Eq, Structural)]
pub enum DepthRegime {
    Tactical,
    Blended,
    Strategic,
}

#[derive(Debug, Clone, Copy)]
pub struct DcnConfig {
    pub enabled: bool,
    pub tactical_threshold: u8,
    pub strategic_threshold: u8,
}

impl Default for DcnConfig {
    fn default() -> (r: Self)
        ensures
            r.enabled,
            r.tactical_threshold == 5,
            r.strategic_threshold == 15,
    {
        DcnConfig { enabled: true, tactical_threshold: 5, strategic_threshold: 15 }
    }
}

pub struct DcnModel;

pub const FILM_GAMMA_WEIGHTS: [i16; 16] = [
    12, 10, -8, 6, -4, 9, 7, -5, 8, -6, 11, -7, 5, -4, 8, -6,
];

pub const FILM_BETA_WEIGHTS: [i16; 16] = [
    -6, 8, 14, -10, 5, -8, 12, -7, 6, -9, 8, -12, 7, -5, 10, -8,
];

/// Component `i` of the embedding of depth `d`.
pub open spec fn embedding(d: int, i: int) -> int {
    d * (3 * i + 1) * 13 % 255 - 127
}

/// Depth regimes.
pub open spec fn regime_of(depth: u8) -> DepthRegime {
    if depth < 5 {
        DepthRegime::Tactical
    } else if depth <= 15 {
        DepthRegime::Blended
    } else {
        DepthRegime::Strategic
    }
}

/// The deepest depth with an embedding of its own.
pub open spec fn capped(depth: u8) -> int {
    if depth < 63 {
        depth as int
    } else {
        63
    }
}

/// Weighted sum of the first `n` components of an embedding.
pub open spec fn film_sum(d: int, weights: Seq<i16>, n: int) -> int
    decreases n,
{
    if n <= 0 {
        0
    } else {
        film_sum(d, weights, n - 1) + embedding(d, n - 1) * weights[n - 1]
    }
}

/// Scale of a depth, in units of 1/256.
pub open spec fn gamma_of(depth: u8) -> int {
    256 + clamp(
        div_toward_zero(film_sum(capped(depth), FILM_GAMMA_WEIGHTS@, 16), 128),
        -64,
        64,
    )
}

/// Shift of a depth.
pub open spec fn beta_of(depth: u8) -> int {
    clamp(div_toward_zero(film_sum(capped(depth), FILM_BETA_WEIGHTS@, 16), 128), -120, 120)
}

/// Pieces of one kind and side.
pub open spec fn number_of(board: &BoardState, side: Side, piece: Piece) -> int {
    pop(board.pieces_of(side, piece))
}

/// Adjustment in the tactical regime: queens under attack and checks.
pub open spec fn tactical_adjustment(checks: int, queen_us: int, queen_them: int) -> int {
    (queen_them - queen_us) * 28 - checks * 32
}

/// Adjustment in the strategic regime: pawns and the bishop pair.
pub open spec fn strategic_adjustment(board: &BoardState) -> int {
    let us = board.side_to_move;
    let them = us.other_spec();
    let ours = number_of(board, us, Piece::Bishop);
    let theirs = number_of(board, them, Piece::Bishop);
    (number_of(board, us, Piece::Pawn) - number_of(board, them, Piece::Pawn)) * 8 + if ours >= 2
        && theirs < 2 {
        24int
    } else if theirs >= 2 && ours < 2 {
        -24int
    } else {
        0int
    }
}

/// Adjustment in between: checks fade out and pawns fade in with depth.
pub open spec fn blended_adjustment(board: &BoardState, board_checks: int, depth: u8) -> int {
    let us = board.side_to_move;
    let tactical = -board_checks * 16 * max(15 - depth, 0);
    let strategic = (number_of(board, us, Piece::Pawn) - number_of(
        board,
        us.other_spec(),
        Piece::Pawn,
    )) * 6 * max(depth - 4, 0);
    div_toward_zero(tactical + strategic, 11)
}

/// The conditioned score.
pub open spec fn conditioned(
    raw_eval: i16,
    depth: u8,
    board: &BoardState,
    board_checks: int,
    checks: int,
    queen_us: int,
    queen_them: int,
) -> int {
    let adjustment = match regime_of(depth) {
        DepthRegime::Tactical => tactical_adjustment(checks, queen_us, queen_them),
        DepthRegime::Strategic => strategic_adjustment(board),
        DepthRegime::Blended => blended_adjustment(board, board_checks, depth),
    };
    clamp(
        div_toward_zero(raw_eval * gamma_of(depth), 256) + beta_of(depth) + adjustment,
        -29_000,
        29_000,
    )
}

/// The conditioned score, given the checkers and the squares where a queen of
/// either side is attacked by a lesser piece.
pub open spec fn conditioned_on(
    raw_eval: i16,
    depth: u8,
    board: &BoardState,
    checkers: u64,
    queen_danger_us: u64,
    queen_danger_them: u64,
) -> int {
    conditioned(
        raw_eval,
        depth,
        board,
        pop(checkers),
        pop(checkers),
        pop(queen_danger_us & board.pieces_of(board.side_to_move, Piece::Queen)),
        pop(queen_danger_them & board.pieces_of(board.side_to_move.other_spec(), Piece::Queen)),
    )
}

fn film(d: usize, weights: &[i16; 16]) -> (r: i32)
    requires
        d < 64,
        forall|i: int| 0 <= i < 16 ==> -16 <= #[trigger] weights@[i] <= 16,
    ensures
        r == film_sum(d as int, weights@, 16),
        -32_768 <= r <= 32_768,
{
    let mut sum: i32 = 0;
    let mut i: usize = 0;
    while i < 16
        invariant
            i <= 16,
            d < 64,
            forall|k: int| 0 <= k < 16 ==> -16 <= #[trigger] weights@[k] <= 16,
            sum == film_sum(d as int, weights@, i as int),
            -2_048 * i <= sum <= 2_048 * i,
        decreases 16 - i,
    {
        let freq: i32 = i as i32 * 3 + 1;
        assert(0 <= d * freq <= 63 * 46) by (nonlinear_arith)
            requires
                0 <= d <= 63,
                0 <= freq <= 46,
        ;
        let val: i32 = (d as i32 * freq * 13) % 255 - 127;
        assert(val == embedding(d as int, i as int));
        let w: i32 = weights[i] as i32;
        assert(-2_048 <= val * w <= 2_048) by (nonlinear_arith)
            requires
                -127 <= val <= 127,
                -16 <= w <= 16,
        ;
        sum = sum + val * w;
        i = i + 1;
    }
    sum
}

proof fn lemma_weights_in_range()
    ensures
        forall|i: int| 0 <= i < 16 ==> -16 <= #[trigger] FILM_GAMMA_WEIGHTS@[i] <= 16,
        forall|i: int| 0 <= i < 16 ==> -16 <= #[trigger] FILM_BETA_WEIGHTS@[i] <= 16,
{
}

fn count(board: &BoardState, side: Side, piece: Piece) -> (r: i64)
    requires
        !(side is Both),
        !(piece is NoPiece),
    ensures
        r == number_of(board, side, piece),
        0 <= r <= 64,
{
    popcount(board.get_pieces(side, piece)) as i64
}

impl DcnModel {
    pub const EMBED_DIM: usize = 16;
    pub const MAX_DEPTH: usize = 64;

    pub fn get_regime(depth: u8) -> (r: DepthRegime)
        ensures
            r == regime_of(depth),
    {
        if depth < 5 {
            DepthRegime::Tactical
        } else if depth <= 15 {
            DepthRegime::Blended
        } else {
            DepthRegime::Strategic
        }
    }

    /// Scale and shift of a depth.
    pub fn compute_film_params(depth: u8) -> (r: (i32, i32))
        ensures
            r.0 == gamma_of(depth),
            r.1 == beta_of(depth),
            192 <= r.0 <= 320,
            -120 <= r.1 <= 120,
    {
        let d: usize = if (depth as usize) < DcnModel::MAX_DEPTH - 1 {
            depth as usize
        } else {
            DcnModel::MAX_DEPTH - 1
        };
        proof {
            lemma_weights_in_range();
        }
        let gamma_raw: i32 = film(d, &FILM_GAMMA_WEIGHTS);
        let beta_raw: i32 = film(d, &FILM_BETA_WEIGHTS);
        let gamma: i32 = 256 + clamp_i32(gamma_raw / 128, -64, 64);
        let beta: i32 = clamp_i32(beta_raw / 128, -120, 120);
        (gamma, beta)
    }

    /// Conditions a score, given the checkers and the squares where a queen of
    /// either side is attacked by a lesser piece.
    pub fn condition_evaluation(
        raw_eval: i16,
        depth: u8,
        board: &BoardState,
        checkers: u64,
        queen_danger_us: u64,
        queen_danger_them: u64,
        config: DcnConfig,
    ) -> (r: i16)
        requires
            !(board.side_to_move is Both),
        ensures
            !config.enabled ==> r == raw_eval,
            config.enabled ==> r == conditioned_on(
                raw_eval,
                depth,
                board,
                checkers,
                queen_danger_us,
                queen_danger_them,
            ),
    {
        if !config.enabled {
            return raw_eval;
        }
        let us: Side = board.side_to_move;
        let checks: u32 = popcount(checkers);
        let qt_us: u32 = popcount(queen_danger_us & board.get_pieces(us, Piece::Queen));
        let qt_them: u32 = popcount(queen_danger_them & board.get_pieces(us.other(), Piece::Queen));
        DcnModel::condition_evaluation_cached(
            raw_eval,
            depth,
            board,
            checks,
            checks,
            qt_us,
            qt_them,
            config,
        )
    }

    /// Conditions a score with counts known beforehand; `board_checks` is the
    /// number of checkers on the board, used between the regimes.
    pub fn condition_evaluation_cached(
        raw_eval: i16,
        depth: u8,
        board: &BoardState,
        board_checks: u32,
        checks: u32,
        queen_threat_us: u32,
        queen_threat_them: u32,
        config: DcnConfig,
    ) -> (r: i16)
        requires
            !(board.side_to_move is Both),
        ensures
            !config.enabled ==> r == raw_eval,
            config.enabled ==> r == conditioned(
                raw_eval,
                depth,
                board,
                board_checks as int,
                checks as int,
                queen_threat_us as int,
                queen_threat_them as int,
            ),
    {
        if !config.enabled {
            return raw_eval;
        }
        let params: (i32, i32) = DcnModel::compute_film_params(depth);
        let g: i64 = params.0 as i64;
        let e: i64 = raw_eval as i64;
        assert(-10_485_760 <= e * g <= 10_485_760) by (nonlinear_arith)
            requires
                -32_768 <= e <= 32_767,
                192 <= g <= 320,
        ;
        let modulated: i64 = (e * g) / 256 + params.1 as i64;
        let us: Side = board.side_to_move;
        let them: Side = us.other();
        let adjustment: i64 = match DcnModel::get_regime(depth) {
            DepthRegime::Tactical => (queen_threat_them as i64 - queen_threat_us as i64) * 28
                - checks as i64 * 32,
            DepthRegime::Strategic => {
                let us_pawns: i64 = count(board, us, Piece::Pawn);
                let them_pawns: i64 = count(board, them, Piece::Pawn);
                let us_bishops: i64 = count(board, us, Piece::Bishop);
                let them_bishops: i64 = count(board, them, Piece::Bishop);
                let bonus: i64 = if us_bishops >= 2 && them_bishops < 2 {
                    24
                } else if them_bishops >= 2 && us_bishops < 2 {
                    -24
                } else {
                    0
                };
                (us_pawns - them_pawns) * 8 + bonus
            },
            DepthRegime::Blended => {
                let d: i64 = depth as i64;
                let tactical_weight: i64 = if 15 - d > 0 {
                    15 - d
                } else {
                    0
                };
                let strategic_weight: i64 = if d - 4 > 0 {
                    d - 4
                } else {
                    0
                };
                let us_pawns: i64 = count(board, us, Piece::Pawn);
                let them_pawns: i64 = count(board, them, Piece::Pawn);
                let tactical: i64 = -(board_checks as i64) * 16;
                let strategic: i64 = (us_pawns - them_pawns) * 6;
                assert(-1_030_792_151_040 <= tactical * tactical_weight <= 0) by (nonlinear_arith)
                    requires
                        -68_719_476_720 <= tactical <= 0,
                        0 <= tactical_weight <= 15,
                ;
                assert(-5_760 <= strategic * strategic_weight <= 5_760) by (nonlinear_arith)
                    requires
                        -384 <= strategic <= 384,
                        0 <= strategic_weight <= 15,
                ;
                (tactical * tactical_weight + strategic * strategic_weight) / 11
            },
        };
        clamp_i64(modulated + adjustment, -29_000, 29_000) as i16
    }
}

/// The conditioned score depends on the pieces and the side to move alone.
pub proof fn lemma_conditioned_same(
    raw_eval: i16,
    depth: u8,
    a: &BoardState,
    b: &BoardState,
    board_checks: int,
    checks: int,
    queen_us: int,
    queen_them: int,
)
    requires
        a.same_position(b),
    ensures
        conditioned(raw_eval, depth, a, board_checks, checks, queen_us, queen_them) == conditioned(
            raw_eval,
            depth,
            b,
            board_checks,
            checks,
            queen_us,
            queen_them,
        ),
{
}

/// Every depth past the last embedding is treated like the last one.
pub proof fn law_deep_depths_agree(a: u8, b: u8)
    requires
        a >= 63,
        b >= 63,
    ensures
        gamma_of(a) == gamma_of(b),
        beta_of(a) == beta_of(b),
{
}

/// The conditioned score stays in the range of scores.
pub proof fn law_conditioned_in_range(
    raw_eval: i16,
    depth: u8,
    board: &BoardState,
    board_checks: int,
    checks: int,
    queen_us: int,
    queen_them: int,
)
    ensures
        -29_000 <= conditioned(
            raw_eval,
            depth,
            board,
            board_checks,
            checks,
            queen_us,
            queen_them,
        ) <= 29_000,
{
}

/// What a depth does to a score: it is scaled by the depth's factor over 256,
/// shifted, adjusted by what counts at that depth, and limited.
pub proof fn law_conditioned_value(
    raw_eval: i16,
    depth: u8,
    board: &BoardState,
    board_checks: int,
    checks: int,
    queen_us: int,
    queen_them: int,
    scaled: int,
)
    requires
        is_quotient(raw_eval * gamma_of(depth), 256, scaled),
    ensures
        ({
            let adjustment = if depth < 5 {
                tactical_adjustment(checks, queen_us, queen_them)
            } else if depth > 15 {
                strategic_adjustment(board)
            } else {
                blended_adjustment(board, board_checks, depth)
            };
            let v = scaled + beta_of(depth) + adjustment;
            let r = conditioned(
                raw_eval,
                depth,
                board,
                board_checks,
                checks,
                queen_us,
                queen_them,
            );
            &&& -29_000 <= v <= 29_000 ==> r == v
            &&& v > 29_000 ==> r == 29_000
            &&& v < -29_000 ==> r == -29_000
        }),
{
    law_quotient(raw_eval * gamma_of(depth), 256, scaled);
}

/// A better score is never worse after conditioning at the same depth.
#[verifier::rlimit(60)]
pub proof fn law_conditioning_keeps_order(
    low: i16,
    high: i16,
    depth: u8,
    board: &BoardState,
    board_checks: int,
    checks: int,
    queen_us: int,
    queen_them: int,
)
    requires
        low <= high,
    ensures
        conditioned(low, depth, board, board_checks, checks, queen_us, queen_them) <= conditioned(
            high,
            depth,
            board,
            board_checks,
            checks,
            queen_us,
            queen_them,
        ),
        192 <= gamma_of(depth) <= 320,
        -120 <= beta_of(depth) <= 120,
{
    let g = gamma_of(depth);
    assert(low * g <= high * g) by (nonlinear_arith)
        requires
            low <= high,
            g >= 0,
    ;
}

/// At low depths a check costs 32, an own queen in danger 28, and the enemy's
/// queen in danger gains 28.
pub proof fn law_tactics_are_linear(checks: int, queen_us: int, queen_them: int)
    ensures
        tactical_adjustment(0, 0, 0) == 0,
        tactical_adjustment(checks + 1, queen_us, queen_them) == tactical_adjustment(
            checks,
            queen_us,
            queen_them,
        ) - 32,
        tactical_adjustment(checks, queen_us + 1, queen_them) == tactical_adjustment(
            checks,
            queen_us,
            queen_them,
        ) - 28,
        tactical_adjustment(checks, queen_us, queen_them + 1) == tactical_adjustment(
            checks,
            queen_us,
            queen_them,
        ) + 28,
{
}

/// At high depths every pawn more than the opponent's is worth 8, and the only
/// bishop pair on the board 24 to its owner.
pub proof fn law_strategy_counts_pawns_and_pairs(
    board: &BoardState,
    own_pawns: int,
    other_pawns: int,
    own_bishops: int,
    other_bishops: int,
)
    requires
        !(board.side_to_move is Both),
        ({
            let us = if board.side_to_move is White {
                board.occupancies@[0]
            } else {
                board.occupancies@[1]
            };
            let them = if board.side_to_move is White {
                board.occupancies@[1]
            } else {
                board.occupancies@[0]
            };
            &&& own_pawns == pop(board.pieces@[0] & us)
            &&& other_pawns == pop(board.pieces@[0] & them)
            &&& own_bishops == pop(board.pieces@[2] & us)
            &&& other_bishops == pop(board.pieces@[2] & them)
        }),
    ensures
        own_bishops >= 2 && other_bishops < 2 ==> strategic_adjustment(board) == 8 * (own_pawns
            - other_pawns) + 24,
        own_bishops < 2 && other_bishops >= 2 ==> strategic_adjustment(board) == 8 * (own_pawns
            - other_pawns) - 24,
        (own_bishops >= 2) == (other_bishops >= 2) ==> strategic_adjustment(board) == 8 * (own_pawns
            - other_pawns),
{
}

/// Between them both count: checks the less and pawns the more the greater the
/// depth is.
#[verifier::rlimit(60)]
pub proof fn law_blend_shifts_with_depth(
    board: &BoardState,
    board_checks: int,
    depth: u8,
    lead: int,
    r: int,
)
    requires
        !(board.side_to_move is Both),
        5 <= depth <= 15,
        lead == if board.side_to_move is White {
            pop(board.pieces@[0] & board.occupancies@[0]) - pop(
                board.pieces@[0] & board.occupancies@[1],
            )
        } else {
            pop(board.pieces@[0] & board.occupancies@[1]) - pop(
                board.pieces@[0] & board.occupancies@[0],
            )
        },
        is_quotient(6 * (depth - 4) * lead - 16 * (15 - depth) * board_checks, 11, r),
    ensures
        blended_adjustment(board, board_checks, depth) == r,
{
    let d = depth as int;
    assert(-board_checks * 16 * (15 - d) == -(16 * (15 - d) * board_checks)) by (nonlinear_arith);
    assert(lead * 6 * (d - 4) == 6 * (d - 4) * lead) by (nonlinear_arith);
    law_quotient(6 * (d - 4) * lead - 16 * (15 - d) * board_checks, 11, r);
}

/// Depths below 5 are tactical, depths above 15 strategic, and those between
/// them blended.
pub proof fn law_regimes(depth: u8)
    ensures
        depth <= 4 <==> regime_of(depth) is Tactical,
        depth >= 16 <==> regime_of(depth) is Strategic,
{
}

/// The parameters of a depth are weighted sums of its embedding over 128, kept
/// within 64 of 256 and within 120 of zero.
pub proof fn law_film_parameters(depth: u8, g: int, b: int)
    requires
        is_quotient(film_sum(capped(depth), FILM_GAMMA_WEIGHTS@, 16), 128, g),
        is_quotient(film_sum(capped(depth), FILM_BETA_WEIGHTS@, 16), 128, b),
    ensures
        -64 <= g <= 64 ==> gamma_of(depth) == 256 + g,
        g > 64 ==> gamma_of(depth) == 320,
        g < -64 ==> gamma_of(depth) == 192,
        -120 <= b <= 120 ==> beta_of(depth) == b,
        b > 120 ==> beta_of(depth) == 120,
        b < -120 ==> beta_of(depth) == -120,
        depth <= 63 ==> capped(depth) == depth,
{
}

/// The embedding of a depth lies between -127 and 127, and its components turn
/// with the depth at their own speed: 13 more for the first, 39 more for each
/// further one, around a circle of 255.
pub proof fn law_embedding_turns(d: int, i: int)
    requires
        0 <= d,
        0 <= i,
    ensures
        -127 <= embedding(d, i) <= 127,
        embedding(0, i) == -127,
        (embedding(d + 1, i) - embedding(d, i) - 39 * i - 13) % 255 == 0,
{
    let f = 3 * i + 1;
    assert((d + 1) * f * 13 == d * f * 13 + 13 * f) by (nonlinear_arith);
    assert(0 * f * 13 == 0);
}

/// A weighted sum of an embedding is zero without weights, and raising one
/// weight raises it by as much times the component it belongs to.
pub proof fn law_film_is_linear(d: int, w: Seq<i16>, v: Seq<i16>, n: int, k: int, more: int)
    requires
        0 <= k,
        forall|i: int| 0 <= i < n && i != k ==> #[trigger] v[i] == w[i],
        k < n ==> v[k] == w[k] + more,
    ensures
        film_sum(d, v, n) == film_sum(d, w, n) + if k < n {
            more * embedding(d, k)
        } else {
            0
        },
        (forall|i: int| 0 <= i < n ==> #[trigger] w[i] == 0) ==> film_sum(d, w, n) == 0,
    decreases n,
{
    if n > 0 {
        law_film_is_linear(d, w, v, n - 1, k, more);
        let e = embedding(d, n - 1);
        if k == n - 1 {
            assert(e * (w[n - 1] + more) == e * w[n - 1] + more * e) by (nonlinear_arith);
        }
        if forall|i: int| 0 <= i < n ==> #[trigger] w[i] == 0 {
            assert(w[n - 1] == 0);
            assert(e * 0 == 0);
        }
    }
}

/// What each component of the embedding weighs in the scale and in the shift.
#[verifier::rlimit(60)]
pub proof fn law_film_weights(i: int)
    requires
        0 <= i < 16,
    ensures
        FILM_GAMMA_WEIGHTS@[i] == seq![
            12int,
            10,
            -8,
            6,
            -4,
            9,
            7,
            -5,
            8,
            -6,
            11,
            -7,
            5,
            -4,
            8,
            -6,
        ][i],
        FILM_BETA_WEIGHTS@[i] == seq![
            -6int,
            8,
            14,
            -10,
            5,
            -8,
            12,
            -7,
            6,
            -9,
            8,
            -12,
            7,
            -5,
            10,
            -8,
        ][i],
{
}

/// At low depths danger to the own queens never raises a score, danger to the
/// enemy's never lowers it, and neither does more of a check: own queens are
/// those on the squares of the side to move.
pub proof fn law_dangers_move_scores(
    raw_eval: i16,
    depth: u8,
    board: &BoardState,
    checkers: u64,
    more_checkers: u64,
    us: u64,
    more_us: u64,
    them: u64,
    more_them: u64,
)
    requires
        depth < 5,
        !(board.side_to_move is Both),
        pop(checkers) <= pop(more_checkers),
        ({
            let own = board.pieces@[4] & if board.side_to_move is White {
                board.occupancies@[0]
            } else {
                board.occupancies@[1]
            };
            let other = board.pieces@[4] & if board.side_to_move is White {
                board.occupancies@[1]
            } else {
                board.occupancies@[0]
            };
            &&& pop(us & own) <= pop(more_us & own)
            &&& pop(them & other) <= pop(more_them & other)
        }),
    ensures
        conditioned_on(raw_eval, depth, board, checkers, more_us, them) <= conditioned_on(
            raw_eval,
            depth,
            board,
            checkers,
            us,
            them,
        ),
        conditioned_on(raw_eval, depth, board, checkers, us, them) <= conditioned_on(
            raw_eval,
            depth,
            board,
            checkers,
            us,
            more_them,
        ),
        conditioned_on(raw_eval, depth, board, more_checkers, us, them) <= conditioned_on(
            raw_eval,
            depth,
            board,
            checkers,
            us,
            them,
        ),
{
}

} // verus!
