//! Behaviour signals of a position on small scales.

use vstd::prelude::*;

use crate::bits::{pop, popcount};
use crate::board::{BoardState, NodeThreats, Piece, Side};
use crate::math::{abs, clamp, clamp_i32, div_toward_zero, is_quotient, min, wrap32};
use crate::perception::strategic::{
    backward_below, compute_strategic_snapshot, isolated_below, shelter_of, StrategicSnapshot,
};

verus! {

#[derive(Debug, Clone, Copy, PartialEq, Eq, Default)]
pub struct BehaviorHeads {
    pub value_cp: i16,
    pub tactical_danger: u8,
    pub king_safety: u8,
    pub mobility: u8,
    pub weakness: u8,
    pub initiative: i8,
    pub counterplay: u8,
    pub pressure_hint: i8,
    pub volatility: u8,
}

/// Squares in the first `n` sets of a list, counted per set.
pub open spec fn squares_in(sets: Seq<u64>, n: int) -> int
    decreases n,
{
    if n <= 0 {
        0
    } else {
        squares_in(sets, n - 1) + pop(sets[n - 1])
    }
}

/// A signal on the scale from 0 to 100.
pub open spec fn percent(v: int) -> int {
    clamp(v, 0, 100)
}

/// Checks, squares that give check, and threats against pieces.
pub open spec fn danger_of(nt: &NodeThreats) -> int {
    percent(
        pop(nt.checkers) * 30 + min(squares_in(nt.check_squares@, 6) / 4, 40) + min(
            squares_in(nt.threats_them@, 6) / 4,
            30,
        ),
    )
}

/// Shelter of the king of the side to move; any side but White counts as
/// Black.
pub open spec fn own_shelter(board: &BoardState) -> int {
    if board.side_to_move is White {
        shelter_of(
            board.pieces_of(Side::White, Piece::King),
            board.pieces_of(Side::White, Piece::Pawn),
            Side::White,
        )
    } else {
        shelter_of(
            board.pieces_of(Side::Black, Piece::King),
            board.pieces_of(Side::Black, Piece::Pawn),
            Side::Black,
        )
    }
}

/// Isolated and backward pawns of both sides.
pub open spec fn weak_pawns(board: &BoardState) -> int {
    let wp = board.pieces_of(Side::White, Piece::Pawn);
    let bp = board.pieces_of(Side::Black, Piece::Pawn);
    isolated_below(wp, 64) + isolated_below(bp, 64) + backward_below(wp, bp, Side::White, 64)
        + backward_below(bp, wp, Side::Black, 64)
}

fn count_squares(sets: &[u64; 6]) -> (r: i32)
    ensures
        r == squares_in(sets@, 6),
        0 <= r <= 384,
{
    let mut total: i32 = 0;
    let mut i: usize = 0;
    while i < 6
        invariant
            i <= 6,
            total == squares_in(sets@, i as int),
            0 <= total <= 64 * i,
        decreases 6 - i,
    {
        total = total + popcount(sets[i]) as i32;
        i = i + 1;
    }
    total
}

fn clamp_u8(v: i32) -> (r: u8)
    ensures
        r == percent(v as int),
{
    clamp_i32(v, 0, 100) as u8
}

fn min_i32(a: i32, b: i32) -> (r: i32)
    ensures
        r == min(a as int, b as int),
{
    if a <= b {
        a
    } else {
        b
    }
}

/// How many more moves one side has than the other, as signed numbers.
pub open spec fn freedom_edge(own: u32, other: u32) -> int {
    wrap32(own as int) - wrap32(other as int)
}

/// Mobility for a number of moves; 32 moves make it full.
pub open spec fn mobility_of(own: u32) -> int {
    percent(div_toward_zero(wrap32(own as int) * 100, 32))
}

/// Pressure from momentum and the edge in freedom.
pub open spec fn pressure_of(momentum: i16, own: u32, other: u32) -> int {
    clamp(clamp(momentum as int, -60, 60) + clamp(freedom_edge(own, other), -20, 20), -100, 100)
}

/// Fewer moves never raise mobility or pressure.
pub proof fn law_constraint_lowers_signals(momentum: i16, fewer: u32, more: u32, other: u32)
    requires
        fewer <= more < 0x8000_0000,
    ensures
        mobility_of(fewer) <= mobility_of(more),
        pressure_of(momentum, fewer, other) <= pressure_of(momentum, more, other),
{
}

/// More checkers never lower the danger.
pub proof fn law_checks_raise_danger(calm: &NodeThreats, hot: &NodeThreats)
    requires
        pop(calm.checkers) <= pop(hot.checkers),
        squares_in(calm.check_squares@, 6) <= squares_in(hot.check_squares@, 6),
        squares_in(calm.threats_them@, 6) <= squares_in(hot.threats_them@, 6),
    ensures
        danger_of(calm) <= danger_of(hot),
{
}

fn signed(v: u32) -> (r: i32)
    ensures
        r == wrap32(v as int),
{
    if v < 0x8000_0000 {
        v as i32
    } else {
        -((u32::MAX - v) as i32) - 1
    }
}

/// Whether signals are those of a position.
pub open spec fn signals(
    r: BehaviorHeads,
    board: &BoardState,
    nt: &NodeThreats,
    score: i16,
    own_cpi: i32,
    opp_cpi: i32,
    own_freedom: u32,
    opp_freedom: u32,
    momentum: i16,
) -> bool {
    &&& r.value_cp == score
    &&& r.tactical_danger == danger_of(nt)
    &&& r.king_safety == percent(own_shelter(board) * 11 - pop(nt.checkers) * 20)
    &&& r.mobility == mobility_of(own_freedom)
    &&& r.weakness == percent(
        min(weak_pawns(board), 8) * 12 + div_toward_zero(min(opp_cpi as int, 100) * 60, 100),
    )
    &&& r.initiative == clamp(
        freedom_edge(own_freedom, opp_freedom) * 3 + clamp(opp_cpi - own_cpi, -30, 30),
        -100,
        100,
    )
    &&& r.counterplay == percent(div_toward_zero(min(opp_cpi as int, 200) * 100, 200))
    &&& r.pressure_hint == pressure_of(momentum, own_freedom, opp_freedom)
    &&& r.volatility == percent(abs(momentum as int) * 2)
}

/// The signals of a position, given its attack facts, the counterplay and
/// freedom of both sides, and the momentum of the score.
pub fn compute_heads(
    board: &BoardState,
    nt: &NodeThreats,
    score: i16,
    own_cpi: i32,
    opp_cpi: i32,
    own_freedom: u32,
    opp_freedom: u32,
    momentum: i16,
) -> (r: BehaviorHeads)
    requires
        i32::MIN <= wrap32(own_freedom as int) * 100 <= i32::MAX,
        i32::MIN <= freedom_edge(own_freedom, opp_freedom) <= i32::MAX,
        i32::MIN <= freedom_edge(own_freedom, opp_freedom) * 3 <= i32::MAX,
        i32::MIN <= freedom_edge(own_freedom, opp_freedom) * 3 + clamp(opp_cpi - own_cpi, -30, 30)
            <= i32::MAX,
        i32::MIN <= opp_cpi * 100,
        i32::MIN <= opp_cpi - own_cpi <= i32::MAX,
        momentum > i16::MIN,
    ensures
        signals(
            r,
            board,
            nt,
            score,
            own_cpi,
            opp_cpi,
            own_freedom,
            opp_freedom,
            momentum,
        ),
{
    let snap: StrategicSnapshot = compute_strategic_snapshot(board);
    let checkers: i32 = popcount(nt.checkers) as i32;
    let check_sq: i32 = count_squares(&nt.check_squares);
    let threats: i32 = count_squares(&nt.threats_them);
    let tactical_danger: u8 = clamp_u8(
        checkers * 30 + min_i32(check_sq / 4, 40) + min_i32(threats / 4, 30),
    );
    let shelter: i32 = if board.side_to_move == Side::White {
        snap.white_king_shelter as i32
    } else {
        snap.black_king_shelter as i32
    };
    let king_safety: u8 = clamp_u8(shelter * 11 - checkers * 20);
    let mobility: u8 = clamp_u8(min_i32(signed(own_freedom) * 100 / 32, 100));
    let weak: i32 = min_i32(
        snap.white_isolated_pawns as i32 + snap.black_isolated_pawns as i32
            + snap.white_backward_pawns as i32 + snap.black_backward_pawns as i32,
        8,
    );
    let weakness: u8 = clamp_u8(weak * 12 + (min_i32(opp_cpi, 100) * 60 / 100));
    let edge: i32 = signed(own_freedom) - signed(opp_freedom);
    let initiative: i8 = clamp_i32(
        edge * 3 + clamp_i32(opp_cpi - own_cpi, -30, 30),
        -100,
        100,
    ) as i8;
    let counterplay: u8 = clamp_u8(min_i32(opp_cpi, 200) * 100 / 200);
    let pressure_hint: i8 = clamp_i32(
        clamp_i32(momentum as i32, -60, 60) + clamp_i32(edge, -20, 20),
        -100,
        100,
    ) as i8;
    let swing: i32 = if momentum < 0 {
        -(momentum as i32)
    } else {
        momentum as i32
    };
    let volatility: u8 = clamp_u8(min_i32(swing * 2, 100));
    BehaviorHeads {
        value_cp: score,
        tactical_danger,
        king_safety,
        mobility,
        weakness,
        initiative,
        counterplay,
        pressure_hint,
        volatility,
    }
}

/// The danger: 30 points for each checker, one for every four checking squares
/// up to 40, one for every four attacked squares up to 30, and never more than
/// a hundred.
#[verifier::rlimit(60)]
pub proof fn law_danger_value(nt: &NodeThreats, checks: int, threats: int)
    requires
        is_quotient(squares_in(nt.check_squares@, 6), 4, checks),
        is_quotient(squares_in(nt.threats_them@, 6), 4, threats),
        pop(nt.checkers) >= 0,
        squares_in(nt.check_squares@, 6) >= 0,
        squares_in(nt.threats_them@, 6) >= 0,
    ensures
        ({
            let c = if checks < 40 {
                checks
            } else {
                40
            };
            let t = if threats < 30 {
                threats
            } else {
                30
            };
            let v = 30 * pop(nt.checkers) + c + t;
            danger_of(nt) == if v > 100 {
                100
            } else {
                v
            }
        }),
{
}

/// Squares are counted set by set.
pub proof fn law_squares_add_up(sets: Seq<u64>, more: u64)
    ensures
        squares_in(sets.push(more), sets.len() as int + 1) == squares_in(sets, sets.len() as int)
            + pop(more),
        squares_in(sets, 0) == 0,
{
    lemma_squares_same(sets, sets.push(more), sets.len() as int);
}

proof fn lemma_squares_same(a: Seq<u64>, b: Seq<u64>, n: int)
    requires
        n <= a.len(),
        n <= b.len(),
        forall|i: int| 0 <= i < n ==> a[i] == b[i],
    ensures
        squares_in(a, n) == squares_in(b, n),
    decreases n,
{
    if n > 0 {
        lemma_squares_same(a, b, n - 1);
    }
}

/// The king of the side to move is sheltered by the pawns of that side.
pub proof fn law_own_shelter_is_of_the_side_to_move(board: &BoardState)
    ensures
        board.side_to_move is White ==> own_shelter(board) == shelter_of(
            board.pieces@[5] & board.occupancies@[0],
            board.pieces@[0] & board.occupancies@[0],
            Side::White,
        ),
        board.side_to_move is Black ==> own_shelter(board) == shelter_of(
            board.pieces@[5] & board.occupancies@[1],
            board.pieces@[0] & board.occupancies@[1],
            Side::Black,
        ),
{
}

/// How the signals follow what they are made of: a better shelter makes the
/// king safer by 11 a point, a checker less safe by 20; more counterplay of the
/// opponent raises counterplay and weakness; every move that the own side has
/// more raises the initiative by three. All stay on their scales.
#[verifier::rlimit(60)]
pub proof fn law_signals_follow_their_causes(
    a: BehaviorHeads,
    b: BehaviorHeads,
    board: &BoardState,
    next: &BoardState,
    nt: &NodeThreats,
    hot: &NodeThreats,
    score: i16,
    own_cpi: i32,
    opp_cpi: i32,
    more_cpi: i32,
    own: u32,
    other: u32,
    momentum: i16,
)
    requires
        signals(a, board, nt, score, own_cpi, opp_cpi, own, other, momentum),
        signals(b, next, hot, score, own_cpi, more_cpi, own, other, momentum),
        opp_cpi <= more_cpi,
    ensures
        a.value_cp == score,
        a.counterplay <= b.counterplay,
        a.initiative <= b.initiative,
        weak_pawns(board) <= weak_pawns(next) ==> a.weakness <= b.weakness,
        weak_pawns(board) == 0 && opp_cpi == 0 ==> a.weakness == 0,
        opp_cpi <= 0 ==> a.counterplay == 0,
        opp_cpi >= 200 ==> a.counterplay == 100,
        0 <= opp_cpi <= 200 ==> is_quotient(opp_cpi as int, 2, a.counterplay as int),
        0 <= 11 * own_shelter(board) - 20 * pop(nt.checkers) <= 100 ==> a.king_safety == 11
            * own_shelter(board) - 20 * pop(nt.checkers),
        11 * own_shelter(board) < 20 * pop(nt.checkers) ==> a.king_safety == 0,
        own_shelter(board) <= own_shelter(next) && pop(hot.checkers) <= pop(nt.checkers)
            ==> a.king_safety <= b.king_safety,
        a.tactical_danger <= 100 && a.king_safety <= 100 && a.mobility <= 100 && a.weakness <= 100,
        -100 <= a.initiative <= 100,
        -80 <= a.pressure_hint <= 80,
{
}

/// Each weak pawn is worth 12 points of weakness up to eight of them, and each
/// point of counterplay 0.6 up to a hundred.
#[verifier::rlimit(60)]
pub proof fn law_weakness_value(
    r: BehaviorHeads,
    board: &BoardState,
    nt: &NodeThreats,
    score: i16,
    own_cpi: i32,
    opp_cpi: i32,
    own: u32,
    other: u32,
    momentum: i16,
    part: int,
)
    requires
        signals(r, board, nt, score, own_cpi, opp_cpi, own, other, momentum),
        opp_cpi >= 100 ==> part == 60,
        opp_cpi < 100 ==> is_quotient(60 * opp_cpi, 100, part),
    ensures
        ({
            let pawns = if weak_pawns(board) < 8 {
                weak_pawns(board)
            } else {
                8
            };
            let v = 12 * pawns + part;
            &&& 0 <= v <= 100 ==> r.weakness == v
            &&& v > 100 ==> r.weakness == 100
            &&& v < 0 ==> r.weakness == 0
        }),
{
}

/// Weak pawns are the isolated and the backward ones of both sides.
pub proof fn law_weak_pawns_of_both_sides(board: &BoardState)
    ensures
        ({
            let wp = board.pieces@[0] & board.occupancies@[0];
            let bp = board.pieces@[0] & board.occupancies@[1];
            weak_pawns(board) == isolated_below(wp, 64) + backward_below(wp, bp, Side::White, 64)
                + isolated_below(bp, 64) + backward_below(bp, wp, Side::Black, 64)
        }),
{
}

/// Initiative, pressure and volatility: exchanging the two sides turns the
/// initiative around, exchanging them and the momentum turns the pressure
/// around, and volatility does not depend on the direction of the momentum.
#[verifier::rlimit(60)]
pub proof fn law_signals_turn_with_the_sides(
    a: BehaviorHeads,
    b: BehaviorHeads,
    board: &BoardState,
    nt: &NodeThreats,
    score: i16,
    own_cpi: i32,
    opp_cpi: i32,
    own: u32,
    other: u32,
    momentum: i16,
    reverse: i16,
)
    requires
        signals(a, board, nt, score, own_cpi, opp_cpi, own, other, momentum),
        signals(b, board, nt, score, opp_cpi, own_cpi, other, own, reverse),
        reverse == -momentum,
    ensures
        b.initiative == -a.initiative,
        b.pressure_hint == -a.pressure_hint,
        b.volatility == a.volatility,
        -50 <= momentum <= 50 ==> a.volatility == if momentum >= 0 {
            2 * momentum
        } else {
            -2 * momentum
        },
        momentum >= 50 ==> a.volatility == 100,
        own == other && own_cpi == opp_cpi ==> a.initiative == 0,
        own == other && -60 <= momentum <= 60 ==> a.pressure_hint == momentum,
        own == other && momentum >= 60 ==> a.pressure_hint == 60,
{
}

/// Each move more than the opponent has is worth three points of initiative,
/// each point of counterplay less one, up to 30; and one point of pressure, up
/// to 20, on top of the momentum up to 60. Thirty-two moves are full mobility.
#[verifier::rlimit(60)]
pub proof fn law_freedom_is_worth(
    a: BehaviorHeads,
    board: &BoardState,
    nt: &NodeThreats,
    score: i16,
    own_cpi: i32,
    opp_cpi: i32,
    own: u32,
    other: u32,
    momentum: i16,
    relief: int,
    lead: int,
    drive: int,
)
    requires
        signals(a, board, nt, score, own_cpi, opp_cpi, own, other, momentum),
        own < 0x8000_0000,
        other < 0x8000_0000,
        -30 <= relief <= 30,
        relief == opp_cpi - own_cpi || (relief == 30 && opp_cpi - own_cpi > 30) || (relief == -30
            && opp_cpi - own_cpi < -30),
        -20 <= lead <= 20,
        lead == own - other || (lead == 20 && own - other > 20) || (lead == -20 && own - other
            < -20),
        -60 <= drive <= 60,
        drive == momentum || (drive == 60 && momentum > 60) || (drive == -60 && momentum < -60),
    ensures
        -100 <= 3 * (own - other) + relief <= 100 ==> a.initiative == 3 * (own - other) + relief,
        3 * (own - other) + relief > 100 ==> a.initiative == 100,
        3 * (own - other) + relief < -100 ==> a.initiative == -100,
        a.pressure_hint == drive + lead,
        own <= 32 ==> is_quotient(100 * own, 32, a.mobility as int),
        own >= 32 ==> a.mobility == 100,
{
    let edge = own - other;
    assert(freedom_edge(own, other) == edge);
    assert(clamp(opp_cpi - own_cpi, -30, 30) == relief);
    assert(clamp(edge, -20, 20) == lead);
    assert(clamp(momentum as int, -60, 60) == drive);
    assert(a.initiative == clamp(edge * 3 + relief, -100, 100));
    assert(a.pressure_hint == clamp(drive + lead, -100, 100));
    let m = div_toward_zero(own as int * 100, 32);
    assert(a.mobility == percent(m));
    assert(own <= 32 ==> 0 <= m <= 100);
    assert(own >= 32 ==> m >= 100);
}

} // verus!
