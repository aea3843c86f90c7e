//! Threat features of the v10 network.

use vstd::prelude::*;

use crate::board::Side;
use crate::eval::nnue::threat_tables;
use crate::eval::nnue::geometry::lemma_hits_bound;
use crate::eval::nnue::threat_counts::{
    law_attack_totals, law_no_attack_dropped, law_threats_distinct,
};
use crate::eval::nnue::threat_tables::{
    edges_from, edges_of, edges_to, law_edges_in_range, law_threat_features_in_range,
    lemma_offset_bound, lemma_pair_base_bound, threat_edges, threat_feature_list, ThreatLuts,
    ThreatScheme,
};
use crate::eval::nnue::v16::arch::PSQ_DIMS;
use crate::eval::nnue::v16::pairs::pawns_inside;
use crate::eval::nnue::v16::position::{append_halfka, ints, SfnnPosition};
use crate::eval::nnue::v16::threats::{for_each_threat, shifted};
use crate::eval::nnue::v2::arch::THREAT_DIMS;

verus! {

pub const NUM_VALID_TARGETS: [usize; 16] = [0, 6, 12, 10, 10, 12, 8, 0, 0, 6, 12, 10, 10, 12, 8, 0];

pub const THREAT_MAP: [[i32; 6]; 6] = [
    [0, 1, -1, 2, -1, -1],
    [0, 1, 2, 3, 4, 5],
    [0, 1, 2, 3, -1, 4],
    [0, 1, 2, 3, -1, 4],
    [0, 1, 2, 3, 4, 5],
    [0, 1, 2, 3, -1, -1],
];

/// The attacks that count in the v10 network.
pub open spec fn v10_scheme() -> ThreatScheme {
    ThreatScheme { targets: NUM_VALID_TARGETS, map: THREAT_MAP, dims: THREAT_DIMS }
}

/// Tables built for the v10 network.
pub open spec fn v10_luts(luts: &ThreatLuts) -> bool {
    luts.wf() && luts.scheme == v10_scheme()
}

pub proof fn lemma_v10_scheme()
    ensures
        v10_scheme().wf(),
{
    let s = v10_scheme();
    assert forall|i: int, j: int| 0 <= i < 6 && 0 <= j < 6 implies -1 <= #[trigger] s.map@[i]@[j]
        <= 5 by {
        assert(i == 0 || i == 1 || i == 2 || i == 3 || i == 4 || i == 5);
        assert(j == 0 || j == 1 || j == 2 || j == 3 || j == 4 || j == 5);
    }
}

/// The blocks of all attackers make up the threat features exactly.
pub proof fn law_v10_scheme_is_full()
    ensures
        v10_scheme().full(),
{
    let s = v10_scheme();
    law_attack_totals(1);
    law_attack_totals(2);
    law_attack_totals(3);
    law_attack_totals(4);
    law_attack_totals(5);
    law_attack_totals(6);
    law_attack_totals(9);
    law_attack_totals(10);
    law_attack_totals(11);
    law_attack_totals(12);
    law_attack_totals(13);
    law_attack_totals(14);
    reveal_with_fuel(ThreatScheme::cumulative, 17);
}

/// The lookup tables of the v10 threat features.
pub fn build_threat_luts() -> (luts: ThreatLuts)
    ensures
        v10_luts(&luts),
{
    proof {
        lemma_v10_scheme();
    }
    let scheme: ThreatScheme = ThreatScheme {
        targets: NUM_VALID_TARGETS,
        map: THREAT_MAP,
        dims: THREAT_DIMS,
    };
    threat_tables::build_threat_luts(scheme)
}

/// Threat feature of one edge for one side; none for attacks that do not count.
pub fn threat_index_for(
    luts: &ThreatLuts,
    perspective: Side,
    attacker: usize,
    from_sf: usize,
    to_sf: usize,
    attacked: usize,
    ksq_sf: usize,
) -> (r: Option<usize>)
    requires
        v10_luts(luts),
        attacker < 16,
        attacked < 16,
        from_sf < 64,
        to_sf < 64,
    ensures
        r is Some <==> v10_scheme().feature(
            perspective,
            attacker,
            from_sf,
            to_sf,
            attacked,
            ksq_sf,
        ) is Some,
        r matches Some(f) ==> v10_scheme().feature(
            perspective,
            attacker,
            from_sf,
            to_sf,
            attacked,
            ksq_sf,
        ) == Some(f as int) && f < THREAT_DIMS,
{
    threat_tables::threat_make_index(
        luts,
        perspective,
        attacker,
        from_sf,
        to_sf,
        attacked,
        ksq_sf,
    )
}

/// The threat features of a position for one side, from zero.
pub open spec fn threat_list(pos: &SfnnPosition, perspective: Side) -> Seq<int> {
    v10_scheme().features(
        perspective,
        pos.king_square_spec(perspective) as usize,
        threat_edges(pos),
        threat_edges(pos).len() as int,
    )
}

/// The threat features of a position for one side, behind the piece-square
/// block.
pub open spec fn threat_features(pos: &SfnnPosition, perspective: Side) -> Seq<int> {
    shifted(threat_list(pos, perspective), PSQ_DIMS as int)
}

proof fn lemma_edges_to_len(pos: &SfnnPosition, white: bool, kind: int, from: int, n: int)
    requires
        0 <= n,
    ensures
        edges_to(pos, white, kind, from, n).len() <= n,
    decreases n,
{
    if n > 0 {
        lemma_edges_to_len(pos, white, kind, from, n - 1);
    }
}

proof fn lemma_edges_from_len(pos: &SfnnPosition, white: bool, kind: int, n: int)
    requires
        0 <= n,
    ensures
        edges_from(pos, white, kind, n).len() <= 64 * n,
    decreases n,
{
    if n > 0 {
        lemma_edges_from_len(pos, white, kind, n - 1);
        lemma_edges_to_len(pos, white, kind, n - 1, 64);
    }
}

proof fn lemma_edges_of_len(pos: &SfnnPosition, white: bool, n: int)
    requires
        0 <= n,
    ensures
        edges_of(pos, white, n).len() <= 4096 * n,
    decreases n,
{
    if n > 0 {
        lemma_edges_of_len(pos, white, n - 1);
        lemma_edges_from_len(pos, white, n - 1, 64);
    }
}

/// Every threat feature lies in the threat block, and there are not too many.
pub proof fn law_threats_in_block(pos: &SfnnPosition, perspective: Side)
    ensures
        threat_list(pos, perspective).len() <= 49_152,
        forall|i: int|
            0 <= i < threat_list(pos, perspective).len() ==> 0 <= #[trigger] threat_list(
                pos,
                perspective,
            )[i] < THREAT_DIMS,
{
    lemma_v10_scheme();
    law_edges_in_range(pos);
    law_threat_features_in_range(
        &v10_scheme(),
        perspective,
        pos.king_square_spec(perspective) as usize,
        threat_edges(pos),
        threat_edges(pos).len() as int,
    );
    lemma_edges_of_len(pos, true, 6);
    lemma_edges_of_len(pos, false, 6);
}

/// The threat features of one side, from zero, in edge order.
pub fn collect_threat_list(luts: &ThreatLuts, pos: &SfnnPosition, perspective: Side) -> (out: Vec<
    usize,
>)
    requires
        v10_luts(luts),
    ensures
        ints(out@) == threat_list(pos, perspective),
        out.len() <= 49_152,
{
    let ksq: usize = pos.king_square(perspective);
    let edges: Vec<(usize, usize, usize, usize)> = for_each_threat(pos);
    let out: Vec<usize> = threat_feature_list(luts, perspective, ksq, &edges, edges.len());
    proof {
        assert(ints(out@) =~= threat_list(pos, perspective));
        law_threats_in_block(pos, perspective);
        assert(ints(out@).len() == out.len());
    }
    out
}

/// No threat of a position is listed twice.
pub proof fn law_threats_listed_once(pos: &SfnnPosition, perspective: Side)
    requires
        !(perspective is Both),
        pawns_inside(pos),
    ensures
        threat_features(pos, perspective).no_duplicates(),
{
    lemma_v10_scheme();
    law_v10_scheme_is_full();
    law_threats_distinct(&v10_scheme(), pos, perspective, threat_edges(pos).len() as int);
}

/// Every attack that counts has a feature in the threat block.
pub proof fn law_every_threat_has_a_feature(attacker: int, from: int, to: int, attacked: int)
    requires
        v10_scheme().counts(attacker, from, to, attacked),
    ensures
        v10_scheme().slot(attacker, from, to, attacked) matches Some(f) && 0 <= f < THREAT_DIMS,
{
    lemma_v10_scheme();
    law_v10_scheme_is_full();
    law_no_attack_dropped(&v10_scheme(), attacker, from, to, attacked);
    lemma_pair_base_bound(&v10_scheme(), attacker, attacked);
    lemma_offset_bound(attacker, from);
    lemma_hits_bound(attacker, from, to);
}

/// Appends the threat features of one side, in edge order.
pub fn append_threats(
    luts: &ThreatLuts,
    pos: &SfnnPosition,
    perspective: Side,
    out: &mut Vec<usize>,
)
    requires
        v10_luts(luts),
    ensures
        ints(final(out)@) == ints(old(out)@) + threat_features(pos, perspective),
{
    let list: Vec<usize> = collect_threat_list(luts, pos, perspective);
    let ghost start = out@;
    proof {
        law_threats_in_block(pos, perspective);
        assert(ints(list@).len() == list.len());
        assert(ints(out@) =~= ints(start) + threat_features(pos, perspective).take(0));
    }
    let mut i: usize = 0;
    while i < list.len()
        invariant
            i <= list.len(),
            ints(list@) == threat_list(pos, perspective),
            ints(list@).len() == list.len(),
            forall|k: int|
                0 <= k < threat_list(pos, perspective).len() ==> 0 <= #[trigger] threat_list(
                    pos,
                    perspective,
                )[k] < THREAT_DIMS,
            ints(out@) == ints(start) + threat_features(pos, perspective).take(i as int),
        decreases list.len() - i,
    {
        let f: usize = list[i];
        assert(ints(list@)[i as int] == f);
        assert(threat_list(pos, perspective)[i as int] == f);
        let ghost before = out@;
        out.push(PSQ_DIMS + f);
        proof {
            let all = threat_features(pos, perspective);
            assert(ints(out@) =~= ints(before).push(PSQ_DIMS + f));
            assert(all[i as int] == PSQ_DIMS + f);
            assert(all.take(i + 1) =~= all.take(i as int).push(all[i as int]));
            assert(ints(out@) =~= ints(start) + all.take(i + 1));
        }
        i = i + 1;
    }
    assert(threat_features(pos, perspective).take(i as int) =~= threat_features(pos, perspective));
}

/// The training features of a position: piece-square features of both sides,
/// then threats of both sides, from zero.
pub fn trainer_features(
    luts: &ThreatLuts,
    pieces: &[u64; 6],
    white: u64,
    black: u64,
    mapping: &[u8; 64],
) -> (r: (Vec<usize>, Vec<usize>, Vec<usize>, Vec<usize>))
    requires
        v10_luts(luts),
    ensures
        ({
            let pos = SfnnPosition { pieces: *pieces, white, black, mapping: *mapping };
            &&& ints(r.0@) == pos.halfka_features(Side::White)
            &&& ints(r.1@) == pos.halfka_features(Side::Black)
            &&& ints(r.2@) == threat_list(&pos, Side::White)
            &&& ints(r.3@) == threat_list(&pos, Side::Black)
        }),
{
    let pos: SfnnPosition = SfnnPosition { pieces: *pieces, white, black, mapping: *mapping };
    let mut w_h: Vec<usize> = Vec::new();
    let mut b_h: Vec<usize> = Vec::new();
    append_halfka(&pos, Side::White, &mut w_h);
    append_halfka(&pos, Side::Black, &mut b_h);
    let w_t: Vec<usize> = collect_threat_list(luts, &pos, Side::White);
    let b_t: Vec<usize> = collect_threat_list(luts, &pos, Side::Black);
    assert(ints(w_h@) =~= pos.halfka_features(Side::White));
    assert(ints(b_h@) =~= pos.halfka_features(Side::Black));
    (w_h, b_h, w_t, b_t)
}

/// Which attacks count: those of pawns on pawns, knights and rooks, of knights
/// and queens on all pieces, of bishops and rooks on all but queens, and of
/// kings on all but queens and kings. The kinds that count stand in order.
#[verifier::rlimit(60)]
pub proof fn law_attacks_that_count(attacker: int, victim: int, lesser: int)
    requires
        0 <= attacker < 6,
        0 <= lesser < victim < 6,
    ensures
        THREAT_MAP@[attacker]@[victim] >= 0 <==> (attacker == 0 && (victim == 1 || victim == 3))
            || attacker == 1 || attacker == 4 || ((attacker == 2 || attacker == 3) && victim != 4)
            || (attacker == 5 && victim <= 3),
        THREAT_MAP@[attacker]@[0] == 0,
        THREAT_MAP@[attacker]@[lesser] >= 0 && THREAT_MAP@[attacker]@[victim] >= 0
            ==> THREAT_MAP@[attacker]@[lesser] < THREAT_MAP@[attacker]@[victim],
{
    assert(attacker == 0 || attacker == 1 || attacker == 2 || attacker == 3 || attacker == 4
        || attacker == 5);
    assert(victim == 1 || victim == 2 || victim == 3 || victim == 4 || victim == 5);
    assert(lesser == 0 || lesser == 1 || lesser == 2 || lesser == 3 || lesser == 4);
}

} // verus!
