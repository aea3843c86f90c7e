//! Threat features of the v16 network.

use vstd::prelude::*;

use crate::board::Side;
use crate::eval::nnue::threat_tables;
use crate::eval::nnue::geometry::lemma_hits_bound;
use crate::eval::nnue::threat_counts::{
    law_attack_totals, law_no_attack_dropped, law_threats_distinct,
};
use crate::eval::nnue::threat_tables::{
    edges_in_range, law_edges_in_range, law_threat_features_in_range, lemma_offset_bound,
    lemma_pair_base_bound, threat_edge_list,
    threat_edges, threat_feature_list, ThreatLuts, ThreatScheme,
};
use crate::eval::nnue::v16::arch::{MAX_THREAT_ACTIVE, PSQ_DIMS, THREAT_DIMS};
use crate::eval::nnue::v16::pairs::pawns_inside;
use crate::eval::nnue::v16::position::{ints, SfnnPosition};
use crate::math::min;

verus! {

pub const NUM_VALID_TARGETS: [usize; 16] = [0, 4, 10, 8, 8, 10, 0, 0, 0, 4, 10, 8, 8, 10, 0, 0];

pub const THREAT_MAP: [[i32; 6]; 6] = [
    [-1, 0, -1, 1, -1, -1],
    [0, 1, 2, 3, 4, -1],
    [0, 1, 2, 3, -1, -1],
    [0, 1, 2, 3, -1, -1],
    [0, 1, 2, 3, 4, -1],
    [-1, -1, -1, -1, -1, -1],
];

/// The attacks that count in the v16 network.
pub open spec fn v16_scheme() -> ThreatScheme {
    ThreatScheme { targets: NUM_VALID_TARGETS, map: THREAT_MAP, dims: THREAT_DIMS }
}

/// Tables built for the v16 network.
pub open spec fn v16_luts(luts: &ThreatLuts) -> bool {
    luts.wf() && luts.scheme == v16_scheme()
}

pub proof fn lemma_v16_scheme()
    ensures
        v16_scheme().wf(),
{
    let s = v16_scheme();
    assert forall|i: int, j: int| 0 <= i < 6 && 0 <= j < 6 implies -1 <= #[trigger] s.map@[i]@[j]
        <= 5 by {
        assert(i == 0 || i == 1 || i == 2 || i == 3 || i == 4 || i == 5);
        assert(j == 0 || j == 1 || j == 2 || j == 3 || j == 4 || j == 5);
    }
}

/// The blocks of all attackers make up the threat features exactly.
pub proof fn law_v16_scheme_is_full()
    ensures
        v16_scheme().full(),
{
    let s = v16_scheme();
    law_attack_totals(1);
    law_attack_totals(2);
    law_attack_totals(3);
    law_attack_totals(4);
    law_attack_totals(5);
    law_attack_totals(6);
    law_attack_totals(9);
    law_attack_totals(10);
    law_attack_totals(11);
    law_attack_totals(12);
    law_attack_totals(13);
    law_attack_totals(14);
    reveal_with_fuel(ThreatScheme::cumulative, 17);
}

/// The lookup tables of the v16 threat features.
pub fn build_threat_luts() -> (luts: ThreatLuts)
    ensures
        v16_luts(&luts),
{
    proof {
        lemma_v16_scheme();
    }
    let scheme: ThreatScheme = ThreatScheme {
        targets: NUM_VALID_TARGETS,
        map: THREAT_MAP,
        dims: THREAT_DIMS,
    };
    threat_tables::build_threat_luts(scheme)
}

/// Index of a piece kind in piece codes.
pub fn sf_piece_type(pt_whale: usize) -> (r: usize)
    requires
        pt_whale < usize::MAX,
    ensures
        r == pt_whale + 1,
{
    pt_whale + 1
}

/// Every attack edge once, in a fixed order, as attacker code, attacker square,
/// target square and victim code.
pub fn for_each_threat(pos: &SfnnPosition) -> (edges: Vec<(usize, usize, usize, usize)>)
    ensures
        edges@ == threat_edges(pos),
        edges_in_range(edges@),
{
    proof {
        law_edges_in_range(pos);
    }
    threat_edge_list(pos)
}

/// Threat feature of one edge for one side; none for attacks that do not count.
pub fn threat_index_for(
    luts: &ThreatLuts,
    perspective: Side,
    attacker: usize,
    from_sf: usize,
    to_sf: usize,
    attacked: usize,
    ksq_sf: usize,
) -> (r: Option<usize>)
    requires
        v16_luts(luts),
        attacker < 16,
        attacked < 16,
        from_sf < 64,
        to_sf < 64,
    ensures
        r is Some <==> v16_scheme().feature(
            perspective,
            attacker,
            from_sf,
            to_sf,
            attacked,
            ksq_sf,
        ) is Some,
        r matches Some(f) ==> v16_scheme().feature(
            perspective,
            attacker,
            from_sf,
            to_sf,
            attacked,
            ksq_sf,
        ) == Some(f as int) && f < THREAT_DIMS,
{
    threat_tables::threat_make_index(
        luts,
        perspective,
        attacker,
        from_sf,
        to_sf,
        attacked,
        ksq_sf,
    )
}

/// A list of indices moved up by the size of the blocks before it.
pub open spec fn shifted(list: Seq<int>, by: int) -> Seq<int> {
    Seq::new(list.len(), |i: int| list[i] + by)
}

/// The threat features of a position for one side, behind the piece-square
/// block.
pub open spec fn threat_features(pos: &SfnnPosition, perspective: Side) -> Seq<int> {
    shifted(
        v16_scheme().features(
            perspective,
            pos.king_square_spec(perspective) as usize,
            threat_edges(pos),
            threat_edges(pos).len() as int,
        ),
        PSQ_DIMS as int,
    )
}

/// The threat features of one side, in edge order.
fn threat_list(luts: &ThreatLuts, pos: &SfnnPosition, perspective: Side) -> (out: Vec<usize>)
    requires
        v16_luts(luts),
    ensures
        ints(out@) == threat_features(pos, perspective),
        forall|i: int|
            0 <= i < out.len() ==> PSQ_DIMS <= #[trigger] out@[i] < PSQ_DIMS + THREAT_DIMS,
{
    let ksq: usize = pos.king_square(perspective);
    let edges: Vec<(usize, usize, usize, usize)> = for_each_threat(pos);
    let list: Vec<usize> = threat_feature_list(luts, perspective, ksq, &edges, edges.len());
    let mut out: Vec<usize> = Vec::new();
    let mut i: usize = 0;
    while i < list.len()
        invariant
            i <= list.len(),
            out.len() == i,
            forall|k: int| 0 <= k < list.len() ==> #[trigger] list@[k] < THREAT_DIMS,
            forall|k: int| 0 <= k < i ==> #[trigger] out@[k] == list@[k] + PSQ_DIMS,
        decreases list.len() - i,
    {
        out.push(PSQ_DIMS + list[i]);
        i = i + 1;
    }
    assert(ints(out@) =~= threat_features(pos, perspective));
    out
}

/// Every threat feature of a position lies in the threat block.
pub proof fn law_threats_in_block(pos: &SfnnPosition, perspective: Side)
    ensures
        forall|i: int|
            0 <= i < threat_features(pos, perspective).len() ==> PSQ_DIMS
                <= #[trigger] threat_features(pos, perspective)[i] < PSQ_DIMS + THREAT_DIMS,
{
    lemma_v16_scheme();
    law_edges_in_range(pos);
    law_threat_features_in_range(
        &v16_scheme(),
        perspective,
        pos.king_square_spec(perspective) as usize,
        threat_edges(pos),
        threat_edges(pos).len() as int,
    );
}

/// No threat of a position is listed twice.
pub proof fn law_threats_listed_once(pos: &SfnnPosition, perspective: Side)
    requires
        !(perspective is Both),
        pawns_inside(pos),
    ensures
        threat_features(pos, perspective).no_duplicates(),
{
    lemma_v16_scheme();
    law_v16_scheme_is_full();
    law_threats_distinct(&v16_scheme(), pos, perspective, threat_edges(pos).len() as int);
}

/// Every attack that counts has a feature in the threat block.
pub proof fn law_every_threat_has_a_feature(attacker: int, from: int, to: int, attacked: int)
    requires
        v16_scheme().counts(attacker, from, to, attacked),
    ensures
        v16_scheme().slot(attacker, from, to, attacked) matches Some(f) && 0 <= f < THREAT_DIMS,
{
    lemma_v16_scheme();
    law_v16_scheme_is_full();
    law_no_attack_dropped(&v16_scheme(), attacker, from, to, attacked);
    lemma_pair_base_bound(&v16_scheme(), attacker, attacked);
    lemma_offset_bound(attacker, from);
    lemma_hits_bound(attacker, from, to);
}

/// Appends the threat features of one side, in edge order.
pub fn append_threats(
    luts: &ThreatLuts,
    pos: &SfnnPosition,
    perspective: Side,
    out: &mut Vec<usize>,
)
    requires
        v16_luts(luts),
    ensures
        ints(final(out)@) == ints(old(out)@) + threat_features(pos, perspective),
{
    let mut list: Vec<usize> = threat_list(luts, pos, perspective);
    let ghost l = list@;
    out.append(&mut list);
    assert(ints(out@) =~= ints(old(out)@) + ints(l));
}

/// Writes the threat features of one side to a fixed buffer, as many as fit,
/// and returns their number.
pub fn collect_threats(
    luts: &ThreatLuts,
    pos: &SfnnPosition,
    perspective: Side,
    out: &mut [usize; 256],
) -> (n: usize)
    requires
        v16_luts(luts),
    ensures
        n == min(threat_features(pos, perspective).len() as int, MAX_THREAT_ACTIVE as int),
        forall|i: int| 0 <= i < n ==> #[trigger] final(out)@[i] == threat_features(pos, perspective)[i],
        forall|i: int| n <= i < MAX_THREAT_ACTIVE ==> #[trigger] final(out)@[i] == old(out)@[i],
{
    let list: Vec<usize> = threat_list(luts, pos, perspective);
    let n: usize = if list.len() < MAX_THREAT_ACTIVE {
        list.len()
    } else {
        MAX_THREAT_ACTIVE
    };
    let mut i: usize = 0;
    assert(ints(list@).len() == list.len());
    while i < n
        invariant
            i <= n <= list.len(),
            n <= 256,
            ints(list@) == threat_features(pos, perspective),
            forall|k: int| 0 <= k < i ==> #[trigger] out@[k] == threat_features(pos, perspective)[k],
            forall|k: int| i <= k < 256 ==> #[trigger] out@[k] == old(out)@[k],
        decreases n - i,
    {
        assert(ints(list@)[i as int] == list@[i as int]);
        out[i] = list[i];
        i = i + 1;
    }
    n
}

/// Which attacks count: those of pawns on knights and rooks, of knights and
/// queens on all but kings, of bishops and rooks on all but queens and kings,
/// and none of kings. The kinds that count stand in order.
#[verifier::rlimit(60)]
pub proof fn law_attacks_that_count(attacker: int, victim: int, lesser: int)
    requires
        0 <= attacker < 6,
        0 <= lesser < victim < 6,
    ensures
        THREAT_MAP@[attacker]@[victim] >= 0 <==> (attacker == 0 && (victim == 1 || victim == 3))
            || ((attacker == 1 || attacker == 4) && victim <= 4) || ((attacker == 2 || attacker
            == 3) && victim <= 3),
        THREAT_MAP@[attacker]@[0] >= 0 <==> 1 <= attacker <= 4,
        THREAT_MAP@[attacker]@[lesser] >= 0 && THREAT_MAP@[attacker]@[victim] >= 0
            ==> THREAT_MAP@[attacker]@[lesser] < THREAT_MAP@[attacker]@[victim],
{
    assert(attacker == 0 || attacker == 1 || attacker == 2 || attacker == 3 || attacker == 4
        || attacker == 5);
    assert(victim == 1 || victim == 2 || victim == 3 || victim == 4 || victim == 5);
    assert(lesser == 0 || lesser == 1 || lesser == 2 || lesser == 3 || lesser == 4);
}

/// The threat features of a view stand behind the 22528 features of pieces.
pub proof fn law_threats_stand_behind_pieces(pos: &SfnnPosition, view: Side, i: int)
    requires
        0 <= i < threat_features(pos, view).len(),
    ensures
        threat_features(pos, view)[i] - 22_528 == v16_scheme().features(
            view,
            pos.king_square_spec(view) as usize,
            threat_edges(pos),
            threat_edges(pos).len() as int,
        )[i],
{
}

} // verus!
