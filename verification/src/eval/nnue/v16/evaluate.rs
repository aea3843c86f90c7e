//! Evaluating a position with the network in use.

use vstd::prelude::*;

use crate::bits::pop;
use crate::board::{BoardState, Side};
use crate::eval::nnue::leb128::parse_section;
use crate::eval::nnue::threat_tables::{
    law_edges_in_range, law_threat_features_in_range, threat_edges, ThreatLuts,
};
use crate::eval::nnue::v16::arch::{bucket_of, material_bucket, PAIR_DIMS, PSQ_DIMS, THREAT_DIMS};
use crate::eval::nnue::v16::eval::{ensure_fresh, refreshed_all, FinnyCache, LoadedNets, Sfnn16Accs};
use crate::eval::nnue::v16::freshen::{both_freshened, ensure_sfnn16_fresh};
use crate::eval::nnue::v16::inference::{
    eval_edges, eval_pair_features, eval_pairs, eval_threats, eval_with_net, law_positional_scale,
    law_psqt_term_measures_the_lead, output_sum, pair_weights, propagated, psqt_term, sees_pairs,
    stack_ok, threat_weights, transformed, view_ok,
};
use crate::eval::nnue::v16::loader::{
    lemma_section_len, parse_net_file, parse_plain, parse_stacks, parse_transformer, NetModel,
    Sfnn16Net,
};
use crate::eval::nnue::v16::pairs::{
    law_pairs_in_range, lemma_pair_features_above, lemma_pair_features_bound, lemma_pairs_inside,
    pair_features_of, pawn_pairs, pawns_inside,
};
use crate::eval::nnue::v16::position::{kings_present, kings_present_spec, SfnnPosition};
use crate::eval::nnue::v16::threats::{lemma_v16_scheme, v16_luts, v16_scheme};
use crate::math::{clamp, clamp_i32, div_toward_zero, is_quotient};

verus! {

/// The terms of an evaluation, from the side to move.
#[derive(Clone, Copy, Debug, PartialEq, Eq)]
pub struct SfnnEval {
    pub psqt: i32,
    pub positional: i32,
    pub combined: i32,
    pub used_small: bool,
}

impl SfnnEval {
    /// The terms have the size that the integer layers give them.
    pub open spec fn in_scale(&self) -> bool {
        &&& -0x400_0000 <= self.psqt <= 0x400_0000
        &&& -0x800_0000 <= self.positional <= 0x800_0000
    }
}

/// What two terms combine to: raw dumps carry everything in the positional
/// term.
pub open spec fn combined_score(is_rudi: bool, psqt: int, positional: int) -> int {
    if is_rudi {
        positional
    } else {
        psqt + positional
    }
}

/// Puts the two terms of an evaluation together.
pub fn combine_eval(is_rudi: bool, psqt: i32, positional: i32) -> (r: SfnnEval)
    requires
        i32::MIN <= combined_score(is_rudi, psqt as int, positional as int) <= i32::MAX,
    ensures
        r.psqt == psqt,
        r.positional == positional,
        r.combined == combined_score(is_rudi, psqt as int, positional as int),
        !r.used_small,
{
    let combined: i32 = if is_rudi {
        positional
    } else {
        psqt + positional
    };
    SfnnEval { psqt, positional, combined, used_small: false }
}

/// Material bucket of a position.
pub open spec fn bucket_at(pos: &SfnnPosition) -> int {
    bucket_of(pop(pos.occupied_spec()))
}

/// The piece-square term of a position.
pub open spec fn psqt_of(pos: &SfnnPosition, net: &Sfnn16Net, accs: &Sfnn16Accs, stm: Side) -> int {
    psqt_term(pos, net, true, accs.psqt@[0]@, accs.psqt@[1]@, stm, bucket_at(pos))
}

/// The positional term of a position.
pub open spec fn positional_of(
    pos: &SfnnPosition,
    net: &Sfnn16Net,
    accs: &Sfnn16Accs,
    stm: Side,
) -> int {
    div_toward_zero(
        propagated(
            &net.stacks@[bucket_at(pos)],
            net.l1 as int,
            transformed(pos, net, true, accs.halfka@[0]@, accs.halfka@[1]@, stm),
        ),
        16,
    )
}

/// Whether an evaluation is the one that a network gives for some sums.
pub open spec fn is_eval(
    e: &SfnnEval,
    pos: &SfnnPosition,
    net: &Sfnn16Net,
    accs: &Sfnn16Accs,
    stm: Side,
) -> bool {
    &&& e.psqt == psqt_of(pos, net, accs, stm)
    &&& e.positional == positional_of(pos, net, accs, stm)
    &&& e.combined == e.psqt + e.positional
    &&& !e.used_small
    &&& e.in_scale()
}

impl Sfnn16Net {
    /// Every list has the size that the width and the feature blocks ask for.
    pub open spec fn sized(&self) -> bool {
        let t = &self.transformer;
        let l1 = self.l1 as int;
        &&& t.bias.len() == l1
        &&& t.weights.len() == PSQ_DIMS * l1
        &&& t.psqt_w.len() == PSQ_DIMS * 8
        &&& self.use_threats ==> {
            &&& threat_weights(self).len() == THREAT_DIMS * l1
            &&& t.threat_psqt_w.len() == THREAT_DIMS * 8
        }
        &&& t.pair_w.len() > 0 || t.pair_w_i16.len() > 0 ==> {
            &&& pair_weights(self).len() == PAIR_DIMS * l1
            &&& t.pair_psqt_w.len() == PAIR_DIMS * 8
        }
        &&& self.stacks.len() == 8
        &&& forall|i: int|
            0 <= i < 8 ==> stack_ok(#[trigger] &self.stacks@[i], l1) && self.stacks@[i].is_rudi
                == self.is_rudi
    }

    /// A network that evaluates with integers alone and has the full width.
    pub open spec fn usable(&self) -> bool {
        self.sized() && self.l1 == 1024 && !self.is_rudi
    }
}

/// Whether every pawn pair that an evaluation looks at has a number in the
/// block of pairs. A pawn on an outer rank can have a partner for which there
/// is none.
pub open spec fn pairs_covered(pos: &SfnnPosition, net: &Sfnn16Net) -> bool {
    sees_pairs(net, true) ==> forall|view: Side, i: int|
        0 <= i < eval_pair_features(pos, net, true, view).len() ==> #[trigger] eval_pair_features(
            pos,
            net,
            true,
            view,
        )[i] < PAIR_DIMS
}

/// Pawns between the outer ranks make no pair without a number.
pub proof fn law_inner_pawns_are_covered(pos: &SfnnPosition, net: &Sfnn16Net)
    requires
        pawns_inside(pos),
    ensures
        pairs_covered(pos, net),
{
    assert forall|view: Side, i: int|
        0 <= i < eval_pair_features(pos, net, true, view).len() && sees_pairs(net, true) implies
        #[trigger] eval_pair_features(pos, net, true, view)[i] < PAIR_DIMS by {
        let ksq = pos.king_square_spec(view);
        lemma_pairs_inside(pos);
        lemma_pair_features_bound(view, ksq, pawn_pairs(pos), eval_pairs(pos));
        let all = pair_features_of(view, ksq, pawn_pairs(pos), eval_pairs(pos));
        assert(eval_pair_features(pos, net, true, view)[i] == all[i] - (PSQ_DIMS + THREAT_DIMS));
    }
}

/// In a network with complete lists, every threat and pair of a position has
/// its weights.
pub proof fn law_sized_net_covers_views(
    pos: &SfnnPosition,
    net: &Sfnn16Net,
    active: bool,
    view: Side,
)
    requires
        net.sized(),
        pairs_covered(pos, net),
    ensures
        view_ok(pos, net, active, view),
{
    let l1 = net.l1 as int;
    let threats = eval_threats(pos, net, active, view);
    let pairs = eval_pair_features(pos, net, active, view);
    lemma_v16_scheme();
    law_edges_in_range(pos);
    law_threat_features_in_range(
        &v16_scheme(),
        view,
        pos.king_square_spec(view) as usize,
        threat_edges(pos),
        eval_edges(pos),
    );
    assert forall|i: int| 0 <= i < threats.len() implies 0 <= #[trigger] threats[i] && threats[i]
        * l1 + l1 <= threat_weights(net).len() && threats[i] * 8 + 8 <= THREAT_DIMS * 8 by {
        let f = threats[i];
        assert(0 <= f < THREAT_DIMS);
        assert(f * l1 + l1 <= 59_808 * l1) by (nonlinear_arith)
            requires
                0 <= f < 59_808,
                l1 >= 0,
        ;
    }
    law_pairs_in_range(pos);
    lemma_pair_features_above(view, pos.king_square_spec(view), pawn_pairs(pos), eval_pairs(pos));
    assert forall|i: int| 0 <= i < pairs.len() implies 0 <= #[trigger] pairs[i] && pairs[i] * l1
        + l1 <= pair_weights(net).len() && pairs[i] * 8 + 8 <= PAIR_DIMS * 8 by {
        let all = pair_features_of(
            view,
            pos.king_square_spec(view),
            pawn_pairs(pos),
            eval_pairs(pos),
        );
        let f = all[i] - (PSQ_DIMS + THREAT_DIMS);
        assert(pairs[i] == f);
        assert(eval_pair_features(pos, net, true, view)[i] < PAIR_DIMS);
        assert(f * l1 + l1 <= 4_560 * l1) by (nonlinear_arith)
            requires
                0 <= f < 4_560,
                l1 >= 0,
        ;
    }
}

proof fn lemma_stacks_sized(data: Seq<u8>, pos: int, l1: int, n: int)
    requires
        0 <= n,
        0 <= l1,
    ensures
        parse_stacks(data, pos, l1, n).result matches Ok(m) ==> m.len() == n && forall|i: int|
            0 <= i < n ==> (#[trigger] m[i]).fc0_w.len() >= 32 * l1 && m[i].fc1_w.len() == 2048
                && !m[i].is_rudi,
    decreases n,
{
    if n > 0 {
        lemma_stacks_sized(data, pos, l1, n - 1);
    }
}

proof fn lemma_plain_sized(data: Seq<u8>, pos: int, l1: int, bias: Seq<int>)
    requires
        0 <= l1,
    ensures
        parse_plain(data, pos, l1, bias).result matches Ok(m) ==> {
            &&& m.bias == bias
            &&& m.weights.len() == PSQ_DIMS * l1
            &&& m.psqt_w.len() == PSQ_DIMS * 8
            &&& m.pair_w.len() == 0
            &&& m.pair_w_i16.len() == 0
            &&& m.threat_w_i16.len() == 0
        },
{
    assert(PSQ_DIMS * l1 >= 0) by (nonlinear_arith)
        requires
            l1 >= 0,
    ;
    lemma_section_len(false, data, pos, PSQ_DIMS * l1);
    let w = parse_section(false, data, pos, PSQ_DIMS * l1);
    lemma_section_len(true, data, w.pos, PSQ_DIMS * 8);
}

proof fn lemma_transformer_sized(data: Seq<u8>, pos: int, use_threats: bool, l1: int)
    requires
        0 <= l1,
    ensures
        parse_transformer(data, pos, use_threats, l1).result matches Ok(m) ==> {
            &&& m.bias.len() == l1
            &&& m.weights.len() == PSQ_DIMS * l1
            &&& m.psqt_w.len() == PSQ_DIMS * 8
            &&& use_threats ==> m.threat_w.len() == THREAT_DIMS * l1 && m.threat_psqt_w.len()
                == THREAT_DIMS * 8
            &&& m.pair_w.len() > 0 ==> m.pair_w.len() == PAIR_DIMS * l1 && m.pair_psqt_w.len()
                == PAIR_DIMS * 8
            &&& m.pair_w_i16.len() == 0
        },
{
    let b = parse_section(false, data, pos, l1);
    lemma_section_len(false, data, pos, l1);
    if b.result is Ok {
        let bias = b.result->Ok_0;
        assert(THREAT_DIMS * l1 >= 0 && PAIR_DIMS * l1 >= 0 && (THREAT_DIMS + PSQ_DIMS) * l1
            == THREAT_DIMS * l1 + PSQ_DIMS * l1 && PSQ_DIMS * l1 >= 0) by (nonlinear_arith)
            requires
                l1 >= 0,
        ;
        if !use_threats {
            lemma_plain_sized(data, b.pos, l1, bias);
        } else if crate::eval::nnue::v16::loader::split_layout(data, b.pos, l1) {
            let tw = crate::eval::nnue::leb128::parse_bytes(
                data,
                b.pos,
                THREAT_DIMS * l1,
                "truncated threat weights",
            );
            lemma_section_len(true, data, tw.pos, THREAT_DIMS * 8);
            let tp = parse_section(true, data, tw.pos, THREAT_DIMS * 8);
            let pw = crate::eval::nnue::leb128::parse_bytes(
                data,
                tp.pos,
                PAIR_DIMS * l1,
                "truncated pair weights",
            );
            lemma_section_len(true, data, pw.pos, PAIR_DIMS * 8);
            let pp = parse_section(true, data, pw.pos, PAIR_DIMS * 8);
            lemma_plain_sized(data, pp.pos, l1, bias);
        } else {
            lemma_section_len(false, data, b.pos, (THREAT_DIMS + PSQ_DIMS) * l1);
            let w = parse_section(false, data, b.pos, (THREAT_DIMS + PSQ_DIMS) * l1);
            lemma_section_len(true, data, w.pos, (THREAT_DIMS + PSQ_DIMS) * 8);
        }
    }
}

/// Every network read from a file has complete lists.
pub proof fn law_loaded_net_is_sized(
    data: Seq<u8>,
    use_threats: bool,
    l1: int,
    net: &Sfnn16Net,
)
    requires
        0 <= l1,
        parse_net_file(data, use_threats, l1) == Ok::<NetModel, &'static str>(net.model()),
    ensures
        net.sized(),
        net.is_rudi || net.l1 == l1,
        net.is_rudi ==> net.l1 == 1024,
{
    let t = &net.transformer;
    let m = net.model();
    assert(m.transformer == t.model());
    assert(t.bias.len() == m.transformer.bias.len());
    assert(t.weights.len() == m.transformer.weights.len());
    assert(t.psqt_w.len() == m.transformer.psqt_w.len());
    assert(t.threat_w.len() == m.transformer.threat_w.len());
    assert(t.threat_w_i16.len() == m.transformer.threat_w_i16.len());
    assert(t.threat_psqt_w.len() == m.transformer.threat_psqt_w.len());
    assert(t.pair_w.len() == m.transformer.pair_w.len());
    assert(t.pair_w_i16.len() == m.transformer.pair_w_i16.len());
    assert(t.pair_psqt_w.len() == m.transformer.pair_psqt_w.len());
    assert(net.stacks.len() == m.stacks.len());
    assert forall|i: int| 0 <= i < net.stacks.len() implies (#[trigger] net.stacks@[i]).fc0_w.len()
        == m.stacks[i].fc0_w.len() && net.stacks@[i].fc1_w.len() == m.stacks[i].fc1_w.len()
        && net.stacks@[i].is_rudi == m.stacks[i].is_rudi by {
        assert(m.stacks[i] == net.stacks@[i].model());
    }
    if !crate::eval::nnue::v16::loader::is_raw_file(data) {
        let header = crate::eval::nnue::v16::loader::parse_header(data, use_threats, l1);
        lemma_transformer_sized(data, header.pos, use_threats, l1);
        let tp = parse_transformer(data, header.pos, use_threats, l1);
        lemma_stacks_sized(data, tp.pos, l1, 8);
    }
}

/// Evaluates a position from its sums.
pub fn evaluate_sums(
    pos: &SfnnPosition,
    net: &Sfnn16Net,
    luts: &ThreatLuts,
    accs: &Sfnn16Accs,
    stm: Side,
) -> (r: SfnnEval)
    requires
        !(stm is Both),
        v16_luts(luts),
        net.usable(),
        pairs_covered(pos, net),
    ensures
        is_eval(&r, pos, net, accs, stm),
{
    let bucket: usize = material_bucket(pos.piece_count());
    proof {
        law_sized_net_covers_views(pos, net, true, Side::White);
        law_sized_net_covers_views(pos, net, true, Side::Black);
        let stack = &net.stacks@[bucket as int];
    }
    let r: (i32, i32) = eval_with_net(
        pos,
        net,
        luts,
        true,
        accs.halfka[0].as_slice(),
        accs.halfka[1].as_slice(),
        &accs.psqt[0],
        &accs.psqt[1],
        stm,
        bucket,
    );
    combine_eval(net.is_rudi, r.0, r.1)
}

/// Evaluates a position with the network in use: nothing without a network or
/// without both kings. Sums of another generation are refreshed first.
pub fn evaluate_nets(
    pos: &SfnnPosition,
    nets: Option<&LoadedNets>,
    generation: u64,
    luts: &ThreatLuts,
    accs: &mut Sfnn16Accs,
    stm: Side,
) -> (r: Option<SfnnEval>)
    requires
        !(stm is Both),
        v16_luts(luts),
        nets matches Some(n) ==> n.net.usable(),
        nets matches Some(n) ==> kings_present_spec(pos) ==> pairs_covered(pos, &n.net),
    ensures
        r is Some <==> nets is Some && kings_present_spec(pos),
        r is None ==> *final(accs) == *old(accs),
        r is Some ==> {
            &&& old(accs).generation == generation ==> *final(accs) == *old(accs)
            &&& old(accs).generation != generation ==> refreshed_all(
                old(accs),
                final(accs),
                pos,
                nets,
                generation,
            )
        },
        r matches Some(e) ==> is_eval(&e, pos, &nets->0.net, final(accs), stm),
{
    if !kings_present(pos) {
        return None;
    }
    match nets {
        None => None,
        Some(n) => {
            ensure_fresh(pos, nets, generation, accs);
            Some(evaluate_sums(pos, &n.net, luts, accs, stm))
        },
    }
}

/// What a board must offer so that a network can be used on it.
pub open spec fn ready(
    board: &BoardState,
    nets: Option<&LoadedNets>,
    generation: u64,
    luts: &ThreatLuts,
    cache: &FinnyCache,
) -> bool {
    &&& !(board.side_to_move is Both)
    &&& v16_luts(luts)
    &&& nets matches Some(n) ==> {
        &&& n.net.usable()
        &&& cache.wf(&n.net.transformer, generation)
        &&& kings_present_spec(&SfnnPosition::of(board)) ==> board.history.covers()
            && pairs_covered(&SfnnPosition::of(board), &n.net)
    }
}

/// The effect of an evaluation on the history, and its value: the sums of the
/// newest ply are brought up to date and evaluated.
pub open spec fn board_evaluated(
    before: &BoardState,
    after: &BoardState,
    nets: Option<&LoadedNets>,
    generation: u64,
    e: Option<SfnnEval>,
) -> bool {
    let pos = SfnnPosition::of(before);
    &&& after.same_position(before)
    &&& e is Some <==> nets is Some && kings_present_spec(&pos)
    &&& match e {
        None => after.history == before.history,
        Some(v) => {
            let h = &after.history;
            &&& both_freshened(
                &before.history,
                h,
                &pos,
                &nets->0.net.transformer,
                generation,
            )
            &&& is_eval(
                &v,
                &pos,
                &nets->0.net,
                &h.sfnn16@[h.index as int],
                before.side_to_move,
            )
            &&& h.index == before.history.index
            &&& h.sfnn16@[h.index as int].generation == generation
        },
    }
}

/// Evaluates a board with the network in use, term by term.
pub fn evaluate_board_detailed(
    board: &mut BoardState,
    nets: Option<&LoadedNets>,
    generation: u64,
    luts: &ThreatLuts,
    cache: &mut FinnyCache,
) -> (r: Option<SfnnEval>)
    requires
        ready(old(board), nets, generation, luts, old(cache)),
    ensures
        board_evaluated(old(board), final(board), nets, generation, r),
        nets matches Some(n) ==> final(cache).wf(&n.net.transformer, generation),
        nets is None ==> *final(cache) == *old(cache),
{
    if nets.is_none() {
        return None;
    }
    let pos: SfnnPosition = SfnnPosition::from_board(board);
    ensure_sfnn16_fresh(board, &pos, nets, generation, cache);
    if !kings_present(&pos) {
        return None;
    }
    let idx: usize = board.history.index;
    let stm: Side = board.side_to_move;
    match nets {
        Some(n) => {
            // The sums of the newest ply now belong to the generation in use.
            Some(evaluate_sums(&pos, &n.net, luts, &board.history.sfnn16[idx], stm))
        },
        None => None,
    }
}

/// Evaluates a board with the network in use.
pub fn evaluate_board(
    board: &mut BoardState,
    nets: Option<&LoadedNets>,
    generation: u64,
    luts: &ThreatLuts,
    cache: &mut FinnyCache,
) -> (r: Option<i16>)
    requires
        ready(old(board), nets, generation, luts, old(cache)),
    ensures
        exists|e: Option<SfnnEval>|
            #[trigger] board_evaluated(old(board), final(board), nets, generation, e) && match e {
                Some(v) => r == Some(clamp(v.combined as int, -29_000, 29_000) as i16),
                None => r is None,
            },
        nets matches Some(n) ==> final(cache).wf(&n.net.transformer, generation),
        nets is None ==> *final(cache) == *old(cache),
{
    let e: Option<SfnnEval> = evaluate_board_detailed(board, nets, generation, luts, cache);
    match e {
        Some(v) => Some(clamp_i32(v.combined, -29_000, 29_000) as i16),
        None => None,
    }
}

/// The terms of an evaluation from the sums kept for a position: the
/// piece-square term is a thirty-second of the lead of the side to move in the
/// bucket for the number of pieces, without the fraction; both terms add up.
#[verifier::rlimit(60)]
pub proof fn law_evaluation_measures_the_lead(
    e: &SfnnEval,
    pos: &SfnnPosition,
    net: &Sfnn16Net,
    accs: &Sfnn16Accs,
    stm: Side,
    bucket: int,
)
    requires
        is_eval(e, pos, net, accs, stm),
        !(stm is Both),
        !net.use_threats,
        0 <= bucket < 8,
        bucket == bucket_of(pop(pos.white | pos.black)),
    ensures
        ({
            let lead = accs.psqt@[0]@[bucket] - accs.psqt@[1]@[bucket];
            &&& stm is White && -0x8000_0000 < lead < 0x8000_0000 ==> is_quotient(
                lead,
                32,
                e.psqt as int,
            )
            &&& stm is Black && -0x8000_0000 < lead < 0x8000_0000 ==> is_quotient(
                -lead,
                32,
                e.psqt as int,
            )
        }),
        e.combined == e.psqt + e.positional,
{
    law_psqt_term_measures_the_lead(pos, net, true, accs.psqt@[0]@, accs.psqt@[1]@, bucket);
}

/// The positional term comes from the layers of the bucket for the number of
/// pieces, with the sums of the side to move first.
pub proof fn law_positional_uses_the_bucket(
    pos: &SfnnPosition,
    net: &Sfnn16Net,
    accs: &Sfnn16Accs,
    stm: Side,
    bucket: int,
)
    requires
        !(stm is Both),
        bucket == bucket_of(pop(pos.white | pos.black)),
    ensures
        is_quotient(
            output_sum(
                &net.stacks@[bucket],
                net.l1 as int,
                transformed(pos, net, true, accs.halfka@[0]@, accs.halfka@[1]@, stm),
            ) * 9600,
            262_144,
            positional_of(pos, net, accs, stm),
        ),
{
    law_positional_scale(
        &net.stacks@[bucket],
        net.l1 as int,
        transformed(pos, net, true, accs.halfka@[0]@, accs.halfka@[1]@, stm),
    );
}

/// The terms of an integer network add up; a raw one has its positional term
/// only.
pub proof fn law_combined_terms(psqt: int, positional: int)
    ensures
        combined_score(false, psqt, positional) - positional == psqt,
        combined_score(true, psqt, positional) == positional,
        combined_score(false, psqt, positional) == combined_score(false, positional, psqt),
{
}

} // verus!
