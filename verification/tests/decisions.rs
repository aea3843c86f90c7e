use whale::board::{Move, MoveType, Square};
use whale::eval::optimism::{mirrored_pair, optimism_from_average, to_sf_scale, ScoreAverage};
use whale::opportunity::concession::{
    amplify_on_defender_drop, classify_weakness, confirmation_threshold, detect_concession,
    ConcessionTracker, ScoreTrend, WeaknessKind,
};
use whale::risk::{
    controlled_aggression_ok, must_try_gate, risk_score, MustTryInput, RiskEnvelope, RiskLevel,
    Urgency,
};
use whale::root::attack::{attack_creates_value, urgency_for, verification_depth};
use whale::root::learned::{
    intent_id, parse_f32_array, parse_f32_scalar, parse_names, state_id, urgency_id, FEATURES,
};
use whale::root::metrics::{
    collect, efforts, sustained, tally, tries, SearchMetrics, SearchState, SuiteCategory, Tally,
};
use whale::root::multipv::{classify_candidate, classify_candidate_rich, MultipvLine};
use whale::world::{PositionState, SearchIntent, VolatilityLevel};

#[test]
fn ladder_order() {
    assert!(WeaknessKind::Permanent > WeaknessKind::Structure);
    assert!(WeaknessKind::Structure > WeaknessKind::Latent);
    assert!(WeaknessKind::Latent > WeaknessKind::Temporary);
}

#[test]
fn noise_is_not_concession() {
    assert_eq!(detect_concession(20, 25, 0), None);
    assert_eq!(detect_concession(20, 10, 0), None);
}

#[test]
fn small_swing_detected() {
    let c = detect_concession(20, 45, 3).expect("should detect");
    assert_eq!(c.swing_cp, 25);
    assert_eq!(c.kind, WeaknessKind::Latent);
}

#[test]
fn persistent_weakness_upgrades() {
    let c = detect_concession(0, 30, 14).expect("should detect");
    assert_eq!(c.kind, WeaknessKind::Permanent);
}

#[test]
fn defender_drop_amplifies_once_and_saturates() {
    assert_eq!(
        amplify_on_defender_drop(WeaknessKind::Temporary, 3, 2),
        WeaknessKind::Latent
    );
    assert_eq!(
        amplify_on_defender_drop(WeaknessKind::Permanent, 3, 0),
        WeaknessKind::Permanent
    );
    assert_eq!(
        amplify_on_defender_drop(WeaknessKind::Latent, 2, 2),
        WeaknessKind::Latent
    );
    assert_eq!(
        amplify_on_defender_drop(WeaknessKind::Latent, 1, 3),
        WeaknessKind::Latent
    );
}

#[test]
fn single_blip_does_not_confirm() {
    let mut t = ConcessionTracker::default();
    assert_eq!(t.observe(20, 45, 12), None);
    assert_eq!(t.observe(20, 44, 12).map(|c| c.swing_cp), Some(24));
}

#[test]
fn faded_pending_is_dropped() {
    let mut t = ConcessionTracker::default();
    assert_eq!(t.observe(20, 45, 12), None);
    assert_eq!(t.observe(45, 40, 12), None);
    assert_eq!(t.pending_swing, 0);
}

#[test]
fn mate_scale_swing_confirms_immediately() {
    let mut t = ConcessionTracker::default();
    let c = t.observe(10, 30999, 60).expect("mate jump confirms");
    assert_eq!(c.swing_cp, 30989);
}

#[test]
fn volatile_positions_need_bigger_swings() {
    assert_eq!(confirmation_threshold(12, VolatilityLevel::Low), 12);
    assert_eq!(confirmation_threshold(12, VolatilityLevel::Medium), 27);
    assert_eq!(confirmation_threshold(12, VolatilityLevel::High), 42);
    assert_eq!(confirmation_threshold(12, VolatilityLevel::Extreme), 72);
    let mut t = ConcessionTracker::default();
    assert_eq!(t.observe(0, 40, 72), None);
    assert_eq!(t.observe(0, 41, 72), None);
}

#[test]
fn trend_smooths_and_measures_noise() {
    let mut t = ScoreTrend::default();
    assert_eq!(t.smoothed(), None);
    assert_eq!(t.noise_floor(), 0);
    t.push(10, 2);
    assert_eq!(t.smoothed(), Some(10));
    t.push(20, 2);
    t.push(15, 3);
    assert_eq!(t.smoothed(), Some(15));
    assert_eq!(t.noise_floor(), 7);
    assert_eq!(t.adaptive_threshold(12), 12);
    t.push(60, 3);
    assert!(t.noise_floor() > 10);
    assert!(t.adaptive_threshold(12) > 12);
}

#[test]
fn trend_ring_overwrites_oldest() {
    let mut t = ScoreTrend::default();
    for v in [10i16, 20, 30, 40, 50] {
        t.push(v, 2);
    }
    assert_eq!(t.count(), 4);
    assert_eq!(t.smoothed(), Some(35));
}

#[test]
fn envelope_levels_monotone() {
    let env = RiskEnvelope::default();
    assert_eq!(env.level_for(0), RiskLevel::Normal);
    assert_eq!(env.level_for(50), RiskLevel::Elevated);
    assert_eq!(env.level_for(100), RiskLevel::MustTry);
    assert_eq!(env.level_for(500), RiskLevel::Forcing);
}

#[test]
fn gate_requires_gain_urgency_risk() {
    let env = RiskEnvelope::default();
    let base = MustTryInput {
        gain_cp: 60,
        urgency: Urgency::High,
        risk: 80,
        opp_cpi_after: 40,
    };
    assert!(must_try_gate(&base, &env));

    assert!(!must_try_gate(
        &MustTryInput {
            gain_cp: 10,
            ..base
        },
        &env
    ));

    assert!(!must_try_gate(
        &MustTryInput {
            urgency: Urgency::Low,
            ..base
        },
        &env
    ));

    assert!(!must_try_gate(&MustTryInput { risk: 500, ..base }, &env));

    assert!(!must_try_gate(
        &MustTryInput {
            opp_cpi_after: 250,
            ..base
        },
        &env
    ));
}

#[test]
fn aggression_math() {
    assert!(controlled_aggression_ok(100, 20, 40));
    assert!(!controlled_aggression_ok(30, 40, 40));
}

#[test]
fn urgency_ladder() {
    assert_eq!(urgency_for(1, 100), Urgency::MustTry);
    assert_eq!(urgency_for(4, 100), Urgency::High);
    assert_eq!(urgency_for(8, 100), Urgency::Medium);
    assert_eq!(urgency_for(20, 100), Urgency::Low);
    assert_eq!(urgency_for(1, 10), Urgency::Low);
}

#[test]
fn verification_bounded() {
    assert_eq!(verification_depth(Urgency::MustTry), 3);
    assert_eq!(verification_depth(Urgency::High), 2);

    assert_eq!(verification_depth(Urgency::Medium), 0);
    assert_eq!(verification_depth(Urgency::Low), 0);
}

#[test]
fn conversion_values() {
    assert!(attack_creates_value(true, false, 0, false));
    assert!(attack_creates_value(false, false, 30, false));
    assert!(!attack_creates_value(false, false, 0, false));
}

#[test]
fn ids_cover_all_variants() {
    assert_eq!(state_id(PositionState::Reset), 5);
    assert_eq!(intent_id(SearchIntent::Recovery), 6);
    assert_eq!(urgency_id(Urgency::MustTry), 3);
    assert_eq!(FEATURES.len(), 11);
}

#[test]
fn collect_reads_search_state() {
    let mut state = SearchState::new();
    state.score = 42;
    state.prev_opp_cpi = Some(7);
    state.prev_own_cpi = Some(9);
    state.last_musttry = true;
    state.last_risk = 33;
    let m = collect(&state);
    assert_eq!(m.score, 42);
    assert_eq!(m.opp_cpi, 7);
    assert_eq!(m.own_cpi, 9);
    assert!(m.musttry_fired);
    assert_eq!(m.risk, 33);
    assert_eq!(m.state, PositionState::Improve);
}

#[test]
fn collect_flags_reset_state() {
    let mut state = SearchState::new();
    state.last_state = PositionState::Reset;
    state.reset_mode = false;
    assert!(collect(&state).reset);
}

#[test]
fn classification_labels() {
    let cap = Move::new(Square::E5, Square::D6, MoveType::Capture);
    assert_eq!(classify_candidate(cap, 50, 50), "improve");
    let q = Move::new(Square::E2, Square::E4, MoveType::Quiet);
    assert_eq!(classify_candidate(q, 50, 50), "improve");
    assert_eq!(classify_candidate(q, 0, 100), "quiet-alt");
}

#[test]
fn rich_classification_handles_states() {
    let q = Move::new(Square::E2, Square::E4, MoveType::Quiet);
    assert_eq!(
        classify_candidate_rich(q, 100, 100, true, PositionState::Attack),
        "must-try"
    );
    assert_eq!(
        classify_candidate_rich(q, 100, 100, false, PositionState::Press),
        "press"
    );
    assert_eq!(
        classify_candidate_rich(q, 100, 100, false, PositionState::Convert),
        "conversion"
    );
    assert_eq!(
        classify_candidate_rich(q, 100, 100, false, PositionState::Defend),
        "defensive"
    );
}

#[test]
fn zero_average_gives_zero() {
    assert_eq!(optimism_from_average(0), 0);
}

#[test]
fn symmetric_around_zero() {
    for avg in [1, 85, 200, 1500, 30000] {
        assert_eq!(optimism_from_average(avg), -optimism_from_average(-avg));
    }
}

#[test]
fn saturates_below_gain() {
    assert_eq!(optimism_from_average(100000), 113);
    assert_eq!(optimism_from_average(-100000), -113);
}

#[test]
fn small_values() {
    assert_eq!(optimism_from_average(1), 1);
    assert_eq!(optimism_from_average(85), 57);
}

#[test]
fn scale_conversion() {
    assert_eq!(to_sf_scale(100), 208);
    assert_eq!(to_sf_scale(-50), -104);
    assert_eq!(to_sf_scale(0), 0);
}

#[test]
fn pair_mirrors() {
    assert_eq!(mirrored_pair(37), [37, -37]);
    assert_eq!(mirrored_pair(0), [0, 0]);
}

#[test]
fn tracker_empty() {
    let tracker = ScoreAverage::new();
    assert_eq!(tracker.average(), 0);
    assert_eq!(tracker.optimism(), 0);
    assert_eq!(tracker.pair(), [0, 0]);
}

#[test]
fn tracker_averages_scores() {
    let mut tracker = ScoreAverage::new();
    tracker.push(100);
    tracker.push(100);
    tracker.push(100);
    assert_eq!(tracker.average(), 100);
    assert_eq!(tracker.optimism(), optimism_from_average(208));
}

#[test]
fn tracker_negative_mirrors_positive() {
    let mut pos = ScoreAverage::new();
    pos.push(200);
    pos.push(100);
    let mut neg = ScoreAverage::new();
    neg.push(-200);
    neg.push(-100);
    assert_eq!(pos.average(), -neg.average());
    assert_eq!(pos.optimism(), -neg.optimism());
    assert_eq!(pos.pair(), [pos.optimism(), neg.optimism()]);
}

fn metric(state: PositionState) -> SearchMetrics {
    SearchMetrics {
        score: 0,
        state,
        intent: SearchIntent::Improvement,
        opp_cpi: 20,
        own_cpi: 20,
        opp_freedom: 20,
        opp_breaks: 8,
        risk: 0,
        pressure: 0,
        sustained_plies: 0,
        concession_swing: None,
        musttry_fired: false,
        verified: None,
        simplify: false,
        reset: false,
        multipv_count: 1,
    }
}

fn rate(part: usize, whole: usize) -> f64 {
    if whole == 0 {
        0.0
    } else {
        part as f64 / whole as f64
    }
}

#[test]
fn summary_rates() {
    let mut a = metric(PositionState::Crush);
    a.musttry_fired = true;
    a.verified = Some(200);
    a.score = 200;
    a.risk = 50;
    let mut b = metric(PositionState::Improve);
    b.simplify = true;
    let samples = vec![
        (a, SuiteCategory::MustTry),
        (metric(PositionState::Improve), SuiteCategory::MustTry),
        (metric(PositionState::Attack), SuiteCategory::Quiet),
        (metric(PositionState::Improve), SuiteCategory::Quiet),
        (b, SuiteCategory::Conversion),
    ];
    let count = |what: Tally| tally(&samples, what);
    assert_eq!(samples.len(), 5);
    assert!((rate(count(Tally::MustTryVerified), count(Tally::MustTry)) - 0.5).abs() < 1e-9);
    assert!((rate(count(Tally::MustTryFired), count(Tally::MustTry)) - 0.5).abs() < 1e-9);
    assert!((rate(count(Tally::QuietAttacked), count(Tally::Quiet)) - 0.5).abs() < 1e-9);
    assert!((rate(count(Tally::ConversionTaken), count(Tally::Conversion)) - 1.0).abs() < 1e-9);
    assert_eq!(tries(&samples), vec![(200, 50)]);
    let (gain, risk) = tries(&samples)[0];
    assert!((f64::from(gain) / f64::from(risk) - 4.0).abs() < 1e-9);
}

#[test]
fn empty_batch_is_zero_not_nan() {
    assert_eq!(rate(tally(&[], Tally::MustTryFired), tally(&[], Tally::MustTry)), 0.0);
    assert_eq!(rate(tally(&[], Tally::QuietAttacked), tally(&[], Tally::Quiet)), 0.0);
    assert_eq!(tally(&[], Tally::Opportunity), 0);
    assert!(tries(&[]).is_empty());
    assert!(sustained(&[]).is_empty());
    assert!(efforts(&[]).is_empty());
}

#[test]
fn loader_rejects_mismatched_features() {
    let bad = r#"{"features":["a"],"w":[1.0],"b":0.0}"#;
    assert_ne!(parse_names(bad), Some(true));
    let good = r#"{"features":["eval_stm","pressure","opp_cpi","own_cpi","urgency","risk","musttry","concession","state","intent","side"],"w":[1,0,0,0,0,0,0,0,0,0,0],"b":0.0,"means":[0,0,0,0,0,0,0,0,0,0,0],"stds":[1,1,1,1,1,1,1,1,1,1,1]}"#;
    assert_eq!(parse_names(good), Some(true));
    let w = parse_f32_array(good, "w").unwrap();
    assert_eq!(w.len(), 11);
    assert_eq!(w[0], "1");
    assert_eq!(parse_f32_scalar(good, "b").as_deref(), Some("0.0"));
    assert!(parse_f32_array(good, "missing").is_none());
    assert!(parse_f32_scalar("{}", "b").is_none());
    assert!(parse_names("{}").is_none());
}

#[test]
fn weakness_grows_with_persistence() {
    let mut last = WeaknessKind::Temporary;
    for plies in 0..20 {
        let kind = classify_weakness(plies);
        assert!(kind >= last);
        last = kind;
    }
    assert_eq!(last, WeaknessKind::Permanent);
}

#[test]
fn risk_score_adds_its_parts() {
    let calm = risk_score(0, 0, false);
    assert!(risk_score(10, 0, false) > calm);
    assert!(risk_score(0, 10, false) > calm);
    assert!(risk_score(0, 0, true) > calm);
}

#[test]
fn lines_print_their_move() {
    let line = MultipvLine {
        mv: Move::new(Square::A7, Square::A8, MoveType::QueenPromotion),
        score: 900,
        pv: Vec::new(),
        kind: "best",
    };
    assert_eq!(line.uci_string(), "a7a8q");
    let quiet = MultipvLine {
        mv: Move::new(Square::E2, Square::E4, MoveType::DoublePush),
        score: 30,
        pv: Vec::new(),
        kind: "best",
    };
    assert_eq!(quiet.uci_string(), "e2e4");
}

#[test]
fn optimism_grows_with_the_average() {
    let mut last = optimism_from_average(-5000);
    for average in -4999..=5000 {
        let next = optimism_from_average(average);
        assert!(next >= last);
        last = next;
    }
}
