use whale::board::{BoardState, Piece, Side, Square};
use whale::eval::backend::{evaluate_with_backend, EvaluationBackend};
use whale::eval::nnue::cache::{
    clear_eval_cache, probe_eval_cache, store_eval_cache, EVAL_CACHE_SIZE,
};
use whale::eval::nnue::loader::Network;
use whale::eval::nnue::state::EvalState;
use whale::eval::nnue::v16::evaluate::combine_eval;
use whale::eval::nnue::{
    begin_evaluation, blend_eval, evaluate, evaluate_fast, evaluate_internal, evaluate_qsearch,
    evaluate_with_depth, evaluate_with_depth_cached, evaluate_with_optimism, finish_evaluation,
    EvalStart, ACC_SIZE, SCALE,
};

const STARTING_FEN: &str = "rnbqkbnr/pppppppp/8/8/8/8/PPPPPPPP/RNBQKBNR w KQkq - 0 1";

fn parse_fen(fen: &str) -> BoardState {
    let mut board = BoardState::new();
    let mut fields = fen.split(' ');
    let mut square = 0usize;
    for c in fields.next().unwrap().chars() {
        if c == '/' {
            continue;
        }
        if let Some(skip) = c.to_digit(10) {
            square += skip as usize;
            continue;
        }
        let side = if c.is_ascii_uppercase() { Side::White } else { Side::Black };
        let piece = match c.to_ascii_lowercase() {
            'p' => Piece::Pawn,
            'n' => Piece::Knight,
            'b' => Piece::Bishop,
            'r' => Piece::Rook,
            'q' => Piece::Queen,
            _ => Piece::King,
        };
        board.add_piece(Square::from_index(square), side, piece);
        square += 1;
    }
    if fields.next() == Some("b") {
        board.side_to_move = Side::Black;
    }
    if let Some(clock) = fields.nth(2) {
        board.half_move_clock = clock.parse().unwrap();
    }
    board
}

/// A small network that counts material.
fn material_network() -> Network {
    let mut network = *Network::zeroed();
    let values = [1i16, 3, 3, 5, 9, 0];
    for side in 0..2 {
        for (piece, &value) in values.iter().enumerate() {
            for sq in 0..64 {
                let feature = side * 384 + piece * 64 + sq;
                let lanes = if side == 0 { 0..128 } else { 128..256 };
                for lane in lanes {
                    network.transformer_weights[feature * ACC_SIZE + lane] = value;
                }
            }
        }
    }
    for lane in 0..128 {
        network.output_weights[lane] = 50;
        network.output_weights[128 + lane] = -50;
    }
    network
}

#[test]
fn all_backends_return_bounded_scores() {
    let mut state = EvalState::new(material_network());
    for backend in [
        EvaluationBackend::ClassicalNNUE,
        EvaluationBackend::SFNN,
        EvaluationBackend::HybridNNUE,
        EvaluationBackend::WDIN,
        EvaluationBackend::FutureModel,
    ] {
        let mut board = parse_fen(STARTING_FEN);
        board.ensure_accumulators_fresh(&state.network);
        let s = evaluate_with_backend(&mut board, &mut state, backend, 0, 0, 0);
        assert!(s.abs() <= 29000, "{backend:?} out of range");
    }
}

#[test]
fn backend_names_roundtrip() {
    assert_eq!(
        EvaluationBackend::from_name("sfnn"),
        Some(EvaluationBackend::SFNN)
    );
    assert_eq!(
        EvaluationBackend::from_name("WDIN"),
        Some(EvaluationBackend::WDIN)
    );
    assert_eq!(EvaluationBackend::from_name("nope"), None);
    assert_eq!(EvaluationBackend::SFNN.name(), "sfnn");
}

#[test]
fn test_nnue_forward_pass_mathematical_correctness() {
    let mut network = Network::new_boxed();
    network.output_bias = 10;
    network.output_weights[..ACC_SIZE].fill(2);
    network.output_weights[ACC_SIZE..2 * ACC_SIZE].fill(3);

    let mut board = BoardState::new();

    let idx = board.history.index;
    board.history.accumulators[idx].white.state.fill(10);
    board.history.accumulators[idx].black.state.fill(20);

    board.side_to_move = Side::White;
    let score = evaluate_internal(&board, &network);

    assert_eq!(score, 34);
}

#[test]
fn test_avx2_matches_scalar_evaluation() {
    let mut network = Network::new_boxed();
    network.output_bias = 42;
    for i in 0..ACC_SIZE {
        network.output_weights[i] = (i as i16 % 29) - 14;
        network.output_weights[ACC_SIZE + i] = (i as i16 % 31) - 15;
    }

    let mut board = BoardState::new();
    let idx = board.history.index;
    for i in 0..ACC_SIZE {
        board.history.accumulators[idx].white.state[i] = ((i as i16 * 17) % 350) - 50;
        board.history.accumulators[idx].black.state[i] = ((i as i16 * 23) % 400) - 70;
    }

    let score = evaluate_internal(&board, &network);

    let mut scalar_output: i64 = 0;
    for (&input, &weight) in board.history.accumulators[idx]
        .white
        .state
        .iter()
        .zip(&network.output_weights[0..ACC_SIZE])
    {
        let val = i64::from(input).clamp(0, 255);
        scalar_output += val * val * i64::from(weight);
    }
    for (&input, &weight) in board.history.accumulators[idx]
        .black
        .state
        .iter()
        .zip(&network.output_weights[ACC_SIZE..2 * ACC_SIZE])
    {
        let val = i64::from(input).clamp(0, 255);
        scalar_output += val * val * i64::from(weight);
    }
    scalar_output /= 255;
    scalar_output += i64::from(network.output_bias);
    scalar_output *= i64::from(SCALE);
    scalar_output /= 255 * 64;
    let scalar_score = scalar_output.clamp(-29000, 29000) as i16;

    assert_eq!(score, scalar_score);
}

#[test]
fn test_eval_cache_hit_miss() {
    let mut state = EvalState::new(material_network());
    clear_eval_cache(&mut state.cache);
    assert_eq!(probe_eval_cache(&state.cache, 123, 0, 0), None);
    store_eval_cache(&mut state.cache, 123, 0, 0, 77);
    assert_eq!(probe_eval_cache(&state.cache, 123, 0, 0), Some(77));
    assert_eq!(probe_eval_cache(&state.cache, 123, 5, 0), None);
    assert_eq!(probe_eval_cache(&state.cache, 123, 0, 1), None);
    assert_eq!(probe_eval_cache(&state.cache, 124, 0, 0), None);
    clear_eval_cache(&mut state.cache);
    assert_eq!(probe_eval_cache(&state.cache, 123, 0, 0), None);
}

#[test]
fn test_evaluate_is_cached_and_deterministic() {
    let mut state = EvalState::new(material_network());
    clear_eval_cache(&mut state.cache);
    let mut board = parse_fen(STARTING_FEN);
    board.ensure_accumulators_fresh(&state.network);
    let first = evaluate(&mut board, &mut state);
    let second = evaluate(&mut board, &mut state);
    assert_eq!(first, second);
    assert!(first.abs() < 5000);

    let _ = evaluate_with_optimism(&mut board, &mut state, 5);
}

#[test]
fn test_evaluate_fast_halfmove_damping() {
    let mut state = EvalState::new(material_network());
    clear_eval_cache(&mut state.cache);
    let mut board = parse_fen(STARTING_FEN);
    board.ensure_accumulators_fresh(&state.network);
    board.add_piece(Square::E4, Side::White, Piece::Queen);
    board.ensure_accumulators_fresh(&state.network);
    let fresh = evaluate_fast(&mut board, &state.network, 0);
    assert_ne!(fresh, 0);
    board.half_move_clock = 60;
    let damped = evaluate_fast(&mut board, &state.network, 0);
    assert_ne!(fresh, damped);
    assert!(damped.abs() < fresh.abs());
}

#[test]
fn test_evaluate_with_depth_runs() {
    let mut state = EvalState::new(material_network());
    clear_eval_cache(&mut state.cache);
    let mut board = parse_fen(STARTING_FEN);
    board.ensure_accumulators_fresh(&state.network);
    let score = evaluate_with_depth(&mut board, &mut state, 0, 1, 0, 0, 0);
    assert!(score.abs() <= 29000);
}

#[test]
fn test_evaluate_internal_black_to_move_swaps_sides() {
    let mut network = Network::new_boxed();
    network.output_bias = 0;
    network.output_weights[..ACC_SIZE].fill(1);
    network.output_weights[ACC_SIZE..2 * ACC_SIZE].fill(10);

    let mut board = BoardState::new();
    let idx = board.history.index;
    board.history.accumulators[idx].white.state.fill(30);
    board.history.accumulators[idx].black.state.fill(5);

    board.side_to_move = Side::White;
    let white_stm = evaluate_internal(&board, &network);
    board.side_to_move = Side::Black;
    let black_stm = evaluate_internal(&board, &network);

    assert_ne!(white_stm, black_stm);
}

#[test]
fn test_evaluate_fast_optimism_shifts_score() {
    let mut state = EvalState::new(material_network());
    clear_eval_cache(&mut state.cache);
    let mut board = parse_fen(STARTING_FEN);
    board.ensure_accumulators_fresh(&state.network);
    board.add_piece(Square::E4, Side::White, Piece::Queen);
    board.ensure_accumulators_fresh(&state.network);
    let base = evaluate_fast(&mut board, &state.network, 0);
    let optimistic = evaluate_fast(&mut board, &state.network, 1000);
    assert_ne!(base, optimistic);
    assert!(optimistic > base);
}

#[test]
fn test_evaluate_with_optimism_keys_cache_separately() {
    let mut state = EvalState::new(material_network());
    clear_eval_cache(&mut state.cache);
    let mut board = parse_fen(STARTING_FEN);
    board.ensure_accumulators_fresh(&state.network);
    let hash = board.board_hash;
    let halfmove = board.half_move_clock;
    let a = evaluate_with_optimism(&mut board, &mut state, 0);

    assert_eq!(probe_eval_cache(&state.cache, hash, 0, halfmove), Some(a));
    assert_eq!(probe_eval_cache(&state.cache, hash, 7, halfmove), None);
    let b = evaluate_with_optimism(&mut board, &mut state, 7);
    assert_eq!(probe_eval_cache(&state.cache, hash, 7, halfmove), Some(b));

    board.half_move_clock = halfmove.wrapping_add(1);
    assert_eq!(
        probe_eval_cache(&state.cache, hash, 0, board.half_move_clock),
        if halfmove.wrapping_add(1) == halfmove {
            Some(a)
        } else {
            None
        }
    );
}

#[test]
fn test_evaluate_internal_clamps_extreme_scores() {
    let mut high = Network::new_boxed();
    high.output_bias = 0;
    high.output_weights.fill(100);
    let mut low = Network::new_boxed();
    low.output_bias = 0;
    low.output_weights.fill(-100);

    let mut board = BoardState::new();
    let idx = board.history.index;
    board.history.accumulators[idx].white.state.fill(300);
    board.history.accumulators[idx].black.state.fill(300);
    board.side_to_move = Side::White;

    assert_eq!(evaluate_internal(&board, &high), 29000);
    assert_eq!(evaluate_internal(&board, &low), -29000);
}

#[test]
fn test_evaluate_internal_negative_inputs_clamp_to_zero() {
    let mut network = Network::new_boxed();
    network.output_bias = 7;
    network.output_weights.fill(5);

    let mut board = BoardState::new();
    let idx = board.history.index;
    board.history.accumulators[idx].white.state.fill(-100);
    board.history.accumulators[idx].black.state.fill(-100);
    board.side_to_move = Side::White;

    assert_eq!(evaluate_internal(&board, &network), 0);
}

#[test]
fn test_evaluate_fast_negative_optimism_lowers_score() {
    let state = EvalState::new(material_network());
    let mut board = parse_fen(STARTING_FEN);
    board.ensure_accumulators_fresh(&state.network);
    board.add_piece(Square::E4, Side::White, Piece::Queen);
    board.ensure_accumulators_fresh(&state.network);
    let base = evaluate_fast(&mut board, &state.network, 0);
    let pessimistic = evaluate_fast(&mut board, &state.network, -1000);
    assert_ne!(base, pessimistic);
    assert!(pessimistic < base);
}

#[test]
fn test_evaluate_fast_material_zero_matches_internal() {
    let state = EvalState::new(material_network());
    let mut board = BoardState::new();
    board.add_piece(Square::E1, Side::White, Piece::King);
    board.add_piece(Square::E8, Side::Black, Piece::King);
    board.ensure_accumulators_fresh(&state.network);
    board.half_move_clock = 0;
    let network = &state.network;

    assert_eq!(
        evaluate_fast(&mut board, &state.network, 0),
        evaluate_internal(&board, network)
    );
}

#[test]
fn test_evaluate_with_depth_covers_all_regimes() {
    let mut state = EvalState::new(material_network());
    clear_eval_cache(&mut state.cache);
    let mut board = parse_fen(STARTING_FEN);
    board.ensure_accumulators_fresh(&state.network);

    for depth in [0u8, 1, 5, 10, 15, 16, 64] {
        let score = evaluate_with_depth(&mut board, &mut state, 0, depth, 0, 0, 0);
        assert!(score.abs() <= 29000, "depth {depth} out of range");
    }
}

#[test]
fn test_eval_cache_evicted_on_index_collision() {
    let mut state = EvalState::new(material_network());
    clear_eval_cache(&mut state.cache);
    store_eval_cache(&mut state.cache, 123, 0, 0, 11);
    assert_eq!(probe_eval_cache(&state.cache, 123, 0, 0), Some(11));

    let colliding = 123u64 + EVAL_CACHE_SIZE as u64;
    store_eval_cache(&mut state.cache, colliding, 0, 0, 22);
    assert_eq!(probe_eval_cache(&state.cache, colliding, 0, 0), Some(22));
    assert_eq!(probe_eval_cache(&state.cache, 123, 0, 0), None);
    clear_eval_cache(&mut state.cache);
}

#[test]
fn test_evaluate_stays_within_mate_range() {
    let mut state = EvalState::new(material_network());
    clear_eval_cache(&mut state.cache);
    let mut board = parse_fen(STARTING_FEN);
    board.ensure_accumulators_fresh(&state.network);
    for sq in [Square::E4, Square::D5] {
        board.add_piece(sq, Side::White, Piece::Queen);
    }
    board.ensure_accumulators_fresh(&state.network);
    for optimism in [0, 500, -500] {
        let s = evaluate_with_optimism(&mut board, &mut state, optimism);
        assert!(s.abs() <= 29000);
    }
    board.half_move_clock = 100;
    let damped = evaluate(&mut board, &mut state);
    assert!(damped.abs() <= 29000);
}

#[test]
fn backend_names_are_read_back() {
    for backend in [
        EvaluationBackend::ClassicalNNUE,
        EvaluationBackend::SFNN,
        EvaluationBackend::HybridNNUE,
        EvaluationBackend::WDIN,
        EvaluationBackend::FutureModel,
    ] {
        assert_eq!(EvaluationBackend::from_name(backend.name()), Some(backend));
        let upper = backend.name().to_ascii_uppercase();
        assert_eq!(EvaluationBackend::from_name(&upper), Some(backend));
    }
}

#[test]
fn backends_follow_their_evaluations() {
    let mut state = EvalState::new(material_network());
    let mut board = parse_fen("rnb1kbnr/pppppppp/8/8/8/8/PPPPPPPP/RNBQKBNR w KQkq - 0 1");
    board.ensure_accumulators_fresh(&state.network);
    let fast = evaluate_fast(&mut board, &state.network, 0);
    assert!(fast > 0);
    let classical = EvaluationBackend::ClassicalNNUE;
    assert_eq!(evaluate_with_backend(&mut board, &mut state, classical, 0, 0, 0), fast);
    assert_eq!(evaluate_with_backend(&mut board, &mut state, EvaluationBackend::WDIN, 0, 0, 0), fast);
    let deep = evaluate_with_depth(&mut board, &mut state, 0, 8, 0, 0, 0);
    let hybrid = EvaluationBackend::HybridNNUE;
    assert_eq!(evaluate_with_backend(&mut board, &mut state, hybrid, 0, 0, 0), deep);
}

#[test]
fn fast_evaluation_has_the_stated_value() {
    let network = material_network();
    let mut board = parse_fen("rnb1kbnr/pppppppp/8/8/8/8/PPPPPPPP/RNBQKBNR w KQkq - 0 1");
    board.ensure_accumulators_fresh(&network);
    let sums = 128 * 50 * (39 * 39 - 30 * 30);
    let score = sums / 255 * 400 / (255 * 64);
    assert_eq!(evaluate_internal(&board, &network), score as i16);
    board.side_to_move = Side::Black;
    assert!(evaluate_internal(&board, &network) < 0);
}

#[test]
fn finished_evaluation_is_known_the_next_time() {
    let mut state = EvalState::new(material_network());
    let mut board = parse_fen(STARTING_FEN);
    board.ensure_accumulators_fresh(&state.network);
    board.board_hash = 77;
    let start = begin_evaluation(&mut board, &state, 3);
    assert_eq!(start, EvalStart::Fast(evaluate_fast(&mut board, &state.network, 3)));
    let score = finish_evaluation(&board, &mut state.cache, start, None, 3);
    assert_eq!(begin_evaluation(&mut board, &state, 3), EvalStart::Known(score));
    board.half_move_clock = 1;
    assert_ne!(begin_evaluation(&mut board, &state, 3), EvalStart::Known(score));
}

#[test]
fn blending_weighs_both_halves_of_a_network_score() {
    let mut board = parse_fen(STARTING_FEN);
    let ev = combine_eval(false, 40, 100);
    let plain = blend_eval(&board, &ev, 0);
    assert!(blend_eval(&board, &ev, 500) > plain);
    board.half_move_clock = 80;
    assert!(blend_eval(&board, &ev, 0).abs() <= plain.abs());
}

#[test]
fn quiescence_evaluation_agrees_without_a_network() {
    let mut state = EvalState::new(material_network());
    let mut board = parse_fen("rnb1kbnr/pppppppp/8/8/8/8/PPPPPPPP/RNBQKBNR w KQkq - 0 1");
    board.ensure_accumulators_fresh(&state.network);
    let full = evaluate_with_optimism(&mut board, &mut state, 0);
    assert_eq!(evaluate_qsearch(&mut board, &mut state, 0, -100, 100), full);
    let cached = evaluate_with_depth_cached(&mut board, &mut state, 0, 3, 0, 0, 0, 0);
    assert_eq!(cached, evaluate_with_depth(&mut board, &mut state, 0, 3, 0, 0, 0));
}

#[test]
fn repeated_evaluations_agree() {
    let mut state = EvalState::new(material_network());
    let mut board = parse_fen("rnb1kbnr/pppppppp/8/8/8/8/PPPPPPPP/RNBQKBNR w KQkq - 0 1");
    board.ensure_accumulators_fresh(&state.network);
    let first = evaluate_with_optimism(&mut board, &mut state, 9);
    for _ in 0..3 {
        assert_eq!(evaluate_with_optimism(&mut board, &mut state, 9), first);
    }
    assert_eq!(probe_eval_cache(&state.cache, board.board_hash, 9, 0), Some(first));
}

#[test]
fn optimism_raises_scores_while_the_counter_runs() {
    let network = material_network();
    let mut board = parse_fen("rnb1kbnr/pppppppp/8/8/8/8/PPPPPPPP/RNBQKBNR w KQkq - 0 1");
    board.ensure_accumulators_fresh(&network);
    for clock in [0, 1, 60, 198, 199] {
        board.half_move_clock = clock;
        let low = evaluate_fast(&mut board, &network, -800);
        assert!(low <= evaluate_fast(&mut board, &network, 800));
    }
}

#[test]
fn sums_out_of_date_are_not_scored() {
    let mut state = EvalState::new(material_network());
    let mut board = parse_fen(STARTING_FEN);
    assert_eq!(evaluate_fast(&mut board, &state.network, 0), 0);
    board.add_piece(Square::E4, Side::White, Piece::Queen);
    let mut expected = parse_fen(STARTING_FEN);
    expected.add_piece(Square::E4, Side::White, Piece::Queen);
    expected.history.accumulators[0].white.state.fill(123);
    let score = evaluate_fast(&mut expected, &state.network, 0);
    assert!(score > 0);
    assert_eq!(evaluate_fast(&mut board, &state.network, 0), score);
    assert_eq!(evaluate_with_optimism(&mut board, &mut state, 0), score);
    assert_eq!(
        board.history.accumulators[0].white.state,
        expected.history.accumulators[0].white.state
    );
}
