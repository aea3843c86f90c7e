use whale::board::{BoardState, Piece, Side, Square};
use whale::eval::nnue::arr::{
    audit_adversarial_robustness, create_mirrored_board, AdversarialRobustnessReport, ArrConfig,
};
use whale::eval::nnue::dcn::{DcnConfig, DcnModel, DepthRegime};
use whale::eval::nnue::loader::Network;
use whale::eval::nnue::v16::arch::VERSION;
use whale::eval::nnue::ACC_SIZE;
use whale::nnue_pipeline::{
    dataset_ingestion_plan, dataset_is_ready_for_training, recommended_dataset_order,
    sort_by_priority, teacher_student_training_plan, verify_checkpoint_adversarial_robustness,
    verify_checkpoint_depth_consistency, DatasetSource, NnuePipelineConfig, TeacherStudentConfig,
};

const STARTING_FEN: &str = "rnbqkbnr/pppppppp/8/8/8/8/PPPPPPPP/RNBQKBNR w KQkq - 0 1";

fn parse_fen(fen: &str) -> BoardState {
    let mut board = BoardState::new();
    let mut fields = fen.split(' ');
    let mut square = 0usize;
    for c in fields.next().unwrap().chars() {
        if c == '/' {
            continue;
        }
        if let Some(skip) = c.to_digit(10) {
            square += skip as usize;
            continue;
        }
        let side = if c.is_ascii_uppercase() { Side::White } else { Side::Black };
        let piece = match c.to_ascii_lowercase() {
            'p' => Piece::Pawn,
            'n' => Piece::Knight,
            'b' => Piece::Bishop,
            'r' => Piece::Rook,
            'q' => Piece::Queen,
            _ => Piece::King,
        };
        board.add_piece(Square::from_index(square), side, piece);
        square += 1;
    }
    if fields.next() == Some("b") {
        board.side_to_move = Side::Black;
    }
    if let Some(clock) = fields.nth(2) {
        board.half_move_clock = clock.parse().unwrap();
    }
    board
}

/// A small network that counts material.
fn material_network() -> Network {
    let mut network = *Network::zeroed();
    let values = [1i16, 3, 3, 5, 9, 0];
    for side in 0..2 {
        for (piece, &value) in values.iter().enumerate() {
            for sq in 0..64 {
                let feature = side * 384 + piece * 64 + sq;
                let lanes = if side == 0 { 0..128 } else { 128..256 };
                for lane in lanes {
                    network.transformer_weights[feature * ACC_SIZE + lane] = value;
                }
            }
        }
    }
    for lane in 0..128 {
        network.output_weights[lane] = 50;
        network.output_weights[128 + lane] = -50;
    }
    network
}

fn audit(fen: &str, config: ArrConfig) -> AdversarialRobustnessReport {
    let network = material_network();
    let mut board = parse_fen(fen);
    board.ensure_accumulators_fresh(&network);
    let mut mirrored = parse_fen(&create_mirrored_board(fen));
    mirrored.ensure_accumulators_fresh(&network);
    audit_adversarial_robustness(&mut board, &mut mirrored, &network, config)
}

fn robustness_score(report: &AdversarialRobustnessReport) -> f32 {
    let limit = ArrConfig::default().max_allowed_divergence as f32;
    let ratio = (report.symmetry_divergence as f32 / limit.max(1.0)).min(2.0);
    (1.0 - ratio * 0.5).clamp(0.0, 1.0)
}

/// The text with its castling rights in the usual order.
fn reprinted(fen: &str) -> String {
    let mut fields: Vec<String> = fen.split(' ').map(String::from).collect();
    let rights: String = "KQkq".chars().filter(|&c| fields[2].contains(c)).collect();
    if !rights.is_empty() {
        fields[2] = rights;
    }
    fields.join(" ")
}

#[test]
fn test_create_mirrored_board_starting_position() {
    let board = parse_fen(STARTING_FEN);
    let mirrored = parse_fen(&create_mirrored_board(STARTING_FEN));
    let count1 = board.occupancies[0].count_ones()
        + board.occupancies[1].count_ones();
    let count2 = mirrored.occupancies[0].count_ones()
        + mirrored.occupancies[1].count_ones();
    assert_eq!(count1, count2);
    assert_eq!(board.side_to_move, mirrored.side_to_move);
}

#[test]
fn test_audit_adversarial_robustness_starting_pos() {
    let report = audit(STARTING_FEN, ArrConfig::default());
    let score = robustness_score(&report);
    assert!(score >= 0.0 && score <= 1.0);
}

#[test]
fn test_arr_config_defaults() {
    let cfg = ArrConfig::default();
    assert!(cfg.enabled);
    assert_eq!(cfg.max_allowed_divergence, 30);
}

#[test]
fn test_create_mirrored_board_swaps_castling_and_ep() {
    let source = "r3k2r/ppp1pppp/8/3pP3/8/8/PPPP1PPP/R3K2R w Kq d6 0 2";
    let board = parse_fen(source);
    let fen = reprinted(&create_mirrored_board(source));
    let mirrored = parse_fen(&fen);
    assert!(fen.contains(" Qk "), "castling not mirrored: {fen}");
    assert!(fen.contains(" e6 "), "en-passant not mirrored: {fen}");
    assert_eq!(board.side_to_move, mirrored.side_to_move);
}

#[test]
fn test_create_mirrored_board_dash_fields_preserved() {
    let fen = reprinted(&create_mirrored_board(STARTING_FEN));
    assert!(fen.contains(" KQkq "));
    assert!(fen.contains(" - "));
    assert!(fen.ends_with("0 1"));
}

#[test]
fn test_audit_report_fields_are_consistent() {
    let config = ArrConfig::default();
    let report = audit(
        "r1bqk2r/pppp1ppp/2n2n2/2b1p3/2B1P3/2N2N2/PPPP1PPP/R1BQK2R w KQkq - 6 5",
        config,
    );
    let expected_div = (report.original_eval as i32 - report.mirror_eval as i32).abs() as i16;
    assert_eq!(report.symmetry_divergence, expected_div);
    assert_eq!(
        report.is_robust,
        report.symmetry_divergence <= config.max_allowed_divergence
    );
    assert!((0.0..=1.0).contains(&robustness_score(&report)));
    if report.symmetry_divergence == 0 {
        assert_eq!(robustness_score(&report), 1.0);
    }
}

#[test]
fn test_dcn_regime_classification() {
    assert_eq!(DcnModel::get_regime(0), DepthRegime::Tactical);
    assert_eq!(DcnModel::get_regime(4), DepthRegime::Tactical);
    assert_eq!(DcnModel::get_regime(5), DepthRegime::Blended);
    assert_eq!(DcnModel::get_regime(15), DepthRegime::Blended);
    assert_eq!(DcnModel::get_regime(16), DepthRegime::Strategic);
    assert_eq!(DcnModel::get_regime(30), DepthRegime::Strategic);
}

#[test]
fn test_film_params_bounded() {
    for d in 0..64 {
        let (gamma, beta) = DcnModel::compute_film_params(d);
        assert!((192..=320).contains(&gamma));
        assert!((-120..=120).contains(&beta));
    }
}

#[test]
fn test_dcn_disabled_returns_raw_eval() {
    let board = parse_fen(STARTING_FEN);
    let config = DcnConfig {
        enabled: false,
        tactical_threshold: 5,
        strategic_threshold: 15,
    };
    let eval = DcnModel::condition_evaluation(120, 10, &board, 0, 0, 0, config);
    assert_eq!(eval, 120);
}

#[test]
fn test_dcn_consistency_across_adjacent_depths() {
    let board = parse_fen(STARTING_FEN);
    let config = DcnConfig::default();
    let eval19 = DcnModel::condition_evaluation(100, 19, &board, 0, 0, 0, config);
    let eval20 = DcnModel::condition_evaluation(100, 20, &board, 0, 0, 0, config);
    let diff = (eval20 as i32 - eval19 as i32).abs();
    assert!(diff <= 60);
}

#[test]
fn test_dcn_config_defaults() {
    let cfg = DcnConfig::default();
    assert!(cfg.enabled);
    assert_eq!(cfg.tactical_threshold, 5);
    assert_eq!(cfg.strategic_threshold, 15);
}

#[test]
fn test_film_params_clamp_beyond_max_depth() {
    let (g63, b63) = DcnModel::compute_film_params(63);
    for d in [64u8, 100, 200, 255] {
        assert_eq!(DcnModel::compute_film_params(d), (g63, b63));
    }
}

#[test]
fn test_dcn_tactical_and_strategic_branches() {
    let config = DcnConfig::default();
    let start = parse_fen(STARTING_FEN);

    let tac = DcnModel::condition_evaluation(100, 0, &start, 0, 0, 0, config);
    let strat = DcnModel::condition_evaluation(100, 30, &start, 0, 0, 0, config);
    assert!(tac.abs() <= 29000);
    assert!(strat.abs() <= 29000);

    let mid = DcnModel::condition_evaluation(100, 10, &start, 0, 0, 0, config);
    assert!((mid as i32 - tac as i32).abs() <= 500);
}

#[test]
fn test_dcn_strategic_bishop_pair_bonus() {
    let config = DcnConfig::default();

    let fen = "rnbqk1nr/pppppppp/8/8/8/8/PPPPPPPP/RNBQKBNR w KQkq - 0 1";
    let board = parse_fen(fen);
    let with_bonus = DcnModel::condition_evaluation(0, 30, &board, 0, 0, 0, config);
    let start = parse_fen(STARTING_FEN);
    let without_bonus = DcnModel::condition_evaluation(0, 30, &start, 0, 0, 0, config);
    assert_ne!(with_bonus, without_bonus);
}

#[test]
fn test_dcn_output_clamps_to_mate_range() {
    let board = parse_fen(STARTING_FEN);
    let config = DcnConfig::default();
    for depth in [0u8, 10, 30, 64] {
        let hi = DcnModel::condition_evaluation(32000, depth, &board, 0, 0, 0, config);
        let lo = DcnModel::condition_evaluation(-32000, depth, &board, 0, 0, 0, config);
        assert!(hi <= 29000);
        assert!(lo >= -29000);
    }
}

#[test]
fn pipeline_config_defaults_are_valid() {
    let cfg = NnuePipelineConfig::default_paths();
    assert!(cfg.baseline_model_path.ends_with("nnue.bin"));
    assert!(cfg.dataset_dir.ends_with("data"));
    assert!(cfg.checkpoints_dir.ends_with("checkpoints"));
    assert!(cfg.validation_dir.ends_with("validation"));
    assert_eq!(cfg.architecture_version, VERSION);
}

#[test]
fn candidate_datasets_are_in_priority_order() {
    let sources = DatasetSource::candidate_datasets();
    assert!(sources.len() >= 4);
    assert_eq!(sources[0].name, "Lichess Elite Database");
    assert_eq!(sources[1].name, "MillionBase");
}

#[test]
fn teacher_student_default_config_is_well_defined() {
    let cfg = TeacherStudentConfig::default_config();
    assert_eq!(cfg.teacher_name, "Stockfish 19");
    assert_eq!(cfg.teacher_depth, 12);
    assert!(cfg.validation_suite.len() >= 5);
    assert!(cfg.validation_suite.contains(&"arr-adversarial-robustness"));
    assert_eq!(cfg.checkpoint_every, 5);
    assert_eq!(cfg.max_epochs, 30);
    assert_eq!(
        cfg.dataset_manifest.len(),
        DatasetSource::candidate_datasets().len()
    );
}

#[test]
fn teacher_engine_defaults_are_explicitly_unconfigured() {
    let cfg = NnuePipelineConfig::default_paths();
    assert!(cfg.teacher_engine_path.is_none());
    assert_eq!(cfg.teacher_depth, 12);
}

#[test]
fn small_datasets_are_not_marked_training_ready() {
    assert!(!dataset_is_ready_for_training(847));
    assert!(dataset_is_ready_for_training(1_000_000));
}

#[test]
fn checkpoint_passes_adversarial_robustness_check() {
    let network = material_network();
    let mut board = parse_fen(STARTING_FEN);
    board.ensure_accumulators_fresh(&network);
    let mut mirrored = parse_fen(&create_mirrored_board(STARTING_FEN));
    mirrored.ensure_accumulators_fresh(&network);
    assert!(verify_checkpoint_adversarial_robustness(&mut board, &mut mirrored, &network));
}

#[test]
fn checkpoint_passes_depth_consistency_check() {
    let board = parse_fen(STARTING_FEN);
    assert!(verify_checkpoint_depth_consistency(&board, 0, 0, 0));
}

#[test]
fn mirroring_twice_gives_the_position_back() {
    for fen in [
        STARTING_FEN,
        "r3k2r/ppp1pppp/8/3pP3/8/8/PPPP1PPP/R3K2R w Kq d6 0 2",
        "8/5k2/1p6/8/2K5/8/7R/8 b - - 12 40",
    ] {
        assert_eq!(create_mirrored_board(&create_mirrored_board(fen)), fen);
    }
    assert_eq!(
        create_mirrored_board("8/5k2/1p6/8/2K5/8/7R/8 b - - 12 40"),
        "8/2k5/6p1/8/5K2/8/R7/8 b - - 12 40"
    );
}

#[test]
fn audit_reports_divergence_beyond_the_limit() {
    let network = material_network();
    let mut board = parse_fen(STARTING_FEN);
    board.ensure_accumulators_fresh(&network);
    let mut other = parse_fen("rnb1kbnr/pppppppp/8/8/8/8/PPPPPPPP/RNBQKBNR w KQkq - 0 1");
    other.ensure_accumulators_fresh(&network);
    let strict = ArrConfig { max_allowed_divergence: 1, ..ArrConfig::default() };
    let report = audit_adversarial_robustness(&mut board, &mut other, &network, strict);
    assert_eq!(report.original_eval, 0);
    assert_eq!(report.symmetry_divergence, report.mirror_eval);
    assert!(!report.is_robust);
    assert!(!verify_checkpoint_adversarial_robustness(&mut board, &mut other, &network));
}

#[test]
fn conditioning_has_the_stated_parameters() {
    assert_eq!(DcnModel::EMBED_DIM, 16);
    assert_eq!(DcnModel::MAX_DEPTH, 64);
    let board = parse_fen(STARTING_FEN);
    let config = DcnConfig::default();
    for depth in [0u8, 3, 9, 20, 64] {
        let plain = DcnModel::condition_evaluation(80, depth, &board, 0, 0, 0, config);
        let cached = DcnModel::condition_evaluation_cached(80, depth, &board, 0, 0, 0, 0, config);
        assert_eq!(plain, cached);
    }
    let deep = DcnModel::condition_evaluation(80, 64, &board, 0, 0, 0, config);
    assert_eq!(DcnModel::condition_evaluation(80, 200, &board, 0, 0, 0, config), deep);
}

#[test]
fn datasets_are_sorted_without_loss() {
    let sources = DatasetSource::candidate_datasets();
    let mut reversed = sources.clone();
    reversed.reverse();
    let sorted = sort_by_priority(&reversed);
    assert_eq!(sorted.len(), sources.len());
    for pair in sorted.windows(2) {
        assert!(pair[0].priority <= pair[1].priority);
    }
    for source in &sources {
        assert!(sorted.contains(source));
    }
    let names: Vec<&str> = sort_by_priority(&sources).iter().map(|s| s.name).collect();
    assert_eq!(recommended_dataset_order(), names);
    assert!(!dataset_ingestion_plan().is_empty());
    assert!(teacher_student_training_plan().len() > 10);
}
