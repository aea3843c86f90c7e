use whale::board::{BoardState, Piece, Side, Square};
use whale::eval::nnue::accumulator::{Accumulator, Accumulators};
use whale::eval::nnue::features::{
    aux_feature_indices, castling_active, castling_feature_index, get_feature_index,
    halfmove_bucket, halfmove_feature_index, no_progress_active, no_progress_feature_index,
    repetition_bucket, repetition_feature_index,
};
use whale::eval::nnue::loader::{metadata_text, Network, NETWORK_WORDS};
use whale::eval::nnue::{ACC_SIZE, INPUT_SIZE};

const STARTING_FEN: &str = "rnbqkbnr/pppppppp/8/8/8/8/PPPPPPPP/RNBQKBNR w KQkq - 0 1";

fn parse_fen(fen: &str) -> BoardState {
    let mut board = BoardState::new();
    let mut fields = fen.split(' ');
    let mut square = 0usize;
    for c in fields.next().unwrap().chars() {
        if c == '/' {
            continue;
        }
        if let Some(skip) = c.to_digit(10) {
            square += skip as usize;
            continue;
        }
        let side = if c.is_ascii_uppercase() { Side::White } else { Side::Black };
        let piece = match c.to_ascii_lowercase() {
            'p' => Piece::Pawn,
            'n' => Piece::Knight,
            'b' => Piece::Bishop,
            'r' => Piece::Rook,
            'q' => Piece::Queen,
            _ => Piece::King,
        };
        board.add_piece(Square::from_index(square), side, piece);
        square += 1;
    }
    if fields.next() == Some("b") {
        board.side_to_move = Side::Black;
    }
    if let Some(clock) = fields.nth(2) {
        board.half_move_clock = clock.parse().unwrap();
    }
    board
}

/// A small network that counts material.
fn material_network() -> Network {
    let mut network = *Network::zeroed();
    let values = [1i16, 3, 3, 5, 9, 0];
    for side in 0..2 {
        for (piece, &value) in values.iter().enumerate() {
            for sq in 0..64 {
                let feature = side * 384 + piece * 64 + sq;
                let lanes = if side == 0 { 0..128 } else { 128..256 };
                for lane in lanes {
                    network.transformer_weights[feature * ACC_SIZE + lane] = value;
                }
            }
        }
    }
    for lane in 0..128 {
        network.output_weights[lane] = 50;
        network.output_weights[128 + lane] = -50;
    }
    network
}

#[test]
fn test_accumulator_new() {
    let acc = Accumulator::new();
    assert_eq!(acc.state, [0i16; ACC_SIZE]);
}

#[test]
fn test_accumulator_incremental_updates() {
    let mut network = Network::new_boxed();
    network.transformer_biases.fill(10);

    for i in 0..ACC_SIZE {
        network.transformer_weights[5 * ACC_SIZE + i] = 1;
    }

    let mut acc = Accumulator::new();
    acc.init_with_biases(&network);
    assert_eq!(acc.state, [10i16; ACC_SIZE]);

    acc.add_feature(5, &network);
    assert_eq!(acc.state, [11i16; ACC_SIZE]);

    acc.remove_feature(5, &network);
    assert_eq!(acc.state, [10i16; ACC_SIZE]);
}

#[test]
fn test_accumulator_refresh_starting_position() {
    let mut network = Network::new_boxed();
    network.transformer_biases.fill(5);
    network.transformer_weights.fill(1);

    let mut board = parse_fen(STARTING_FEN);
    board.refresh_accumulator(Side::White, &network);

    let idx = board.history.index;
    assert_ne!(board.history.accumulators[idx].white.state[0], 5);
    assert_ne!(board.history.accumulators[idx].white.state[0], 0);
}

#[test]
fn test_accumulator_add_2_sub_2() {
    let mut network = Network::new_boxed();
    network.transformer_biases.fill(100);

    for i in 0..ACC_SIZE {
        network.transformer_weights[ACC_SIZE + i] = 5;
        network.transformer_weights[2 * ACC_SIZE + i] = 12;
        network.transformer_weights[3 * ACC_SIZE + i] = -3;
        network.transformer_weights[4 * ACC_SIZE + i] = 8;
    }

    let mut acc_expected = Accumulator::new();
    acc_expected.init_with_biases(&network);
    acc_expected.add_feature(1, &network);
    acc_expected.add_feature(2, &network);
    acc_expected.remove_feature(3, &network);
    acc_expected.remove_feature(4, &network);

    let mut acc_actual = Accumulator::new();
    acc_actual.init_with_biases(&network);
    acc_actual.add_2_sub_2(1, 2, 3, 4, &network);

    assert_eq!(acc_expected.state, acc_actual.state);
}

#[test]
fn test_accumulator_add_1_sub_1_matches_sequential() {
    let mut network = Network::new_boxed();
    network.transformer_biases.fill(7);
    for i in 0..ACC_SIZE {
        network.transformer_weights[3 * ACC_SIZE + i] = 9;
        network.transformer_weights[4 * ACC_SIZE + i] = -4;
    }

    let mut expected = Accumulator::new();
    expected.init_with_biases(&network);
    expected.add_feature(3, &network);
    expected.remove_feature(4, &network);

    let mut actual = Accumulator::new();
    actual.init_with_biases(&network);
    actual.add_1_sub_1(3, 4, &network);

    assert_eq!(expected.state, actual.state);
}

#[test]
fn test_accumulator_add_1_sub_2_matches_sequential() {
    let mut network = Network::new_boxed();
    network.transformer_biases.fill(-3);
    for i in 0..ACC_SIZE {
        network.transformer_weights[ACC_SIZE + i] = 6;
        network.transformer_weights[2 * ACC_SIZE + i] = 2;
        network.transformer_weights[3 * ACC_SIZE + i] = 1;
    }

    let mut expected = Accumulator::new();
    expected.init_with_biases(&network);
    expected.add_feature(1, &network);
    expected.remove_feature(2, &network);
    expected.remove_feature(3, &network);

    let mut actual = Accumulator::new();
    actual.init_with_biases(&network);
    actual.add_1_sub_2(1, 2, 3, &network);

    assert_eq!(expected.state, actual.state);
}

#[test]
fn test_accumulator_default_and_copy() {
    let acc = Accumulator::default();
    assert_eq!(acc, Accumulator::new());
    let copied = acc;
    assert_eq!(copied.state, [0i16; ACC_SIZE]);
    let accs = Accumulators::default();
    assert_eq!(accs.white.state, [0i16; ACC_SIZE]);
    assert_eq!(accs.black.state, [0i16; ACC_SIZE]);
}

#[test]
fn test_accumulator_refresh_black_perspective() {
    let mut network = Network::new_boxed();
    network.transformer_biases.fill(5);
    network.transformer_weights.fill(1);

    let mut board = parse_fen(STARTING_FEN);
    board.refresh_accumulator(Side::Black, &network);

    let idx = board.history.index;
    assert_ne!(board.history.accumulators[idx].black.state[0], 5);
    assert!(board.history.computed[idx]);
    assert_eq!(board.history.accumulators[idx].black.state, [37i16; ACC_SIZE]);
}

#[test]
fn test_none_returns_none() {
    assert_eq!(
        get_feature_index(Piece::NoPiece, Side::White, Square::A1),
        None
    );
}

#[test]
fn test_bounds_and_limits() {
    let min_idx = get_feature_index(Piece::Pawn, Side::White, Square::A1).unwrap();
    assert_eq!(min_idx, 0);

    let max_idx = get_feature_index(Piece::King, Side::Black, Square::H8).unwrap();

    assert_eq!(max_idx, 767);
}

#[test]
fn default_box_network_matches_zeroed() {
    let default_net = Box::<Network>::default();
    let zeroed_net = Network::zeroed();
    assert_eq!(default_net.output_bias, zeroed_net.output_bias);
    assert_eq!(
        default_net.transformer_biases,
        zeroed_net.transformer_biases
    );
}

#[test]
fn embedded_network_metadata_is_stable() {
    let network = material_network();
    let metadata = network.metadata();

    assert_eq!(metadata.input_size, INPUT_SIZE);
    assert_eq!(metadata.acc_size, ACC_SIZE);
    assert_eq!(metadata.output_size, 1);
    assert!(metadata.bytes > 0);
    assert_ne!(metadata.checksum, 0);
}

#[test]
fn boxed_network_starts_zeroed() {
    let net = Network::new_boxed();
    assert!(net.transformer_weights.iter().all(|&w| w == 0));
    assert!(net.transformer_biases.iter().all(|&b| b == 0));
    assert!(net.output_weights.iter().all(|&w| w == 0));
    assert_eq!(net.output_bias, 0);
}

#[test]
fn randomize_stays_in_range() {
    let mut net = Network::new_boxed();
    let draws: Vec<i16> = (0..NETWORK_WORDS).map(|i| (i % 21) as i16 - 10).collect();
    net.randomize(&draws);
    assert_eq!(net.transformer_weights[0], -10);
    for &w in net
        .transformer_weights
        .iter()
        .chain(net.transformer_biases.iter())
        .chain(net.output_weights.iter())
    {
        assert!((-10..=10).contains(&w));
    }
    assert!((-10..=10).contains(&net.output_bias));
    assert!(net.metadata().bytes > 0);
}

#[test]
fn network_bytes_read_back() {
    let network = material_network();
    let bytes = network.to_bytes();
    assert_eq!(bytes.len(), 394_816);
    let again = Network::from_bytes(&bytes).unwrap();
    assert_eq!(again.transformer_weights, network.transformer_weights);
    assert_eq!(again.transformer_biases, network.transformer_biases);
    assert_eq!(again.output_weights, network.output_weights);
    assert_eq!(again.output_bias, network.output_bias);
    assert!(Network::from_bytes(&bytes[1..]).is_none());
    let meta = network.metadata();
    assert_eq!(meta.bytes, bytes.len());
    let mut checksum = 14_695_981_039_346_656_037u64;
    for &b in &bytes {
        checksum = (checksum ^ u64::from(b)).wrapping_mul(1_099_511_628_211);
    }
    assert_eq!(meta.checksum, checksum);
    let text = metadata_text(&meta);
    assert!(text.contains("\"input_size\""));
    assert!(text.contains("\"checksum\""));
    assert!(text.contains(&format!("{checksum}")));
}

#[test]
fn auxiliary_features_follow_the_counters() {
    let mut out = [0usize; 4];
    let n = aux_feature_indices(0, 0, false, &mut out);
    assert_eq!(&out[..n], &[768, 772]);
    let n = aux_feature_indices(60, 2, true, &mut out);
    assert_eq!(&out[..n], &[halfmove_feature_index(60), 774, 775, 776]);
    assert_eq!(castling_active(false), None);
    assert_eq!(castling_active(true), Some(castling_feature_index()));
    assert_eq!(no_progress_active(49), None);
    assert_eq!(no_progress_active(50), Some(no_progress_feature_index()));
    assert_eq!(repetition_feature_index(9), repetition_feature_index(2));
    assert_eq!(halfmove_bucket(0), 0);
    assert_eq!(halfmove_bucket(255), 3);
    assert_eq!(repetition_bucket(1), 1);
}

#[test]
fn accumulators_copy_from_their_parent() {
    let network = material_network();
    let mut parent = Accumulator::new();
    parent.add_feature(300, &network);
    let mut child = Accumulator::new();
    child.push_from(&parent);
    assert_eq!(child.state, parent.state);
    child.remove_feature(300, &network);
    assert_eq!(child.state, [0i16; ACC_SIZE]);
    child.pop_to(&mut parent);
    assert_eq!(parent.state, [0i16; ACC_SIZE]);
}

#[test]
fn sums_moved_on_with_a_piece_equal_a_refresh() {
    let network = material_network();
    let mut board = parse_fen(STARTING_FEN);
    board.ensure_accumulators_fresh(&network);
    let idx = board.history.index;
    let mut moved = board.history.accumulators[idx];
    let seen = get_feature_index(Piece::Queen, Side::Black, Square::E4).unwrap();
    moved.white.add_feature(seen, &network);
    let seen = get_feature_index(Piece::Queen, Side::White, Square::E5).unwrap();
    moved.black.add_feature(seen, &network);

    board.add_piece(Square::E4, Side::Black, Piece::Queen);
    assert!(!board.history.computed[idx]);
    board.ensure_accumulators_fresh(&network);
    assert!(board.history.computed[idx]);
    assert_eq!(board.history.accumulators[idx].white.state, moved.white.state);
    assert_eq!(board.history.accumulators[idx].black.state, moved.black.state);
}

#[test]
fn marked_sums_are_left_alone() {
    let network = material_network();
    let mut board = parse_fen(STARTING_FEN);
    board.ensure_accumulators_fresh(&network);
    let idx = board.history.index;
    let sums = board.history.accumulators[idx];
    assert_eq!(sums.white.state[0], 39);
    assert_eq!(sums.white.state[255], 39);
    board.history.accumulators[idx].black.state.fill(7);
    board.refresh_accumulator(Side::White, &network);
    assert_eq!(board.history.accumulators[idx].white.state, sums.white.state);
    assert_eq!(board.history.accumulators[idx].black.state, [7i16; ACC_SIZE]);
    board.refresh_accumulator(Side::Black, &network);
    assert_eq!(board.history.accumulators[idx].black.state, sums.black.state);
}
