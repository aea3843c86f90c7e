use whale::board::{BoardState, Piece, Side, Square};
use whale::eval::nnue::leb128::read_leb128_section_i16;
use whale::eval::nnue::v16::arch::{unscramble_table, LEB128_MAGIC, N_BUCKETS, OUTPUT_SCALE, PSQ_DIMS};
use whale::eval::nnue::v16::position::{sf_piece_code, to_sf};
use whale::eval::nnue::v2::arch::{
    arch_hash, network_hash, transformer_hash, use_small_net, BIG_L1, FC0_OUT, FC1_OUT, SMALL_L1,
    THREAT_DIMS,
};
use whale::eval::nnue::v2::eval::{
    ensure_fresh, evaluate_board, evaluate_nets, flush_pending, refresh_all, LoadedNets, Sfnn10Accs,
};
use whale::eval::nnue::v2::inference::propagate;
use whale::eval::nnue::v2::loader::{Sfnn10Net, SfnnArch};
use whale::eval::nnue::v2::models::{
    load_nets, maintenance_active, pending_after, set_eval_file, unload_nets, NetPair,
};
use whale::eval::nnue::v2::threats::{
    append_threats, build_threat_luts, collect_threat_list, threat_index_for, trainer_features,
};
use whale::eval::nnue::v2::{
    append_halfka, halfka_index, material_bucket, note_add, note_remove, simple_eval, SfnnPending,
    SfnnPosition, SfnnTransformer,
};

const STARTING_FEN: &str = "rnbqkbnr/pppppppp/8/8/8/8/PPPPPPPP/RNBQKBNR w KQkq - 0 1";

fn parse_fen(fen: &str) -> BoardState {
    let mut board = BoardState::new();
    let mut fields = fen.split(' ');
    let mut square = 0usize;
    for c in fields.next().unwrap().chars() {
        if c == '/' {
            continue;
        }
        if let Some(skip) = c.to_digit(10) {
            square += skip as usize;
            continue;
        }
        let side = if c.is_ascii_uppercase() { Side::White } else { Side::Black };
        let piece = match c.to_ascii_lowercase() {
            'p' => Piece::Pawn,
            'n' => Piece::Knight,
            'b' => Piece::Bishop,
            'r' => Piece::Rook,
            'q' => Piece::Queen,
            _ => Piece::King,
        };
        board.add_piece(Square::from_index(square), side, piece);
        square += 1;
    }
    if fields.next() == Some("b") {
        board.side_to_move = Side::Black;
    }
    board
}

fn position(fen: &str) -> SfnnPosition {
    SfnnPosition::from_board(&parse_fen(fen))
}

const AFTER_E4: &str = "rnbqkbnr/pppppppp/8/8/4P3/8/PPPP1PPP/RNBQKBNR b KQkq - 0 1";

const PIECES: [Piece; 6] = [
    Piece::Pawn,
    Piece::Knight,
    Piece::Bishop,
    Piece::Rook,
    Piece::Queen,
    Piece::King,
];

fn startpos() -> SfnnPosition {
    position(STARTING_FEN)
}

#[test]
fn halfka_mirror_symmetry() {
    let e1 = 4usize;
    let e2 = 12usize;
    let w = halfka_index(Side::White, Side::White, Piece::Pawn, e2, e1).unwrap();
    assert_eq!(w, 12 + 31 * 704);
    let e8 = 60usize;
    let e7 = 52usize;
    let b = halfka_index(Side::Black, Side::Black, Piece::Pawn, e7, e8).unwrap();
    assert_eq!(b, w);
}

#[test]
fn halfka_layout_spot_checks() {
    let a = halfka_index(Side::White, Side::White, Piece::Knight, 0, 4).unwrap();
    let b = halfka_index(Side::White, Side::Black, Piece::Knight, 0, 4).unwrap();
    assert_eq!(b - a, 64);
    let c = halfka_index(Side::White, Side::White, Piece::Knight, 0, 56).unwrap();
    assert_eq!(a - c, 31 * 704 - 7);
    let k1 = halfka_index(Side::White, Side::White, Piece::King, 10, 4).unwrap();
    let k2 = halfka_index(Side::White, Side::Black, Piece::King, 10, 4).unwrap();
    assert_eq!(k1, k2);
    assert!(k1 < PSQ_DIMS);
}

#[test]
fn threat_tables_have_sfnnv10_dimensions() {
    let luts = build_threat_luts();
    assert!(luts.offsets[14][65] < THREAT_DIMS as u32);
    let pos = startpos();
    let mut out = Vec::new();
    append_threats(&luts, &pos, Side::White, &mut out);
    assert!(!out.is_empty());
    for idx in &out {
        assert!(*idx >= PSQ_DIMS && *idx < PSQ_DIMS + THREAT_DIMS);
    }
    let mut black = Vec::new();
    append_threats(&luts, &pos, Side::Black, &mut black);
    assert!(!black.is_empty());
}

#[test]
fn threat_exclusion_pawn_on_pawn() {
    let luts = build_threat_luts();
    let pos = startpos();
    let mut out = Vec::new();
    append_threats(&luts, &pos, Side::White, &mut out);
    let mut sorted = out.clone();
    sorted.sort_unstable();
    sorted.dedup();
    assert_eq!(sorted.len(), out.len(), "duplicate threat indices");
}

#[test]
fn bucket_and_gate_startpos() {
    let pos = startpos();
    assert_eq!(pos.piece_count(), 32);
    assert_eq!(material_bucket(32), 7);
    assert_eq!(material_bucket(2), 0);
    assert_eq!(simple_eval(&pos, Side::White), 0);
    assert!(!use_small_net(&pos, Side::White));
}

#[test]
fn arch_hash_chain_is_deterministic() {
    let h1 = arch_hash(BIG_L1 as u32);
    let h2 = arch_hash(BIG_L1 as u32);
    assert_eq!(h1, h2);
    assert_ne!(h1, arch_hash(SMALL_L1 as u32));
    assert_ne!(
        network_hash(true, BIG_L1 as u32),
        network_hash(false, SMALL_L1 as u32)
    );
}

#[test]
fn leb128_roundtrip_vectors() {
    let mut bytes = Vec::new();
    bytes.extend_from_slice(&LEB128_MAGIC);
    bytes.extend_from_slice(&2u32.to_le_bytes());
    bytes.extend_from_slice(&[0x7F, 0x80, 0x7F]);
    let mut pos = 0;
    let v = read_leb128_section_i16(&bytes, &mut pos, 2).unwrap();
    assert_eq!(v, vec![-1i16, -128i16]);
    let mut bytes = Vec::new();
    bytes.extend_from_slice(&LEB128_MAGIC);
    bytes.extend_from_slice(&2u32.to_le_bytes());
    bytes.extend_from_slice(&[0xFF, 0x00, 0x80, 0xFF, 0x00]);
    let mut pos = 0;
    let v = read_leb128_section_i16(&bytes, &mut pos, 2).unwrap();
    assert_eq!(v, vec![127i16, 16256i16]);
}

#[test]
fn unscramble_is_inverse_of_stockfish_layout() {
    for (o, p) in [(16usize, 1024usize), (32, 32), (1, 32)] {
        let inv = unscramble_table(o, p);
        assert_eq!(inv.len(), o * p);
        let mut seen = vec![false; o * p];
        for &v in &inv {
            assert!(!seen[v]);
            seen[v] = true;
        }
    }
}

#[test]
fn small_net_zero_weights_evaluates_to_bias() {
    let l1 = SMALL_L1;
    let tr = SfnnTransformer {
        bias: vec![0i16; l1],
        weights: vec![0i16; PSQ_DIMS * l1],
        psqt_w: vec![0i32; PSQ_DIMS * N_BUCKETS],
        ..Default::default()
    };
    let arch = SfnnArch {
        fc0_bias: [0i32; FC0_OUT],
        fc0_w: vec![0i8; FC0_OUT * l1],
        fc1_bias: [0i32; FC1_OUT],
        fc1_w: vec![0i8; FC1_OUT * 32],
        fc2_bias: 1600,
        fc2_w: [0i8; FC1_OUT],
    };
    let net = Sfnn10Net {
        l1,
        use_threats: false,
        transformer: tr,
        stacks: vec![arch; N_BUCKETS],
    };
    let pos = startpos();
    let mut halfka = Vec::new();
    append_halfka(&pos, Side::White, &mut halfka);
    assert_eq!(halfka.len(), 32);
    let mut acc = vec![0i16; l1];
    for &f in &halfka {
        let base = f * l1;
        for (j, a) in acc.iter_mut().enumerate() {
            *a = a.wrapping_add(net.transformer.weights[base + j]);
        }
    }
    let half = l1 / 2;
    let mut feats = vec![0u8; l1];
    for j in 0..half {
        let c0 = i32::from(acc[j]).clamp(0, 254);
        let c1 = i32::from(acc[j + half]).clamp(0, 254);
        feats[j] = ((c0 * c1) / 512) as u8;
    }
    let p = propagate(&net.stacks[7], l1, &feats);
    assert_eq!(p, 1600);
    assert_eq!(p / OUTPUT_SCALE, 100);
}

#[test]
fn sf_piece_codes_cover_all_pieces() {
    for (side, base) in [(Side::White, 1usize), (Side::Black, 9usize)] {
        for (i, piece) in PIECES.iter().enumerate() {
            assert_eq!(sf_piece_code(side, *piece), base + i);
        }
    }
}

#[test]
fn loader_rejects_bad_version() {
    let mut bytes = vec![0u8; 64];
    bytes[0..4].copy_from_slice(&0xDEADu32.to_le_bytes());
    assert!(Sfnn10Net::load_bytes(&bytes, true, BIG_L1).is_err());
}

#[test]
fn incremental_matches_scratch() {
    let board = parse_fen(STARTING_FEN);
    let before = SfnnPosition::from_board(&board);
    let mut w0 = Vec::new();
    append_halfka(&before, Side::White, &mut w0);
    let after = position(AFTER_E4);
    let mut w1 = Vec::new();
    append_halfka(&after, Side::White, &mut w1);
    let mut dels: Vec<usize> = w0.iter().filter(|x| !w1.contains(x)).copied().collect();
    let mut adds: Vec<usize> = w1.iter().filter(|x| !w0.contains(x)).copied().collect();
    dels.sort_unstable();
    adds.sort_unstable();
    assert_eq!(dels.len(), 1);
    assert_eq!(adds.len(), 1);
    let ksq = after.king_square(Side::White);
    let e2 = to_sf(Square::E2 as usize);
    let e4 = to_sf(Square::E4 as usize);
    let exp_del = halfka_index(Side::White, Side::White, Piece::Pawn, e2, ksq).unwrap();
    let exp_add = halfka_index(Side::White, Side::White, Piece::Pawn, e4, ksq).unwrap();
    assert_eq!(dels[0], exp_del);
    assert_eq!(adds[0], exp_add);
}

#[test]
fn struct_sizes_are_sane() {
    let accs = Sfnn10Accs::empty();
    assert!(std::mem::size_of_val(&accs) < 16_384);
}

fn synth_vec(len: usize, mul: i64) -> Vec<i16> {
    (0..len)
        .map(|i| (((i as i64 * 31 + 7) % 11) - 5) as i16 * mul as i16)
        .collect()
}

fn blank_stack(l1: usize) -> SfnnArch {
    SfnnArch {
        fc0_bias: [0i32; FC0_OUT],
        fc0_w: vec![0i8; FC0_OUT * l1],
        fc1_bias: [0i32; FC1_OUT],
        fc1_w: vec![0i8; FC1_OUT * 32],
        fc2_bias: 0,
        fc2_w: [0i8; FC1_OUT],
    }
}

fn synthetic_nets() -> LoadedNets {
    let big = Sfnn10Net {
        l1: BIG_L1,
        use_threats: true,
        transformer: SfnnTransformer {
            bias: synth_vec(BIG_L1, 1),
            weights: synth_vec(PSQ_DIMS * BIG_L1, 1),
            threat_w: vec![0i8; THREAT_DIMS * BIG_L1],
            psqt_w: (0..PSQ_DIMS * N_BUCKETS)
                .map(|i| (((i * 17 + 3) % 13) as i32 - 6) * 10)
                .collect(),
            threat_psqt_w: vec![0i32; THREAT_DIMS * N_BUCKETS],
            ..Default::default()
        },
        stacks: vec![blank_stack(BIG_L1); N_BUCKETS],
    };
    let small = Sfnn10Net {
        l1: SMALL_L1,
        use_threats: false,
        transformer: SfnnTransformer {
            bias: vec![0i16; SMALL_L1],
            weights: vec![0i16; PSQ_DIMS * SMALL_L1],
            psqt_w: vec![0i32; PSQ_DIMS * N_BUCKETS],
            ..Default::default()
        },
        stacks: vec![blank_stack(SMALL_L1); N_BUCKETS],
    };
    LoadedNets { big, small }
}

#[test]
fn incremental_accs_match_scratch() {
    let luts = build_threat_luts();
    let nets = synthetic_nets();
    let pair = NetPair {
        nets: Some(nets),
        generation: 1,
        pending_big: None,
        pending_small: None,
    };
    assert!(maintenance_active(&pair));
    let nets = pair.nets.as_ref();

    let mut live = Sfnn10Accs::empty();
    refresh_all(&startpos(), nets, 1, &mut live);
    let mut pending = SfnnPending::default();
    note_remove(&mut pending, Square::E2, Side::White, Piece::Pawn);
    note_add(&mut pending, Square::E4, Side::White, Piece::Pawn);
    let board = parse_fen(AFTER_E4);
    let pos = SfnnPosition::from_board(&board);
    flush_pending(&pos, nets, 1, &mut live, &mut pending);
    let mut scratch = Sfnn10Accs::empty();
    refresh_all(&pos, nets, 1, &mut scratch);
    assert_eq!(live.big_halfka, scratch.big_halfka);
    assert_eq!(live.big_psqt, scratch.big_psqt);

    let mut live2 = Sfnn10Accs::empty();
    refresh_all(&position("4k3/8/8/8/8/8/8/4K3 w - - 0 1"), nets, 1, &mut live2);
    let mut pending = SfnnPending::default();
    note_remove(&mut pending, Square::E1, Side::White, Piece::King);
    note_add(&mut pending, Square::E2, Side::White, Piece::King);
    let pos2 = position("4k3/8/8/8/8/8/4K3/8 b - - 1 1");
    flush_pending(&pos2, nets, 1, &mut live2, &mut pending);
    let mut scratch2 = Sfnn10Accs::empty();
    refresh_all(&pos2, nets, 1, &mut scratch2);
    assert_eq!(live2.big_halfka, scratch2.big_halfka);
    assert_eq!(live2.big_psqt, scratch2.big_psqt);

    let mut history = vec![live];
    let score = evaluate_board(&board, nets, 1, &luts, &mut history);
    assert!(score.is_some());
}

#[test]
fn sfnn10_without_nets_or_kings_gives_nothing() {
    let luts = build_threat_luts();
    let mut accs = Sfnn10Accs::empty();
    let start = startpos();
    assert!(evaluate_nets(&start, None, 0, &luts, &mut accs, Side::White).is_none());
    ensure_fresh(&start, None, 3, &mut accs);
    assert!(accs.big_halfka[0].iter().all(|&v| v == 0));
    let board = parse_fen(STARTING_FEN);
    let mut history = vec![Sfnn10Accs::empty()];
    assert!(evaluate_board(&board, None, 0, &luts, &mut history).is_none());
}

#[test]
fn sfnn10_lopsided_positions_use_the_small_net() {
    let luts = build_threat_luts();
    let mut nets = synthetic_nets();
    for stack in nets.small.stacks.iter_mut() {
        stack.fc2_bias = 16 * 1000;
    }
    for stack in nets.big.stacks.iter_mut() {
        stack.fc2_bias = 16 * 7;
    }
    let up_two_rooks = position("4k3/8/8/8/8/8/8/RR2K3 w - - 0 1");
    assert!(use_small_net(&up_two_rooks, Side::White));
    let mut accs = Sfnn10Accs::empty();
    let found =
        evaluate_nets(&up_two_rooks, Some(&nets), 1, &luts, &mut accs, Side::White).unwrap();
    assert!(found.used_small);
    assert_eq!(found.psqt, 0);
    assert_eq!(found.positional, 1000);

    for stack in nets.small.stacks.iter_mut() {
        stack.fc2_bias = 0;
    }
    let found =
        evaluate_nets(&up_two_rooks, Some(&nets), 1, &luts, &mut accs, Side::White).unwrap();
    assert!(!found.used_small);
    assert_eq!(found.positional, 7);
}

#[test]
fn sfnn10_trainer_features_match_collected_lists() {
    let luts = build_threat_luts();
    let pos = position("r1bqk2r/pppp1ppp/2n2n2/2b1p3/2B1P3/2N2N2/PPPP1PPP/R1BQK2R w KQkq - 6 5");
    let (w_h, b_h, w_t, b_t) =
        trainer_features(&luts, &pos.pieces, pos.white, pos.black, &pos.mapping);
    let mut white = Vec::new();
    append_halfka(&pos, Side::White, &mut white);
    assert_eq!(w_h, white);
    assert_eq!(b_h.len(), 32);
    assert_eq!(w_t, collect_threat_list(&luts, &pos, Side::White));
    assert_eq!(b_t, collect_threat_list(&luts, &pos, Side::Black));
}

#[test]
fn sfnn10_threat_index_stays_in_block() {
    let luts = build_threat_luts();
    let mut found = 0usize;
    let mut last = 0usize;
    for attacker in [1usize, 2, 3, 4, 5, 6, 9, 10, 11, 12, 13, 14] {
        for attacked in [1usize, 2, 3, 4, 5, 6, 9, 10, 11, 12, 13, 14] {
            for from in 0..64 {
                for to in 0..64 {
                    let slot = threat_index_for(&luts, Side::White, attacker, from, to, attacked, 4);
                    if let Some(i) = slot {
                        assert!(i < THREAT_DIMS);
                        last = last.max(i);
                        found += 1;
                    }
                }
            }
        }
    }
    assert!(found > 0);
    assert_eq!(last, THREAT_DIMS - 1);
}

fn push_zeros(buf: &mut Vec<u8>, count: usize) {
    buf.extend_from_slice(&LEB128_MAGIC);
    buf.extend_from_slice(&(count as u32).to_le_bytes());
    buf.extend(std::iter::repeat_n(0u8, count));
}

fn tiny_net_bytes(use_threats: bool, l1: usize) -> Vec<u8> {
    let mut buf = Vec::new();
    buf.extend_from_slice(&whale::eval::nnue::v16::arch::SF_FILE_VERSION.to_le_bytes());
    buf.extend_from_slice(&network_hash(use_threats, l1 as u32).to_le_bytes());
    buf.extend_from_slice(&3u32.to_le_bytes());
    buf.extend_from_slice(b"abc");
    buf.extend_from_slice(&transformer_hash(use_threats, l1 as u32).to_le_bytes());
    push_zeros(&mut buf, l1);
    if use_threats {
        push_zeros(&mut buf, (THREAT_DIMS + PSQ_DIMS) * l1);
        push_zeros(&mut buf, (THREAT_DIMS + PSQ_DIMS) * N_BUCKETS);
    } else {
        push_zeros(&mut buf, PSQ_DIMS * l1);
        push_zeros(&mut buf, PSQ_DIMS * N_BUCKETS);
    }
    for _ in 0..N_BUCKETS {
        buf.extend_from_slice(&arch_hash(l1 as u32).to_le_bytes());
        buf.extend(std::iter::repeat_n(0u8, 4 * FC0_OUT + FC0_OUT * l1.next_multiple_of(32)));
        buf.extend(std::iter::repeat_n(0u8, 4 * FC1_OUT + FC1_OUT * 32 + 4 + FC1_OUT));
    }
    buf
}

#[test]
fn sfnn10_tiny_files_load() {
    for use_threats in [false, true] {
        let buf = tiny_net_bytes(use_threats, 2);
        let net = Sfnn10Net::load_bytes(&buf, use_threats, 2).unwrap();
        assert_eq!(net.l1, 2);
        assert_eq!(net.use_threats, use_threats);
        assert_eq!(net.transformer.weights.len(), PSQ_DIMS * 2);
        assert_eq!(net.transformer.psqt_w.len(), PSQ_DIMS * N_BUCKETS);
        assert_eq!(net.transformer.threat_w.len(), if use_threats { THREAT_DIMS * 2 } else { 0 });
        assert_eq!(net.stacks.len(), N_BUCKETS);
        assert!(Sfnn10Net::load_bytes(&buf, !use_threats, 2).is_err());
        assert!(Sfnn10Net::load_bytes(&buf[..buf.len() - 1], use_threats, 2).is_err());
        let mut longer = buf.clone();
        longer.push(0);
        assert!(Sfnn10Net::load_bytes(&longer, use_threats, 2).is_ok());
    }
}

#[test]
fn sfnn10_pair_is_set_from_two_options() {
    let mut pair = NetPair::new();
    assert!(!maintenance_active(&pair));
    assert!(load_nets(&mut pair, None, None).is_err());
    assert!(load_nets(&mut pair, Some(&[1, 2, 3]), Some(&[])).is_err());
    let (big, small) = pending_after(&pair, "EvalFile", "big.nnue");
    assert_eq!(big.as_deref(), Some("big.nnue"));
    assert_eq!(small, None);
    assert!(set_eval_file(&mut pair, "Bogus", "x", None, None).is_err());
    assert_eq!(
        set_eval_file(&mut pair, "EvalFile", "big.nnue", None, None),
        Err("need both EvalFile and EvalFileSmall")
    );
    assert_eq!(pair.pending_big.as_deref(), Some("big.nnue"));
    assert!(!maintenance_active(&pair));
    assert!(set_eval_file(&mut pair, "EvalFileSmall", "small.nnue", None, None).is_err());
    unload_nets(&mut pair);
    assert!(!maintenance_active(&pair));
}
