use whale::board::{BoardState, Piece, Side, Square};
use whale::eval::nnue::leb128::{decode_leb128_i16, decode_leb128_i32, decode_leb128_i64};
use whale::eval::nnue::v16::arch::{
    FC0_OUT, FC1_IN, FC1_OUT, L1, N_BUCKETS, PAIR_DIMS, PSQ_DIMS, THREAT_DIMS,
};
use whale::eval::nnue::v16::eval::{
    flush_pending, note_add, note_remove, refresh_all, refresh_perspective, FinnyCache, FinnyEntry,
    LoadedNets, Sfnn16Accs, SfnnPending,
};
use whale::eval::nnue::v16::evaluate::evaluate_board;
use whale::eval::nnue::v16::freshen::ensure_sfnn16_fresh;
use whale::eval::nnue::v16::lists::trainer_features;
use whale::eval::nnue::v16::loader::{Sfnn16Net, SfnnArch, SfnnTransformer};
use whale::eval::nnue::v16::pairs::{append_pairs, pair_make_index};
use whale::eval::nnue::v16::position::SfnnPosition;
use whale::eval::nnue::v16::threats::build_threat_luts;

const AFTER_E4: &str = "rnbqkbnr/pppppppp/8/8/4P3/8/PPPP1PPP/RNBQKBNR b KQkq - 0 1";

const STARTING_FEN: &str = "rnbqkbnr/pppppppp/8/8/8/8/PPPPPPPP/RNBQKBNR w KQkq - 0 1";

fn parse_fen(fen: &str) -> BoardState {
    let mut board = BoardState::new();
    let mut fields = fen.split(' ');
    let mut square = 0usize;
    for c in fields.next().unwrap().chars() {
        if c == '/' {
            continue;
        }
        if let Some(skip) = c.to_digit(10) {
            square += skip as usize;
            continue;
        }
        let side = if c.is_ascii_uppercase() { Side::White } else { Side::Black };
        let piece = match c.to_ascii_lowercase() {
            'p' => Piece::Pawn,
            'n' => Piece::Knight,
            'b' => Piece::Bishop,
            'r' => Piece::Rook,
            'q' => Piece::Queen,
            _ => Piece::King,
        };
        board.add_piece(Square::from_index(square), side, piece);
        square += 1;
    }
    if fields.next() == Some("b") {
        board.side_to_move = Side::Black;
    }
    board
}

fn position(fen: &str) -> SfnnPosition {
    SfnnPosition::from_board(&parse_fen(fen))
}

fn nets(seed: usize) -> LoadedNets {
    let stack = SfnnArch {
        fc0_bias: [0; FC0_OUT],
        fc0_w: vec![1; L1 * FC0_OUT],
        fc1_bias: [0; FC1_OUT],
        fc1_w: vec![1; FC1_IN * FC1_OUT],
        fc2_bias: 0,
        fc2_w: [1; FC0_OUT * 2 + FC1_OUT * 2],
        is_rudi: false,
    };
    LoadedNets {
        net: Sfnn16Net {
            l1: L1,
            use_threats: false,
            is_rudi: false,
            transformer: SfnnTransformer {
                bias: vec![seed as i16; L1],
                weights: (0..PSQ_DIMS * L1).map(|i| ((i * seed) % 251) as i16 - 125).collect(),
                psqt_w: (0..PSQ_DIMS * N_BUCKETS).map(|i| ((i * seed) % 997) as i32).collect(),
                ..Default::default()
            },
            stacks: vec![stack; N_BUCKETS],
        },
    }
}

fn assert_newest_is_fresh(board: &BoardState, pos: &SfnnPosition, nets: &LoadedNets, at: u64) {
    let index = board.history.index;
    let found = &board.history.sfnn16[index];
    let mut direct = Sfnn16Accs::empty();
    for side in [Side::White, Side::Black] {
        refresh_perspective(pos, nets, side, &mut direct);
        assert_eq!(found.halfka[side as usize], direct.halfka[side as usize], "{side:?}");
        assert_eq!(found.psqt[side as usize], direct.psqt[side as usize], "{side:?}");
    }
    assert_eq!(found.generation, at);
    assert_eq!(board.history.sfnn16_computed[index], [true, true]);
}

fn after_e4(board: &BoardState) -> BoardState {
    let mut next = parse_fen(AFTER_E4);
    next.history.index = 1;
    next.history.sfnn16 = vec![board.history.sfnn16[0].clone(), Sfnn16Accs::empty()];
    next.history.sfnn16_computed = vec![board.history.sfnn16_computed[0], [false, false]];
    let mut pending = SfnnPending::new();
    note_remove(&mut pending, Square::E2, Side::White, Piece::Pawn);
    note_add(&mut pending, Square::E4, Side::White, Piece::Pawn);
    next.history.sfnn16_pending = vec![SfnnPending::new(), pending];
    next
}

#[test]
fn both_sides_are_summed_anew_after_a_load() {
    let luts = build_threat_luts();
    let (old, new) = (nets(3), nets(11));
    let mut cache = FinnyCache::new();
    let mut board = parse_fen(STARTING_FEN);
    let pos = SfnnPosition::from_board(&board);
    assert!(evaluate_board(&mut board, Some(&old), 1, &luts, &mut cache).is_some());
    assert_newest_is_fresh(&board, &pos, &old, 1);
    ensure_sfnn16_fresh(&mut board, &pos, Some(&new), 2, &mut cache);
    assert_newest_is_fresh(&board, &pos, &new, 2);
}

#[test]
fn replay_after_a_load_starts_from_the_new_network() {
    let (old, new) = (nets(3), nets(11));
    let mut cache = FinnyCache::new();
    let mut board = parse_fen(STARTING_FEN);
    let pos = SfnnPosition::from_board(&board);
    ensure_sfnn16_fresh(&mut board, &pos, Some(&old), 1, &mut cache);
    let mut board = after_e4(&board);
    let next = SfnnPosition::from_board(&board);
    ensure_sfnn16_fresh(&mut board, &next, Some(&old), 1, &mut cache);
    assert_newest_is_fresh(&board, &next, &old, 1);

    board.history.index = 0;
    ensure_sfnn16_fresh(&mut board, &pos, Some(&new), 2, &mut cache);
    assert_newest_is_fresh(&board, &pos, &new, 2);
    board.history.index = 1;
    ensure_sfnn16_fresh(&mut board, &next, Some(&new), 2, &mut cache);
    assert_newest_is_fresh(&board, &next, &new, 2);
}

#[test]
fn flushed_queues_equal_a_refresh() {
    let net = nets(5);
    let mut cache = FinnyCache::new();
    let start = position(STARTING_FEN);
    let next = position(AFTER_E4);
    for stale in [false, true] {
        let mut accs = Sfnn16Accs::empty();
        refresh_all(&start, Some(&net), if stale { 1 } else { 2 }, &mut accs);
        let mut pending = SfnnPending::new();
        note_remove(&mut pending, Square::E2, Side::White, Piece::Pawn);
        note_add(&mut pending, Square::E4, Side::White, Piece::Pawn);
        flush_pending(&next, Some(&net), 2, &mut cache, &mut accs, &mut pending);
        let mut direct = Sfnn16Accs::empty();
        refresh_all(&next, Some(&net), 2, &mut direct);
        assert_eq!(accs.halfka, direct.halfka);
        assert_eq!(accs.psqt, direct.psqt);
        assert_eq!(accs.generation, 2);
        assert_eq!((pending.n_adds, pending.n_dels), (0, 0));
    }
}

#[test]
fn finny_entries_start_empty() {
    let entry = FinnyEntry::default();
    assert!(!entry.valid);
    assert!(entry.halfka.iter().all(|&v| v == 0));
    assert!(entry.psqt.iter().all(|&v| v == 0));
    assert!(entry.mapping.iter().all(|&v| v == 6));
}

#[test]
fn pair_numbers_name_unordered_pairs() {
    let index = |c, f, t, p| pair_make_index(Side::White, c, f, t, p, 4).unwrap();
    assert_eq!(index(Side::White, 12, 20, Side::White), 82_336 + 58);
    let pawns: Vec<(Side, usize)> = [Side::White, Side::Black]
        .into_iter()
        .flat_map(|c| (8..56).map(move |s| (c, s)))
        .collect();
    let mut seen = vec![false; PAIR_DIMS];
    for (i, &(c, f)) in pawns.iter().enumerate() {
        for &(p, t) in &pawns[i + 1..] {
            let r = index(c, f, t, p);
            assert_eq!(r, index(p, t, f, c));
            let slot = r - PSQ_DIMS - THREAT_DIMS;
            assert!(!seen[slot]);
            seen[slot] = true;
        }
    }
    assert!(seen.iter().all(|&s| s));
}

#[test]
fn trainer_features_stay_below_their_blocks() {
    let luts = build_threat_luts();
    let pos = position("r1bqk2r/pppp1ppp/2n2n2/2b1p3/2B1P3/2N2N2/PPPP1PPP/R1BQK2R w KQkq - 6 5");
    let (_, _, white, black) =
        trainer_features(&luts, &pos.pieces, pos.white, pos.black, &pos.mapping);
    assert!(white.iter().chain(&black).all(|&f| f < 64_368));
    let mut pairs = Vec::new();
    append_pairs(&pos, Side::White, &mut pairs);
    assert!(pairs.iter().all(|f| (82_336..86_896).contains(f)));
}

fn encoded(mut v: i64) -> Vec<u8> {
    let mut out = Vec::new();
    loop {
        let group = (v & 127) as u8;
        v >>= 7;
        if (v == 0 && group < 64) || (v == -1 && group >= 64) {
            out.push(group);
            return out;
        }
        out.push(group | 128);
    }
}

#[test]
fn shortest_encodings_are_read_back() {
    for v in [0, 1, -1, 63, 64, -64, -65, 300, 8191, 8192, -8192, -8193, 32767, -32768] {
        let e = encoded(v);
        let mut pos = 0;
        assert_eq!(decode_leb128_i16(&e, &mut pos), Ok(v as i16));
        assert_eq!(pos, e.len());
        assert_eq!(decode_leb128_i32(&e, &mut 0), Ok(v as i32));
        let cut = &e[..e.len() - 1];
        assert_eq!(decode_leb128_i64(cut, &mut 0, 64), Err("truncated leb128 payload"));
    }
    for v in [i64::from(i32::MIN), i64::from(i32::MAX), 1 << 27, -(1 << 27)] {
        assert_eq!(decode_leb128_i32(&encoded(v), &mut 0), Ok(v as i32));
    }
    for v in [i64::MIN, i64::MAX, 1 << 62, -(1 << 62), 1 << 55] {
        assert_eq!(decode_leb128_i64(&encoded(v), &mut 0, 64), Ok(v));
    }
}
