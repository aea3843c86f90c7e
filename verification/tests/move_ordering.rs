use whale::board::{BoardState, Move, MoveType, NodeThreats, Piece, ScoredMove, Side, Square};
use whale::eval::move_ordering::{
    populate_capture_scores, MoveOrdering, CHECK_EXCHANGE_MARGIN, MAX_HISTORY,
};

const STARTING_FEN: &str = "rnbqkbnr/pppppppp/8/8/8/8/PPPPPPPP/RNBQKBNR w KQkq - 0 1";

fn parse_fen(fen: &str) -> BoardState {
    let mut board = BoardState::new();
    let mut fields = fen.split(' ');
    let mut square = 0usize;
    for c in fields.next().unwrap().chars() {
        if c == '/' {
            continue;
        }
        if let Some(skip) = c.to_digit(10) {
            square += skip as usize;
            continue;
        }
        let side = if c.is_ascii_uppercase() { Side::White } else { Side::Black };
        let piece = match c.to_ascii_lowercase() {
            'p' => Piece::Pawn,
            'n' => Piece::Knight,
            'b' => Piece::Bishop,
            'r' => Piece::Rook,
            'q' => Piece::Queen,
            _ => Piece::King,
        };
        board.add_piece(Square::from_index(square), side, piece);
        square += 1;
    }
    if fields.next() == Some("b") {
        board.side_to_move = Side::Black;
    }
    if let Some(clock) = fields.nth(2) {
        board.half_move_clock = clock.parse().unwrap();
    }
    board
}

fn ray(board: &BoardState, sq: usize, file: i32, rank: i32) -> u64 {
    let occupied = board.occupancies[0] | board.occupancies[1];
    let mut found = 0u64;
    let (mut f, mut r) = ((sq % 8) as i32 + file, (sq / 8) as i32 + rank);
    while (0..8).contains(&f) && (0..8).contains(&r) {
        let bit = 1u64 << (r * 8 + f);
        found |= bit;
        if occupied & bit != 0 {
            break;
        }
        f += file;
        r += rank;
    }
    found
}

fn leaps(sq: usize, steps: &[(i32, i32)]) -> u64 {
    let mut found = 0u64;
    for &(file, rank) in steps {
        let (f, r) = ((sq % 8) as i32 + file, (sq / 8) as i32 + rank);
        if (0..8).contains(&f) && (0..8).contains(&r) {
            found |= 1u64 << (r * 8 + f);
        }
    }
    found
}

fn attacks(board: &BoardState, piece: Piece, side: Side, sq: usize) -> u64 {
    let diagonal = || {
        ray(board, sq, 1, 1) | ray(board, sq, 1, -1) | ray(board, sq, -1, 1) | ray(board, sq, -1, -1)
    };
    let straight = || {
        ray(board, sq, 1, 0) | ray(board, sq, -1, 0) | ray(board, sq, 0, 1) | ray(board, sq, 0, -1)
    };
    match piece {
        Piece::Pawn if side == Side::White => leaps(sq, &[(-1, -1), (1, -1)]),
        Piece::Pawn => leaps(sq, &[(-1, 1), (1, 1)]),
        Piece::Knight => leaps(
            sq,
            &[(1, 2), (2, 1), (-1, 2), (-2, 1), (1, -2), (2, -1), (-1, -2), (-2, -1)],
        ),
        Piece::Bishop => diagonal(),
        Piece::Rook => straight(),
        Piece::Queen => diagonal() | straight(),
        _ => leaps(
            sq,
            &[(1, 0), (1, 1), (0, 1), (-1, 1), (-1, 0), (-1, -1), (0, -1), (1, -1)],
        ),
    }
}

fn attacked_by(board: &BoardState, side: Side, piece: usize) -> u64 {
    let mut found = 0u64;
    for sq in 0..64 {
        if board.get_pieces(side, Piece::from_index(piece)) >> sq & 1 == 1 {
            found |= attacks(board, Piece::from_index(piece), side, sq);
        }
    }
    found
}

fn lesser_attacks(board: &BoardState, side: Side) -> [u64; 6] {
    let mut found = [0u64; 6];
    for piece in 1..5 {
        found[piece] = found[piece - 1] | attacked_by(board, side, piece - 1);
    }
    found[2] = found[1];
    found
}

fn node_threats(board: &BoardState) -> NodeThreats {
    let us = board.side_to_move;
    let them = us.other();
    let own_king = board.get_pieces(us, Piece::King).trailing_zeros() as usize;
    let their_king = board.get_pieces(them, Piece::King).trailing_zeros() as usize;
    let mut checkers = 0u64;
    let mut check_squares = [0u64; 6];
    for piece in 0..5 {
        let kind = Piece::from_index(piece);
        checkers |= attacks(board, kind, us, own_king) & board.get_pieces(them, kind);
        check_squares[piece] = attacks(board, kind, them, their_king);
    }
    NodeThreats {
        checkers,
        pinned: 0,
        check_squares,
        threats_us: lesser_attacks(board, them),
        threats_them: lesser_attacks(board, us),
    }
}

#[test]
fn should_sort_moves_by_score() {
    let mut moves = vec![
        ScoredMove {
            mv: Move {
                source: Square::E2,
                target: Square::E4,
                move_type: MoveType::Quiet,
            },
            score: 100,
        },
        ScoredMove {
            mv: Move {
                source: Square::D2,
                target: Square::D4,
                move_type: MoveType::Quiet,
            },
            score: 300,
        },
        ScoredMove {
            mv: Move {
                source: Square::G1,
                target: Square::F3,
                move_type: MoveType::Quiet,
            },
            score: 200,
        },
    ];

    MoveOrdering::sort_next_best_move(&mut moves, 0);

    assert_eq!(moves[0].score, 300);
}

#[test]
fn should_not_change_order_if_already_sorted() {
    let mut moves = vec![
        ScoredMove {
            mv: Move {
                source: Square::D2,
                target: Square::D4,
                move_type: MoveType::Quiet,
            },
            score: 300,
        },
        ScoredMove {
            mv: Move {
                source: Square::G1,
                target: Square::F3,
                move_type: MoveType::Quiet,
            },
            score: 200,
        },
        ScoredMove {
            mv: Move {
                source: Square::E2,
                target: Square::E4,
                move_type: MoveType::Quiet,
            },
            score: 100,
        },
    ];

    MoveOrdering::sort_next_best_move(&mut moves, 1);

    assert_eq!(moves[0].score, 300);
    assert_eq!(moves[1].score, 200);
    assert_eq!(moves[2].score, 100);
}

#[test]
fn should_prioritize_queen_promotions_and_penalize_under_promotions() {
    let board = parse_fen("1r5k/P1Q5/8/8/8/8/8/K7 w - - 0 1");
    let mut move_ordering = MoveOrdering::new();

    let mut quiet_moves = vec![
        ScoredMove {
            mv: Move {
                source: Square::A7,
                target: Square::A8,
                move_type: MoveType::QueenPromotion,
            },
            score: 0,
        },
        ScoredMove {
            mv: Move {
                source: Square::A7,
                target: Square::A8,
                move_type: MoveType::RookPromotion,
            },
            score: 0,
        },
        ScoredMove {
            mv: Move {
                source: Square::C7,
                target: Square::C6,
                move_type: MoveType::Quiet,
            },
            score: 0,
        },
    ];

    let nt = node_threats(&board);
    let see = vec![true; quiet_moves.len()];
    move_ordering.populate_quiet_scores(
        &mut quiet_moves,
        &board,
        0,
        None,
        &nt.threats_us,
        &nt.check_squares,
        &see,
    );

    assert_eq!(quiet_moves[0].score, 25000);
    assert_eq!(quiet_moves[1].score, -20000);
    assert_eq!(quiet_moves[2].score, 0);

    let under_prom = Move {
        source: Square::A7,
        target: Square::A8,
        move_type: MoveType::RookPromotion,
    };
    move_ordering.add_killer_move(under_prom, 0);

    let mut killer_quiet_moves = vec![ScoredMove {
        mv: under_prom,
        score: 0,
    }];
    let see = vec![true; killer_quiet_moves.len()];
    move_ordering.populate_quiet_scores(
        &mut killer_quiet_moves,
        &board,
        0,
        None,
        &nt.threats_us,
        &nt.check_squares,
        &see,
    );
    assert_eq!(killer_quiet_moves[0].score, 22000);

    let mut capture_moves = vec![
        ScoredMove {
            mv: Move {
                source: Square::A7,
                target: Square::B8,
                move_type: MoveType::QueenPromotionCapture,
            },
            score: 0,
        },
        ScoredMove {
            mv: Move {
                source: Square::A7,
                target: Square::B8,
                move_type: MoveType::RookPromotionCapture,
            },
            score: 0,
        },
        ScoredMove {
            mv: Move {
                source: Square::C7,
                target: Square::B8,
                move_type: MoveType::Capture,
            },
            score: 0,
        },
    ];

    populate_capture_scores(&mut capture_moves, &board, &move_ordering);

    assert_eq!(capture_moves[0].score, 95000);
    assert_eq!(capture_moves[1].score, 25000);
    assert_eq!(capture_moves[2].score, 41000);
}

#[test]
fn quiet_history_is_separated_by_side_and_from_to() {
    let mut ordering = MoveOrdering::new();
    let move_obj = Move::new(Square::E2, Square::E4, MoveType::Quiet);

    ordering.update_quiet_history(Side::White, move_obj, 1000);

    assert!(
        ordering.quiet_history[Side::White as usize][Square::E2 as usize][Square::E4 as usize]
            > 0
    );
    assert_eq!(
        ordering.quiet_history[Side::Black as usize][Square::E2 as usize][Square::E4 as usize],
        0
    );
    assert_eq!(
        ordering.quiet_history[Side::White as usize][Square::E2 as usize][Square::E3 as usize],
        0
    );
}

#[test]
fn continuation_history_uses_previous_piece_and_target() {
    let mut ordering = MoveOrdering::new();
    let current = Move::new(Square::E2, Square::E4, MoveType::Quiet);

    ordering.update_continuation_history(Piece::Knight, Square::F3, current, 1000);

    assert!(
        ordering.continuation_history[Piece::Knight as usize][Square::F3 as usize]
            [Square::E4 as usize]
            > 0
    );
    assert_eq!(
        ordering.continuation_history[Piece::Bishop as usize][Square::F3 as usize]
            [Square::E4 as usize],
        0
    );
}

#[test]
fn capture_history_distinguishes_captured_piece_type() {
    let mut ordering = MoveOrdering::new();
    let knight_idx = Piece::Knight as usize;

    ordering.update_capture_history(knight_idx, Square::D5, Piece::Queen, 1000);

    assert!(
        ordering.capture_history[knight_idx][Square::D5 as usize][Piece::Queen as usize] > 0
    );
    assert_eq!(
        ordering.capture_history[knight_idx][Square::D5 as usize][Piece::Pawn as usize],
        0
    );
    assert_eq!(
        ordering.capture_history[knight_idx][Square::E5 as usize][Piece::Queen as usize],
        0
    );
}

#[test]
fn killer_duplicate_is_ignored_and_second_killer_scores() {
    let mut ordering = MoveOrdering::new();
    let first = Move::new(Square::E2, Square::E4, MoveType::Quiet);
    let second = Move::new(Square::D2, Square::D4, MoveType::Quiet);
    ordering.add_killer_move(first, 0);
    ordering.add_killer_move(first, 0);
    assert_eq!(ordering.killer_moves[0][0], first);
    assert_eq!(ordering.killer_moves[1][0], Move::no_move());
    ordering.add_killer_move(second, 0);
    assert_eq!(ordering.killer_moves[0][0], second);
    assert_eq!(ordering.killer_moves[1][0], first);

    let board = parse_fen(STARTING_FEN);
    let mut moves = vec![
        ScoredMove {
            mv: first,
            score: 0,
        },
        ScoredMove {
            mv: second,
            score: 0,
        },
    ];
    let nt = node_threats(&board);
    let see = vec![true; moves.len()];
    ordering.populate_quiet_scores(
        &mut moves,
        &board,
        0,
        None,
        &nt.threats_us,
        &nt.check_squares,
        &see,
    );
    assert_eq!(moves[0].score, 21000);
    assert_eq!(moves[1].score, 22000);
    let _ = MoveOrdering::default();
}

#[test]
fn history_reset_decay_and_empty_probe() {
    let mut ordering = MoveOrdering::new();
    assert!(ordering.is_move_heuristic_empty());
    let mv = Move::new(Square::E2, Square::E4, MoveType::Quiet);
    ordering.update_history(0, mv, 1000);
    ordering.update_quiet_history(Side::White, mv, 1000);
    assert!(!ordering.is_move_heuristic_empty());
    let before = ordering.history_moves[0][Square::E4 as usize];
    ordering.decay_history();
    assert_eq!(ordering.history_moves[0][Square::E4 as usize], before / 2);
    ordering.reset();
    assert!(ordering.is_move_heuristic_empty());
}

#[test]
fn quiet_score_handles_empty_and_continuation() {
    let mut board = parse_fen(STARTING_FEN);
    let ordering = MoveOrdering::new();
    let empty = Move::new(Square::E3, Square::E4, MoveType::Quiet);
    assert_eq!(ordering.get_quiet_history_score(&board, empty, None), 0);
    let prev_empty = Move::new(Square::A3, Square::A4, MoveType::Quiet);
    let mv = Move::new(Square::E2, Square::E4, MoveType::Quiet);
    assert_eq!(
        ordering.get_quiet_history_score(&board, mv, Some(prev_empty)),
        0
    );

    let e4 = Move::new(Square::E2, Square::E4, MoveType::DoublePush);
    board = parse_fen("rnbqkbnr/pppppppp/8/8/4P3/8/PPPP1PPP/RNBQKBNR b KQkq e3 0 1");
    let mut ordering2 = MoveOrdering::new();
    let reply = Move::new(Square::D7, Square::D5, MoveType::DoublePush);
    ordering2.add_counter_move(Side::White, Piece::Pawn, Square::E4, reply);
    let mut scored = vec![ScoredMove {
        mv: reply,
        score: 0,
    }];
    let nt = node_threats(&board);
    let see = vec![true; scored.len()];
    ordering2.populate_quiet_scores(
        &mut scored,
        &board,
        0,
        Some(e4),
        &nt.threats_us,
        &nt.check_squares,
        &see,
    );
    assert_eq!(scored[0].score, 20000);
}

#[test]
fn capture_history_guards_and_en_passant() {
    let mut ordering = MoveOrdering::new();
    ordering.update_capture_history(999, Square::D5, Piece::Queen, 1000);
    ordering.update_capture_history(0, Square::D5, Piece::NoPiece, 1000);
    assert!(ordering.is_move_heuristic_empty());
    ordering.update_continuation_history(
        Piece::NoPiece,
        Square::E5,
        Move::new(Square::E2, Square::E4, MoveType::Quiet),
        1000,
    );
    assert!(ordering.is_move_heuristic_empty());
    ordering.add_counter_move(
        Side::White,
        Piece::Pawn,
        Square::E4,
        Move::new(Square::E2, Square::E4, MoveType::Quiet),
    );
    assert!(!ordering.is_move_heuristic_empty());

    let board =
        parse_fen("rnbqkbnr/ppp1pppp/8/3pP3/8/8/PPPP1PPP/RNBQKBNR w KQkq d6 0 3");
    let mut moves = vec![ScoredMove {
        mv: Move::new(Square::E5, Square::D6, MoveType::EnPassant),
        score: 0,
    }];
    populate_capture_scores(&mut moves, &board, &ordering);
    assert!(moves[0].score > 0);
    let start = parse_fen(STARTING_FEN);
    let mut quiets = vec![ScoredMove {
        mv: Move::new(Square::E2, Square::E3, MoveType::Quiet),
        score: 77,
    }];
    populate_capture_scores(&mut quiets, &start, &ordering);
    assert_eq!(quiets[0].score, 0);
}

#[test]
fn quiet_scores_reward_safe_checks_and_escapes() {
    let board = parse_fen("4k3/8/8/8/8/2n5/8/3QK3 w - - 0 1");
    let nt = node_threats(&board);
    let ordering = MoveOrdering::new();
    let escape = Move::new(Square::D1, Square::H1, MoveType::Quiet);
    let check = Move::new(Square::D1, Square::H5, MoveType::Quiet);
    let mut moves = vec![ScoredMove { mv: escape, score: 0 }, ScoredMove { mv: check, score: 0 }];
    let ups = [nt.threats_us, nt.check_squares];
    ordering.populate_quiet_scores(&mut moves, &board, 0, None, &ups[0], &ups[1], &[true, true]);
    assert_eq!(moves[0].score, 20 * 900);
    assert_eq!(moves[1].score, 20 * 900 + 16384);
    ordering.populate_quiet_scores(&mut moves, &board, 0, None, &ups[0], &ups[1], &[true, false]);
    assert_eq!(moves[1].score, 20 * 900);
}

#[test]
fn checks_may_lose_a_little_in_the_exchange() {
    assert_eq!(CHECK_EXCHANGE_MARGIN, -75);
    let board = parse_fen("4k3/8/8/8/8/2n5/8/3QK3 w - - 0 1");
    let nt = node_threats(&board);
    let ordering = MoveOrdering::new();
    let check = Move::new(Square::D1, Square::H5, MoveType::Quiet);
    for (exchange, bonus) in [(0, 16384), (-75, 16384), (-76, 0)] {
        let mut moves = vec![ScoredMove { mv: check, score: 0 }];
        let see = [exchange >= CHECK_EXCHANGE_MARGIN];
        let (threats, checks) = (nt.threats_us, nt.check_squares);
        ordering.populate_quiet_scores(&mut moves, &board, 0, None, &threats, &checks, &see);
        assert_eq!(moves[0].score, 20 * 900 + bonus);
    }
}

#[test]
fn gravity_keeps_history_in_range() {
    let mut ordering = MoveOrdering::new();
    let mv = Move::new(Square::E2, Square::E4, MoveType::Quiet);
    ordering.update_history(0, mv, 1000);
    assert_eq!(ordering.history_moves[0][Square::E4 as usize], 1000);
    ordering.update_history(0, mv, 1000);
    assert_eq!(ordering.history_moves[0][Square::E4 as usize], 2000 - 1000 * 1000 / 16384);
    for _ in 0..200 {
        ordering.update_history(0, mv, 50_000);
        ordering.update_quiet_history(Side::White, mv, -50_000);
    }
    assert_eq!(ordering.history_moves[0][Square::E4 as usize], MAX_HISTORY);
    assert_eq!(
        ordering.quiet_history[0][Square::E2 as usize][Square::E4 as usize],
        -(MAX_HISTORY as i16)
    );
}

#[test]
fn selection_by_best_first_sorts_descending() {
    let scores = [3, 9, -4, 9, 0, 7];
    let mut moves: Vec<ScoredMove> = scores
        .iter()
        .enumerate()
        .map(|(i, &score)| ScoredMove {
            mv: Move::new(Square::from_index(i), Square::E4, MoveType::Quiet),
            score,
        })
        .collect();
    for i in 0..moves.len() {
        MoveOrdering::sort_next_best_move(&mut moves, i);
    }
    let sorted: Vec<i32> = moves.iter().map(|m| m.score).collect();
    assert_eq!(sorted, vec![9, 9, 7, 3, 0, -4]);
    assert_eq!(moves[0].mv.source, Square::from_index(1));
    MoveOrdering::sort_next_best_move(&mut moves, 100);
    assert_eq!(moves[5].score, -4);
}
