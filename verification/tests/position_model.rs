use whale::board::{BoardState, Move, MoveType, Piece, Side, Square};
use whale::opponent::model::evaluate_opponent;
use whale::opponent::plans::{available_pawn_breaks, defenders_of, knight_routes};
use whale::perception::strategic::{compute_strategic_snapshot, count_passed_pawns};

const STARTING_FEN: &str = "rnbqkbnr/pppppppp/8/8/8/8/PPPPPPPP/RNBQKBNR w KQkq - 0 1";

fn parse_fen(fen: &str) -> BoardState {
    let mut board = BoardState::new();
    let mut fields = fen.split(' ');
    let mut square = 0usize;
    for c in fields.next().unwrap().chars() {
        if c == '/' {
            continue;
        }
        if let Some(skip) = c.to_digit(10) {
            square += skip as usize;
            continue;
        }
        let side = if c.is_ascii_uppercase() { Side::White } else { Side::Black };
        let piece = match c.to_ascii_lowercase() {
            'p' => Piece::Pawn,
            'n' => Piece::Knight,
            'b' => Piece::Bishop,
            'r' => Piece::Rook,
            'q' => Piece::Queen,
            _ => Piece::King,
        };
        board.add_piece(Square::from_index(square), side, piece);
        square += 1;
    }
    if fields.next() == Some("b") {
        board.side_to_move = Side::Black;
    }
    if let Some(clock) = fields.nth(2) {
        board.half_move_clock = clock.parse().unwrap();
    }
    board
}

/// The moves of the side to move while its back rank is still untouched and
/// none of its pawns is blocked, each of them legal.
fn start_moves(board: &BoardState) -> Vec<(Move, bool)> {
    let (pawns, knights, ahead) = match board.side_to_move {
        Side::White => (48..56usize, 56usize, -8i32),
        _ => (8..16usize, 0usize, 8i32),
    };
    let mut moves = Vec::new();
    for from in pawns {
        let one = (from as i32 + ahead) as usize;
        let two = (from as i32 + 2 * ahead) as usize;
        let source = Square::from_index(from);
        moves.push((Move::new(source, Square::from_index(one), MoveType::Quiet), true));
        moves.push((Move::new(source, Square::from_index(two), MoveType::DoublePush), true));
    }
    for from in [knights + 1, knights + 6] {
        for step in [-1i32, 1] {
            let to = (from as i32 + 2 * ahead + step) as usize;
            let mv = Move::new(Square::from_index(from), Square::from_index(to), MoveType::Quiet);
            moves.push((mv, true));
        }
    }
    moves
}

#[test]
fn starting_position_opponent_model_is_sane() {
    let board = parse_fen(STARTING_FEN);
    let moves = start_moves(&board);
    let opp = evaluate_opponent(&board, &moves, 12, 20);

    assert!(opp.freedom > 0);
    assert_eq!(opp.pawn_breaks, 16);
    assert!(opp.defense_capacity > 0);
}

#[test]
fn starting_plan_counts() {
    let board = parse_fen(STARTING_FEN);

    assert_eq!(available_pawn_breaks(&board, &start_moves(&board)), 16);

    assert_eq!(knight_routes(&board, &start_moves(&board)), 4);
}

#[test]
fn defender_counts_sane_at_start() {
    let board = parse_fen(STARTING_FEN);

    assert_eq!(defenders_of(&board, Square::E2, Side::White), 4);

    assert_eq!(defenders_of(&board, Square::E4, Side::White), 0);
}

#[test]
fn breaks_drop_after_pawn_push() {
    let mut board = parse_fen(STARTING_FEN);
    let before = available_pawn_breaks(&board, &start_moves(&board));

    let list = start_moves(&board);
    assert!(list
        .iter()
        .any(|(m, _)| m.source == Square::E2 && m.target == Square::E4));
    board = parse_fen("rnbqkbnr/pppppppp/8/8/4P3/8/PPPP1PPP/RNBQKBNR b KQkq e3 0 1");
    assert!(available_pawn_breaks(&board, &start_moves(&board)) <= before);

    assert_eq!(knight_routes(&board, &start_moves(&board)), 4);
}

#[test]
fn starting_position_strategic_snapshot() {
    let board = parse_fen(STARTING_FEN);
    let snap = compute_strategic_snapshot(&board);

    assert_eq!(snap.white_pawn_islands, 1);
    assert_eq!(snap.black_pawn_islands, 1);
    assert_eq!(snap.white_isolated_pawns, 0);
    assert_eq!(snap.black_isolated_pawns, 0);
    assert_eq!(snap.white_passed_pawns, 0);
    assert_eq!(snap.black_passed_pawns, 0);
    assert_eq!(snap.open_files, 0);
    assert!(snap.white_bishop_pair);
    assert!(snap.black_bishop_pair);
}

#[test]
fn only_legal_moves_count_as_plans() {
    let board = parse_fen(STARTING_FEN);
    let moves: Vec<(Move, bool)> =
        start_moves(&board).into_iter().map(|(mv, _)| (mv, false)).collect();
    assert_eq!(available_pawn_breaks(&board, &moves), 0);
    assert_eq!(knight_routes(&board, &moves), 0);
}

#[test]
fn pawn_structure_is_counted() {
    let board = parse_fen("4k3/2p4p/8/8/3P4/8/P1P5/4K3 w - - 0 1");
    let snap = compute_strategic_snapshot(&board);
    assert_eq!(snap.white_pawn_islands, 2);
    assert_eq!(snap.black_pawn_islands, 2);
    assert_eq!(snap.white_isolated_pawns, 1);
    assert_eq!(snap.black_isolated_pawns, 2);
    assert_eq!(snap.white_passed_pawns, 1);
    assert_eq!(snap.open_files, 4);
    assert_eq!(snap.white_semi_open_files, 1);
    assert_eq!(snap.black_semi_open_files, 2);
    assert!(!snap.white_bishop_pair);
    assert_eq!(board.get_king_square_safe(Side::White), Some(Square::E1));
    assert_eq!(parse_fen("8/8/8/8/8/8/8/8 w - - 0 1").get_king_square_safe(Side::White), None);
}

#[test]
fn passed_pawns_mirror() {
    let board = parse_fen("4k3/2p4p/8/8/3P4/8/P1P5/4K3 w - - 0 1");
    let mirror = parse_fen("4k3/p1p5/8/3p4/8/8/2P4P/4K3 w - - 0 1");
    let (a, b) = (compute_strategic_snapshot(&board), compute_strategic_snapshot(&mirror));
    assert_eq!(a.white_passed_pawns, b.black_passed_pawns);
    assert_eq!(a.black_passed_pawns, b.white_passed_pawns);
    assert_eq!(a.white_passed_pawns, 1);
}

#[test]
fn passed_pawns_have_no_enemy_pawn_in_front() {
    let pawns = |squares: &[usize]| squares.iter().fold(0u64, |set, &s| set | 1 << s);
    let white = pawns(&[8 * 4 + 3, 8 * 6, 8 * 6 + 2]);
    let black = pawns(&[8 + 2, 8 + 7]);
    assert_eq!(count_passed_pawns(white, black, Side::White), 1);
    assert_eq!(count_passed_pawns(black, white, Side::Black), 1);
    for (our, their, side, other) in [
        (white, black, Side::White, Side::Black),
        (black, white, Side::Black, Side::White),
    ] {
        assert_eq!(
            count_passed_pawns(our, their, side),
            count_passed_pawns(our.swap_bytes(), their.swap_bytes(), other)
        );
    }
    assert_eq!(count_passed_pawns(white, pawns(&[8 * 5 + 3, 8 * 6 + 1]), Side::White), 2);
    assert_eq!(count_passed_pawns(white, pawns(&[8 * 5 + 4, 8 * 6 + 1]), Side::White), 3);
    assert_eq!(count_passed_pawns(white, pawns(&[8 + 1]), Side::White), 1);
}
