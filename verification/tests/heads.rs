use whale::board::{BoardState, NodeThreats, Piece, Side, Square};
use whale::eval::heads::{compute_heads, BehaviorHeads};

const STARTING_FEN: &str = "rnbqkbnr/pppppppp/8/8/8/8/PPPPPPPP/RNBQKBNR w KQkq - 0 1";

fn parse_fen(fen: &str) -> BoardState {
    let mut board = BoardState::new();
    let mut fields = fen.split(' ');
    let mut square = 0usize;
    for c in fields.next().unwrap().chars() {
        if c == '/' {
            continue;
        }
        if let Some(skip) = c.to_digit(10) {
            square += skip as usize;
            continue;
        }
        let side = if c.is_ascii_uppercase() { Side::White } else { Side::Black };
        let piece = match c.to_ascii_lowercase() {
            'p' => Piece::Pawn,
            'n' => Piece::Knight,
            'b' => Piece::Bishop,
            'r' => Piece::Rook,
            'q' => Piece::Queen,
            _ => Piece::King,
        };
        board.add_piece(Square::from_index(square), side, piece);
        square += 1;
    }
    if fields.next() == Some("b") {
        board.side_to_move = Side::Black;
    }
    if let Some(clock) = fields.nth(2) {
        board.half_move_clock = clock.parse().unwrap();
    }
    board
}

fn ray(board: &BoardState, sq: usize, file: i32, rank: i32) -> u64 {
    let occupied = board.occupancies[0] | board.occupancies[1];
    let mut found = 0u64;
    let (mut f, mut r) = ((sq % 8) as i32 + file, (sq / 8) as i32 + rank);
    while (0..8).contains(&f) && (0..8).contains(&r) {
        let bit = 1u64 << (r * 8 + f);
        found |= bit;
        if occupied & bit != 0 {
            break;
        }
        f += file;
        r += rank;
    }
    found
}

fn leaps(sq: usize, steps: &[(i32, i32)]) -> u64 {
    let mut found = 0u64;
    for &(file, rank) in steps {
        let (f, r) = ((sq % 8) as i32 + file, (sq / 8) as i32 + rank);
        if (0..8).contains(&f) && (0..8).contains(&r) {
            found |= 1u64 << (r * 8 + f);
        }
    }
    found
}

fn attacks(board: &BoardState, piece: Piece, side: Side, sq: usize) -> u64 {
    let diagonal = || {
        ray(board, sq, 1, 1) | ray(board, sq, 1, -1) | ray(board, sq, -1, 1) | ray(board, sq, -1, -1)
    };
    let straight = || {
        ray(board, sq, 1, 0) | ray(board, sq, -1, 0) | ray(board, sq, 0, 1) | ray(board, sq, 0, -1)
    };
    match piece {
        Piece::Pawn if side == Side::White => leaps(sq, &[(-1, -1), (1, -1)]),
        Piece::Pawn => leaps(sq, &[(-1, 1), (1, 1)]),
        Piece::Knight => leaps(
            sq,
            &[(1, 2), (2, 1), (-1, 2), (-2, 1), (1, -2), (2, -1), (-1, -2), (-2, -1)],
        ),
        Piece::Bishop => diagonal(),
        Piece::Rook => straight(),
        Piece::Queen => diagonal() | straight(),
        _ => leaps(
            sq,
            &[(1, 0), (1, 1), (0, 1), (-1, 1), (-1, 0), (-1, -1), (0, -1), (1, -1)],
        ),
    }
}

fn attacked_by(board: &BoardState, side: Side, piece: usize) -> u64 {
    let mut found = 0u64;
    for sq in 0..64 {
        if board.get_pieces(side, Piece::from_index(piece)) >> sq & 1 == 1 {
            found |= attacks(board, Piece::from_index(piece), side, sq);
        }
    }
    found
}

fn lesser_attacks(board: &BoardState, side: Side) -> [u64; 6] {
    let mut found = [0u64; 6];
    for piece in 1..5 {
        found[piece] = found[piece - 1] | attacked_by(board, side, piece - 1);
    }
    found[2] = found[1];
    found
}

fn node_threats(board: &BoardState) -> NodeThreats {
    let us = board.side_to_move;
    let them = us.other();
    let own_king = board.get_pieces(us, Piece::King).trailing_zeros() as usize;
    let their_king = board.get_pieces(them, Piece::King).trailing_zeros() as usize;
    let mut checkers = 0u64;
    let mut check_squares = [0u64; 6];
    for piece in 0..5 {
        let kind = Piece::from_index(piece);
        checkers |= attacks(board, kind, us, own_king) & board.get_pieces(them, kind);
        check_squares[piece] = attacks(board, kind, them, their_king);
    }
    NodeThreats {
        checkers,
        pinned: 0,
        check_squares,
        threats_us: lesser_attacks(board, them),
        threats_them: lesser_attacks(board, us),
    }
}

fn heads(
    board: &BoardState,
    score: i16,
    own_cpi: i32,
    opp_cpi: i32,
    own_freedom: u32,
    opp_freedom: u32,
    momentum: i16,
) -> BehaviorHeads {
    let nt = node_threats(board);
    compute_heads(board, &nt, score, own_cpi, opp_cpi, own_freedom, opp_freedom, momentum)
}

fn startpos_heads() -> BehaviorHeads {
    let board = parse_fen(STARTING_FEN);
    heads(&board, 10, 12, 12, 20, 20, 0)
}

#[test]
fn startpos_heads_in_range() {
    let h = startpos_heads();
    assert_eq!(h.value_cp, 10);
    assert!(h.tactical_danger < 30);
    assert!(h.king_safety > 50);
    assert_eq!(h.initiative, 0);
    assert_eq!(h.pressure_hint, 0);
}

#[test]
fn check_position_raises_danger() {
    let calm = startpos_heads();
    let board = parse_fen("4k3/8/8/8/8/8/4Q3/4K3 b - - 0 1");
    let hot = heads(&board, 300, 10, 90, 20, 6, 40);
    assert!(hot.tactical_danger > calm.tactical_danger);
    assert!(hot.king_safety < calm.king_safety);
    assert!(hot.initiative > 0);
    assert!(hot.counterplay > calm.counterplay);
    assert!(hot.volatility > calm.volatility);
}

#[test]
fn constrained_side_lowers_mobility_signal() {
    let board = parse_fen(STARTING_FEN);
    let free = heads(&board, 0, 10, 10, 20, 20, 0);
    let squeezed = heads(&board, 0, 10, 10, 6, 20, 0);
    assert!(squeezed.mobility < free.mobility);
    assert!(squeezed.pressure_hint < free.pressure_hint);
}
