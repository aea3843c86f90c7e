use whale::board::{BoardState, Piece, Side, Square};
use whale::opening::book::{
    is_book_position, load_book_entries, load_book_or_default, normalize_key, parse_book_line,
    probe_book, DEFAULT_BOOK,
};

fn parse_fen(fen: &str) -> BoardState {
    let mut board = BoardState::new();
    let mut fields = fen.split(' ');
    let mut square = 0usize;
    for c in fields.next().unwrap().chars() {
        if c == '/' {
            continue;
        }
        if let Some(skip) = c.to_digit(10) {
            square += skip as usize;
            continue;
        }
        let side = if c.is_ascii_uppercase() { Side::White } else { Side::Black };
        let piece = match c.to_ascii_lowercase() {
            'p' => Piece::Pawn,
            'n' => Piece::Knight,
            'b' => Piece::Bishop,
            'r' => Piece::Rook,
            'q' => Piece::Queen,
            _ => Piece::King,
        };
        board.add_piece(Square::from_index(square), side, piece);
        square += 1;
    }
    if fields.next() == Some("b") {
        board.side_to_move = Side::Black;
    }
    if let Some(clock) = fields.nth(2) {
        board.half_move_clock = clock.parse().unwrap();
    }
    board
}

fn placement_of(board: &BoardState) -> String {
    let mut text = String::new();
    for rank in 0..8 {
        if rank > 0 {
            text.push('/');
        }
        let mut empty = 0;
        for file in 0..8 {
            let piece = board.get_piece_on(Square::from_index(rank * 8 + file));
            if piece < 0 {
                empty += 1;
                continue;
            }
            if empty > 0 {
                text.push_str(&empty.to_string());
                empty = 0;
            }
            text.push("PNBRQKpnbrqk".chars().nth(piece as usize).unwrap());
        }
        if empty > 0 {
            text.push_str(&empty.to_string());
        }
    }
    text
}

#[test]
fn default_book_lines_parse() {
    assert!(DEFAULT_BOOK.len() >= 8);
    for fen in DEFAULT_BOOK {
        let board = parse_fen(fen);
        let placement = placement_of(&board);
        let want = fen.split(' ').next().unwrap();
        assert_eq!(placement, want, "placement mismatch for {fen}");
    }
}

#[test]
fn missing_file_falls_back_to_default() {
    let book = load_book_or_default(None);
    assert_eq!(book.len(), DEFAULT_BOOK.len());
}

#[test]
fn book_membership_check() {
    assert!(is_book_position(DEFAULT_BOOK[0]));
    assert!(!is_book_position("8/8/8/8/8/5K2/5Q2/6k1 w - - 0 1"));
}

#[test]
fn normalize_ignores_clocks() {
    assert_eq!(
        normalize_key("rnbqkbnr/pppppppp/8/8/4P3/8/PPPP1PPP/RNBQKBNR b KQkq e3 0 1"),
        "rnbqkbnr/pppppppp/8/8/4P3/8/PPPP1PPP/RNBQKBNR b KQkq e3"
    );
}

#[test]
fn parse_epd_bm_line() {
    let e =
        parse_book_line("rnbqkbnr/pppppppp/8/8/8/8/PPPPPPPP/RNBQKBNR w KQkq - 0 1 bm e2e4;")
            .unwrap();
    assert_eq!(e.moves, vec!["e2e4"]);
}

#[test]
fn parse_pipe_line_with_several_moves() {
    let e = parse_book_line(
        "rnbqkbnr/pppppppp/8/8/4P3/8/PPPP1PPP/RNBQKBNR b KQkq e3 0 1 | e7e5,c7c5 e7e6",
    )
    .unwrap();
    assert_eq!(e.moves.len(), 3);
}

#[test]
fn probe_picks_deterministically_and_ignores_bare_fens() {
    let entries = vec![
        parse_book_line("8/8/8/8/8/5K2/5Q2/6k1 w - - 0 1").unwrap(),
        parse_book_line("8/8/8/8/8/5K2/5Q2/6k1 w - - 0 1 bm f3f7;").unwrap(),
    ];
    let key = normalize_key("8/8/8/8/8/5K2/5Q2/6k1 w - - 99 99");
    assert_eq!(probe_book(&entries, &key, 0), Some("f3f7".to_string()));
    assert_eq!(probe_book(&entries, "nope", 0), None);
}

#[test]
fn keys_of_keys_are_keys() {
    let fen = "rnbqkbnr/pppppppp/8/8/4P3/8/PPPP1PPP/RNBQKBNR b  KQkq e3 0 1";
    let key = normalize_key(fen);
    assert_eq!(normalize_key(&key), key);
    assert_eq!(key, "rnbqkbnr/pppppppp/8/8/4P3/8/PPPP1PPP/RNBQKBNR b KQkq e3");
    assert_eq!(normalize_key(""), "");
}

#[test]
fn book_files_skip_comments_and_keep_entries() {
    let content = "# a comment\n\n8/8/8/8/8/5K2/5Q2/6k1 w - - 0 1 bm f3f7;\r\n                   8/8/8/8/8/5K2/5Q2/6k1 w - - 0 1 | f2f7,f2g2\n";
    let entries = load_book_entries(Some(content));
    assert_eq!(entries.len(), 2);
    assert_eq!(entries[1].moves, vec!["f2f7", "f2g2"]);
    let key = normalize_key("8/8/8/8/8/5K2/5Q2/6k1 w - - 0 1");
    let mut seen = Vec::new();
    for seed in 0..64 {
        let found = probe_book(&entries, &key, seed).unwrap();
        assert_eq!(probe_book(&entries, &key, seed), Some(found.clone()));
        if !seen.contains(&found) {
            seen.push(found);
        }
    }
    for mv in &seen {
        assert!(["f3f7", "f2f7", "f2g2"].contains(&mv.as_str()));
    }
    assert!(parse_book_line("").is_none());
    assert!(parse_book_line("# only a comment").is_none());
    assert!(load_book_entries(None).iter().all(|e| e.moves.is_empty()));
}
