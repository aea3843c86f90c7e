use whale::cli::{parse_number, read_command, Command};

fn read(words: &[&str]) -> Command {
    let mut args = vec![String::from("whale")];
    args.extend(words.iter().map(|w| String::from(*w)));
    read_command(&args)
}

#[test]
fn numbers_are_read_like_unsigned_integers() {
    assert_eq!(parse_number("0", 255), Some(0));
    assert_eq!(parse_number("255", 255), Some(255));
    assert_eq!(parse_number("+12", 255), Some(12));
    assert_eq!(parse_number("007", 255), Some(7));
    assert_eq!(parse_number("18446744073709551615", u64::MAX), Some(u64::MAX));
    for bad in ["", "+", "256", "-1", "1x", " 1", "18446744073709551616"] {
        assert_eq!(parse_number(bad, 255), None, "{bad}");
    }
    assert_eq!(parse_number("18446744073709551616", u64::MAX), None);
    assert_eq!(parse_number("99999999999999999999999", u64::MAX), None);
}

#[test]
fn bench_numbers_default_and_stay_in_bounds() {
    match read(&["bench"]) {
        Command::Bench(o) => {
            assert_eq!((o.hash_mb, o.threads, o.depth), (16, 1, 12));
            assert_eq!(o.model, None);
        }
        _ => panic!("bench expected"),
    }
    match read(&["--bench", "99999", "0", "200", "whale_small"]) {
        Command::Bench(o) => {
            assert_eq!((o.hash_mb, o.threads, o.depth), (2048, 1, 64));
            assert_eq!(o.model.as_deref(), Some("whale_small"));
        }
        _ => panic!("bench expected"),
    }
    match read(&["bench", "x", "8", "300"]) {
        Command::Bench(o) => assert_eq!((o.hash_mb, o.threads, o.depth), (16, 8, 12)),
        _ => panic!("bench expected"),
    }
}

#[test]
fn datagen_arguments_are_checked_in_order() {
    assert!(matches!(read(&["datagen", "out"]), Command::DatagenUsage { teacher: false }));
    assert!(matches!(
        read(&["datagen-teacher", "out", "5", "book"]),
        Command::DatagenUsage { teacher: true }
    ));
    assert!(matches!(
        read(&["datagen-teacher", "out", "5", "book", "deep", "engine"]),
        Command::DatagenError("Error: invalid depth")
    ));
    assert!(matches!(
        read(&["datagen-teacher", "out", "5", "book", "8", "two", "engine"]),
        Command::DatagenError("Error: invalid thread count")
    ));
    assert!(matches!(
        read(&["datagen", "out", "many", "book", "x"]),
        Command::DatagenError("Error: invalid number of games")
    ));
    assert!(matches!(
        read(&["--datagen", "out", "5", "book", "x", "y"]),
        Command::DatagenError("Error: invalid depth")
    ));
    assert!(matches!(
        read(&["datagen", "out", "5", "book", "9", "y"]),
        Command::DatagenError("Error: invalid thread count")
    ));
    match read(&["datagen", "out", "5", "book"]) {
        Command::Datagen(o) => {
            assert_eq!((o.output.as_str(), o.games, o.book.as_str()), ("out", 5, "book"));
            assert_eq!((o.depth, o.threads, o.teacher), (8, None, None));
        }
        _ => panic!("datagen expected"),
    }
    match read(&["datagen-teacher", "out", "5", "book", "9", "2", "engine"]) {
        Command::Datagen(o) => {
            assert_eq!((o.depth, o.threads), (9, Some(2)));
            assert_eq!(o.teacher.as_deref(), Some("engine"));
        }
        _ => panic!("datagen expected"),
    }
}

#[test]
fn the_teacher_comes_last() {
    let cases: [(&[&str], u8, Option<usize>); 4] = [
        (&["datagen-teacher", "o.binpack", "10", "b.fen", "stockfish"], 8, None),
        (&["datagen-teacher", "o.binpack", "10", "b.fen", "9", "stockfish"], 9, None),
        (&["datagen-teacher", "o.binpack", "10", "b.fen", "9", "2", "stockfish"], 9, Some(2)),
        (&["datagen-teacher", "o.binpack", "10", "b.fen", "9", "2", "stockfish", "x"], 9, Some(2)),
    ];
    for (words, depth, threads) in cases {
        match read(words) {
            Command::Datagen(o) => {
                assert_eq!((o.output.as_str(), o.games, o.book.as_str()), ("o.binpack", 10, "b.fen"));
                assert_eq!((o.depth, o.threads), (depth, threads));
                assert_eq!(o.teacher.as_deref(), Some("stockfish"));
            }
            _ => panic!("datagen expected"),
        }
    }
}

#[test]
fn other_commands_are_told_apart() {
    assert!(matches!(read(&["--generate-magics"]), Command::GenerateMagics));
    assert!(matches!(read(&["--profile"]), Command::Profile));
    assert!(matches!(read(&["--train"]), Command::Train(None)));
    assert!(matches!(read(&["--train-smoke", "data"]), Command::TrainSmoke(Some(_))));
    match read(&["--model"]) {
        Command::Play(model) => assert_eq!(model.as_deref(), Some("whale_big")),
        _ => panic!("play expected"),
    }
    match read(&["--model", "whale_small"]) {
        Command::Play(model) => assert_eq!(model.as_deref(), Some("whale_small")),
        _ => panic!("play expected"),
    }
    assert!(matches!(read(&[]), Command::Play(None)));
    assert!(matches!(read(&["anything"]), Command::Play(None)));
    assert!(matches!(read_command(&Vec::new()), Command::Play(None)));
}
