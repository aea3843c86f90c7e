//! What the command line asks for.

use vstd::prelude::*;

use crate::math::min;
use crate::text::{from_chars, same, to_chars};

verus! {

/// What a benchmark runs with.
pub struct BenchOptions {
    pub hash_mb: usize,
    pub threads: usize,
    pub depth: u8,
    pub model: Option<String>,
}

/// What game generation runs with. Without a number of threads the machine
/// decides.
pub struct DatagenOptions {
    pub output: String,
    pub games: usize,
    pub book: String,
    pub depth: u8,
    pub threads: Option<usize>,
    pub teacher: Option<String>,
}

pub enum Command {
    GenerateMagics,
    Train(Option<String>),
    TrainSmoke(Option<String>),
    Profile,
    Bench(BenchOptions),
    DatagenUsage { teacher: bool },
    DatagenError(&'static str),
    Datagen(DatagenOptions),
    Play(Option<String>),
}

pub open spec fn is_digit(c: char) -> bool {
    '0' <= c <= '9'
}

/// The number that a text of digits stands for.
pub open spec fn decimal(s: Seq<char>) -> int
    decreases s.len(),
{
    if s.len() == 0 {
        0
    } else {
        decimal(s.drop_last()) * 10 + (s.last() as int - '0' as int)
    }
}

/// A text without the plus sign that it may start with.
pub open spec fn unsigned(s: Seq<char>) -> Seq<char> {
    if s.len() > 0 && s[0] == '+' {
        s.skip(1)
    } else {
        s
    }
}

/// The number up to `max` that a text stands for: digits, after a plus sign or
/// not.
pub open spec fn number(s: Seq<char>, max: int) -> Option<int> {
    let d = unsigned(s);
    if d.len() > 0 && (forall|i: int| 0 <= i < d.len() ==> is_digit(d[i])) && decimal(d) <= max {
        Some(decimal(d))
    } else {
        None
    }
}

proof fn lemma_decimal_grows(s: Seq<char>, n: int)
    requires
        0 <= n <= s.len(),
        forall|i: int| 0 <= i < s.len() ==> is_digit(s[i]),
    ensures
        0 <= decimal(s.take(n)) <= decimal(s),
    decreases s.len(),
{
    if s.len() == 0 {
        assert(s.take(n) =~= s);
    } else if n == s.len() {
        lemma_decimal_grows(s.drop_last(), 0);
        assert(s.take(n) =~= s);
    } else {
        lemma_decimal_grows(s.drop_last(), n);
        assert(s.drop_last().take(n) =~= s.take(n));
    }
}

/// Reads a number up to `max`.
pub fn parse_number(text: &str, max: u64) -> (r: Option<u64>)
    ensures
        r is Some <==> number(text@, max as int) is Some,
        r matches Some(n) ==> number(text@, max as int) == Some(n as int),
{
    let t: Vec<char> = to_chars(text);
    let start: usize = if t.len() > 0 && t[0] == '+' { 1 } else { 0 };
    let ghost d = unsigned(text@);
    assert(d =~= t@.skip(start as int));
    if t.len() == start {
        return None;
    }
    let mut value: u64 = 0;
    let mut i: usize = start;
    while i < t.len()
        invariant
            start <= i <= t.len(),
            t@ == text@,
            d == t@.skip(start as int),
            d == unsigned(text@),
            d.len() == t.len() - start,
            d.len() > 0,
            forall|k: int| 0 <= k < i - start ==> is_digit(d[k]),
            value == decimal(d.take(i - start)),
            value <= max,
        decreases t.len() - i,
    {
        let c: char = t[i];
        assert(d[i - start] == c);
        if c < '0' || c > '9' {
            return None;
        }
        let digit: u64 = c as u64 - '0' as u64;
        proof {
            assert(d.take(i + 1 - start).drop_last() =~= d.take(i - start));
            assert(decimal(d.take(i + 1 - start)) == value * 10 + digit);
            if forall|k: int| 0 <= k < d.len() ==> is_digit(d[k]) {
                lemma_decimal_grows(d, i + 1 - start);
            }
        }
        if value > max / 10 || (value == max / 10 && digit > max % 10) {
            return None;
        }
        value = value * 10 + digit;
        i = i + 1;
    }
    assert(d.take(i - start) =~= d);
    Some(value)
}

/// The argument at a place, where there is one.
pub open spec fn argument(args: Seq<String>, i: int) -> Option<Seq<char>> {
    if 0 <= i < args.len() {
        Some(args[i]@)
    } else {
        None
    }
}

/// A copied text shows the same characters.
pub open spec fn shows(s: Option<String>, t: Option<Seq<char>>) -> bool {
    match s {
        Some(x) => t == Some(x@),
        None => t is None,
    }
}

/// A number kept within bounds, from an argument that may be absent or no
/// number.
pub open spec fn bounded(a: Option<Seq<char>>, max: int, default: int, low: int, high: int) -> int {
    let n = match a {
        Some(s) => match number(s, max) {
            Some(v) => v,
            None => default,
        },
        None => default,
    };
    if n < low {
        low
    } else if n > high {
        high
    } else {
        n
    }
}

pub open spec fn bench_read(args: Seq<String>, o: BenchOptions) -> bool {
    &&& o.hash_mb == bounded(argument(args, 2), usize::MAX as int, 16, 1, 2048)
    &&& o.threads == bounded(argument(args, 3), usize::MAX as int, 1, 1, 256)
    &&& o.depth == bounded(argument(args, 4), 255, 12, 1, 64)
    &&& shows(o.model, argument(args, 5))
}

/// How many arguments come before the engine of a teacher, or how many there
/// are in all without one: the engine is the last argument, and at most seven
/// come before it.
pub open spec fn leading(args: Seq<String>, uses_teacher: bool) -> int {
    if uses_teacher {
        min(args.len() - 1, 7)
    } else {
        args.len() as int
    }
}

/// What game generation is asked for: how to call it, which argument is no
/// number, or all that it needs. The depth and the number of threads may be
/// left out, the depth only together with the threads.
pub open spec fn datagen_read(args: Seq<String>, uses_teacher: bool, c: Command) -> bool {
    let n = leading(args, uses_teacher);
    if n < 5 {
        c == (Command::DatagenUsage { teacher: uses_teacher })
    } else if number(args[3]@, usize::MAX as int) is None {
        c == Command::DatagenError("Error: invalid number of games")
    } else if n > 5 && number(args[5]@, 255) is None {
        c == Command::DatagenError("Error: invalid depth")
    } else if n > 6 && number(args[6]@, usize::MAX as int) is None {
        c == Command::DatagenError("Error: invalid thread count")
    } else {
        &&& c matches Command::Datagen(o)
        &&& o.output@ == args[2]@
        &&& number(args[3]@, usize::MAX as int) == Some(o.games as int)
        &&& o.book@ == args[4]@
        &&& if n > 5 {
            number(args[5]@, 255) == Some(o.depth as int)
        } else {
            o.depth == 8
        }
        &&& match o.threads {
            Some(t) => n > 6 && number(args[6]@, usize::MAX as int) == Some(t as int),
            None => n <= 6,
        }
        &&& shows(
            o.teacher,
            if uses_teacher {
                argument(args, n)
            } else {
                None
            },
        )
    }
}

/// The command that the arguments ask for; the first is the program's name.
pub open spec fn command_read(args: Seq<String>, c: Command) -> bool {
    let name = argument(args, 1);
    if name == Some("--generate-magics"@) {
        c is GenerateMagics
    } else if name == Some("--train"@) {
        c matches Command::Train(p) && shows(p, argument(args, 2))
    } else if name == Some("--train-smoke"@) {
        c matches Command::TrainSmoke(p) && shows(p, argument(args, 2))
    } else if name == Some("--profile"@) {
        c is Profile
    } else if name == Some("bench"@) || name == Some("--bench"@) {
        c matches Command::Bench(o) && bench_read(args, o)
    } else if name == Some("datagen"@) || name == Some("--datagen"@) {
        datagen_read(args, false, c)
    } else if name == Some("datagen-teacher"@) {
        datagen_read(args, true, c)
    } else if name == Some("--model"@) {
        &&& c matches Command::Play(Some(m))
        &&& m@ == match argument(args, 2) {
            Some(s) => s,
            None => "whale_big"@,
        }
    } else {
        c matches Command::Play(None)
    }
}

fn copied(args: &Vec<String>, i: usize) -> (r: Option<String>)
    ensures
        shows(r, argument(args@, i as int)),
{
    if i < args.len() {
        Some(from_chars(&to_chars(args[i].as_str())))
    } else {
        None
    }
}

fn is_word(args: &Vec<String>, word: &str) -> (r: bool)
    ensures
        r == (argument(args@, 1) == Some(word@)),
{
    args.len() > 1 && same(&to_chars(args[1].as_str()), &to_chars(word))
}

fn within(args: &Vec<String>, i: usize, max: u64, default: u64, low: u64, high: u64) -> (r: u64)
    requires
        low <= high,
    ensures
        r == bounded(argument(args@, i as int), max as int, default as int, low as int, high as int),
{
    let mut n: u64 = default;
    if i < args.len() {
        if let Some(v) = parse_number(args[i].as_str(), max) {
            n = v;
        }
    }
    if n < low {
        low
    } else if n > high {
        high
    } else {
        n
    }
}

fn read_bench(args: &Vec<String>) -> (r: BenchOptions)
    ensures
        bench_read(args@, r),
{
    BenchOptions {
        hash_mb: within(args, 2, usize::MAX as u64, 16, 1, 2048) as usize,
        threads: within(args, 3, usize::MAX as u64, 1, 1, 256) as usize,
        depth: within(args, 4, 255, 12, 1, 64) as u8,
        model: copied(args, 5),
    }
}

fn read_datagen(args: &Vec<String>, uses_teacher: bool) -> (r: Command)
    ensures
        datagen_read(args@, uses_teacher, r),
{
    if args.len() < (if uses_teacher { 6usize } else { 5usize }) {
        return Command::DatagenUsage { teacher: uses_teacher };
    }
    let n: usize = if !uses_teacher {
        args.len()
    } else if args.len() < 8 {
        args.len() - 1
    } else {
        7
    };
    let games: usize = match parse_number(args[3].as_str(), usize::MAX as u64) {
        Some(n) => n as usize,
        None => {
            return Command::DatagenError("Error: invalid number of games");
        },
    };
    let mut depth: u8 = 8;
    if n > 5 {
        match parse_number(args[5].as_str(), 255) {
            Some(n) => {
                depth = n as u8;
            },
            None => {
                return Command::DatagenError("Error: invalid depth");
            },
        }
    }
    let mut threads: Option<usize> = None;
    if n > 6 {
        match parse_number(args[6].as_str(), usize::MAX as u64) {
            Some(n) => {
                threads = Some(n as usize);
            },
            None => {
                return Command::DatagenError("Error: invalid thread count");
            },
        }
    }
    Command::Datagen(
        DatagenOptions {
            output: from_chars(&to_chars(args[2].as_str())),
            games,
            book: from_chars(&to_chars(args[4].as_str())),
            depth,
            threads,
            teacher: if uses_teacher {
                copied(args, n)
            } else {
                None
            },
        },
    )
}

/// Reads the command line.
pub fn read_command(args: &Vec<String>) -> (r: Command)
    ensures
        command_read(args@, r),
{
    if is_word(args, "--generate-magics") {
        Command::GenerateMagics
    } else if is_word(args, "--train") {
        Command::Train(copied(args, 2))
    } else if is_word(args, "--train-smoke") {
        Command::TrainSmoke(copied(args, 2))
    } else if is_word(args, "--profile") {
        Command::Profile
    } else if is_word(args, "bench") || is_word(args, "--bench") {
        Command::Bench(read_bench(args))
    } else if is_word(args, "datagen") || is_word(args, "--datagen") {
        read_datagen(args, false)
    } else if is_word(args, "datagen-teacher") {
        read_datagen(args, true)
    } else if is_word(args, "--model") {
        match copied(args, 2) {
            Some(m) => Command::Play(Some(m)),
            None => Command::Play(Some(from_chars(&to_chars("whale_big")))),
        }
    } else {
        Command::Play(None)
    }
}

/// A number written in decimal is read back, with or without a plus sign, up to
/// the largest one allowed.
pub proof fn law_numbers_are_read_back(n: int, max: int)
    requires
        0 <= n,
    ensures
        n <= max ==> number(crate::text::decimal(n), max) == Some(n),
        n <= max ==> number(seq!['+'] + crate::text::decimal(n), max) == Some(n),
        n > max ==> number(crate::text::decimal(n), max) is None,
{
    let d = crate::text::decimal(n);
    lemma_decimal_digits(n);
    assert(unsigned(d) == d) by {
        assert(is_digit(d[0]));
    }
    assert((seq!['+'] + d).skip(1) =~= d);
    assert((seq!['+'] + d)[0] == '+');
}

proof fn lemma_decimal_digits(n: int)
    requires
        0 <= n,
    ensures
        crate::text::decimal(n).len() > 0,
        forall|i: int|
            0 <= i < crate::text::decimal(n).len() ==> is_digit(
                #[trigger] crate::text::decimal(n)[i],
            ),
        decimal(crate::text::decimal(n)) == n,
    decreases n,
{
    let d = crate::text::decimal(n);
    if n < 10 {
        assert(d.drop_last() =~= Seq::<char>::empty());
        assert(decimal(d.drop_last()) == 0);
        assert(d.last() == crate::text::digit(n));
    } else {
        lemma_decimal_digits(n / 10);
        let front = crate::text::decimal(n / 10);
        assert(d.drop_last() =~= front);
        assert(d.last() == crate::text::digit(n % 10));
        assert forall|i: int| 0 <= i < d.len() implies is_digit(#[trigger] d[i]) by {
            if i < front.len() {
                assert(d[i] == front[i]);
            }
        }
    }
}

/// Anything with a character that is no digit behind the sign is no number, and
/// neither is nothing.
pub proof fn law_only_digits_are_numbers(s: Seq<char>, max: int, i: int)
    requires
        s.len() == 0 || (0 <= i < s.len() && !is_digit(s[i]) && !(i == 0 && s[i] == '+')),
    ensures
        number(s, max) is None,
{
    if s.len() > 0 {
        let d = unsigned(s);
        if s[0] == '+' {
            assert(d[i - 1] == s[i]);
        } else {
            assert(d[i] == s[i]);
        }
    }
}

/// An option is the number given, within its bounds; where none is given or it
/// is none, the default, within the same bounds.
pub proof fn law_options_in_bounds(a: Option<Seq<char>>, max: int, default: int, low: int, high: int)
    requires
        low <= default <= high,
    ensures
        low <= bounded(a, max, default, low, high) <= high,
        a is None ==> bounded(a, max, default, low, high) == default,
        a matches Some(s) ==> (number(s, max) is None ==> bounded(a, max, default, low, high)
            == default),
        a matches Some(s) ==> (number(s, max) matches Some(v) ==> (low <= v <= high ==> bounded(
            a,
            max,
            default,
            low,
            high,
        ) == v) && (v > high ==> bounded(a, max, default, low, high) == high) && (v < low
            ==> bounded(a, max, default, low, high) == low)),
{
}

/// A benchmark takes its options from the arguments behind its name: memory
/// from 1 to 2048 with 16 as the default, threads from 1 to 256 with 1, and
/// depth from 1 to 64 with 12.
#[verifier::rlimit(60)]
pub proof fn law_benchmark_options(args: Seq<String>, o: BenchOptions, n: int)
    requires
        bench_read(args, o),
    ensures
        args.len() <= 2 ==> o.hash_mb == 16,
        args.len() <= 3 ==> o.threads == 1,
        args.len() <= 4 ==> o.depth == 12,
        args.len() <= 5 ==> o.model is None,
        args.len() > 2 && number(args[2]@, usize::MAX as int) == Some(n) && 1 <= n <= 2048
            ==> o.hash_mb == n,
        args.len() > 3 && number(args[3]@, usize::MAX as int) == Some(n) && 1 <= n <= 256
            ==> o.threads == n,
        args.len() > 4 && number(args[4]@, 255) == Some(n) && 1 <= n <= 64 ==> o.depth == n,
        args.len() > 5 ==> (o.model matches Some(m) && m@ == args[5]@),
        1 <= o.hash_mb <= 2048 && 1 <= o.threads <= 256 && 1 <= o.depth <= 64,
{
}

/// Data generation takes the output, the number of games and the book, and may
/// take a depth and a number of threads; with a teacher, its name is the last
/// argument.
#[verifier::rlimit(60)]
pub proof fn law_datagen_options(args: Seq<String>, o: DatagenOptions, teacher: bool)
    requires
        datagen_read(args, teacher, Command::Datagen(o)),
        args.len() >= 2,
    ensures
        args.len() >= 5,
        o.output@ == args[2]@,
        number(args[3]@, usize::MAX as int) == Some(o.games as int),
        o.book@ == args[4]@,
        !teacher && args.len() == 5 ==> o.depth == 8 && o.threads is None,
        !teacher && args.len() > 5 ==> number(args[5]@, 255) == Some(o.depth as int),
        !teacher && args.len() > 6 ==> (o.threads matches Some(t) && number(
            args[6]@,
            usize::MAX as int,
        ) == Some(t as int)),
        !teacher ==> o.teacher is None,
        teacher && args.len() <= 8 ==> (o.teacher matches Some(t) && t@ == args[args.len() - 1]@),
{
}

/// Too few arguments ask for help, and what is no number is an error.
#[verifier::rlimit(60)]
pub proof fn law_datagen_errors(args: Seq<String>, c: Command)
    requires
        datagen_read(args, false, c),
    ensures
        args.len() < 5 ==> c is DatagenUsage,
        args.len() >= 5 && number(args[3]@, usize::MAX as int) is None ==> c is DatagenError,
        args.len() > 5 && number(args[5]@, 255) is None ==> c is DatagenError,
        args.len() > 6 && number(args[6]@, usize::MAX as int) is None ==> c is DatagenError,
{
}

/// A command without a name plays.
pub proof fn law_playing_is_the_default(args: Seq<String>, c: Command)
    requires
        command_read(args, c),
        args.len() <= 1,
    ensures
        c == Command::Play(None),
{
}

} // verus!
