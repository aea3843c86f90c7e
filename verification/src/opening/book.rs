//! The opening book: positions, and moves recommended in them.

use vstd::prelude::*;

use crate::text::{
    byte_len, byte_len_at_least, find, find_from, from_chars, is_core, is_word, join, joined,
    law_found_first, law_pieces_of_joined, law_stripped_is_the_rest, law_trimmed_is_the_core, law_words_are_words,
    law_words_of_joined, part, pieces, same, split, split_whitespace, stands_at, strip_back, texts,
    to_chars, trim, trim_end_matches, trimmed, uncut, words,
    Separator,
};

verus! {

pub const DEFAULT_BOOK: [&'static str; 12] = [
    "rnbqkbnr/pppppppp/8/8/8/8/PPPPPPPP/RNBQKBNR w KQkq - 0 1",
    "rnbqkbnr/pppppppp/8/8/4P3/8/PPPP1PPP/RNBQKBNR b KQkq e3 0 1",
    "rnbqkbnr/pppp1ppp/8/4p3/4P3/8/PPPP1PPP/RNBQKBNR w KQkq e6 0 2",
    "r1bqkbnr/pppp1ppp/2n5/4p3/2B1P3/5N2/PPPP1PPP/RNBQK2R b KQkq - 3 3",
    "rnbqkbnr/pp1ppppp/8/2p5/4P3/8/PPPP1PPP/RNBQKBNR w KQkq c6 0 2",
    "rnbqkbnr/pppp1ppp/4p3/8/4P3/8/PPPP1PPP/RNBQKBNR w KQkq - 0 2",
    "rnbqkbnr/pp1ppppp/2p5/8/4P3/8/PPPP1PPP/RNBQKBNR w KQkq - 0 2",
    "rnbqkbnr/ppp2ppp/4p3/3p4/2PP4/8/PP2PPPP/RNBQKBNR w KQkq - 0 3",
    "rnbqkb1r/pppppppp/5n2/8/3P4/8/PPP1PPPP/RNBQKBNR w KQkq - 1 2",
    "rnbqkbnr/pppppppp/8/8/3P4/8/PPP1PPPP/RNBQKBNR b KQkq d3 0 1",
    "rnbqkbnr/pp1ppppp/8/8/2pP4/8/PP2PPPP/RNBQKBNR w KQkq c3 0 3",
    "r1bqkbnr/pppp1ppp/2n5/1B2p3/4P3/5N2/PPPP1PPP/RNBQK2R b KQkq - 3 3",
];

/// The texts of the built-in book.
pub open spec fn book_texts() -> Seq<Seq<char>> {
    Seq::new(12, |i: int| DEFAULT_BOOK@[i]@)
}

/// The texts in a list of strings.
pub open spec fn string_texts(v: Seq<String>) -> Seq<Seq<char>> {
    Seq::new(v.len(), |i: int| v[i]@)
}

/// The built-in book.
pub fn default_book() -> (r: Vec<String>)
    ensures
        string_texts(r@) == book_texts(),
        r.len() == 12,
{
    let mut r: Vec<String> = Vec::new();
    let mut i: usize = 0;
    while i < 12
        invariant
            i <= 12,
            r.len() == i,
            forall|k: int| 0 <= k < i ==> (#[trigger] r@[k])@ == DEFAULT_BOOK@[k]@,
        decreases 12 - i,
    {
        let chars: Vec<char> = to_chars(DEFAULT_BOOK[i]);
        r.push(from_chars(&chars));
        i = i + 1;
    }
    assert(string_texts(r@) =~= book_texts());
    r
}

/// Whether a position is in the built-in book, letter for letter.
pub fn is_book_position(fen: &str) -> (r: bool)
    ensures
        r == exists|i: int| 0 <= i < 12 && #[trigger] DEFAULT_BOOK@[i]@ == fen@,
{
    let want: Vec<char> = to_chars(fen);
    let mut i: usize = 0;
    while i < 12
        invariant
            i <= 12,
            want@ == fen@,
            forall|k: int| 0 <= k < i ==> #[trigger] DEFAULT_BOOK@[k]@ != fen@,
        decreases 12 - i,
    {
        let have: Vec<char> = to_chars(DEFAULT_BOOK[i]);
        if same(&have, &want) {
            return true;
        }
        i = i + 1;
    }
    false
}

/// A position, by the parts of its text that identify it, and the moves
/// recommended in it.
#[derive(Debug, Clone, Default)]
pub struct BookEntry {
    pub key: String,
    pub moves: Vec<String>,
}

/// What a book entry says.
#[verifier::ext_equal]
pub struct EntryModel {
    pub key: Seq<char>,
    pub moves: Seq<Seq<char>>,
}

impl BookEntry {
    pub open spec fn model(&self) -> EntryModel {
        EntryModel { key: self.key@, moves: string_texts(self.moves@) }
    }
}

/// The entries in a list.
pub open spec fn entry_models(v: Seq<BookEntry>) -> Seq<EntryModel> {
    Seq::new(v.len(), |i: int| v[i].model())
}

/// The first four fields of a position text: clocks do not matter.
pub open spec fn key_of(fen: Seq<char>) -> Seq<char> {
    let w = words(fen);
    joined(
        w.take(
            if w.len() < 4 {
                w.len() as int
            } else {
                4
            },
        ),
        ' ',
    )
}

fn key_chars(fen: &Vec<char>) -> (r: Vec<char>)
    ensures
        r@ == key_of(fen@),
{
    let w: Vec<Vec<char>> = split_whitespace(fen);
    assert(texts(w@).len() == w.len());
    let n: usize = if w.len() < 4 {
        w.len()
    } else {
        4
    };
    join(&w, n, ' ')
}

/// The part of a position text that identifies the position.
pub fn normalize_key(fen: &str) -> (r: String)
    ensures
        r@ == key_of(fen@),
{
    let key: Vec<char> = key_chars(&to_chars(fen));
    from_chars(&key)
}

/// Normalising a key again changes nothing.
pub proof fn law_key_idempotent(fen: Seq<char>)
    ensures
        key_of(key_of(fen)) == key_of(fen),
{
    let w = words(fen);
    let n = if w.len() < 4 {
        w.len() as int
    } else {
        4
    };
    law_words_are_words(fen);
    assert forall|k: int| 0 <= k < w.take(n).len() implies is_word(#[trigger] w.take(n)[k]) by {
        assert(w.take(n)[k] == w[k]);
    }
    law_words_of_joined(w.take(n));
    assert(w.take(n).take(n) =~= w.take(n));
}

/// Positions that differ in their clocks only have the same key.
pub proof fn law_key_ignores_clocks(a: Seq<char>, b: Seq<char>)
    requires
        words(a).len() >= 4,
        words(b).len() >= 4,
        words(a).take(4) == words(b).take(4),
    ensures
        key_of(a) == key_of(b),
{
}

/// What is left of an item in a list of moves.
pub open spec fn cleaned(item: Seq<char>, strip: bool) -> Seq<char> {
    if strip {
        strip_back(trimmed(item), ';')
    } else {
        trimmed(item)
    }
}

/// The items among the first `n` that are long enough to be moves.
pub open spec fn moves_among(items: Seq<Seq<char>>, strip: bool, n: int) -> Seq<Seq<char>>
    decreases n,
{
    if n <= 0 {
        Seq::empty()
    } else {
        let rest = moves_among(items, strip, n - 1);
        let item = cleaned(items[n - 1], strip);
        if byte_len(item) >= 4 {
            rest.push(item)
        } else {
            rest
        }
    }
}

/// The moves in a text, between commas or spaces.
pub open spec fn moves_in(s: Seq<char>, strip: bool) -> Seq<Seq<char>> {
    let items = pieces(s, Separator::CommaOrSpace);
    moves_among(items, strip, items.len() as int)
}

fn move_list(s: &Vec<char>, strip: bool) -> (r: Vec<String>)
    ensures
        string_texts(r@) == moves_in(s@, strip),
{
    let items: Vec<Vec<char>> = split(s, Separator::CommaOrSpace);
    let ghost all = pieces(s@, Separator::CommaOrSpace);
    let mut r: Vec<String> = Vec::new();
    let mut i: usize = 0;
    assert(texts(items@).len() == items.len());
    assert(string_texts(r@) =~= moves_among(all, strip, 0));
    while i < items.len()
        invariant
            i <= items.len(),
            texts(items@) == all,
            string_texts(r@) == moves_among(all, strip, i as int),
        decreases items.len() - i,
    {
        assert(texts(items@)[i as int] == items@[i as int]@);
        let t: Vec<char> = trim(&items[i]);
        let item: Vec<char> = if strip {
            trim_end_matches(&t, ';')
        } else {
            t
        };
        if byte_len_at_least(&item, 4) {
            let text: String = from_chars(&item);
            assert(string_texts(r@.push(text)) =~= string_texts(r@).push(text@));
            r.push(text);
        }
        i = i + 1;
    }
    r
}

/// The text before the first occurrence of a mark.
pub open spec fn before_mark(s: Seq<char>, mark: Seq<char>) -> Seq<char> {
    match find_from(s, mark, 0) {
        Some(i) => s.take(i),
        None => s,
    }
}

fn cut_at_mark(s: &Vec<char>, mark: &Vec<char>) -> (r: Vec<char>)
    requires
        mark.len() > 0,
    ensures
        r@ == before_mark(s@, mark@),
{
    match find(s, mark, 0) {
        Some(i) => {
            assert(s@.subrange(0, i as int) =~= s@.take(i as int));
            part(s, 0, i)
        },
        None => {
            assert(s@.subrange(0, s.len() as int) =~= s@);
            part(s, 0, s.len())
        },
    }
}

/// An entry, unless its key is empty.
pub open spec fn entry_with(key: Seq<char>, moves: Seq<Seq<char>>) -> Option<EntryModel> {
    if key.len() == 0 {
        None
    } else {
        Some(EntryModel { key, moves })
    }
}

/// What a line of a book says: a position with best moves, a position and its
/// moves with a bar or a tab between them, or a bare position. Blank lines and
/// remarks say nothing.
pub open spec fn line_entry(line: Seq<char>) -> Option<EntryModel> {
    let s = trimmed(line);
    if s.len() == 0 || s[0] == '#' {
        None
    } else {
        match find_from(s, seq![' ', 'b', 'm', ' '], 0) {
            Some(i) => entry_with(
                key_of(s.take(i)),
                moves_in(trimmed(strip_back(trimmed(s.skip(i + 4)), ';')), true),
            ),
            None => match find_from(s, seq!['|'], 0) {
                Some(i) => entry_with(key_of(s.take(i)), moves_in(s.skip(i + 1), false)),
                None => match find_from(s, seq!['\t'], 0) {
                    Some(i) => entry_with(key_of(s.take(i)), moves_in(s.skip(i + 1), false)),
                    None => entry_with(
                        key_of(before_mark(s, seq![' ', 'c', '0', ' '])),
                        Seq::empty(),
                    ),
                },
            },
        }
    }
}

fn make_entry(key: Vec<char>, moves: Vec<String>) -> (r: Option<BookEntry>)
    ensures
        match entry_with(key@, string_texts(moves@)) {
            Some(m) => r matches Some(e) && e.model() == m,
            None => r is None,
        },
{
    if key.len() == 0 {
        None
    } else {
        Some(BookEntry { key: from_chars(&key), moves })
    }
}

fn entry_split_at(s: &Vec<char>, i: usize) -> (r: Option<BookEntry>)
    requires
        i < s.len(),
    ensures
        match entry_with(key_of(s@.take(i as int)), moves_in(s@.skip(i + 1), false)) {
            Some(m) => r matches Some(e) && e.model() == m,
            None => r is None,
        },
{
    let front: Vec<char> = part(s, 0, i);
    let back: Vec<char> = part(s, i + 1, s.len());
    assert(front@ =~= s@.take(i as int));
    assert(back@ =~= s@.skip(i + 1));
    make_entry(key_chars(&front), move_list(&back, false))
}

fn four(a: char, b: char, c: char, d: char) -> (r: Vec<char>)
    ensures
        r@ == seq![a, b, c, d],
{
    let mut r: Vec<char> = Vec::new();
    r.push(a);
    r.push(b);
    r.push(c);
    r.push(d);
    assert(r@ =~= seq![a, b, c, d]);
    r
}

fn one(a: char) -> (r: Vec<char>)
    ensures
        r@ == seq![a],
{
    let mut r: Vec<char> = Vec::new();
    r.push(a);
    assert(r@ =~= seq![a]);
    r
}

fn parse_chars(line: &Vec<char>) -> (r: Option<BookEntry>)
    ensures
        match line_entry(line@) {
            Some(m) => r matches Some(e) && e.model() == m,
            None => r is None,
        },
{
    let s: Vec<char> = trim(line);
    if s.len() == 0 || s[0] == '#' {
        return None;
    }
    if let Some(i) = find(&s, &four(' ', 'b', 'm', ' '), 0) {
        let front: Vec<char> = part(&s, 0, i);
        let back: Vec<char> = part(&s, i + 4, s.len());
        assert(front@ =~= s@.take(i as int));
        assert(back@ =~= s@.skip(i + 4));
        let moves: Vec<char> = trim(&trim_end_matches(&trim(&back), ';'));
        return make_entry(key_chars(&front), move_list(&moves, true));
    }
    if let Some(i) = find(&s, &one('|'), 0) {
        return entry_split_at(&s, i);
    }
    if let Some(i) = find(&s, &one('\t'), 0) {
        return entry_split_at(&s, i);
    }
    let front: Vec<char> = cut_at_mark(&s, &four(' ', 'c', '0', ' '));
    let moves: Vec<String> = Vec::new();
    assert(string_texts(moves@) =~= Seq::<Seq<char>>::empty());
    make_entry(key_chars(&front), moves)
}

/// Reads one line of a book.
pub fn parse_book_line(line: &str) -> (r: Option<BookEntry>)
    ensures
        match line_entry(line@) {
            Some(m) => r matches Some(e) && e.model() == m,
            None => r is None,
        },
{
    parse_chars(&to_chars(line))
}

/// What a line of a plain list of positions holds, if anything.
pub open spec fn line_position(line: Seq<char>) -> Seq<char> {
    let s = trimmed(line);
    if s.len() == 0 || s[0] == '#' {
        Seq::empty()
    } else {
        trimmed(before_mark(s, seq![' ', 'c', '0', ' ']))
    }
}

/// The positions in the first `n` lines.
pub open spec fn positions_in(lines: Seq<Seq<char>>, n: int) -> Seq<Seq<char>>
    decreases n,
{
    if n <= 0 {
        Seq::empty()
    } else {
        let rest = positions_in(lines, n - 1);
        let p = line_position(lines[n - 1]);
        if p.len() > 0 {
            rest.push(p)
        } else {
            rest
        }
    }
}

/// The lines of a file.
pub open spec fn lines_of(content: Seq<char>) -> Seq<Seq<char>> {
    pieces(content, Separator::Newline)
}

/// The positions in the contents of a file.
pub open spec fn file_positions(content: Seq<char>) -> Seq<Seq<char>> {
    positions_in(lines_of(content), lines_of(content).len() as int)
}

fn position_of_line(line: &Vec<char>) -> (r: Vec<char>)
    ensures
        r@ == line_position(line@),
{
    let s: Vec<char> = trim(line);
    if s.len() == 0 || s[0] == '#' {
        let r: Vec<char> = Vec::new();
        assert(r@ =~= Seq::<char>::empty());
        return r;
    }
    trim(&cut_at_mark(&s, &four(' ', 'c', '0', ' ')))
}

/// The positions in a file, or those of the built-in book.
pub open spec fn positions_or_default(content: Option<Seq<char>>) -> Seq<Seq<char>> {
    match content {
        Some(c) => if file_positions(c).len() == 0 {
            book_texts()
        } else {
            file_positions(c)
        },
        None => book_texts(),
    }
}

/// The positions in the contents of a book file; the built-in book where there
/// is no file or no position in it.
pub fn load_book_or_default(content: Option<&str>) -> (r: Vec<String>)
    ensures
        string_texts(r@) == positions_or_default(
            match content {
                Some(c) => Some(c@),
                None => None,
            },
        ),
{
    match content {
        None => default_book(),
        Some(c) => {
            let chars: Vec<char> = to_chars(c);
            let lines: Vec<Vec<char>> = split(&chars, Separator::Newline);
            let ghost all = lines_of(c@);
            let mut fens: Vec<String> = Vec::new();
            let mut i: usize = 0;
            assert(texts(lines@).len() == lines.len());
            assert(string_texts(fens@) =~= positions_in(all, 0));
            while i < lines.len()
                invariant
                    i <= lines.len(),
                    texts(lines@) == all,
                    string_texts(fens@) == positions_in(all, i as int),
                decreases lines.len() - i,
            {
                assert(texts(lines@)[i as int] == lines@[i as int]@);
                let p: Vec<char> = position_of_line(&lines[i]);
                if p.len() > 0 {
                    let text: String = from_chars(&p);
                    assert(string_texts(fens@.push(text)) =~= string_texts(fens@).push(text@));
                    fens.push(text);
                }
                i = i + 1;
            }
            assert(string_texts(fens@).len() == fens.len());
            if fens.len() == 0 {
                default_book()
            } else {
                fens
            }
        },
    }
}

/// The entries in the first `n` lines.
pub open spec fn entries_in(lines: Seq<Seq<char>>, n: int) -> Seq<EntryModel>
    decreases n,
{
    if n <= 0 {
        Seq::empty()
    } else {
        let rest = entries_in(lines, n - 1);
        match line_entry(lines[n - 1]) {
            Some(m) => rest.push(m),
            None => rest,
        }
    }
}

/// The entries in the contents of a file.
pub open spec fn file_entries(content: Seq<char>) -> Seq<EntryModel> {
    entries_in(lines_of(content), lines_of(content).len() as int)
}

/// The built-in book as entries without moves.
pub open spec fn default_entries() -> Seq<EntryModel> {
    Seq::new(
        12,
        |i: int| EntryModel { key: key_of(DEFAULT_BOOK@[i]@), moves: Seq::empty() },
    )
}

fn default_entry_list() -> (r: Vec<BookEntry>)
    ensures
        entry_models(r@) == default_entries(),
{
    let mut r: Vec<BookEntry> = Vec::new();
    let mut i: usize = 0;
    while i < 12
        invariant
            i <= 12,
            r.len() == i,
            forall|k: int|
                0 <= k < i ==> (#[trigger] r@[k]).key@ == key_of(DEFAULT_BOOK@[k]@)
                    && r@[k].moves.len() == 0,
        decreases 12 - i,
    {
        r.push(BookEntry { key: normalize_key(DEFAULT_BOOK[i]), moves: Vec::new() });
        i = i + 1;
    }
    assert forall|k: int| 0 <= k < 12 implies #[trigger] entry_models(r@)[k]
        == default_entries()[k] by {
        assert(r@[k].moves.len() == 0);
        assert(string_texts(r@[k].moves@) =~= Seq::<Seq<char>>::empty());
    }
    assert(entry_models(r@) =~= default_entries());
    r
}

/// The entries in a file, or those of the built-in book.
pub open spec fn entries_or_default(content: Option<Seq<char>>) -> Seq<EntryModel> {
    match content {
        Some(c) => if file_entries(c).len() == 0 {
            default_entries()
        } else {
            file_entries(c)
        },
        None => default_entries(),
    }
}

/// The entries in the contents of a book file; the built-in book where there
/// is no file or no entry in it.
pub fn load_book_entries(content: Option<&str>) -> (r: Vec<BookEntry>)
    ensures
        entry_models(r@) == entries_or_default(
            match content {
                Some(c) => Some(c@),
                None => None,
            },
        ),
{
    match content {
        None => default_entry_list(),
        Some(c) => {
            let chars: Vec<char> = to_chars(c);
            let lines: Vec<Vec<char>> = split(&chars, Separator::Newline);
            let ghost all = lines_of(c@);
            let mut entries: Vec<BookEntry> = Vec::new();
            let mut i: usize = 0;
            assert(texts(lines@).len() == lines.len());
            assert(entry_models(entries@) =~= entries_in(all, 0));
            while i < lines.len()
                invariant
                    i <= lines.len(),
                    texts(lines@) == all,
                    entry_models(entries@) == entries_in(all, i as int),
                decreases lines.len() - i,
            {
                assert(texts(lines@)[i as int] == lines@[i as int]@);
                if let Some(e) = parse_chars(&lines[i]) {
                    assert(entry_models(entries@.push(e)) =~= entry_models(entries@).push(
                        e.model(),
                    ));
                    entries.push(e);
                }
                i = i + 1;
            }
            assert(entry_models(entries@).len() == entries.len());
            if entries.len() == 0 {
                default_entry_list()
            } else {
                entries
            }
        },
    }
}

/// The moves that the first `n` entries recommend under a key, in order.
pub open spec fn pooled(entries: Seq<EntryModel>, key: Seq<char>, n: int) -> Seq<Seq<char>>
    decreases n,
{
    if n <= 0 {
        Seq::empty()
    } else if entries[n - 1].key == key {
        pooled(entries, key, n - 1) + entries[n - 1].moves
    } else {
        pooled(entries, key, n - 1)
    }
}

/// The move that a seed picks: the seeds go round the moves in order.
pub open spec fn picked(pool: Seq<Seq<char>>, seed: int) -> Option<Seq<char>> {
    if pool.len() == 0 {
        None
    } else {
        Some(pool[seed % (pool.len() as int)])
    }
}

/// Picks one of the moves recommended under a key, by a seed.
pub fn probe_book(entries: &[BookEntry], board_key: &str, seed: u64) -> (r: Option<String>)
    ensures
        ({
            let pool = pooled(entry_models(entries@), board_key@, entries.len() as int);
            &&& r is None <==> picked(pool, seed as int) is None
            &&& r matches Some(m) ==> picked(pool, seed as int) == Some(m@)
        }),
{
    let key: Vec<char> = to_chars(board_key);
    let ghost all = entry_models(entries@);
    let mut pool: Vec<Vec<char>> = Vec::new();
    let mut i: usize = 0;
    assert(texts(pool@) =~= pooled(all, board_key@, 0));
    while i < entries.len()
        invariant
            i <= entries.len(),
            key@ == board_key@,
            all == entry_models(entries@),
            texts(pool@) == pooled(all, board_key@, i as int),
        decreases entries.len() - i,
    {
        let e: &BookEntry = &entries[i];
        assert(all[i as int] == e.model());
        let ghost so_far = texts(pool@);
        if same(&to_chars(e.key.as_str()), &key) {
            let mut k: usize = 0;
            assert(so_far + string_texts(e.moves@).take(0) =~= so_far);
            while k < e.moves.len()
                invariant
                    k <= e.moves.len(),
                    texts(pool@) == so_far + string_texts(e.moves@).take(k as int),
                decreases e.moves.len() - k,
            {
                let m: Vec<char> = to_chars(e.moves[k].as_str());
                assert(texts(pool@.push(m)) =~= texts(pool@).push(m@));
                assert(so_far + string_texts(e.moves@).take(k + 1) =~= (so_far + string_texts(
                    e.moves@,
                ).take(k as int)).push(m@));
                pool.push(m);
                k = k + 1;
            }
            assert(string_texts(e.moves@).take(k as int) =~= string_texts(e.moves@));
        }
        i = i + 1;
    }
    assert(texts(pool@).len() == pool.len());
    if pool.len() == 0 {
        return None;
    }
    let at: usize = (seed % pool.len() as u64) as usize;
    assert(texts(pool@)[at as int] == pool@[at as int]@);
    Some(from_chars(&pool[at]))
}

/// Every move picked from a book stands in an entry with the key asked for.
pub proof fn law_pool_from_matching_entries(
    entries: Seq<EntryModel>,
    key: Seq<char>,
    n: int,
    k: int,
)
    requires
        0 <= n <= entries.len(),
        0 <= k < pooled(entries, key, n).len(),
    ensures
        exists|i: int|
            0 <= i < n && (#[trigger] entries[i]).key == key && entries[i].moves.contains(
                pooled(entries, key, n)[k],
            ),
    decreases n,
{
    if n > 0 {
        let rest = pooled(entries, key, n - 1);
        if k < rest.len() {
            law_pool_from_matching_entries(entries, key, n - 1, k);
        } else {
            let e = entries[n - 1];
            assert(e.moves[k - rest.len()] == pooled(entries, key, n)[k]);
        }
    }
}

/// Entries without moves do not change what a key recommends.
pub proof fn law_bare_entries_do_not_matter(
    entries: Seq<EntryModel>,
    key: Seq<char>,
    bare: EntryModel,
)
    requires
        bare.moves.len() == 0,
    ensures
        pooled(entries.push(bare), key, entries.len() as int + 1) == pooled(
            entries,
            key,
            entries.len() as int,
        ),
{
    let more = entries.push(bare);
    lemma_pooled_same(entries, more, key, entries.len() as int);
    let rest = pooled(entries, key, entries.len() as int);
    assert(rest + bare.moves =~= rest);
}

proof fn lemma_pooled_same(a: Seq<EntryModel>, b: Seq<EntryModel>, key: Seq<char>, n: int)
    requires
        0 <= n <= a.len(),
        n <= b.len(),
        forall|i: int| 0 <= i < n ==> a[i] == b[i],
    ensures
        pooled(a, key, n) == pooled(b, key, n),
    decreases n,
{
    if n > 0 {
        lemma_pooled_same(a, b, key, n - 1);
    }
}

/// The moves read from the first items: none from none; and one item more adds
/// itself at the end where it is long enough, and otherwise nothing.
pub proof fn law_every_long_item_is_a_move(items: Seq<Seq<char>>, strip: bool, n: int)
    requires
        0 < n <= items.len(),
    ensures
        moves_among(items, strip, 0).len() == 0,
        byte_len(cleaned(items[n - 1], strip)) >= 4 ==> moves_among(items, strip, n)
            == moves_among(items, strip, n - 1).push(cleaned(items[n - 1], strip)),
        byte_len(cleaned(items[n - 1], strip)) < 4 ==> moves_among(items, strip, n)
            == moves_among(items, strip, n - 1),
{
}

/// The moves in a text are its items between commas and spaces, each cleaned,
/// without those that are too short: nothing else is dropped, and the order is
/// kept.
pub proof fn law_moves_are_the_long_items(s: Seq<char>, strip: bool)
    ensures
        moves_in(s, strip) == pieces(s, Separator::CommaOrSpace).map_values(
            |item: Seq<char>| cleaned(item, strip),
        ).filter(|item: Seq<char>| byte_len(item) >= 4),
{
    let items = pieces(s, Separator::CommaOrSpace);
    lemma_moves_filtered(items, strip, items.len() as int);
    assert(items.take(items.len() as int) =~= items);
}

proof fn lemma_moves_filtered(items: Seq<Seq<char>>, strip: bool, n: int)
    requires
        0 <= n <= items.len(),
    ensures
        moves_among(items, strip, n) == items.take(n).map_values(
            |item: Seq<char>| cleaned(item, strip),
        ).filter(|item: Seq<char>| byte_len(item) >= 4),
    decreases n,
{
    let clean = |item: Seq<char>| cleaned(item, strip);
    let long = |item: Seq<char>| byte_len(item) >= 4;
    reveal(Seq::filter);
    let all = items.take(n).map_values(clean);
    if n > 0 {
        lemma_moves_filtered(items, strip, n - 1);
        assert(all.drop_last() =~= items.take(n - 1).map_values(clean));
        assert(all.last() == cleaned(items[n - 1], strip));
    } else {
        assert(all =~= Seq::<Seq<char>>::empty());
    }
}

/// A cleaned item is what stands between its white space, without the closing
/// semicolons where they are taken off.
pub proof fn law_cleaned_item(item: Seq<char>, from: int, to: int, end: int)
    requires
        is_core(item, from, to),
        from <= end <= to,
        forall|i: int| end <= i < to ==> #[trigger] item[i] == ';',
        end == from || item[end - 1] != ';',
    ensures
        cleaned(item, false) == item.subrange(from, to),
        cleaned(item, true) == item.subrange(from, end),
{
    law_trimmed_is_the_core(item, from, to);
    let core = item.subrange(from, to);
    assert forall|i: int| end - from <= i < core.len() implies #[trigger] core[i] == ';' by {
        assert(core[i] == item[from + i]);
    }
    law_stripped_is_the_rest(core, ';', end - from);
    assert(core.take(end - from) =~= item.subrange(from, end));
}

/// The key of a position text has the first four words of it and no other.
pub proof fn law_key_has_the_first_four_words(fen: Seq<char>)
    ensures
        words(fen).len() >= 4 ==> words(key_of(fen)) == words(fen).take(4),
        words(fen).len() < 4 ==> words(key_of(fen)) == words(fen),
        key_of(fen).len() == 0 <==> words(fen).len() == 0,
{
    let w = words(fen);
    let n = if w.len() < 4 {
        w.len() as int
    } else {
        4
    };
    law_words_are_words(fen);
    assert forall|k: int| 0 <= k < w.take(n).len() implies is_word(#[trigger] w.take(n)[k]) by {
        assert(w.take(n)[k] == w[k]);
    }
    law_words_of_joined(w.take(n));
    assert(w.len() < 4 ==> w.take(n) =~= w);
    if key_of(fen).len() == 0 {
        assert(key_of(fen) =~= Seq::empty());
        assert(words(key_of(fen)).len() == 0);
    }
}

/// Blank lines and remarks say nothing, and neither is a position.
pub proof fn law_remarks_say_nothing(line: Seq<char>)
    requires
        trimmed(line).len() == 0 || trimmed(line)[0] == '#',
    ensures
        line_entry(line) is None,
        line_position(line).len() == 0,
{
}

/// A line with best moves: the position stands before the mark, the moves
/// behind it.
pub proof fn law_best_move_line(line: Seq<char>, mark: Seq<char>, i: int)
    requires
        mark == seq![' ', 'b', 'm', ' '],
        ({
            let s = trimmed(line);
            &&& s.len() > 0
            &&& s[0] != '#'
            &&& stands_at(s, mark, i)
            &&& forall|k: int| 0 <= k < i ==> !#[trigger] stands_at(s, mark, k)
            &&& words(s.take(i)).len() > 0
        }),
    ensures
        line_entry(line) matches Some(e) && e.key == key_of(trimmed(line).take(i)) && e.moves
            == moves_in(
            trimmed(
                strip_back(
                    trimmed(trimmed(line).subrange(i + 4, trimmed(line).len() as int)),
                    ';',
                ),
            ),
            true,
        ),
{
    let s = trimmed(line);
    law_found_first(s, mark, 0);
    assert(find_from(s, mark, 0) == Some(i)) by {
        match find_from(s, mark, 0) {
            Some(k) => {
                assert(stands_at(s, mark, k));
            },
            None => {},
        }
    }
    law_key_has_the_first_four_words(s.take(i));
    assert(s.skip(i + 4) =~= s.subrange(i + 4, s.len() as int));
}

/// A line with a bar, or without one but with a tab: the position stands before
/// it, the moves behind it. A line without any mark is a bare position.
pub proof fn law_marked_line(line: Seq<char>, mark: char, i: int)
    requires
        ({
            let s = trimmed(line);
            &&& s.len() > 0
            &&& s[0] != '#'
            &&& find_from(s, seq![' ', 'b', 'm', ' '], 0) is None
            &&& 0 <= i < s.len()
            &&& s[i] == mark
            &&& forall|k: int| 0 <= k < i ==> #[trigger] s[k] != mark
            &&& mark == '|' || (mark == '\t' && !s.contains('|'))
            &&& words(s.take(i)).len() > 0
        }),
    ensures
        line_entry(line) matches Some(e) && e.key == key_of(trimmed(line).take(i)) && e.moves
            == moves_in(trimmed(line).subrange(i + 1, trimmed(line).len() as int), false),
{
    let s = trimmed(line);
    lemma_char_found(s, mark, i);
    if mark == '\t' {
        lemma_char_missing(s, '|');
    }
    law_key_has_the_first_four_words(s.take(i));
    assert(s.skip(i + 1) =~= s.subrange(i + 1, s.len() as int));
}

/// A line without any mark recommends nothing.
pub proof fn law_bare_line(line: Seq<char>)
    requires
        ({
            let s = trimmed(line);
            &&& s.len() > 0
            &&& s[0] != '#'
            &&& find_from(s, seq![' ', 'b', 'm', ' '], 0) is None
            &&& !s.contains('|')
            &&& !s.contains('\t')
            &&& find_from(s, seq![' ', 'c', '0', ' '], 0) is None
            &&& words(s).len() > 0
        }),
    ensures
        line_entry(line) matches Some(e) && e.key == key_of(trimmed(line)) && e.moves.len() == 0,
        line_position(line) == trimmed(trimmed(line)),
{
    let s = trimmed(line);
    lemma_char_missing(s, '|');
    lemma_char_missing(s, '\t');
    law_key_has_the_first_four_words(s);
}

proof fn lemma_char_found(s: Seq<char>, c: char, i: int)
    requires
        0 <= i < s.len(),
        s[i] == c,
        forall|k: int| 0 <= k < i ==> #[trigger] s[k] != c,
    ensures
        find_from(s, seq![c], 0) == Some(i),
{
    law_found_first(s, seq![c], 0);
    assert(s.subrange(i, i + 1) =~= seq![c]);
    assert(stands_at(s, seq![c], i));
    match find_from(s, seq![c], 0) {
        Some(k) => {
            assert(s.subrange(k, k + 1)[0] == seq![c][0]);
            assert(s[k] == c);
        },
        None => {},
    }
}

proof fn lemma_char_missing(s: Seq<char>, c: char)
    requires
        !s.contains(c),
    ensures
        find_from(s, seq![c], 0) is None,
{
    law_found_first(s, seq![c], 0);
    if let Some(k) = find_from(s, seq![c], 0) {
        assert(s.subrange(k, k + 1)[0] == seq![c][0]);
        assert(s[k] == c);
    }
}

/// Reading a book line by line: a file gives what its lines give, in order, and
/// nothing else.
pub proof fn law_every_line_is_read(lines: Seq<Seq<char>>, n: int)
    requires
        0 < n <= lines.len(),
    ensures
        entries_in(lines, 0).len() == 0,
        positions_in(lines, 0).len() == 0,
        match line_entry(lines[n - 1]) {
            Some(e) => entries_in(lines, n) == entries_in(lines, n - 1).push(e),
            None => entries_in(lines, n) == entries_in(lines, n - 1),
        },
        line_position(lines[n - 1]).len() > 0 ==> positions_in(lines, n) == positions_in(
            lines,
            n - 1,
        ).push(line_position(lines[n - 1])),
        line_position(lines[n - 1]).len() == 0 ==> positions_in(lines, n) == positions_in(
            lines,
            n - 1,
        ),
{
}

/// What a key recommends is what all entries under it say, in order: the
/// recommendations of two books read one after the other are those of the
/// first, then those of the second; one entry gives its moves under its own
/// key, and nothing under another.
pub proof fn law_books_add_up(a: Seq<EntryModel>, b: Seq<EntryModel>, key: Seq<char>)
    ensures
        pooled(a + b, key, (a + b).len() as int) == pooled(a, key, a.len() as int) + pooled(
            b,
            key,
            b.len() as int,
        ),
        a.len() == 1 && a[0].key == key ==> pooled(a, key, 1) == a[0].moves,
        a.len() == 1 && a[0].key != key ==> pooled(a, key, 1).len() == 0,
        a.len() == 0 ==> pooled(a, key, 0).len() == 0,
{
    lemma_books_add_up(a, b, key, b.len() as int);
    if a.len() == 1 {
        assert(pooled(a, key, 0) + a[0].moves =~= a[0].moves);
        assert(pooled(a, key, 0) =~= Seq::<Seq<char>>::empty());
    }
}

proof fn lemma_books_add_up(a: Seq<EntryModel>, b: Seq<EntryModel>, key: Seq<char>, n: int)
    requires
        0 <= n <= b.len(),
    ensures
        pooled(a + b, key, a.len() + n) == pooled(a, key, a.len() as int) + pooled(b, key, n),
    decreases n,
{
    let front = pooled(a, key, a.len() as int);
    if n > 0 {
        lemma_books_add_up(a, b, key, n - 1);
        assert((a + b)[a.len() + n - 1] == b[n - 1]);
        let rest = pooled(b, key, n - 1);
        assert((front + rest) + b[n - 1].moves =~= front + (rest + b[n - 1].moves));
    } else {
        assert forall|i: int| 0 <= i < a.len() implies a[i] == (a + b)[i] by {}
        lemma_pooled_same(a, a + b, key, a.len() as int);
        assert(front + pooled(b, key, 0) =~= front);
    }
}

/// A book file is read line by line: lines with line ends between them give
/// what the lines give.
pub proof fn law_files_are_read_by_lines(lines: Seq<Seq<char>>)
    requires
        lines.len() > 0,
        forall|k: int| 0 <= k < lines.len() ==> uncut(#[trigger] lines[k], Separator::Newline),
    ensures
        file_entries(joined(lines, '\n')) == entries_in(lines, lines.len() as int),
        file_positions(joined(lines, '\n')) == positions_in(lines, lines.len() as int),
{
    law_pieces_of_joined(lines, Separator::Newline, '\n');
}

/// A comment is no part of a position: what stands before its mark is read.
pub proof fn law_comments_are_cut(line: Seq<char>, mark: Seq<char>, i: int)
    requires
        mark == seq![' ', 'c', '0', ' '],
        ({
            let s = trimmed(line);
            &&& s.len() > 0
            &&& s[0] != '#'
            &&& stands_at(s, mark, i)
            &&& forall|k: int| 0 <= k < i ==> !#[trigger] stands_at(s, mark, k)
        }),
    ensures
        line_position(line) == trimmed(trimmed(line).take(i)),
{
    let s = trimmed(line);
    law_found_first(s, mark, 0);
    match find_from(s, mark, 0) {
        Some(k) => {
            assert(stands_at(s, mark, k));
        },
        None => {},
    }
}

/// The entries of the built-in book are its positions, without moves.
pub proof fn law_built_in_entries(i: int)
    requires
        0 <= i < 12,
    ensures
        default_entries().len() == 12,
        default_entries()[i].key == key_of(book_texts()[i]),
        default_entries()[i].moves.len() == 0,
{
}

/// Every recommended move can be picked, nothing else is, and seeds that are
/// the number of moves apart pick the same one. Without moves nothing is picked.
pub proof fn law_every_move_can_be_picked(pool: Seq<Seq<char>>, seed: int, i: int)
    requires
        0 <= seed,
    ensures
        pool.len() == 0 <==> picked(pool, seed) is None,
        picked(pool, seed) matches Some(m) ==> pool.contains(m),
        0 <= i < pool.len() ==> picked(pool, i) == Some(pool[i]),
        pool.len() > 0 ==> picked(pool, seed + pool.len()) == picked(pool, seed),
{
    if pool.len() > 0 {
        let n = pool.len() as int;
        assert(0 <= seed % n < n) by (nonlinear_arith)
            requires
                n > 0,
                seed >= 0,
        ;
        assert(pool[seed % n] == picked(pool, seed)->0);
        assert((seed + n) % n == seed % n) by (nonlinear_arith)
            requires
                n > 0,
        ;
        if 0 <= i < n {
            assert(i % n == i) by (nonlinear_arith)
                requires
                    0 <= i < n,
            ;
        }
    }
}

/// A file that says something is used as it is; without one, or with nothing in
/// it, the built-in book is.
pub proof fn law_built_in_book_is_the_fallback(content: Seq<char>)
    ensures
        file_positions(content).len() > 0 ==> positions_or_default(Some(content))
            == file_positions(content),
        file_positions(content).len() == 0 ==> positions_or_default(Some(content))
            == positions_or_default(None),
        positions_or_default(None) == book_texts(),
        file_entries(content).len() > 0 ==> entries_or_default(Some(content)) == file_entries(
            content,
        ),
        file_entries(content).len() == 0 ==> entries_or_default(Some(content))
            == entries_or_default(None),
        entries_or_default(None) == default_entries(),
{
}

} // verus!
