//! Text as sequences of characters: trimming, splitting, searching.

use vstd::prelude::*;

verus! {

/// `String::push` appends one character to the end of the string.
pub assume_specification[ String::push ](s: &mut String, c: char)
    ensures
        final(s)@ == old(s)@.push(c),
;

/// The characters of a text.
pub fn to_chars(s: &str) -> (v: Vec<char>)
    ensures
        v@ == s@,
{
    let mut v: Vec<char> = Vec::new();
    for c in it: s.chars()
        invariant
            it.seq() == s@,
            v@ == it.seq().take(it.index() as int),
    {
        v.push(c);
    }
    assert(v@ =~= s@);
    v
}

/// The text made of some characters.
pub fn from_chars(v: &Vec<char>) -> (s: String)
    ensures
        s@ == v@,
{
    let mut s: String = String::new();
    let mut i: usize = 0;
    while i < v.len()
        invariant
            i <= v.len(),
            s@ == v@.take(i as int),
        decreases v.len() - i,
    {
        s.push(v[i]);
        i = i + 1;
        assert(s@ =~= v@.take(i as int));
    }
    assert(v@.take(v.len() as int) =~= v@);
    s
}

/// A copy of part of a text.
pub fn part(v: &Vec<char>, from: usize, to: usize) -> (r: Vec<char>)
    requires
        from <= to <= v.len(),
    ensures
        r@ == v@.subrange(from as int, to as int),
{
    let mut r: Vec<char> = Vec::new();
    let mut i: usize = from;
    while i < to
        invariant
            from <= i <= to <= v.len(),
            r@ == v@.subrange(from as int, i as int),
        decreases to - i,
    {
        r.push(v[i]);
        i = i + 1;
        assert(r@ =~= v@.subrange(from as int, i as int));
    }
    r
}

/// Characters with the Unicode property `White_Space`.
pub open spec fn is_space(c: char) -> bool {
    let u = c as u32;
    ||| 0x09 <= u <= 0x0D
    ||| u == 0x20
    ||| u == 0x85
    ||| u == 0xA0
    ||| u == 0x1680
    ||| 0x2000 <= u <= 0x200A
    ||| u == 0x2028
    ||| u == 0x2029
    ||| u == 0x202F
    ||| u == 0x205F
    ||| u == 0x3000
}

pub fn is_whitespace(c: char) -> (r: bool)
    ensures
        r == is_space(c),
{
    let u: u32 = c as u32;
    (0x09 <= u && u <= 0x0D) || u == 0x20 || u == 0x85 || u == 0xA0 || u == 0x1680 || (0x2000 <= u
        && u <= 0x200A) || u == 0x2028 || u == 0x2029 || u == 0x202F || u == 0x205F || u == 0x3000
}

/// Without leading white space.
pub open spec fn trim_front(s: Seq<char>) -> Seq<char>
    decreases s.len(),
{
    if s.len() > 0 && is_space(s[0]) {
        trim_front(s.skip(1))
    } else {
        s
    }
}

/// Without trailing white space.
pub open spec fn trim_back(s: Seq<char>) -> Seq<char>
    decreases s.len(),
{
    if s.len() > 0 && is_space(s.last()) {
        trim_back(s.drop_last())
    } else {
        s
    }
}

/// Without white space at either end.
pub open spec fn trimmed(s: Seq<char>) -> Seq<char> {
    trim_back(trim_front(s))
}

pub fn trim(v: &Vec<char>) -> (r: Vec<char>)
    ensures
        r@ == trimmed(v@),
{
    let mut from: usize = 0;
    assert(v@.skip(0) =~= v@);
    while from < v.len() && is_whitespace(v[from])
        invariant
            from <= v.len(),
            trim_front(v@) == trim_front(v@.skip(from as int)),
        decreases v.len() - from,
    {
        assert(v@.skip(from as int).skip(1) =~= v@.skip(from + 1));
        from = from + 1;
    }
    let ghost front = trim_front(v@);
    assert(front == v@.skip(from as int));
    let mut to: usize = v.len();
    assert(v@.subrange(from as int, to as int) =~= front);
    while to > from && is_whitespace(v[to - 1])
        invariant
            from <= to <= v.len(),
            trim_back(front) == trim_back(v@.subrange(from as int, to as int)),
        decreases to,
    {
        assert(v@.subrange(from as int, to as int).drop_last() =~= v@.subrange(
            from as int,
            to - 1,
        ));
        to = to - 1;
    }
    part(v, from, to)
}

/// Without a given character at the end.
pub open spec fn strip_back(s: Seq<char>, c: char) -> Seq<char>
    decreases s.len(),
{
    if s.len() > 0 && s.last() == c {
        strip_back(s.drop_last(), c)
    } else {
        s
    }
}

pub fn trim_end_matches(v: &Vec<char>, c: char) -> (r: Vec<char>)
    ensures
        r@ == strip_back(v@, c),
{
    let mut to: usize = v.len();
    assert(v@.take(to as int) =~= v@);
    while to > 0 && v[to - 1] == c
        invariant
            to <= v.len(),
            strip_back(v@, c) == strip_back(v@.take(to as int), c),
        decreases to,
    {
        assert(v@.take(to as int).drop_last() =~= v@.take(to - 1));
        to = to - 1;
    }
    assert(v@.subrange(0, to as int) =~= v@.take(to as int));
    part(v, 0, to)
}

/// Without a given character at the start.
pub open spec fn strip_front(s: Seq<char>, c: char) -> Seq<char>
    decreases s.len(),
{
    if s.len() > 0 && s[0] == c {
        strip_front(s.skip(1), c)
    } else {
        s
    }
}

pub fn trim_start_matches(v: &Vec<char>, c: char) -> (r: Vec<char>)
    ensures
        r@ == strip_front(v@, c),
{
    let mut from: usize = 0;
    assert(v@.skip(0) =~= v@);
    while from < v.len() && v[from] == c
        invariant
            from <= v.len(),
            strip_front(v@, c) == strip_front(v@.skip(from as int), c),
        decreases v.len() - from,
    {
        assert(v@.skip(from as int).skip(1) =~= v@.skip(from + 1));
        from = from + 1;
    }
    assert(v@.subrange(from as int, v.len() as int) =~= v@.skip(from as int));
    part(v, from, v.len())
}

/// Whether `pat` stands in `s` at `i`.
pub open spec fn stands_at(s: Seq<char>, pat: Seq<char>, i: int) -> bool {
    0 <= i && i + pat.len() <= s.len() && s.subrange(i, i + pat.len()) == pat
}

/// The first place from `i` on where `pat` stands in `s`.
pub open spec fn find_from(s: Seq<char>, pat: Seq<char>, i: int) -> Option<int>
    decreases s.len() + 1 - i,
{
    if i + pat.len() > s.len() {
        None
    } else if stands_at(s, pat, i) {
        Some(i)
    } else {
        find_from(s, pat, i + 1)
    }
}

fn matches_at(v: &Vec<char>, pat: &Vec<char>, i: usize) -> (r: bool)
    requires
        i + pat.len() <= v.len(),
    ensures
        r == stands_at(v@, pat@, i as int),
{
    let mut k: usize = 0;
    while k < pat.len()
        invariant
            k <= pat.len(),
            i + pat.len() <= v.len(),
            forall|j: int| 0 <= j < k ==> v@[i + j] == pat@[j],
        decreases pat.len() - k,
    {
        if v[i + k] != pat[k] {
            proof {
                assert(v@.subrange(i as int, i + pat.len())[k as int] != pat@[k as int]);
            }
            return false;
        }
        k = k + 1;
    }
    assert(v@.subrange(i as int, i + pat.len()) =~= pat@);
    true
}

/// The first place from `from` on where `pat` stands in `v`.
pub fn find(v: &Vec<char>, pat: &Vec<char>, from: usize) -> (r: Option<usize>)
    requires
        from <= v.len(),
        pat.len() > 0,
    ensures
        match find_from(v@, pat@, from as int) {
            Some(i) => r matches Some(k) && k == i && k + pat.len() <= v.len() && from <= k,
            None => r is None,
        },
{
    let mut i: usize = from;
    while pat.len() <= v.len() && i <= v.len() - pat.len()
        invariant
            from <= i <= v.len(),
            pat.len() > 0,
            find_from(v@, pat@, from as int) == find_from(v@, pat@, i as int),
        decreases v.len() + 1 - i,
    {
        if matches_at(v, pat, i) {
            return Some(i);
        }
        i = i + 1;
    }
    None
}

/// Whether two texts agree character by character.
pub fn same(a: &Vec<char>, b: &Vec<char>) -> (r: bool)
    ensures
        r == (a@ == b@),
{
    if a.len() != b.len() {
        return false;
    }
    let mut i: usize = 0;
    while i < a.len()
        invariant
            i <= a.len(),
            a.len() == b.len(),
            forall|k: int| 0 <= k < i ==> a@[k] == b@[k],
        decreases a.len() - i,
    {
        if a[i] != b[i] {
            return false;
        }
        i = i + 1;
    }
    assert(a@ =~= b@);
    true
}

/// Code point of a character with ASCII capitals made small.
pub open spec fn small_code(c: char) -> int {
    if 65 <= c as u32 <= 90 {
        c as u32 + 32
    } else {
        c as u32 as int
    }
}

/// Whether two texts agree up to the case of ASCII letters.
pub open spec fn same_ignoring_case(a: Seq<char>, b: Seq<char>) -> bool {
    a.len() == b.len() && forall|i: int|
        0 <= i < a.len() ==> #[trigger] small_code(a[i]) == small_code(b[i])
}

fn small_code_of(c: char) -> (r: u32)
    ensures
        r == small_code(c),
{
    let u: u32 = c as u32;
    if 65 <= u && u <= 90 {
        u + 32
    } else {
        u
    }
}

pub fn eq_ignore_ascii_case(a: &str, b: &str) -> (r: bool)
    ensures
        r == same_ignoring_case(a@, b@),
{
    let x: Vec<char> = to_chars(a);
    let y: Vec<char> = to_chars(b);
    if x.len() != y.len() {
        return false;
    }
    let mut i: usize = 0;
    while i < x.len()
        invariant
            i <= x.len(),
            x.len() == y.len(),
            x@ == a@,
            y@ == b@,
            forall|k: int| 0 <= k < i ==> #[trigger] small_code(x@[k]) == small_code(y@[k]),
        decreases x.len() - i,
    {
        if small_code_of(x[i]) != small_code_of(y[i]) {
            return false;
        }
        i = i + 1;
    }
    true
}

/// Bytes that a character takes in UTF-8.
pub open spec fn char_bytes(c: char) -> int {
    if c as u32 <= 0x7F {
        1
    } else if c as u32 <= 0x7FF {
        2
    } else if c as u32 <= 0xFFFF {
        3
    } else {
        4
    }
}

/// Bytes that a text takes in UTF-8.
pub open spec fn byte_len(s: Seq<char>) -> int
    decreases s.len(),
{
    if s.len() == 0 {
        0
    } else {
        byte_len(s.drop_last()) + char_bytes(s.last())
    }
}

proof fn lemma_byte_len_grows(s: Seq<char>, n: int)
    requires
        0 <= n <= s.len(),
    ensures
        byte_len(s.take(n)) <= byte_len(s),
        0 <= byte_len(s),
    decreases s.len() - n, s.len(),
{
    if n < s.len() {
        lemma_byte_len_grows(s.drop_last(), n);
        assert(s.drop_last().take(n) =~= s.take(n));
    } else {
        assert(s.take(n) =~= s);
        if s.len() > 0 {
            lemma_byte_len_grows(s.drop_last(), s.len() - 1);
        }
    }
}

/// Whether a text takes at least `n` bytes, for a small `n`.
pub fn byte_len_at_least(v: &Vec<char>, n: u32) -> (r: bool)
    requires
        n <= 1_000_000,
    ensures
        r == (byte_len(v@) >= n),
{
    let mut total: u32 = 0;
    let mut i: usize = 0;
    while i < v.len()
        invariant
            i <= v.len(),
            n <= 1_000_000,
            total < n || i == 0,
            total == byte_len(v@.take(i as int)),
            total <= 1_000_000,
        decreases v.len() - i,
    {
        if total >= n {
            proof {
                lemma_byte_len_grows(v@, i as int);
            }
            return true;
        }
        let u: u32 = v[i] as u32;
        let w: u32 = if u <= 0x7F {
            1
        } else if u <= 0x7FF {
            2
        } else if u <= 0xFFFF {
            3
        } else {
            4
        };
        assert(v@.take(i + 1).drop_last() =~= v@.take(i as int));
        total = total + w;
        i = i + 1;
        if total >= n {
            proof {
                lemma_byte_len_grows(v@, i as int);
            }
            return true;
        }
    }
    assert(v@.take(i as int) =~= v@);
    total >= n
}

/// Characters that separate the pieces of a text.
#[derive(Clone, Copy, Debug, PartialEq, Eq, Structural)]
pub enum Separator {
    Comma,
    CommaOrSpace,
    Slash,
    Newline,
}

impl Separator {
    pub open spec fn cuts(self, c: char) -> bool {
        match self {
            Separator::Comma => c == ',',
            Separator::CommaOrSpace => c == ',' || c == ' ',
            Separator::Slash => c == '/',
            Separator::Newline => c == '\n',
        }
    }

    fn is_cut(self, c: char) -> (r: bool)
        ensures
            r == self.cuts(c),
    {
        match self {
            Separator::Comma => c == ',',
            Separator::CommaOrSpace => c == ',' || c == ' ',
            Separator::Slash => c == '/',
            Separator::Newline => c == '\n',
        }
    }
}

/// The pieces between separators, in order; there is always at least one.
pub open spec fn pieces(s: Seq<char>, sep: Separator) -> Seq<Seq<char>>
    decreases s.len(),
{
    if s.len() == 0 {
        seq![Seq::empty()]
    } else {
        let before = pieces(s.drop_last(), sep);
        if sep.cuts(s.last()) {
            before.push(Seq::empty())
        } else {
            before.drop_last().push(before.last().push(s.last()))
        }
    }
}

/// The texts in a list.
pub open spec fn texts(v: Seq<Vec<char>>) -> Seq<Seq<char>> {
    Seq::new(v.len(), |i: int| v[i]@)
}

pub proof fn lemma_pieces_nonempty(s: Seq<char>, sep: Separator)
    ensures
        pieces(s, sep).len() > 0,
    decreases s.len(),
{
    if s.len() > 0 {
        lemma_pieces_nonempty(s.drop_last(), sep);
    }
}

pub fn split(v: &Vec<char>, sep: Separator) -> (r: Vec<Vec<char>>)
    ensures
        texts(r@) == pieces(v@, sep),
        r.len() > 0,
{
    let mut done: Vec<Vec<char>> = Vec::new();
    let mut last: Vec<char> = Vec::new();
    let mut i: usize = 0;
    assert(texts(done@).push(last@) =~= pieces(v@.take(0), sep));
    while i < v.len()
        invariant
            i <= v.len(),
            texts(done@).push(last@) == pieces(v@.take(i as int), sep),
        decreases v.len() - i,
    {
        let c: char = v[i];
        let ghost so_far = texts(done@);
        let ghost tail = last@;
        assert(v@.take(i + 1).drop_last() =~= v@.take(i as int));
        if sep.is_cut(c) {
            assert(texts(done@.push(last)) =~= so_far.push(last@));
            done.push(last);
            last = Vec::new();
        } else {
            last.push(c);
            assert(so_far.push(tail).drop_last() =~= so_far);
        }
        i = i + 1;
    }
    assert(v@.take(i as int) =~= v@);
    assert(texts(done@.push(last)) =~= texts(done@).push(last@));
    done.push(last);
    done
}

/// The maximal runs without white space, in order; `word` is the unfinished
/// one.
pub open spec fn words_from(s: Seq<char>, word: Seq<char>, i: int) -> Seq<Seq<char>>
    decreases s.len() - i,
{
    if i >= s.len() {
        if word.len() > 0 {
            seq![word]
        } else {
            Seq::empty()
        }
    } else if is_space(s[i]) {
        if word.len() > 0 {
            seq![word] + words_from(s, Seq::empty(), i + 1)
        } else {
            words_from(s, Seq::empty(), i + 1)
        }
    } else {
        words_from(s, word.push(s[i]), i + 1)
    }
}

/// The words of a text.
pub open spec fn words(s: Seq<char>) -> Seq<Seq<char>> {
    words_from(s, Seq::empty(), 0)
}

pub fn split_whitespace(v: &Vec<char>) -> (r: Vec<Vec<char>>)
    ensures
        texts(r@) == words(v@),
{
    let mut done: Vec<Vec<char>> = Vec::new();
    let mut word: Vec<char> = Vec::new();
    let mut i: usize = 0;
    assert(texts(done@) + words_from(v@, word@, 0) =~= words(v@)) by {
        assert(word@ =~= Seq::<char>::empty());
    }
    while i < v.len()
        invariant
            i <= v.len(),
            texts(done@) + words_from(v@, word@, i as int) == words(v@),
        decreases v.len() - i,
    {
        let c: char = v[i];
        if is_whitespace(c) {
            if word.len() > 0 {
                let ghost so_far = texts(done@);
                let ghost w = word@;
                assert(texts(done@.push(word)) =~= so_far.push(w));
                done.push(word);
                word = Vec::new();
                assert(word@ =~= Seq::<char>::empty());
                assert(so_far + (seq![w] + words_from(v@, Seq::empty(), i + 1)) =~= so_far.push(w)
                    + words_from(v@, Seq::empty(), i + 1));
            } else {
                assert(word@ =~= Seq::<char>::empty());
            }
        } else {
            word.push(c);
        }
        i = i + 1;
    }
    if word.len() > 0 {
        assert(texts(done@.push(word)) =~= texts(done@) + seq![word@]);
        done.push(word);
    } else {
        assert(texts(done@) + Seq::<Seq<char>>::empty() =~= texts(done@));
    }
    done
}

/// Texts joined with a character between them.
pub open spec fn joined(list: Seq<Seq<char>>, sep: char) -> Seq<char>
    decreases list.len(),
{
    if list.len() == 0 {
        Seq::empty()
    } else if list.len() == 1 {
        list[0]
    } else {
        joined(list.drop_last(), sep).push(sep) + list.last()
    }
}

/// The first `n` texts of a list joined with a character between them.
pub fn join(list: &Vec<Vec<char>>, n: usize, sep: char) -> (r: Vec<char>)
    requires
        n <= list.len(),
    ensures
        r@ == joined(texts(list@).take(n as int), sep),
{
    let mut r: Vec<char> = Vec::new();
    let mut i: usize = 0;
    while i < n
        invariant
            i <= n <= list.len(),
            r@ == joined(texts(list@).take(i as int), sep),
        decreases n - i,
    {
        let ghost all = texts(list@);
        if i > 0 {
            r.push(sep);
        }
        push_all(&mut r, &list[i]);
        assert(all.take(i + 1).drop_last() =~= all.take(i as int));
        assert(r@ =~= joined(all.take(i + 1), sep));
        i = i + 1;
    }
    r
}

/// Whether a text is a word: not empty and without white space.
pub open spec fn is_word(w: Seq<char>) -> bool {
    w.len() > 0 && forall|i: int| 0 <= i < w.len() ==> !is_space(#[trigger] w[i])
}

proof fn lemma_words_are_words(s: Seq<char>, word: Seq<char>, i: int)
    requires
        0 <= i <= s.len(),
        word.len() == 0 || is_word(word),
    ensures
        forall|k: int|
            0 <= k < words_from(s, word, i).len() ==> is_word(#[trigger] words_from(s, word, i)[k]),
    decreases s.len() - i,
{
    let all = words_from(s, word, i);
    if i < s.len() {
        if is_space(s[i]) {
            lemma_words_are_words(s, Seq::empty(), i + 1);
            let rest = words_from(s, Seq::empty(), i + 1);
            assert forall|k: int| 0 <= k < all.len() implies is_word(#[trigger] all[k]) by {
                if word.len() > 0 && k > 0 {
                    assert(all[k] == rest[k - 1]);
                } else if word.len() == 0 {
                    assert(all[k] == rest[k]);
                }
            }
        } else {
            assert(is_word(word.push(s[i]))) by {
                let w = word.push(s[i]);
                assert forall|k: int| 0 <= k < w.len() implies !is_space(#[trigger] w[k]) by {
                    if k < word.len() {
                        assert(w[k] == word[k]);
                    }
                }
            }
            lemma_words_are_words(s, word.push(s[i]), i + 1);
            assert(all == words_from(s, word.push(s[i]), i + 1));
        }
    } else if word.len() > 0 {
        assert(all[0] == word);
    }
}

/// Every word of a text is one.
pub proof fn law_words_are_words(s: Seq<char>)
    ensures
        forall|k: int| 0 <= k < words(s).len() ==> is_word(#[trigger] words(s)[k]),
{
    lemma_words_are_words(s, Seq::empty(), 0);
}

proof fn lemma_last_word(s: Seq<char>, start: int, w: Seq<char>, j: int)
    requires
        is_word(w),
        0 <= start,
        s.len() == start + w.len(),
        s.skip(start) == w,
        0 <= j <= w.len(),
    ensures
        words_from(s, w.take(j), start + j) == seq![w],
    decreases w.len() - j,
{
    if j < w.len() {
        assert(s[start + j] == s.skip(start)[j]);
        assert(!is_space(w[j]));
        lemma_last_word(s, start, w, j + 1);
        assert(w.take(j).push(w[j]) =~= w.take(j + 1));
    } else {
        assert(w.take(j) =~= w);
    }
}

proof fn lemma_words_then_word(x: Seq<char>, w: Seq<char>, word: Seq<char>, i: int)
    requires
        is_word(w),
        0 <= i <= x.len(),
    ensures
        words_from(x.push(' ') + w, word, i) == words_from(x, word, i) + seq![w],
    decreases x.len() - i,
{
    let t = x.push(' ') + w;
    if i < x.len() {
        assert(t[i] == x[i]);
        if is_space(x[i]) {
            lemma_words_then_word(x, w, Seq::empty(), i + 1);
            let rest = words_from(x, Seq::empty(), i + 1);
            if word.len() > 0 {
                assert(seq![word] + (rest + seq![w]) =~= (seq![word] + rest) + seq![w]);
            }
        } else {
            lemma_words_then_word(x, w, word.push(x[i]), i + 1);
        }
    } else {
        assert(t[i] == ' ');
        assert(t.skip(i + 1) =~= w);
        lemma_last_word(t, i + 1, w, 0);
        assert(w.take(0) =~= Seq::<char>::empty());
        if word.len() == 0 {
            assert(words_from(x, word, i) + seq![w] =~= seq![w]);
        }
    }
}

/// Words joined by spaces are found again.
pub proof fn law_words_of_joined(list: Seq<Seq<char>>)
    requires
        forall|k: int| 0 <= k < list.len() ==> is_word(#[trigger] list[k]),
    ensures
        words(joined(list, ' ')) == list,
    decreases list.len(),
{
    if list.len() == 0 {
        assert(words(joined(list, ' ')) =~= list);
    } else if list.len() == 1 {
        let w = list[0];
        assert(w.skip(0) =~= w);
        lemma_last_word(w, 0, w, 0);
        assert(w.take(0) =~= Seq::<char>::empty());
        assert(seq![w] =~= list);
    } else {
        law_words_of_joined(list.drop_last());
        lemma_words_then_word(
            joined(list.drop_last(), ' '),
            list.last(),
            Seq::empty(),
            0,
        );
        assert(list.drop_last() + seq![list.last()] =~= list);
    }
}

/// Appends a text.
pub fn push_all(out: &mut Vec<char>, more: &Vec<char>)
    ensures
        final(out)@ == old(out)@ + more@,
{
    let mut i: usize = 0;
    let ghost start = out@;
    assert(start + more@.take(0) =~= start);
    while i < more.len()
        invariant
            i <= more.len(),
            out@ == start + more@.take(i as int),
        decreases more.len() - i,
    {
        out.push(more[i]);
        i = i + 1;
        assert(out@ =~= start + more@.take(i as int));
    }
    assert(more@.take(more.len() as int) =~= more@);
}

/// Appends a text.
pub fn push_str(out: &mut Vec<char>, more: &str)
    ensures
        final(out)@ == old(out)@ + more@,
{
    let chars: Vec<char> = to_chars(more);
    push_all(out, &chars);
}

/// Whether a separator does not occur in a text.
pub open spec fn uncut(s: Seq<char>, sep: Separator) -> bool {
    forall|i: int| 0 <= i < s.len() ==> !sep.cuts(#[trigger] s[i])
}

/// More text without separators belongs to the last piece.
proof fn lemma_pieces_append(x: Seq<char>, w: Seq<char>, sep: Separator)
    requires
        uncut(w, sep),
    ensures
        pieces(x + w, sep) == pieces(x, sep).drop_last().push(pieces(x, sep).last() + w),
        pieces(x, sep).len() > 0,
    decreases w.len(),
{
    lemma_pieces_nonempty(x, sep);
    let p = pieces(x, sep);
    if w.len() == 0 {
        assert(x + w =~= x);
        assert(p.last() + w =~= p.last());
        assert(p.drop_last().push(p.last()) =~= p);
    } else {
        assert(uncut(w.drop_last(), sep));
        lemma_pieces_append(x, w.drop_last(), sep);
        assert((x + w).drop_last() =~= x + w.drop_last());
        assert(!sep.cuts(w[w.len() - 1]));
        let before = p.drop_last().push(p.last() + w.drop_last());
        assert(before.drop_last() =~= p.drop_last());
        assert((p.last() + w.drop_last()).push(w.last()) =~= p.last() + w);
    }
}

/// Pieces joined by a separator are found again.
pub proof fn law_pieces_of_joined(list: Seq<Seq<char>>, sep: Separator, c: char)
    requires
        list.len() > 0,
        sep.cuts(c),
        forall|k: int| 0 <= k < list.len() ==> uncut(#[trigger] list[k], sep),
    ensures
        pieces(joined(list, c), sep) == list,
    decreases list.len(),
{
    let w = list.last();
    assert(uncut(list[list.len() - 1], sep));
    if list.len() == 1 {
        let none = Seq::<char>::empty();
        lemma_pieces_append(none, w, sep);
        assert(none + w =~= w);
        assert(pieces(none, sep) =~= seq![none]);
        assert(pieces(none, sep).drop_last().push(w) =~= list);
    } else {
        let rest = list.drop_last();
        assert forall|k: int| 0 <= k < rest.len() implies uncut(#[trigger] rest[k], sep) by {
            assert(uncut(list[k], sep));
        }
        law_pieces_of_joined(rest, sep, c);
        let x = joined(rest, c).push(c);
        assert(x.drop_last() =~= joined(rest, c));
        assert(pieces(x, sep) == rest.push(Seq::empty()));
        lemma_pieces_append(x, w, sep);
        assert(rest.push(Seq::empty()).drop_last() =~= rest);
        assert(Seq::<char>::empty() + w =~= w);
        assert(rest.push(w) =~= list);
    }
}

/// The pieces of a text joined again give the text.
pub proof fn law_joined_pieces(s: Seq<char>, sep: Separator, c: char)
    requires
        forall|x: char| #[trigger] sep.cuts(x) <==> x == c,
    ensures
        joined(pieces(s, sep), c) == s,
    decreases s.len(),
{
    if s.len() == 0 {
        assert(joined(pieces(s, sep), c) =~= s);
    } else {
        law_joined_pieces(s.drop_last(), sep, c);
        lemma_pieces_nonempty(s.drop_last(), sep);
        let before = pieces(s.drop_last(), sep);
        let x = s.last();
        if sep.cuts(x) {
            assert(before.push(Seq::empty()).drop_last() =~= before);
            assert(joined(before, c).push(c) + Seq::<char>::empty() =~= s);
        } else {
            let all = before.drop_last().push(before.last().push(x));
            assert(all.drop_last() =~= before.drop_last());
            if before.len() == 1 {
                assert(before.last().push(x) =~= s);
            } else {
                assert(joined(before.drop_last(), c).push(c) + before.last().push(x) =~= (joined(
                    before.drop_last(),
                    c,
                ).push(c) + before.last()).push(x));
                assert(s.drop_last().push(x) =~= s);
            }
        }
    }
}

/// No piece holds a separator, and what holds of every character of a text
/// holds of every character of its pieces.
pub proof fn law_pieces_uncut(s: Seq<char>, sep: Separator)
    ensures
        forall|k: int| 0 <= k < pieces(s, sep).len() ==> uncut(#[trigger] pieces(s, sep)[k], sep),
        forall|k: int, i: int|
            #![trigger pieces(s, sep)[k][i]]
            0 <= k < pieces(s, sep).len() && 0 <= i < pieces(s, sep)[k].len() ==> s.contains(
                pieces(s, sep)[k][i],
            ),
    decreases s.len(),
{
    if s.len() > 0 {
        let t = s.drop_last();
        law_pieces_uncut(t, sep);
        lemma_pieces_nonempty(t, sep);
        let before = pieces(t, sep);
        let all = pieces(s, sep);
        assert forall|k: int| 0 <= k < all.len() implies uncut(#[trigger] all[k], sep) by {
            if k < before.len() {
                assert(uncut(before[k], sep));
            }
        }
        assert forall|k: int, i: int|
            #![trigger all[k][i]]
            0 <= k < all.len() && 0 <= i < all[k].len() implies s.contains(all[k][i]) by {
            if k < before.len() && i < before[k].len() {
                assert(all[k][i] == before[k][i]);
                assert(t.contains(before[k][i]));
                let j = choose|j: int| 0 <= j < t.len() && t[j] == before[k][i];
                assert(s[j] == all[k][i]);
            } else {
                assert(all[k][i] == s[s.len() - 1]);
            }
        }
    }
}

/// The decimal digit with a value below ten.
pub open spec fn digit(d: int) -> char {
    if d == 0 {
        '0'
    } else if d == 1 {
        '1'
    } else if d == 2 {
        '2'
    } else if d == 3 {
        '3'
    } else if d == 4 {
        '4'
    } else if d == 5 {
        '5'
    } else if d == 6 {
        '6'
    } else if d == 7 {
        '7'
    } else if d == 8 {
        '8'
    } else {
        '9'
    }
}

/// Decimal form of a number.
pub open spec fn decimal(n: int) -> Seq<char>
    decreases n,
{
    if n < 10 {
        seq![digit(n)]
    } else {
        decimal(n / 10).push(digit(n % 10))
    }
}

fn digit_of(d: u64) -> (r: char)
    requires
        d < 10,
    ensures
        r == digit(d as int),
{
    match d {
        0 => '0',
        1 => '1',
        2 => '2',
        3 => '3',
        4 => '4',
        5 => '5',
        6 => '6',
        7 => '7',
        8 => '8',
        _ => '9',
    }
}

/// Appends the decimal form of a number.
pub fn push_decimal(out: &mut Vec<char>, n: u64)
    ensures
        final(out)@ == old(out)@ + decimal(n as int),
    decreases n,
{
    if n < 10 {
        out.push(digit_of(n));
        assert(out@ =~= old(out)@ + decimal(n as int));
    } else {
        push_decimal(out, n / 10);
        out.push(digit_of(n % 10));
        assert(out@ =~= old(out)@ + decimal(n as int));
    }
}

proof fn lemma_words_of_suffix(t: Seq<char>, b: Seq<char>, at: int, word: Seq<char>, k: int)
    requires
        0 <= at,
        t.len() == at + b.len(),
        t.skip(at) == b,
        0 <= k <= b.len(),
    ensures
        words_from(t, word, at + k) == words_from(b, word, k),
    decreases b.len() - k,
{
    if k < b.len() {
        assert(t[at + k] == t.skip(at)[k]);
        lemma_words_of_suffix(t, b, at, Seq::empty(), k + 1);
        lemma_words_of_suffix(t, b, at, word.push(b[k]), k + 1);
    }
}

proof fn lemma_words_split(a: Seq<char>, gap: char, b: Seq<char>, word: Seq<char>, i: int)
    requires
        is_space(gap),
        0 <= i <= a.len(),
    ensures
        words_from(a.push(gap) + b, word, i) == words_from(a, word, i) + words(b),
    decreases a.len() - i,
{
    let t = a.push(gap) + b;
    if i < a.len() {
        assert(t[i] == a[i]);
        if is_space(a[i]) {
            lemma_words_split(a, gap, b, Seq::empty(), i + 1);
            let rest = words_from(a, Seq::empty(), i + 1);
            if word.len() > 0 {
                assert(seq![word] + (rest + words(b)) =~= (seq![word] + rest) + words(b));
            }
        } else {
            lemma_words_split(a, gap, b, word.push(a[i]), i + 1);
        }
    } else {
        assert(t[i] == gap);
        assert(t.skip(i + 1) =~= b);
        lemma_words_of_suffix(t, b, i + 1, Seq::empty(), 0);
        if word.len() == 0 {
            assert(words_from(a, word, i) + words(b) =~= words(b));
        }
    }
}

/// White space of any kind parts words: the words of two texts with white space
/// between them are those of the first and then those of the second. A word has
/// itself as its only word, and no text has none.
pub proof fn law_words_part_at_spaces(a: Seq<char>, gap: char, b: Seq<char>)
    requires
        is_space(gap),
    ensures
        words(a.push(gap) + b) == words(a) + words(b),
        is_word(a) ==> words(a) == seq![a],
        words(Seq::empty()) == Seq::<Seq<char>>::empty(),
{
    lemma_words_split(a, gap, b, Seq::empty(), 0);
    if is_word(a) {
        assert(a.skip(0) =~= a);
        lemma_last_word(a, 0, a, 0);
        assert(a.take(0) =~= Seq::<char>::empty());
    }
}

/// Blanks, tabs and line ends are white space, and so are the wide blanks and
/// line ends of other scripts; no other character from the first 128 that can
/// be printed is, and none beyond the ideographic blank.
pub proof fn law_spaces(c: char)
    ensures
        c == ' ' || c == '\t' || c == '\n' || c == '\r' ==> is_space(c),
        '!' <= c <= '~' ==> !is_space(c),
        c as u32 == 0x0B || c as u32 == 0x0C || c as u32 == 0x85 || c as u32 == 0xA0 || c as u32
            == 0x1680 || c as u32 == 0x2028 || c as u32 == 0x2029 || c as u32 == 0x202F || c as u32
            == 0x205F || c as u32 == 0x3000 ==> is_space(c),
        0x2000 <= c as u32 <= 0x200A ==> is_space(c),
        0x3000 < c as u32 ==> !is_space(c),
        is_space(c) ==> c as u32 <= 0x20 || c as u32 == 0x85 || c as u32 == 0xA0 || c as u32
            == 0x1680 || 0x2000 <= c as u32 <= 0x200A || 0x2028 <= c as u32 <= 0x2029 || c as u32
            == 0x202F || c as u32 == 0x205F || c as u32 == 0x3000,
{
}

/// Each way to split cuts at its own characters alone.
pub proof fn law_separators(c: char)
    ensures
        Separator::Comma.cuts(c) <==> c == ',',
        Separator::CommaOrSpace.cuts(c) <==> c == ',' || c == ' ',
        Separator::Slash.cuts(c) <==> c == '/',
        Separator::Newline.cuts(c) <==> c == '\n',
{
}

/// Whether a part of a text is what stands between the white space around it.
pub open spec fn is_core(s: Seq<char>, from: int, to: int) -> bool {
    &&& 0 <= from <= to <= s.len()
    &&& forall|i: int| 0 <= i < from ==> is_space(#[trigger] s[i])
    &&& forall|i: int| to <= i < s.len() ==> is_space(#[trigger] s[i])
    &&& from < to ==> !is_space(s[from]) && !is_space(s[to - 1])
}

/// Trimming takes away the white space at both ends and nothing else.
pub proof fn law_trimmed_is_the_core(s: Seq<char>, from: int, to: int)
    requires
        is_core(s, from, to),
    ensures
        trimmed(s) == s.subrange(from, to),
    decreases s.len(),
{
    if s.len() == 0 {
        assert(trimmed(s) =~= s.subrange(from, to));
    } else if from > 0 {
        let t = s.skip(1);
        assert(is_space(s[0]));
        assert forall|i: int| 0 <= i < from - 1 implies is_space(#[trigger] t[i]) by {
            assert(t[i] == s[i + 1]);
        }
        assert forall|i: int| to - 1 <= i < t.len() implies is_space(#[trigger] t[i]) by {
            assert(t[i] == s[i + 1]);
        }
        law_trimmed_is_the_core(t, from - 1, to - 1);
        assert(t.subrange(from - 1, to - 1) =~= s.subrange(from, to));
    } else if from < to {
        lemma_trim_back_core(s, to);
        assert(s.take(to) =~= s.subrange(from, to));
    } else {
        assert(is_space(s[0]));
        let t = s.skip(1);
        assert forall|i: int| 0 <= i < t.len() implies is_space(#[trigger] t[i]) by {
            assert(t[i] == s[i + 1]);
        }
        law_trimmed_is_the_core(t, 0, 0);
        assert(t.subrange(0, 0) =~= s.subrange(from, to));
    }
}

proof fn lemma_trim_back_core(s: Seq<char>, to: int)
    requires
        0 < to <= s.len(),
        !is_space(s[to - 1]),
        forall|i: int| to <= i < s.len() ==> is_space(#[trigger] s[i]),
    ensures
        trim_back(s) == s.take(to),
    decreases s.len(),
{
    if to < s.len() {
        assert(is_space(s[s.len() - 1]));
        lemma_trim_back_core(s.drop_last(), to);
        assert(s.drop_last().take(to) =~= s.take(to));
    } else {
        assert(s.take(to) =~= s);
    }
}

/// What is taken off an end is one character as often as it stands there, and
/// nothing more.
pub proof fn law_stripped_is_the_rest(s: Seq<char>, c: char, n: int)
    requires
        0 <= n <= s.len(),
    ensures
        (forall|i: int| n <= i < s.len() ==> #[trigger] s[i] == c) && (n == 0 || s[n - 1] != c)
            ==> strip_back(s, c) == s.take(n),
        (forall|i: int| 0 <= i < n ==> #[trigger] s[i] == c) && (n == s.len() || s[n] != c)
            ==> strip_front(s, c) == s.skip(n),
    decreases s.len(),
{
    if (forall|i: int| n <= i < s.len() ==> #[trigger] s[i] == c) && (n == 0 || s[n - 1] != c) {
        if n < s.len() {
            assert(s[s.len() - 1] == c);
            let t = s.drop_last();
            assert forall|i: int| n <= i < t.len() implies #[trigger] t[i] == c by {
                assert(t[i] == s[i]);
            }
            law_stripped_is_the_rest(t, c, n);
            assert(t.take(n) =~= s.take(n));
        } else {
            assert(s.take(n) =~= s);
        }
    }
    if (forall|i: int| 0 <= i < n ==> #[trigger] s[i] == c) && (n == s.len() || s[n] != c) {
        if n > 0 {
            assert(s[0] == c);
            let t = s.skip(1);
            assert forall|i: int| 0 <= i < n - 1 implies #[trigger] t[i] == c by {
                assert(t[i] == s[i + 1]);
            }
            law_stripped_is_the_rest(t, c, n - 1);
            assert(t.skip(n - 1) =~= s.skip(n));
        } else {
            assert(s.skip(n) =~= s);
        }
    }
}

/// A mark is found where it stands first, from the start of the search on, and
/// only where it stands at all.
pub proof fn law_found_first(s: Seq<char>, pat: Seq<char>, from: int)
    requires
        0 <= from,
    ensures
        match find_from(s, pat, from) {
            Some(i) => {
                &&& from <= i <= s.len() - pat.len()
                &&& s.subrange(i, i + pat.len()) == pat
                &&& forall|k: int| from <= k < i ==> !#[trigger] stands_at(s, pat, k)
            },
            None => forall|k: int| from <= k ==> !#[trigger] stands_at(s, pat, k),
        },
        forall|k: int| #[trigger] stands_at(s, pat, k) <==> 0 <= k <= s.len() - pat.len()
            && s.subrange(k, k + pat.len()) == pat,
    decreases s.len() + 1 - from,
{
    if from + pat.len() <= s.len() && !stands_at(s, pat, from) {
        law_found_first(s, pat, from + 1);
    }
}

/// The bytes of a text: one for each of the first 128 characters, two up to the
/// 2048th, three up to the 65536th, four for the rest; those of two parts add
/// up.
pub proof fn law_bytes_add_up(a: Seq<char>, b: Seq<char>, c: char)
    ensures
        byte_len(Seq::empty()) == 0,
        byte_len(a + b) == byte_len(a) + byte_len(b),
        (c as u32) < 0x80 ==> byte_len(seq![c]) == 1,
        0x80 <= c as u32 && (c as u32) < 0x800 ==> byte_len(seq![c]) == 2,
        0x800 <= c as u32 && (c as u32) < 0x1_0000 ==> byte_len(seq![c]) == 3,
        0x1_0000 <= c as u32 ==> byte_len(seq![c]) == 4,
        a.len() <= byte_len(a) <= 4 * a.len(),
    decreases a.len() + b.len(),
{
    assert(seq![c].drop_last() =~= Seq::<char>::empty());
    assert(byte_len(seq![c].drop_last()) == 0);
    if b.len() > 0 {
        law_bytes_add_up(a, b.drop_last(), c);
        assert((a + b).drop_last() =~= a + b.drop_last());
        assert((a + b).last() == b.last());
    } else {
        assert(a + b =~= a);
        if a.len() > 0 {
            law_bytes_add_up(a.drop_last(), b, c);
        }
    }
}

/// Only the case of the 26 plain letters is ignored.
pub proof fn law_case_of_letters(a: char, b: char)
    ensures
        'A' <= a <= 'Z' && b as u32 == a as u32 + 32 ==> same_ignoring_case(seq![a], seq![b])
            && same_ignoring_case(seq![b], seq![a]),
        a == b ==> same_ignoring_case(seq![a], seq![b]),
        same_ignoring_case(seq![a], seq![b]) ==> a == b || ('A' <= a <= 'Z' && b as u32 == a as u32
            + 32) || ('A' <= b <= 'Z' && a as u32 == b as u32 + 32),
{
    assert(seq![a][0] == a && seq![b][0] == b);
    if same_ignoring_case(seq![a], seq![b]) {
        assert(small_code(seq![a][0]) == small_code(seq![b][0]));
    }
}

/// Texts that differ in case only are as long as each other and differ in case
/// only at every place.
pub proof fn law_case_ignored_everywhere(a: Seq<char>, b: Seq<char>)
    ensures
        same_ignoring_case(a, b) <==> a.len() == b.len() && forall|i: int|
            0 <= i < a.len() ==> same_ignoring_case(seq![#[trigger] a[i]], seq![b[i]]),
{
    if same_ignoring_case(a, b) {
        assert forall|i: int| 0 <= i < a.len() implies same_ignoring_case(
            seq![#[trigger] a[i]],
            seq![b[i]],
        ) by {
            assert(small_code(a[i]) == small_code(b[i]));
        }
    }
    if a.len() == b.len() && forall|i: int|
        0 <= i < a.len() ==> same_ignoring_case(seq![#[trigger] a[i]], seq![b[i]]) {
        assert forall|i: int| 0 <= i < a.len() implies #[trigger] small_code(a[i]) == small_code(
            b[i],
        ) by {
            let x = seq![a[i]];
            let y = seq![b[i]];
            assert(same_ignoring_case(x, y));
            assert(small_code(x[0]) == small_code(y[0]));
        }
    }
}

} // verus!
