//! The learned root head: identifiers of its inputs and the text of its
//! weight file. The weights themselves are read and used by the application.

use vstd::prelude::*;

use crate::risk::Urgency;
use crate::text::{
    find, find_from, from_chars, is_whitespace, law_found_first, part, pieces, same, split,
    stands_at, strip_back, strip_front, texts, to_chars, trim, trim_end_matches, trim_front,
    trim_start_matches, trimmed, Separator,
};
use crate::world::{PositionState, SearchIntent};

verus! {

/// Names of the inputs, in order.
pub const FEATURES: [&'static str; 11] = [
    "eval_stm",
    "pressure",
    "opp_cpi",
    "own_cpi",
    "urgency",
    "risk",
    "musttry",
    "concession",
    "state",
    "intent",
    "side",
];

pub const WEIGHTS_PATH: &'static str = "heads_weights.json";

/// Number of a position state.
pub open spec fn state_number(state: PositionState) -> int {
    match state {
        PositionState::Defend => 0,
        PositionState::Stabilize => 1,
        PositionState::Improve => 2,
        PositionState::Press => 3,
        PositionState::Attack => 4,
        PositionState::Reset => 5,
        PositionState::Crush => 6,
        PositionState::Convert => 7,
    }
}

pub fn state_id(state: PositionState) -> (r: u8)
    ensures
        r == state_number(state),
{
    match state {
        PositionState::Defend => 0,
        PositionState::Stabilize => 1,
        PositionState::Improve => 2,
        PositionState::Press => 3,
        PositionState::Attack => 4,
        PositionState::Reset => 5,
        PositionState::Crush => 6,
        PositionState::Convert => 7,
    }
}

/// Number of a search intent.
pub open spec fn intent_number(intent: SearchIntent) -> int {
    match intent {
        SearchIntent::Survival => 0,
        SearchIntent::Stabilization => 1,
        SearchIntent::Improvement => 2,
        SearchIntent::Pressure => 3,
        SearchIntent::Attack => 4,
        SearchIntent::Verification => 5,
        SearchIntent::Recovery => 6,
        SearchIntent::Conversion => 7,
    }
}

pub fn intent_id(intent: SearchIntent) -> (r: u8)
    ensures
        r == intent_number(intent),
{
    match intent {
        SearchIntent::Survival => 0,
        SearchIntent::Stabilization => 1,
        SearchIntent::Improvement => 2,
        SearchIntent::Pressure => 3,
        SearchIntent::Attack => 4,
        SearchIntent::Verification => 5,
        SearchIntent::Recovery => 6,
        SearchIntent::Conversion => 7,
    }
}

/// Number of an urgency.
pub open spec fn urgency_number(urgency: Urgency) -> int {
    match urgency {
        Urgency::Low => 0,
        Urgency::Medium => 1,
        Urgency::High => 2,
        Urgency::MustTry => 3,
    }
}

pub fn urgency_id(urgency: Urgency) -> (r: u8)
    ensures
        r == urgency_number(urgency),
{
    match urgency {
        Urgency::Low => 0,
        Urgency::Medium => 1,
        Urgency::High => 2,
        Urgency::MustTry => 3,
    }
}

/// Different states, intents and urgencies have different numbers.
pub proof fn law_ids_distinct(
    s1: PositionState,
    s2: PositionState,
    i1: SearchIntent,
    i2: SearchIntent,
    u1: Urgency,
    u2: Urgency,
)
    ensures
        state_number(s1) == state_number(s2) ==> s1 == s2,
        intent_number(i1) == intent_number(i2) ==> i1 == i2,
        urgency_number(u1) == urgency_number(u2) ==> u1 == u2,
{
}

/// The text between the brackets that follow a key.
pub open spec fn bracketed(content: Seq<char>, key: Seq<char>) -> Option<Seq<char>> {
    match find_from(content, key, 0) {
        None => None,
        Some(at) => match find_from(content, seq!['['], at) {
            None => None,
            Some(open) => match find_from(content, seq![']'], open) {
                None => None,
                Some(close) => Some(content.subrange(open + 1, close)),
            },
        },
    }
}

fn one_char(c: char) -> (v: Vec<char>)
    ensures
        v@ == seq![c],
{
    let mut v: Vec<char> = Vec::new();
    v.push(c);
    assert(v@ =~= seq![c]);
    v
}

/// Another bracket is never where the first one is.
proof fn lemma_bracket_gap(content: Seq<char>, open: int)
    requires
        0 <= open < content.len(),
        content[open] == '[',
        find_from(content, seq![']'], open) is Some,
    ensures
        find_from(content, seq![']'], open)->0 > open,
{
    assert(content.subrange(open, open + 1)[0] == '[');
    assert(!crate::text::stands_at(content, seq![']'], open));
    lemma_find_after(content, seq![']'], open + 1);
}

proof fn lemma_find_after(s: Seq<char>, pat: Seq<char>, i: int)
    ensures
        find_from(s, pat, i) matches Some(k) ==> k >= i && crate::text::stands_at(s, pat, k),
    decreases s.len() + 1 - i,
{
    if i + pat.len() <= s.len() && !crate::text::stands_at(s, pat, i) {
        lemma_find_after(s, pat, i + 1);
    }
}

fn find_bracketed(content: &Vec<char>, key: &Vec<char>) -> (r: Option<Vec<char>>)
    requires
        key.len() > 0,
    ensures
        match bracketed(content@, key@) {
            Some(inner) => r matches Some(v) && v@ == inner,
            None => r is None,
        },
{
    let at: usize = match find(content, key, 0) {
        Some(i) => i,
        None => {
            return None;
        },
    };
    let bracket: Vec<char> = one_char('[');
    let open: usize = match find(content, &bracket, at) {
        Some(i) => i,
        None => {
            return None;
        },
    };
    let closing: Vec<char> = one_char(']');
    let close: usize = match find(content, &closing, open) {
        Some(i) => i,
        None => {
            return None;
        },
    };
    proof {
        lemma_find_after(content@, seq!['['], at as int);
        assert(content@.subrange(open as int, open + 1)[0] == '[');
        lemma_bracket_gap(content@, open as int);
    }
    Some(part(content, open + 1, close))
}

/// The non-empty items of a list, trimmed, up to `limit` of them.
pub open spec fn items(list: Seq<Seq<char>>, n: int, limit: int) -> Seq<Seq<char>>
    decreases n,
{
    if n <= 0 {
        Seq::empty()
    } else {
        let before = items(list, n - 1, limit);
        let item = trimmed(list[n - 1]);
        if before.len() >= limit || item.len() == 0 {
            before
        } else {
            before.push(item)
        }
    }
}

/// The eleven numbers of a list in the weight file, as text.
pub open spec fn array_text(content: Seq<char>, key: Seq<char>) -> Option<Seq<Seq<char>>> {
    match bracketed(content, key) {
        None => None,
        Some(inner) => {
            let list = pieces(inner, Separator::Comma);
            let found = items(list, list.len() as int, 11);
            if found.len() == 11 {
                Some(found)
            } else {
                None
            }
        },
    }
}

/// The texts of a list of strings.
pub open spec fn string_views(v: Seq<String>) -> Seq<Seq<char>> {
    Seq::new(v.len(), |i: int| v[i]@)
}

/// Finds the eleven numbers that follow a key in the weight file.
pub fn parse_f32_array(content: &str, key: &str) -> (r: Option<Vec<String>>)
    requires
        key@.len() > 0,
    ensures
        match array_text(content@, key@) {
            Some(list) => r matches Some(v) && string_views(v@) == list,
            None => r is None,
        },
{
    let text: Vec<char> = to_chars(content);
    let key_chars: Vec<char> = to_chars(key);
    let inner: Vec<char> = match find_bracketed(&text, &key_chars) {
        Some(v) => v,
        None => {
            return None;
        },
    };
    let list: Vec<Vec<char>> = split(&inner, Separator::Comma);
    let ghost all = pieces(inner@, Separator::Comma);
    let mut out: Vec<String> = Vec::new();
    let mut i: usize = 0;
    assert(string_views(out@) =~= Seq::<Seq<char>>::empty());
    while i < list.len()
        invariant
            i <= list.len(),
            texts(list@) == all,
            string_views(out@) == items(all, i as int, 11),
        decreases list.len() - i,
    {
        assert(texts(list@)[i as int] == list@[i as int]@);
        let item: Vec<char> = trim(&list[i]);
        if out.len() < 11 && item.len() > 0 {
            let s: String = from_chars(&item);
            assert(string_views(out@.push(s)) =~= string_views(out@).push(s@));
            out.push(s);
        }
        i = i + 1;
    }
    assert(string_views(out@).len() == out.len());
    if out.len() == 11 {
        Some(out)
    } else {
        None
    }
}

/// Characters of a decimal number.
pub open spec fn number_char(c: char) -> bool {
    ('0' <= c && c <= '9') || c == '.' || c == '-' || c == '+' || c == 'e' || c == 'E'
}

/// The longest prefix made of number characters.
pub open spec fn number_prefix(s: Seq<char>, n: int) -> Seq<char>
    decreases s.len() - n,
{
    if 0 <= n < s.len() && number_char(s[n]) {
        number_prefix(s, n + 1)
    } else {
        s.take(n)
    }
}

/// The number that follows a key and a colon, as text.
pub open spec fn scalar_text(content: Seq<char>, key: Seq<char>) -> Option<Seq<char>> {
    match find_from(content, key, 0) {
        None => None,
        Some(at) => match find_from(content, seq![':'], at) {
            None => None,
            Some(colon) => Some(number_prefix(trim_front(content.skip(colon + 1)), 0)),
        },
    }
}

fn is_number_char(c: char) -> (r: bool)
    ensures
        r == number_char(c),
{
    ('0' <= c && c <= '9') || c == '.' || c == '-' || c == '+' || c == 'e' || c == 'E'
}

/// Finds the number that follows a key in the weight file.
pub fn parse_f32_scalar(content: &str, key: &str) -> (r: Option<String>)
    requires
        key@.len() > 0,
    ensures
        match scalar_text(content@, key@) {
            Some(t) => r matches Some(s) && s@ == t,
            None => r is None,
        },
{
    let text: Vec<char> = to_chars(content);
    let key_chars: Vec<char> = to_chars(key);
    let at: usize = match find(&text, &key_chars, 0) {
        Some(i) => i,
        None => {
            return None;
        },
    };
    let colon_chars: Vec<char> = one_char(':');
    let colon: usize = match find(&text, &colon_chars, at) {
        Some(i) => i,
        None => {
            return None;
        },
    };
    let mut from: usize = colon + 1;
    let ghost rest = text@.skip(colon + 1);
    while from < text.len() && is_whitespace(text[from])
        invariant
            colon < from <= text.len(),
            trim_front(rest) == trim_front(text@.skip(from as int)),
        decreases text.len() - from,
    {
        assert(text@.skip(from as int).skip(1) =~= text@.skip(from + 1));
        from = from + 1;
    }
    let ghost body = text@.skip(from as int);
    assert(trim_front(rest) == body);
    let mut to: usize = from;
    while to < text.len() && is_number_char(text[to])
        invariant
            from <= to <= text.len(),
            body == text@.skip(from as int),
            number_prefix(body, 0) == number_prefix(body, to - from),
        decreases text.len() - to,
    {
        assert(body[to - from] == text@[to as int]);
        to = to + 1;
    }
    proof {
        if to < text.len() {
            assert(body[to - from] == text@[to as int]);
        }
        assert(text@.subrange(from as int, to as int) =~= body.take(to - from));
    }
    Some(from_chars(&part(&text, from, to)))
}

/// A name without the quotes and spaces around it.
pub open spec fn bare_name(s: Seq<char>) -> Seq<char> {
    strip_back(strip_front(trimmed(s), '"'), '"')
}

/// Whether the file lists exactly the expected inputs, in order; nothing if it
/// has no list of inputs.
pub open spec fn names_match(content: Seq<char>) -> Option<bool> {
    match bracketed(content, "\"features\""@) {
        None => None,
        Some(inner) => {
            let list = pieces(inner, Separator::Comma);
            Some(
                list.len() == 11 && forall|i: int|
                    0 <= i < 11 ==> bare_name(#[trigger] list[i]) == FEATURES@[i]@,
            )
        },
    }
}

/// Checks the list of inputs in the weight file.
pub fn parse_names(content: &str) -> (r: Option<bool>)
    ensures
        r == names_match(content@),
{
    let text: Vec<char> = to_chars(content);
    let key: Vec<char> = to_chars("\"features\"");
    proof {
        reveal_strlit("\"features\"");
    }
    let inner: Vec<char> = match find_bracketed(&text, &key) {
        Some(v) => v,
        None => {
            return None;
        },
    };
    let list: Vec<Vec<char>> = split(&inner, Separator::Comma);
    let ghost all = pieces(inner@, Separator::Comma);
    assert(texts(list@).len() == list.len());
    if list.len() != 11 {
        return Some(false);
    }
    let mut i: usize = 0;
    while i < 11
        invariant
            i <= 11,
            list.len() == 11,
            texts(list@) == all,
            names_match(content@) == Some(
                all.len() == 11 && forall|k: int|
                    0 <= k < 11 ==> bare_name(#[trigger] all[k]) == FEATURES@[k]@,
            ),
            forall|k: int| 0 <= k < i ==> bare_name(#[trigger] all[k]) == FEATURES@[k]@,
        decreases 11 - i,
    {
        assert(texts(list@)[i as int] == list@[i as int]@);
        let bare: Vec<char> = trim_end_matches(&trim_start_matches(&trim(&list[i]), '"'), '"');
        let want: Vec<char> = to_chars(FEATURES[i]);
        if !same(&bare, &want) {
            assert(bare_name(all[i as int]) != FEATURES@[i as int]@);
            return Some(false);
        }
        i = i + 1;
    }
    Some(true)
}

/// The text in brackets after a key is what stands between the first opening
/// bracket from the key on and the first closing one behind it.
pub proof fn law_bracketed_text(
    content: Seq<char>,
    key: Seq<char>,
    at: int,
    open: int,
    close: int,
)
    requires
        find_from(content, key, 0) == Some(at),
        0 <= at <= open < close < content.len(),
        content[open] == '[',
        forall|k: int| at <= k < open ==> #[trigger] content[k] != '[',
        content[close] == ']',
        forall|k: int| open <= k < close ==> #[trigger] content[k] != ']',
    ensures
        bracketed(content, key) == Some(content.subrange(open + 1, close)),
{
    lemma_char_at(content, '[', at, open);
    lemma_char_at(content, ']', open, close);
}

proof fn lemma_char_at(s: Seq<char>, c: char, from: int, i: int)
    requires
        0 <= from <= i < s.len(),
        s[i] == c,
        forall|k: int| from <= k < i ==> #[trigger] s[k] != c,
    ensures
        find_from(s, seq![c], from) == Some(i),
{
    law_found_first(s, seq![c], from);
    assert(s.subrange(i, i + 1) =~= seq![c]);
    assert(stands_at(s, seq![c], i));
    match find_from(s, seq![c], from) {
        Some(k) => {
            assert(s.subrange(k, k + 1)[0] == seq![c][0]);
            assert(s[k] == c);
        },
        None => {},
    }
}

/// Each item of a list is read without the white space around it, in order;
/// blank ones are passed over, and none is read beyond the limit.
pub proof fn law_items_in_order(list: Seq<Seq<char>>, n: int, limit: int)
    requires
        0 < n <= list.len(),
    ensures
        items(list, 0, limit).len() == 0,
        trimmed(list[n - 1]).len() == 0 ==> items(list, n, limit) == items(list, n - 1, limit),
        items(list, n - 1, limit).len() < limit && trimmed(list[n - 1]).len() > 0 ==> items(
            list,
            n,
            limit,
        ) == items(list, n - 1, limit).push(trimmed(list[n - 1])),
        0 <= limit ==> items(list, n, limit).len() <= limit,
    decreases n,
{
    if n > 1 {
        law_items_in_order(list, n - 1, limit);
    } else {
        assert(items(list, 0, limit).len() == 0);
    }
}

/// A number is read as far as its characters go.
pub proof fn law_number_prefix(s: Seq<char>, n: int, to: int)
    requires
        0 <= n <= to <= s.len(),
        forall|i: int| n <= i < to ==> number_char(#[trigger] s[i]),
        to == s.len() || !number_char(s[to]),
    ensures
        number_prefix(s, n) == s.take(to),
        forall|c: char| '0' <= c <= '9' ==> #[trigger] number_char(c),
        number_char('.') && number_char('-') && !number_char(',') && !number_char(' ')
            && !number_char('}'),
    decreases to - n,
{
    if n < to {
        law_number_prefix(s, n + 1, to);
    }
}

/// A scalar is the number behind the colon that follows its key.
pub proof fn law_scalar_text(content: Seq<char>, key: Seq<char>, at: int, colon: int)
    requires
        find_from(content, key, 0) == Some(at),
        0 <= at <= colon < content.len(),
        content[colon] == ':',
        forall|k: int| at <= k < colon ==> #[trigger] content[k] != ':',
    ensures
        scalar_text(content, key) == Some(
            number_prefix(trim_front(content.subrange(colon + 1, content.len() as int)), 0),
        ),
{
    lemma_char_at(content, ':', at, colon);
    assert(content.skip(colon + 1) =~= content.subrange(colon + 1, content.len() as int));
}

/// A list of weights is read where it has eleven items that are not blank, and
/// only then; what stands behind the eleventh does not matter.
pub proof fn law_eleven_weights(content: Seq<char>, key: Seq<char>, inner: Seq<char>)
    requires
        bracketed(content, key) == Some(inner),
    ensures
        ({
            let list = pieces(inner, Separator::Comma);
            let found = items(list, list.len() as int, 11);
            &&& array_text(content, key) is Some <==> found.len() == 11
            &&& array_text(content, key) matches Some(r) ==> r == found
        }),
{
}

/// A name is what stands inside its quotes; the names match where all eleven
/// are there, in order.
pub proof fn law_names_in_order(content: Seq<char>, inner: Seq<char>, i: int)
    requires
        bracketed(content, "\"features\""@) == Some(inner),
        0 <= i < 11,
    ensures
        pieces(inner, Separator::Comma).len() != 11 ==> names_match(content) == Some(false),
        pieces(inner, Separator::Comma).len() == 11 && bare_name(
            pieces(inner, Separator::Comma)[i],
        ) != FEATURES@[i]@ ==> names_match(content) == Some(false),
        (pieces(inner, Separator::Comma).len() == 11 && forall|k: int|
            0 <= k < 11 ==> bare_name(#[trigger] pieces(inner, Separator::Comma)[k])
                == FEATURES@[k]@) ==> names_match(content) == Some(true),
{
    let list = pieces(inner, Separator::Comma);
    assert(list[i] == pieces(inner, Separator::Comma)[i]);
}

/// States, intents and urgencies are numbered in the order of their names.
pub proof fn law_ids_in_order()
    ensures
        state_number(PositionState::Defend) == 0,
        state_number(PositionState::Defend) < state_number(PositionState::Stabilize)
            < state_number(PositionState::Improve) < state_number(PositionState::Press)
            < state_number(PositionState::Attack) < state_number(PositionState::Reset)
            < state_number(PositionState::Crush) < state_number(PositionState::Convert) <= 7,
        intent_number(SearchIntent::Survival) == 0,
        intent_number(SearchIntent::Survival) < intent_number(SearchIntent::Stabilization)
            < intent_number(SearchIntent::Improvement) < intent_number(SearchIntent::Pressure)
            < intent_number(SearchIntent::Attack) < intent_number(SearchIntent::Verification)
            < intent_number(SearchIntent::Recovery) < intent_number(SearchIntent::Conversion) <= 7,
        0 == urgency_number(Urgency::Low) < urgency_number(Urgency::Medium) < urgency_number(
            Urgency::High,
        ) < urgency_number(Urgency::MustTry) == 3,
{
}

} // verus!
