//! Robustness against mirroring: a position and its mirror image along the
//! files should score alike.

use vstd::prelude::*;

use crate::board::BoardState;
use crate::eval::nnue::loader::Network;
use crate::eval::nnue::refresh::{honest, summed, sums_ensured};
use crate::eval::nnue::{
    evaluate_internal, law_accurate_sums_give_position_score, law_fast_score_of_position,
    position_score,
};
use crate::math::{abs, wrap16};
use crate::text::{
    decimal, from_chars, is_space, is_word, join, joined, law_joined_pieces, law_pieces_of_joined,
    law_pieces_uncut, law_words_are_words, law_words_of_joined, lemma_pieces_nonempty, pieces,
    push_all, push_decimal, split, split_whitespace, texts, to_chars, uncut, words, Separator,
};

verus! {

/// Limits of a robustness audit.
#[derive(Debug, Clone, Copy, PartialEq, Eq)]
pub struct ArrConfig {
    pub enabled: bool,
    pub max_allowed_divergence: i16,
}

impl Default for ArrConfig {
    fn default() -> (r: Self)
        ensures
            r.enabled,
            r.max_allowed_divergence == 30,
    {
        ArrConfig { enabled: true, max_allowed_divergence: 30 }
    }
}

/// Outcome of a robustness audit.
#[derive(Debug, Clone, Copy, PartialEq, Eq)]
pub struct AdversarialRobustnessReport {
    pub original_eval: i16,
    pub mirror_eval: i16,
    pub symmetry_divergence: i16,
    pub is_robust: bool,
}

/// Value of a decimal digit.
pub open spec fn digit_value(c: char) -> Option<int> {
    if '0' <= c <= '9' {
        Some(c as u32 - 48)
    } else {
        None
    }
}

/// A run of empty squares.
pub open spec fn blanks(n: int) -> Seq<char> {
    Seq::new(
        if n > 0 {
            n as nat
        } else {
            0
        },
        |i: int| ' ',
    )
}

/// A row square by square: digits become empty squares.
pub open spec fn expanded(row: Seq<char>) -> Seq<char>
    decreases row.len(),
{
    if row.len() == 0 {
        Seq::empty()
    } else {
        expanded(row.drop_last()) + match digit_value(row.last()) {
            Some(d) => blanks(d),
            None => seq![row.last()],
        }
    }
}

/// The number of empty squares, where there are any.
pub open spec fn run_text(empties: int) -> Seq<char> {
    if empties > 0 {
        decimal(empties)
    } else {
        Seq::empty()
    }
}

/// A row of squares with runs of empty ones counted, after `empties` more.
pub open spec fn collapsed(squares: Seq<char>, empties: int) -> Seq<char>
    decreases squares.len(),
{
    if squares.len() == 0 {
        run_text(empties)
    } else if squares[0] == ' ' {
        collapsed(squares.skip(1), empties + 1)
    } else {
        run_text(empties).push(squares[0]) + collapsed(squares.skip(1), 0)
    }
}

/// A row read from the other side.
pub open spec fn mirrored_row(row: Seq<char>) -> Seq<char> {
    collapsed(expanded(row).reverse(), 0)
}

/// The rows of a placement, each mirrored.
pub open spec fn mirrored_rows(rows: Seq<Seq<char>>) -> Seq<Seq<char>> {
    Seq::new(rows.len(), |i: int| mirrored_row(rows[i]))
}

/// A castling right on the other wing.
pub open spec fn other_wing(c: char) -> char {
    if c == 'K' {
        'Q'
    } else if c == 'Q' {
        'K'
    } else if c == 'k' {
        'q'
    } else if c == 'q' {
        'k'
    } else {
        c
    }
}

/// Castling rights after mirroring.
pub open spec fn mirrored_castling(field: Seq<char>) -> Seq<char> {
    if field == seq!['-'] {
        field
    } else {
        Seq::new(field.len(), |i: int| other_wing(field[i]))
    }
}

/// Low byte of a code point.
pub open spec fn low_byte(c: char) -> int {
    c as u32 as int % 256
}

/// The en-passant square after mirroring: its file counted from the other
/// side.
pub open spec fn mirrored_ep(field: Seq<char>) -> Seq<char> {
    if field == seq!['-'] || field.len() < 2 {
        field
    } else {
        seq![((201 - low_byte(field[0])) as u8) as char, field[1]]
    }
}

/// One field of a position text after mirroring.
pub open spec fn mirrored_field(fields: Seq<Seq<char>>, k: int) -> Seq<char> {
    if k == 0 {
        joined(mirrored_rows(pieces(fields[0], Separator::Slash)), '/')
    } else if k == 2 {
        mirrored_castling(fields[2])
    } else if k == 3 {
        mirrored_ep(fields[3])
    } else {
        fields[k]
    }
}

/// A position text after mirroring; a text without fields stays as it is.
pub open spec fn mirrored_text(fen: Seq<char>) -> Seq<char> {
    let fields = words(fen);
    if fields.len() == 0 {
        fen
    } else {
        joined(Seq::new(fields.len(), |k: int| mirrored_field(fields, k)), ' ')
    }
}

/// Whether the en-passant field, where there is one, starts with a character
/// that a file can be counted from.
pub open spec fn mirrorable(fen: Seq<char>) -> bool {
    let fields = words(fen);
    fields.len() > 3 && fields[3] != seq!['-'] && fields[3].len() >= 2 ==> low_byte(fields[3][0])
        <= 104
}

fn expand_row(row: &Vec<char>) -> (r: Vec<char>)
    ensures
        r@ == expanded(row@),
{
    let mut out: Vec<char> = Vec::new();
    let mut i: usize = 0;
    assert(row@.take(0) =~= Seq::<char>::empty());
    while i < row.len()
        invariant
            i <= row.len(),
            out@ == expanded(row@.take(i as int)),
        decreases row.len() - i,
    {
        let c: char = row[i];
        let ghost before = out@;
        assert(row@.take(i + 1).drop_last() =~= row@.take(i as int));
        if '0' <= c && c <= '9' {
            let d: u32 = c as u32 - 48;
            let mut k: u32 = 0;
            assert(before + blanks(0) =~= before);
            while k < d
                invariant
                    k <= d,
                    out@ == before + blanks(k as int),
                decreases d - k,
            {
                out.push(' ');
                k = k + 1;
                assert(out@ =~= before + blanks(k as int));
            }
        } else {
            out.push(c);
            assert(out@ =~= before + seq![c]);
        }
        i = i + 1;
    }
    assert(row@.take(i as int) =~= row@);
    out
}

fn collapse_reversed(squares: &Vec<char>) -> (r: Vec<char>)
    ensures
        r@ == collapsed(squares@.reverse(), 0),
{
    let mut out: Vec<char> = Vec::new();
    let mut empties: usize = 0;
    let mut i: usize = 0;
    let ghost all = squares@.reverse();
    assert(all.skip(0) =~= all);
    assert(out@ + collapsed(all, 0) =~= collapsed(all, 0));
    while i < squares.len()
        invariant
            i <= squares.len(),
            empties <= i,
            all == squares@.reverse(),
            out@ + collapsed(all.skip(i as int), empties as int) == collapsed(all, 0),
        decreases squares.len() - i,
    {
        let c: char = squares[squares.len() - 1 - i];
        assert(all.skip(i as int)[0] == c);
        assert(all.skip(i as int).skip(1) =~= all.skip(i + 1));
        if c == ' ' {
            empties = empties + 1;
        } else {
            let ghost before = out@;
            let ghost run = empties as int;
            if empties > 0 {
                push_decimal(&mut out, empties as u64);
                empties = 0;
            }
            out.push(c);
            proof {
                assert(out@ =~= before + run_text(run).push(c));
                assert(before + (run_text(run).push(c) + collapsed(all.skip(i + 1), 0)) =~= out@
                    + collapsed(all.skip(i + 1), 0));
            }
        }
        i = i + 1;
    }
    if empties > 0 {
        push_decimal(&mut out, empties as u64);
    } else {
        assert(out@ + Seq::<char>::empty() =~= out@);
    }
    out
}

fn mirror_placement(field: &Vec<char>) -> (r: Vec<char>)
    ensures
        r@ == joined(mirrored_rows(pieces(field@, Separator::Slash)), '/'),
{
    let rows: Vec<Vec<char>> = split(field, Separator::Slash);
    let mut list: Vec<Vec<char>> = Vec::new();
    let mut i: usize = 0;
    let ghost parts = pieces(field@, Separator::Slash);
    assert(texts(rows@).len() == rows.len());
    while i < rows.len()
        invariant
            i <= rows.len(),
            list.len() == i,
            texts(rows@) == parts,
            forall|k: int| 0 <= k < i ==> (#[trigger] list@[k])@ == mirrored_row(parts[k]),
        decreases rows.len() - i,
    {
        assert(texts(rows@)[i as int] == rows@[i as int]@);
        let squares: Vec<char> = expand_row(&rows[i]);
        list.push(collapse_reversed(&squares));
        i = i + 1;
    }
    assert(texts(list@) =~= mirrored_rows(parts));
    assert(texts(list@).take(list.len() as int) =~= texts(list@));
    join(&list, list.len(), '/')
}

fn is_dash(field: &Vec<char>) -> (r: bool)
    ensures
        r == (field@ == seq!['-']),
{
    let r: bool = field.len() == 1 && field[0] == '-';
    if r {
        assert(field@ =~= seq!['-']);
    }
    r
}

fn copy_text(field: &Vec<char>) -> (r: Vec<char>)
    ensures
        r@ == field@,
{
    let mut r: Vec<char> = Vec::new();
    push_all(&mut r, field);
    assert(r@ =~= field@);
    r
}

fn mirror_castling(field: &Vec<char>) -> (r: Vec<char>)
    ensures
        r@ == mirrored_castling(field@),
{
    if is_dash(field) {
        return copy_text(field);
    }
    let mut out: Vec<char> = Vec::new();
    let mut i: usize = 0;
    while i < field.len()
        invariant
            i <= field.len(),
            out.len() == i,
            forall|k: int| 0 <= k < i ==> #[trigger] out@[k] == other_wing(field@[k]),
        decreases field.len() - i,
    {
        let c: char = field[i];
        let m: char = if c == 'K' {
            'Q'
        } else if c == 'Q' {
            'K'
        } else if c == 'k' {
            'q'
        } else if c == 'q' {
            'k'
        } else {
            c
        };
        out.push(m);
        i = i + 1;
    }
    assert(out@ =~= mirrored_castling(field@));
    out
}

fn mirror_ep(field: &Vec<char>) -> (r: Vec<char>)
    requires
        field@ != seq!['-'] && field.len() >= 2 ==> low_byte(field@[0]) <= 104,
    ensures
        r@ == mirrored_ep(field@),
{
    if is_dash(field) || field.len() < 2 {
        return copy_text(field);
    }
    let file: u32 = field[0] as u32 % 256;
    let mut out: Vec<char> = Vec::new();
    out.push((104 - file as u8 + 97) as char);
    out.push(field[1]);
    assert(out@ =~= mirrored_ep(field@));
    out
}

/// The text of a position mirrored along the files: the side to move stays,
/// castling rights change wings and the en-passant square changes its file.
pub fn create_mirrored_board(fen: &str) -> (r: String)
    requires
        mirrorable(fen@),
    ensures
        r@ == mirrored_text(fen@),
{
    let chars: Vec<char> = to_chars(fen);
    let fields: Vec<Vec<char>> = split_whitespace(&chars);
    let ghost list = words(fen@);
    assert(texts(fields@).len() == fields.len());
    if fields.len() == 0 {
        return from_chars(&chars);
    }
    let mut out: Vec<Vec<char>> = Vec::new();
    let mut k: usize = 0;
    while k < fields.len()
        invariant
            k <= fields.len(),
            out.len() == k,
            texts(fields@) == list,
            list == words(fen@),
            mirrorable(fen@),
            forall|i: int| 0 <= i < k ==> (#[trigger] out@[i])@ == mirrored_field(list, i),
        decreases fields.len() - k,
    {
        assert(texts(fields@)[k as int] == fields@[k as int]@);
        let f: Vec<char> = if k == 0 {
            mirror_placement(&fields[0])
        } else if k == 2 {
            mirror_castling(&fields[2])
        } else if k == 3 {
            mirror_ep(&fields[3])
        } else {
            copy_text(&fields[k])
        };
        out.push(f);
        k = k + 1;
    }
    assert(texts(out@) =~= Seq::new(list.len(), |i: int| mirrored_field(list, i)));
    assert(texts(out@).take(out.len() as int) =~= texts(out@));
    let text: Vec<char> = join(&out, out.len(), ' ');
    from_chars(&text)
}

/// How far two scores are apart, kept in 16 bits.
pub open spec fn divergence(a: int, b: int) -> int {
    wrap16(abs(a - b))
}

/// Whether a divergence is within a limit.
pub open spec fn tolerated(divergence: int, limit: int) -> bool {
    divergence <= limit
}

/// Compares the small network's score of a position with that of its mirror
/// image. The difference is kept in 16 bits.
pub fn audit_adversarial_robustness(
    board: &mut BoardState,
    mirrored: &mut BoardState,
    network: &Network,
    config: ArrConfig,
) -> (r: AdversarialRobustnessReport)
    requires
        network.wf(),
        summed(old(board)),
        honest(old(board), network),
        summed(old(mirrored)),
        honest(old(mirrored), network),
    ensures
        r.original_eval == position_score(old(board), network),
        r.mirror_eval == position_score(old(mirrored), network),
        r.symmetry_divergence == divergence(r.original_eval as int, r.mirror_eval as int),
        r.is_robust == tolerated(
            r.symmetry_divergence as int,
            config.max_allowed_divergence as int,
        ),
        sums_ensured(old(board), final(board), network),
        sums_ensured(old(mirrored), final(mirrored), network),
{
    board.ensure_accumulators_fresh(network);
    proof {
        law_accurate_sums_give_position_score(board, network);
        law_fast_score_of_position(old(board), board, network, 0);
    }
    let original_eval: i16 = evaluate_internal(board, network);
    mirrored.ensure_accumulators_fresh(network);
    proof {
        law_accurate_sums_give_position_score(mirrored, network);
        law_fast_score_of_position(old(mirrored), mirrored, network, 0);
    }
    let mirror_eval: i16 = evaluate_internal(mirrored, network);
    let gap: i32 = original_eval as i32 - mirror_eval as i32;
    let size: i32 = if gap < 0 {
        -gap
    } else {
        gap
    };
    let symmetry_divergence: i16 = if size >= 0x8000 {
        (size - 0x1_0000) as i16
    } else {
        size as i16
    };
    let is_robust: bool = symmetry_divergence <= config.max_allowed_divergence;
    AdversarialRobustnessReport { original_eval, mirror_eval, symmetry_divergence, is_robust }
}

proof fn lemma_expanded_add(a: Seq<char>, b: Seq<char>)
    ensures
        expanded(a + b) == expanded(a) + expanded(b),
    decreases b.len(),
{
    if b.len() == 0 {
        assert(a + b =~= a);
        assert(expanded(a) + expanded(b) =~= expanded(a));
    } else {
        lemma_expanded_add(a, b.drop_last());
        assert((a + b).drop_last() =~= a + b.drop_last());
        assert((a + b).last() == b.last());
        let tail = match digit_value(b.last()) {
            Some(d) => blanks(d),
            None => seq![b.last()],
        };
        assert(expanded(a) + expanded(b.drop_last()) + tail =~= expanded(a) + (expanded(
            b.drop_last(),
        ) + tail));
    }
}

proof fn lemma_expanded_run(n: int)
    requires
        0 <= n <= 9,
    ensures
        expanded(run_text(n)) == blanks(n),
{
    let t = run_text(n);
    if n > 0 {
        assert(t.drop_last() =~= Seq::<char>::empty());
        assert(expanded(t.drop_last()) + blanks(n) =~= blanks(n));
        assert(digit_value(t.last()) == Some(n));
    } else {
        assert(blanks(n) =~= Seq::<char>::empty());
    }
}

/// Whether no square is written as a digit.
pub open spec fn no_digits(squares: Seq<char>) -> bool {
    forall|i: int| 0 <= i < squares.len() ==> digit_value(#[trigger] squares[i]) is None
}

proof fn lemma_expanded_collapsed(squares: Seq<char>, empties: int)
    requires
        0 <= empties,
        empties + squares.len() <= 9,
        no_digits(squares),
    ensures
        expanded(collapsed(squares, empties)) == blanks(empties) + squares,
    decreases squares.len(),
{
    if squares.len() == 0 {
        lemma_expanded_run(empties);
        assert(blanks(empties) + squares =~= blanks(empties));
    } else if squares[0] == ' ' {
        lemma_expanded_collapsed(squares.skip(1), empties + 1);
        assert(blanks(empties + 1) + squares.skip(1) =~= blanks(empties) + squares);
    } else {
        lemma_expanded_collapsed(squares.skip(1), 0);
        let c = squares[0];
        assert(digit_value(c) is None);
        lemma_expanded_run(empties);
        let front = run_text(empties).push(c);
        assert(front.drop_last() =~= run_text(empties));
        lemma_expanded_add(front, collapsed(squares.skip(1), 0));
        assert(blanks(empties) + seq![c] + (blanks(0) + squares.skip(1)) =~= blanks(empties)
            + squares);
    }
}

proof fn lemma_expanded_no_digits(row: Seq<char>)
    ensures
        no_digits(expanded(row)),
    decreases row.len(),
{
    if row.len() > 0 {
        lemma_expanded_no_digits(row.drop_last());
    }
}

/// Mirroring a row reverses its squares, on rows of no more than nine squares.
pub proof fn law_mirror_reverses_row(row: Seq<char>)
    requires
        expanded(row).len() <= 9,
    ensures
        expanded(mirrored_row(row)) == expanded(row).reverse(),
{
    lemma_expanded_no_digits(row);
    let back = expanded(row).reverse();
    assert forall|i: int| 0 <= i < back.len() implies digit_value(#[trigger] back[i]) is None by {
        assert(back[i] == expanded(row)[back.len() - 1 - i]);
    }
    lemma_expanded_collapsed(back, 0);
    assert(blanks(0) + back =~= back);
}

/// Mirroring a row twice gives back its squares, on rows of no more than nine
/// squares.
pub proof fn law_mirror_twice(row: Seq<char>)
    requires
        expanded(row).len() <= 9,
    ensures
        expanded(mirrored_row(mirrored_row(row))) == expanded(row),
{
    law_mirror_reverses_row(row);
    law_mirror_reverses_row(mirrored_row(row));
    assert(expanded(row).reverse().reverse() =~= expanded(row));
}

/// Mirroring castling rights twice gives them back.
pub proof fn law_castling_twice(field: Seq<char>)
    ensures
        mirrored_castling(mirrored_castling(field)) == field,
{
    let once = mirrored_castling(field);
    if field != seq!['-'] {
        if once == seq!['-'] {
            assert(once[0] == '-');
            assert(field =~= seq!['-']);
        }
        assert(mirrored_castling(once) =~= field);
    }
}

/// Mirroring an en-passant square on a real file twice gives it back.
pub proof fn law_ep_twice(field: Seq<char>)
    requires
        field.len() == 2,
        'a' <= field[0] <= 'h',
    ensures
        mirrored_ep(mirrored_ep(field)) == field,
        'a' <= mirrored_ep(field)[0] <= 'h',
{
    let once = mirrored_ep(field);
    assert(mirrored_ep(once) =~= field);
}

/// Whether a row is written as positions are printed: eight squares, and every
/// run of empty ones counted by one digit.
pub open spec fn canonical_row(row: Seq<char>) -> bool {
    expanded(row).len() == 8 && collapsed(expanded(row), 0) == row
}

/// Whether a text is written as positions are printed: fields with one space
/// between them, rows of eight squares, and a dash or a square for en passant.
pub open spec fn canonical(fen: Seq<char>) -> bool {
    let fields = words(fen);
    let rows = pieces(fields[0], Separator::Slash);
    &&& fields.len() > 0
    &&& fen == joined(fields, ' ')
    &&& forall|i: int| 0 <= i < rows.len() ==> canonical_row(#[trigger] rows[i])
    &&& fields.len() > 3 && fields[3] != seq!['-'] ==> fields[3].len() == 2 && 'a' <= fields[3][0]
        <= 'h'
}

/// Whether a character is neither white space nor the separator of rows.
spec fn plain(c: char) -> bool {
    !is_space(c) && c != '/'
}

spec fn all_plain(s: Seq<char>) -> bool {
    forall|i: int| 0 <= i < s.len() ==> plain(#[trigger] s[i])
}

proof fn lemma_run_plain(n: int)
    requires
        n <= 9,
    ensures
        all_plain(run_text(n)),
{
}

/// Counting runs writes digits and the pieces as they are.
proof fn lemma_collapsed_plain(squares: Seq<char>, empties: int)
    requires
        0 <= empties,
        empties + squares.len() <= 9,
        forall|i: int| 0 <= i < squares.len() ==> #[trigger] squares[i] == ' ' || plain(squares[i]),
    ensures
        all_plain(collapsed(squares, empties)),
        empties + squares.len() > 0 ==> collapsed(squares, empties).len() > 0,
    decreases squares.len(),
{
    lemma_run_plain(empties);
    if squares.len() > 0 {
        let rest = squares.skip(1);
        assert forall|i: int| 0 <= i < rest.len() implies #[trigger] rest[i] == ' ' || plain(
            rest[i],
        ) by {
            assert(rest[i] == squares[i + 1]);
        }
        if squares[0] == ' ' {
            lemma_collapsed_plain(rest, empties + 1);
        } else {
            lemma_collapsed_plain(rest, 0);
            let front = run_text(empties).push(squares[0]);
            assert(all_plain(front));
        }
    }
}

proof fn lemma_expanded_plain(row: Seq<char>)
    requires
        all_plain(row),
    ensures
        forall|i: int|
            0 <= i < expanded(row).len() ==> #[trigger] expanded(row)[i] == ' ' || plain(
                expanded(row)[i],
            ),
    decreases row.len(),
{
    if row.len() > 0 {
        let t = row.drop_last();
        assert forall|i: int| 0 <= i < t.len() implies plain(#[trigger] t[i]) by {
            assert(plain(row[i]));
        }
        lemma_expanded_plain(t);
        assert(plain(row[row.len() - 1]));
        let front = expanded(t);
        let all = expanded(row);
        assert forall|i: int| 0 <= i < all.len() implies #[trigger] all[i] == ' ' || plain(
            all[i],
        ) by {
            if i < front.len() {
                assert(all[i] == front[i]);
            }
        }
    }
}

/// A canonical row mirrored is a canonical row, and mirrored again it is the
/// row.
proof fn lemma_row_twice(row: Seq<char>)
    requires
        canonical_row(row),
        all_plain(row),
    ensures
        canonical_row(mirrored_row(row)),
        all_plain(mirrored_row(row)),
        mirrored_row(row).len() > 0,
        mirrored_row(mirrored_row(row)) == row,
{
    law_mirror_reverses_row(row);
    let squares = expanded(row);
    let back = squares.reverse();
    lemma_expanded_plain(row);
    assert forall|i: int| 0 <= i < back.len() implies #[trigger] back[i] == ' ' || plain(
        back[i],
    ) by {
        assert(back[i] == squares[squares.len() - 1 - i]);
    }
    lemma_collapsed_plain(back, 0);
    assert(back.reverse() =~= squares);
}

/// The rows of a placement field, mirrored and joined, come apart again.
proof fn lemma_placement_twice(field: Seq<char>)
    requires
        is_word(field),
        forall|i: int|
            0 <= i < pieces(field, Separator::Slash).len() ==> canonical_row(
                #[trigger] pieces(field, Separator::Slash)[i],
            ),
    ensures
        ({
            let once = joined(mirrored_rows(pieces(field, Separator::Slash)), '/');
            &&& is_word(once)
            &&& pieces(once, Separator::Slash) == mirrored_rows(pieces(field, Separator::Slash))
            &&& forall|i: int|
                0 <= i < pieces(once, Separator::Slash).len() ==> canonical_row(
                    #[trigger] pieces(once, Separator::Slash)[i],
                )
            &&& joined(mirrored_rows(pieces(once, Separator::Slash)), '/') == field
        }),
{
    let rows = pieces(field, Separator::Slash);
    let back = mirrored_rows(rows);
    lemma_pieces_nonempty(field, Separator::Slash);
    law_pieces_uncut(field, Separator::Slash);
    assert forall|k: int| 0 <= k < rows.len() implies {
        &&& all_plain(#[trigger] back[k])
        &&& back[k].len() > 0
        &&& canonical_row(back[k])
        &&& mirrored_row(back[k]) == rows[k]
    } by {
        let row = rows[k];
        assert(canonical_row(row));
        assert forall|i: int| 0 <= i < row.len() implies plain(#[trigger] row[i]) by {
            assert(field.contains(rows[k][i]));
            let j = choose|j: int| 0 <= j < field.len() && field[j] == row[i];
            assert(!is_space(field[j]));
            assert(uncut(rows[k], Separator::Slash));
            assert(!Separator::Slash.cuts(row[i]));
        }
        lemma_row_twice(row);
    }
    assert forall|k: int| 0 <= k < back.len() implies uncut(
        #[trigger] back[k],
        Separator::Slash,
    ) by {
        assert forall|i: int| 0 <= i < back[k].len() implies !Separator::Slash.cuts(
            #[trigger] back[k][i],
        ) by {
            assert(plain(back[k][i]));
        }
    }
    law_pieces_of_joined(back, Separator::Slash, '/');
    lemma_joined_word(back);
    assert(mirrored_rows(back) =~= rows);
    law_joined_pieces(field, Separator::Slash, '/');
}

/// Rows without white space join to a word.
proof fn lemma_joined_word(list: Seq<Seq<char>>)
    requires
        list.len() > 0,
        forall|k: int| 0 <= k < list.len() ==> all_plain(#[trigger] list[k]) && list[k].len() > 0,
    ensures
        is_word(joined(list, '/')),
    decreases list.len(),
{
    let last = list[list.len() - 1];
    assert(all_plain(last));
    if list.len() == 1 {
        assert forall|i: int| 0 <= i < last.len() implies !is_space(#[trigger] last[i]) by {
            assert(plain(last[i]));
        }
    } else {
        let rest = list.drop_last();
        assert forall|k: int| 0 <= k < rest.len() implies all_plain(#[trigger] rest[k])
            && rest[k].len() > 0 by {
            assert(all_plain(list[k]));
        }
        lemma_joined_word(rest);
        let x = joined(rest, '/');
        let all = x.push('/') + last;
        assert forall|i: int| 0 <= i < all.len() implies !is_space(#[trigger] all[i]) by {
            if i < x.len() {
                assert(!is_space(x[i]));
            } else if i > x.len() {
                assert(plain(last[i - x.len() - 1]));
            }
        }
    }
}

/// Mirroring castling rights or an en-passant square gives a word again.
proof fn lemma_small_fields_stay_words(castling: Seq<char>, ep: Seq<char>)
    requires
        is_word(castling),
        is_word(ep),
        ep != seq!['-'] ==> ep.len() == 2 && 'a' <= ep[0] <= 'h',
    ensures
        is_word(mirrored_castling(castling)),
        is_word(mirrored_ep(ep)),
{
    let c = mirrored_castling(castling);
    assert forall|i: int| 0 <= i < c.len() implies !is_space(#[trigger] c[i]) by {
        assert(!is_space(castling[i]));
    }
    let e = mirrored_ep(ep);
    assert forall|i: int| 0 <= i < e.len() implies !is_space(#[trigger] e[i]) by {
        assert(!is_space(ep[i]));
    }
}

/// Mirroring a position text keeps its form: the fields are the mirrored ones,
/// all but the placement, the castling rights and the en-passant square are
/// the same, every row is read from the other side, and mirroring again gives
/// the text back.
pub proof fn law_text_mirrored_twice(fen: Seq<char>)
    requires
        canonical(fen),
    ensures
        canonical(mirrored_text(fen)),
        words(mirrored_text(fen)) == Seq::new(
            words(fen).len(),
            |k: int| mirrored_field(words(fen), k),
        ),
        pieces(words(mirrored_text(fen))[0], Separator::Slash) == mirrored_rows(
            pieces(words(fen)[0], Separator::Slash),
        ),
        forall|k: int|
            0 < k < words(fen).len() && k != 2 && k != 3 ==> #[trigger] words(mirrored_text(fen))[k]
                == words(fen)[k],
        mirrored_text(mirrored_text(fen)) == fen,
{
    let fields = words(fen);
    let once = Seq::new(fields.len(), |k: int| mirrored_field(fields, k));
    law_words_are_words(fen);
    assert(is_word(fields[0]));
    lemma_placement_twice(fields[0]);
    assert forall|k: int| 0 <= k < once.len() implies is_word(#[trigger] once[k]) by {
        assert(is_word(fields[k]));
        if k == 2 {
            lemma_small_fields_stay_words(fields[2], seq!['-']);
        } else if k == 3 {
            lemma_small_fields_stay_words(fields[3], fields[3]);
        }
    }
    law_words_of_joined(once);
    let twice = Seq::new(once.len(), |k: int| mirrored_field(once, k));
    assert forall|k: int| 0 <= k < fields.len() implies #[trigger] twice[k] == fields[k] by {
        if k == 2 {
            law_castling_twice(fields[2]);
        } else if k == 3 && fields[3] != seq!['-'] {
            law_ep_twice(fields[3]);
            assert(mirrored_ep(fields[3]).len() == 2);
        }
    }
    assert(twice =~= fields);
}

/// A row is read from left to right: a digit stands for as many empty squares,
/// any other character for a piece.
pub proof fn law_rows_are_read_in_order(a: Seq<char>, b: Seq<char>, c: char)
    ensures
        expanded(a + b) == expanded(a) + expanded(b),
        '0' <= c <= '9' ==> expanded(seq![c]).len() == c as int - '0' as int,
        '0' <= c <= '9' ==> forall|i: int|
            0 <= i < expanded(seq![c]).len() ==> #[trigger] expanded(seq![c])[i] == ' ',
        !('0' <= c <= '9') ==> expanded(seq![c]) == seq![c],
    decreases b.len(),
{
    let none = Seq::<char>::empty();
    assert(seq![c].drop_last() =~= none);
    assert(expanded(seq![c].drop_last()) =~= none);
    if let Some(d) = digit_value(c) {
        assert(expanded(seq![c]) =~= blanks(d));
    } else {
        assert(expanded(seq![c]) =~= seq![c]);
    }
    if b.len() == 0 {
        assert(a + b =~= a);
        assert(expanded(a) + expanded(b) =~= expanded(a));
    } else {
        law_rows_are_read_in_order(a, b.drop_last(), c);
        assert((a + b).drop_last() =~= a + b.drop_last());
        assert((a + b).last() == b.last());
        let tail = match digit_value(b.last()) {
            Some(d) => blanks(d),
            None => seq![b.last()],
        };
        assert((expanded(a) + expanded(b.drop_last())) + tail =~= expanded(a) + (expanded(
            b.drop_last(),
        ) + tail));
    }
}

/// Mirroring exchanges the wings: kingside rights become queenside ones of the
/// same colour and the other way round, and an en-passant square moves to the
/// file as far from the other edge, on its rank.
pub proof fn law_wings_are_exchanged(field: Seq<char>, i: int, ep: Seq<char>)
    requires
        0 <= i < field.len(),
        ep.len() == 2,
        'a' <= ep[0] <= 'h',
    ensures
        mirrored_castling(field).len() == field.len(),
        field[i] == 'K' <==> mirrored_castling(field)[i] == 'Q',
        field[i] == 'Q' <==> mirrored_castling(field)[i] == 'K',
        field[i] == 'k' <==> mirrored_castling(field)[i] == 'q',
        field[i] == 'q' <==> mirrored_castling(field)[i] == 'k',
        mirrored_ep(ep).len() == 2,
        mirrored_ep(ep)[0] as int - 'a' as int == 'h' as int - ep[0] as int,
        mirrored_ep(ep)[1] == ep[1],
        mirrored_ep(seq!['-']) == seq!['-'],
        mirrored_castling(seq!['-']) == seq!['-'],
{
    if ep == seq!['-'] {
        assert(ep.len() == 1);
    }
    if field == seq!['-'] {
        assert(field[i] == '-');
    }
}

/// Only the placement, the castling rights and the en-passant square change;
/// the side to move and the counters stay, and every row is mirrored in its
/// place.
pub proof fn law_other_fields_stay(fields: Seq<Seq<char>>, k: int, rows: Seq<Seq<char>>, i: int)
    requires
        0 <= k < fields.len(),
    ensures
        k == 1 || k >= 4 ==> mirrored_field(fields, k) == fields[k],
        k == 2 ==> mirrored_field(fields, k) == mirrored_castling(fields[k]),
        k == 3 ==> mirrored_field(fields, k) == mirrored_ep(fields[k]),
        mirrored_rows(rows).len() == rows.len(),
        0 <= i < rows.len() ==> mirrored_rows(rows)[i] == mirrored_row(rows[i]),
{
}

/// Scores are as far apart one way as the other, not at all exactly where they
/// are equal, and what is tolerated stays so under a higher limit.
pub proof fn law_divergence_is_a_distance(a: i16, b: i16, limit: int, higher: int)
    requires
        -29_000 <= a <= 29_000,
        -29_000 <= b <= 29_000,
        limit <= higher,
    ensures
        divergence(a as int, b as int) == divergence(b as int, a as int),
        divergence(a as int, b as int) == 0 <==> a == b,
        0 <= a - b < 32_768 ==> divergence(a as int, b as int) == a - b,
        tolerated(divergence(a as int, b as int), limit) ==> tolerated(
            divergence(a as int, b as int),
            higher,
        ),
        tolerated(limit, limit) && !tolerated(limit + 1, limit),
{
}

} // verus!
