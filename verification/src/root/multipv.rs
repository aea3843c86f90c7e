//! Lines shown at the root, and what kind of candidate each one is.

use vstd::prelude::*;

use crate::board::{Move, MoveType, Piece, Square};
use crate::text::from_chars;
use crate::world::PositionState;

verus! {

#[derive(Debug, Clone, Copy, PartialEq, Eq, Structural)]
pub enum CandidateClass {
    Tactical,
    Defensive,
    Stabilizing,
    Improving,
    Pressing,
    Attacking,
    MustTry,
    Conversion,
    Reset,
}

#[derive(Debug, Clone)]
pub struct MultipvLine {
    pub mv: Move,
    pub score: i16,
    pub pv: Vec<Move>,
    pub kind: &'static str,
}

/// Letter of a file.
pub open spec fn file_letter(file: int) -> char {
    if file == 0 {
        'a'
    } else if file == 1 {
        'b'
    } else if file == 2 {
        'c'
    } else if file == 3 {
        'd'
    } else if file == 4 {
        'e'
    } else if file == 5 {
        'f'
    } else if file == 6 {
        'g'
    } else {
        'h'
    }
}

/// Digit of a rank, counted from the eighth rank down.
pub open spec fn rank_digit(row: int) -> char {
    if row == 0 {
        '8'
    } else if row == 1 {
        '7'
    } else if row == 2 {
        '6'
    } else if row == 3 {
        '5'
    } else if row == 4 {
        '4'
    } else if row == 5 {
        '3'
    } else if row == 6 {
        '2'
    } else {
        '1'
    }
}

/// Name of a square.
pub open spec fn square_name(sq: Square) -> Seq<char> {
    seq![file_letter(sq as int % 8), rank_digit(sq as int / 8)]
}

/// Letter of the promotion piece, if any.
pub open spec fn promotion_letter(move_type: MoveType) -> Seq<char> {
    match move_type.promotion() {
        Piece::Knight => seq!['n'],
        Piece::Bishop => seq!['b'],
        Piece::Rook => seq!['r'],
        Piece::Queen => seq!['q'],
        _ => Seq::empty(),
    }
}

/// A move in coordinate notation.
pub open spec fn move_text(mv: Move) -> Seq<char> {
    square_name(mv.source) + square_name(mv.target) + promotion_letter(mv.move_type)
}

fn push_square(out: &mut Vec<char>, sq: Square)
    requires
        !(sq is NoSquare),
    ensures
        final(out)@ == old(out)@ + square_name(sq),
{
    let i: usize = sq as usize;
    let f: char = match i % 8 {
        0 => 'a',
        1 => 'b',
        2 => 'c',
        3 => 'd',
        4 => 'e',
        5 => 'f',
        6 => 'g',
        _ => 'h',
    };
    let r: char = match i / 8 {
        0 => '8',
        1 => '7',
        2 => '6',
        3 => '5',
        4 => '4',
        5 => '3',
        6 => '2',
        _ => '1',
    };
    out.push(f);
    out.push(r);
    assert(out@ =~= old(out)@ + square_name(sq));
}

impl MultipvLine {
    /// The move in coordinate notation.
    pub fn uci_string(&self) -> (r: String)
        requires
            !(self.mv.source is NoSquare),
            !(self.mv.target is NoSquare),
        ensures
            r@ == move_text(self.mv),
    {
        let mut out: Vec<char> = Vec::new();
        push_square(&mut out, self.mv.source);
        push_square(&mut out, self.mv.target);
        assert(out@ =~= square_name(self.mv.source) + square_name(self.mv.target));
        let ghost start = out@;
        match self.mv.move_type.promotion_piece() {
            Piece::Knight => {
                out.push('n');
            },
            Piece::Bishop => {
                out.push('b');
            },
            Piece::Rook => {
                out.push('r');
            },
            Piece::Queen => {
                out.push('q');
            },
            _ => {},
        }
        assert(out@ =~= start + promotion_letter(self.mv.move_type));
        from_chars(&out)
    }
}

/// Label of a candidate move: by the state of the position if it is within 25
/// of the best score, by the kind of move otherwise. While the position is
/// being reset a good candidate has no label.
pub open spec fn candidate_label(
    mv: Move,
    score: int,
    best_score: int,
    is_musttry: bool,
    state: PositionState,
) -> &'static str {
    let forcing = mv.move_type.captures() || !(mv.move_type.promotion() is NoPiece);
    if score < best_score - 25 {
        if forcing {
            "tactical-alt"
        } else {
            "quiet-alt"
        }
    } else if is_musttry {
        "must-try"
    } else {
        match state {
            PositionState::Convert => "conversion",
            PositionState::Crush => "conversion",
            PositionState::Defend => "defensive",
            PositionState::Attack => if forcing {
                "attack"
            } else {
                "attack-prep"
            },
            PositionState::Press => "press",
            PositionState::Improve => "improve",
            PositionState::Stabilize => "stabilize",
            PositionState::Reset => "",
        }
    }
}

pub fn classify_candidate(mv: Move, score: i16, best_score: i16) -> (r: &'static str)
    requires
        best_score - 25 >= i16::MIN,
    ensures
        r == candidate_label(mv, score as int, best_score as int, false, PositionState::Improve),
{
    classify_candidate_rich(mv, score, best_score, false, PositionState::Improve)
}

/// Labels a candidate move. A position that is being reset has no label for a
/// good candidate, so that state is asked for with must-try moves or weak
/// candidates only.
pub fn classify_candidate_rich(
    mv: Move,
    score: i16,
    best_score: i16,
    is_musttry: bool,
    state: PositionState,
) -> (r: &'static str)
    requires
        best_score - 25 >= i16::MIN,
        state is Reset ==> is_musttry || score < best_score - 25,
    ensures
        r == candidate_label(mv, score as int, best_score as int, is_musttry, state),
{
    let close_to_best: bool = score >= best_score - 25;
    let forcing: bool = mv.is_capture() || mv.is_promotion();
    if is_musttry && close_to_best {
        return "must-try";
    }
    if close_to_best {
        match state {
            PositionState::Convert => "conversion",
            PositionState::Crush => "conversion",
            PositionState::Defend => "defensive",
            PositionState::Attack => if forcing {
                "attack"
            } else {
                "attack-prep"
            },
            PositionState::Press => "press",
            PositionState::Improve => "improve",
            PositionState::Stabilize => "stabilize",
            PositionState::Reset => "",
        }
    } else if forcing {
        "tactical-alt"
    } else {
        "quiet-alt"
    }
}

/// Squares are named by a letter from a to h for the file and a digit for the
/// rank, which the rows count down from eight.
pub proof fn law_square_names(sq: Square)
    requires
        !(sq is NoSquare),
    ensures
        square_name(sq).len() == 2,
        square_name(sq)[0] as int == 'a' as int + sq as int % 8,
        square_name(sq)[1] as int == '8' as int - sq as int / 8,
{
}

/// A promotion is written with the first letter of the piece, a knight with its
/// second; any other move with nothing.
pub proof fn law_promotion_letters(kind: MoveType)
    ensures
        kind.promotion() is Queen <==> promotion_letter(kind) == seq!['q'],
        kind.promotion() is Rook <==> promotion_letter(kind) == seq!['r'],
        kind.promotion() is Bishop <==> promotion_letter(kind) == seq!['b'],
        kind.promotion() is Knight <==> promotion_letter(kind) == seq!['n'],
        promotion_letter(kind).len() == 0 <==> kind.promotion() is NoPiece || kind.promotion()
            is Pawn || kind.promotion() is King,
{
    assert(seq!['q'][0] == 'q' && seq!['r'][0] == 'r' && seq!['b'][0] == 'b' && seq!['n'][0]
        == 'n');
}

/// A candidate more than 25 behind the best is an alternative, whatever the
/// state of the game: a tactical one where it takes or promotes, else a quiet
/// one. Any other goes by whether it must be tried, and then by the state.
pub proof fn law_candidates(
    mv: Move,
    score: int,
    best: int,
    must: bool,
    state: PositionState,
)
    ensures
        best - score > 25 && mv.move_type.captures() ==> candidate_label(
            mv,
            score,
            best,
            must,
            state,
        ) == "tactical-alt",
        best - score > 25 && mv.move_type is Quiet ==> candidate_label(mv, score, best, must, state)
            == "quiet-alt",
        best - score > 25 && !(mv.move_type.promotion() is NoPiece) ==> candidate_label(
            mv,
            score,
            best,
            must,
            state,
        ) == "tactical-alt",
        best - score <= 25 ==> candidate_label(mv, score, best, false, PositionState::Press)
            == "press",
        best - score <= 25 ==> candidate_label(mv, score, best, false, PositionState::Stabilize)
            == "stabilize",
        best - score <= 25 ==> candidate_label(mv, score, best, false, PositionState::Convert)
            == "conversion",
        best - score <= 25 ==> candidate_label(mv, score, best, true, state) == "must-try",
        best - score <= 25 ==> candidate_label(mv, score, best, false, PositionState::Improve)
            == "improve",
        best - score <= 25 ==> candidate_label(mv, score, best, false, PositionState::Defend)
            == "defensive",
        best - score <= 25 ==> candidate_label(mv, score, best, false, PositionState::Crush)
            == candidate_label(mv, score, best, false, PositionState::Convert),
        best - score <= 25 && mv.move_type.captures() ==> candidate_label(
            mv,
            score,
            best,
            false,
            PositionState::Attack,
        ) == "attack",
        best - score <= 25 && mv.move_type is Quiet ==> candidate_label(
            mv,
            score,
            best,
            false,
            PositionState::Attack,
        ) == "attack-prep",
{
}

/// A move is written as the square it leaves, the square it goes to, and one
/// letter more for a promotion.
pub proof fn law_moves_are_written_from_to(mv: Move)
    ensures
        move_text(mv).take(2) == square_name(mv.source),
        move_text(mv).subrange(2, 4) == square_name(mv.target),
        mv.move_type.promotion() is NoPiece ==> move_text(mv).len() == 4,
        mv.move_type.promotion() is Queen ==> move_text(mv).len() == 5 && move_text(mv)[4] == 'q',
{
    assert(move_text(mv).take(2) =~= square_name(mv.source));
    assert(move_text(mv).subrange(2, 4) =~= square_name(mv.target));
}

} // verus!
