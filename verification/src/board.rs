//! The board vocabulary: sides, pieces, squares, moves and the position state
//! that the evaluation reads.

use vstd::prelude::*;

use crate::bits::{bit, is_set, lemma_bit_ops, with};
use crate::eval::nnue::accumulator::Accumulators;
use crate::eval::nnue::v16::eval::{Sfnn16Accs, SfnnPending};

verus! {

/// Number of squares on the board.
pub const SQUARES: usize = 64;

/// Number of piece kinds.
pub const PIECES: usize = 6;

/// Number of sides.
pub const SIDES: usize = 2;

/// Deepest ply that keeps killer moves.
pub const MAX_PLY: usize = 64;

#[derive(Clone, Copy, Debug, PartialEq, Eq, Structural)]
pub enum Side {
    White,
    Black,
    Both,
}

impl Side {
    /// Index of a side in per-side tables.
    pub open spec fn ix(self) -> int {
        self as int
    }

    /// The opposing side; `Both` has no opponent but itself.
    pub open spec fn other_spec(self) -> Side {
        match self {
            Side::White => Side::Black,
            Side::Black => Side::White,
            Side::Both => Side::Both,
        }
    }

    pub fn other(self) -> (r: Side)
        ensures
            r == self.other_spec(),
    {
        match self {
            Side::White => Side::Black,
            Side::Black => Side::White,
            Side::Both => Side::Both,
        }
    }
}

#[derive(Clone, Copy, Debug, PartialEq, Eq, Structural)]
pub enum Piece {
    Pawn,
    Knight,
    Bishop,
    Rook,
    Queen,
    King,
    NoPiece,
}

impl Piece {
    /// The six kinds in index order.
    pub const ALL: [Piece; 6] = [
        Piece::Pawn,
        Piece::Knight,
        Piece::Bishop,
        Piece::Rook,
        Piece::Queen,
        Piece::King,
    ];

    /// The kind with index `i`; every index past the king means no piece.
    pub open spec fn of_index(i: int) -> Piece {
        if i == 0 {
            Piece::Pawn
        } else if i == 1 {
            Piece::Knight
        } else if i == 2 {
            Piece::Bishop
        } else if i == 3 {
            Piece::Rook
        } else if i == 4 {
            Piece::Queen
        } else if i == 5 {
            Piece::King
        } else {
            Piece::NoPiece
        }
    }

    pub fn from_index(i: usize) -> (r: Piece)
        ensures
            r == Piece::of_index(i as int),
    {
        match i {
            0 => Piece::Pawn,
            1 => Piece::Knight,
            2 => Piece::Bishop,
            3 => Piece::Rook,
            4 => Piece::Queen,
            5 => Piece::King,
            _ => Piece::NoPiece,
        }
    }
}

/// Squares from the eighth rank down, `A8` first.
#[derive(Clone, Copy, Debug, PartialEq, Eq, Structural)]
pub enum Square {
    A8, B8, C8, D8, E8, F8, G8, H8,
    A7, B7, C7, D7, E7, F7, G7, H7,
    A6, B6, C6, D6, E6, F6, G6, H6,
    A5, B5, C5, D5, E5, F5, G5, H5,
    A4, B4, C4, D4, E4, F4, G4, H4,
    A3, B3, C3, D3, E3, F3, G3, H3,
    A2, B2, C2, D2, E2, F2, G2, H2,
    A1, B1, C1, D1, E1, F1, G1, H1,
    NoSquare,
}

impl Square {
    pub fn from_index(i: usize) -> (r: Square)
        ensures
            i < 64 ==> r as usize == i,
            i >= 64 ==> r is NoSquare,
    {
        match i {
            0 => Square::A8,
            1 => Square::B8,
            2 => Square::C8,
            3 => Square::D8,
            4 => Square::E8,
            5 => Square::F8,
            6 => Square::G8,
            7 => Square::H8,
            8 => Square::A7,
            9 => Square::B7,
            10 => Square::C7,
            11 => Square::D7,
            12 => Square::E7,
            13 => Square::F7,
            14 => Square::G7,
            15 => Square::H7,
            16 => Square::A6,
            17 => Square::B6,
            18 => Square::C6,
            19 => Square::D6,
            20 => Square::E6,
            21 => Square::F6,
            22 => Square::G6,
            23 => Square::H6,
            24 => Square::A5,
            25 => Square::B5,
            26 => Square::C5,
            27 => Square::D5,
            28 => Square::E5,
            29 => Square::F5,
            30 => Square::G5,
            31 => Square::H5,
            32 => Square::A4,
            33 => Square::B4,
            34 => Square::C4,
            35 => Square::D4,
            36 => Square::E4,
            37 => Square::F4,
            38 => Square::G4,
            39 => Square::H4,
            40 => Square::A3,
            41 => Square::B3,
            42 => Square::C3,
            43 => Square::D3,
            44 => Square::E3,
            45 => Square::F3,
            46 => Square::G3,
            47 => Square::H3,
            48 => Square::A2,
            49 => Square::B2,
            50 => Square::C2,
            51 => Square::D2,
            52 => Square::E2,
            53 => Square::F2,
            54 => Square::G2,
            55 => Square::H2,
            56 => Square::A1,
            57 => Square::B1,
            58 => Square::C1,
            59 => Square::D1,
            60 => Square::E1,
            61 => Square::F1,
            62 => Square::G1,
            63 => Square::H1,
            _ => Square::NoSquare,
        }
    }
}

#[derive(Clone, Copy, Debug, PartialEq, Eq, Structural)]
pub enum MoveType {
    Quiet,
    DoublePush,
    KingSideCastle,
    QueenSideCastle,
    Capture,
    EnPassant,
    KnightPromotion,
    BishopPromotion,
    RookPromotion,
    QueenPromotion,
    KnightPromotionCapture,
    BishopPromotionCapture,
    RookPromotionCapture,
    QueenPromotionCapture,
}

impl MoveType {
    /// The piece a pawn turns into, if the move promotes.
    pub open spec fn promotion(self) -> Piece {
        match self {
            MoveType::KnightPromotion => Piece::Knight,
            MoveType::KnightPromotionCapture => Piece::Knight,
            MoveType::BishopPromotion => Piece::Bishop,
            MoveType::BishopPromotionCapture => Piece::Bishop,
            MoveType::RookPromotion => Piece::Rook,
            MoveType::RookPromotionCapture => Piece::Rook,
            MoveType::QueenPromotion => Piece::Queen,
            MoveType::QueenPromotionCapture => Piece::Queen,
            _ => Piece::NoPiece,
        }
    }

    /// Whether the move takes a piece.
    pub open spec fn captures(self) -> bool {
        match self {
            MoveType::Capture => true,
            MoveType::EnPassant => true,
            MoveType::KnightPromotionCapture => true,
            MoveType::BishopPromotionCapture => true,
            MoveType::RookPromotionCapture => true,
            MoveType::QueenPromotionCapture => true,
            _ => false,
        }
    }

    pub fn promotion_piece(self) -> (r: Piece)
        ensures
            r == self.promotion(),
    {
        match self {
            MoveType::KnightPromotion => Piece::Knight,
            MoveType::KnightPromotionCapture => Piece::Knight,
            MoveType::BishopPromotion => Piece::Bishop,
            MoveType::BishopPromotionCapture => Piece::Bishop,
            MoveType::RookPromotion => Piece::Rook,
            MoveType::RookPromotionCapture => Piece::Rook,
            MoveType::QueenPromotion => Piece::Queen,
            MoveType::QueenPromotionCapture => Piece::Queen,
            _ => Piece::NoPiece,
        }
    }
}

#[derive(Clone, Copy, Debug, PartialEq, Eq, Structural)]
pub struct Move {
    pub source: Square,
    pub target: Square,
    pub move_type: MoveType,
}

impl Move {
    /// The absent move.
    pub open spec fn absent() -> Move {
        Move {
            source: Square::NoSquare,
            target: Square::NoSquare,
            move_type: MoveType::Quiet,
        }
    }

    /// The absent move.
    pub fn no_move() -> (r: Move)
        ensures
            r == Move::absent(),
    {
        Move {
            source: Square::NoSquare,
            target: Square::NoSquare,
            move_type: MoveType::Quiet,
        }
    }

    pub fn new(source: Square, target: Square, move_type: MoveType) -> (r: Move)
        ensures
            r == (Move { source, target, move_type }),
    {
        Move { source, target, move_type }
    }

    pub fn is_capture(&self) -> (r: bool)
        ensures
            r == self.move_type.captures(),
    {
        match self.move_type {
            MoveType::Capture => true,
            MoveType::EnPassant => true,
            MoveType::KnightPromotionCapture => true,
            MoveType::BishopPromotionCapture => true,
            MoveType::RookPromotionCapture => true,
            MoveType::QueenPromotionCapture => true,
            _ => false,
        }
    }

    pub fn is_promotion(&self) -> (r: bool)
        ensures
            r == !(self.move_type.promotion() is NoPiece),
    {
        self.move_type.promotion_piece() != Piece::NoPiece
    }
}

/// A move with the score that orders it.
#[derive(Clone, Copy, Debug, PartialEq, Eq, Structural)]
pub struct ScoredMove {
    pub mv: Move,
    pub score: i32,
}

/// Attack facts about one node, as the board computes them.
#[derive(Clone, Copy, Debug, PartialEq, Eq)]
pub struct NodeThreats {
    pub checkers: u64,
    pub pinned: u64,
    pub check_squares: [u64; 6],
    pub threats_us: [u64; 6],
    pub threats_them: [u64; 6],
}

/// Per-ply evaluation state, newest at `index`.
pub struct History {
    pub index: usize,
    pub accumulators: Vec<Accumulators>,
    pub computed: Vec<bool>,
    pub sfnn16: Vec<Sfnn16Accs>,
    pub sfnn16_computed: Vec<[bool; 2]>,
    pub sfnn16_pending: Vec<SfnnPending>,
}

impl History {
    /// The part that belongs to the v16 network is the same.
    pub open spec fn same_v16(&self, other: &History) -> bool {
        &&& self.index == other.index
        &&& self.sfnn16 == other.sfnn16
        &&& self.sfnn16_computed == other.sfnn16_computed
        &&& self.sfnn16_pending == other.sfnn16_pending
    }

    /// The marks of the newest ply were withdrawn; all else is the same.
    pub open spec fn unmarked(&self, other: &History) -> bool {
        let idx = other.index as int;
        &&& self.index == other.index
        &&& self.accumulators == other.accumulators
        &&& self.sfnn16 == other.sfnn16
        &&& self.sfnn16_pending == other.sfnn16_pending
        &&& self.computed@ == if idx < other.computed.len() {
            other.computed@.update(idx, false)
        } else {
            other.computed@
        }
        &&& self.sfnn16_computed@ == if idx < other.sfnn16_computed.len() {
            other.sfnn16_computed@.update(idx, [false, false])
        } else {
            other.sfnn16_computed@
        }
    }
}

/// A position: who stands where, who moves, and the per-ply history.
pub struct BoardState {
    pub pieces: [u64; 6],
    pub occupancies: [u64; 2],
    pub piece_mapping: [Piece; 64],
    pub side_to_move: Side,
    pub half_move_clock: u8,
    pub board_hash: u64,
    pub history: History,
}

impl BoardState {
    /// The squares holding `piece` of `side`.
    pub open spec fn pieces_of(&self, side: Side, piece: Piece) -> u64 {
        self.pieces@[piece as int] & self.occupancies@[side as int]
    }

    /// Everything but the history is the same.
    pub open spec fn same_position(&self, other: &BoardState) -> bool {
        &&& self.pieces == other.pieces
        &&& self.occupancies == other.occupancies
        &&& self.piece_mapping == other.piece_mapping
        &&& self.side_to_move == other.side_to_move
        &&& self.half_move_clock == other.half_move_clock
        &&& self.board_hash == other.board_hash
    }

    /// Index of the coloured piece on a square: kind, plus six for Black.
    pub open spec fn piece_on(&self, sq: Square) -> int {
        if sq is NoSquare || self.piece_mapping@[sq as int] is NoPiece {
            -1
        } else if bit(self.occupancies@[1], sq as int) {
            self.piece_mapping@[sq as int] as int + 6
        } else {
            self.piece_mapping@[sq as int] as int
        }
    }

    /// The squares holding `piece` of `side`.
    pub fn get_pieces(&self, side: Side, piece: Piece) -> (r: u64)
        requires
            !(side is Both),
            !(piece is NoPiece),
        ensures
            r == self.pieces_of(side, piece),
    {
        self.pieces[piece as usize] & self.occupancies[side as usize]
    }

    /// Every occupied square.
    pub fn occupancy(&self) -> (r: u64)
        ensures
            r == self.occupancies@[0] | self.occupancies@[1],
    {
        self.occupancies[0] | self.occupancies[1]
    }

    /// Index of the coloured piece on `sq`, or a negative number for none.
    pub fn get_piece_on(&self, sq: Square) -> (r: i32)
        ensures
            r == self.piece_on(sq),
            -1 <= r < 12,
    {
        if sq == Square::NoSquare {
            return -1;
        }
        let s: usize = sq as usize;
        let p: Piece = self.piece_mapping[s];
        if p == Piece::NoPiece {
            return -1;
        }
        if is_set(self.occupancies[1], s) {
            p as i32 + 6
        } else {
            p as i32
        }
    }

    /// Kind of the piece that `side` has on `sq`; the index of no piece otherwise.
    pub open spec fn piece_of_side_on(&self, sq: Square, side: Side) -> int {
        if !(sq is NoSquare) && !(side is Both) && bit(self.occupancies@[side as int], sq as int) {
            self.piece_mapping@[sq as int] as int
        } else {
            6
        }
    }

    pub fn get_piece_on_side(&self, sq: Square, side: Side) -> (r: usize)
        ensures
            r == self.piece_of_side_on(sq, side),
            r <= 6,
    {
        if sq == Square::NoSquare || side == Side::Both {
            return 6;
        }
        let s: usize = sq as usize;
        if is_set(self.occupancies[side as usize], s) {
            self.piece_mapping[s] as usize
        } else {
            6
        }
    }

    /// An empty board with White to move and one blank history entry.
    pub fn new() -> (r: BoardState)
        ensures
            forall|i: int| 0 <= i < 6 ==> r.pieces@[i] == 0,
            r.occupancies@ == seq![0u64, 0u64],
            forall|i: int| 0 <= i < 64 ==> r.piece_mapping@[i] is NoPiece,
            r.side_to_move is White,
            r.half_move_clock == 0,
            r.board_hash == 0,
            r.history.index == 0,
            r.history.accumulators.len() == 1,
            r.history.accumulators@[0].white.is_zero(),
            r.history.accumulators@[0].black.is_zero(),
            r.history.computed@ == seq![false],
            r.history.sfnn16.len() == 1,
            r.history.sfnn16@[0].is_empty(),
            r.history.sfnn16_computed@ == seq![[false, false]],
            r.history.sfnn16_pending.len() == 1,
            r.history.sfnn16_pending@[0].is_clear(),
    {
        let mut accumulators: Vec<Accumulators> = Vec::new();
        accumulators.push(Accumulators::new());
        let mut computed: Vec<bool> = Vec::new();
        computed.push(false);
        let mut sfnn16: Vec<Sfnn16Accs> = Vec::new();
        sfnn16.push(Sfnn16Accs::empty());
        let mut sfnn16_computed: Vec<[bool; 2]> = Vec::new();
        sfnn16_computed.push([false, false]);
        let mut sfnn16_pending: Vec<SfnnPending> = Vec::new();
        sfnn16_pending.push(SfnnPending::new());
        BoardState {
            pieces: [0u64; 6],
            occupancies: [0u64; 2],
            piece_mapping: [Piece::NoPiece; 64],
            side_to_move: Side::White,
            half_move_clock: 0,
            board_hash: 0,
            history: History {
                index: 0,
                accumulators,
                computed,
                sfnn16,
                sfnn16_computed,
                sfnn16_pending,
            },
        }
    }

    /// Puts a piece on a square. The sums of the newest ply are then no longer
    /// those of the position, and lose their marks.
    pub fn add_piece(&mut self, sq: Square, side: Side, piece: Piece)
        requires
            !(sq is NoSquare),
            !(side is Both),
            !(piece is NoPiece),
        ensures
            final(self).piece_mapping@ == old(self).piece_mapping@.update(sq as int, piece),
            forall|i: int, s: int|
                0 <= i < 6 && 0 <= s < 64 ==> #[trigger] bit(final(self).pieces@[i], s) == (bit(
                    old(self).pieces@[i],
                    s,
                ) || (i == piece as int && s == sq as int)),
            forall|i: int, s: int|
                0 <= i < 2 && 0 <= s < 64 ==> #[trigger] bit(final(self).occupancies@[i], s) == (
                bit(old(self).occupancies@[i], s) || (i == side as int && s == sq as int)),
            final(self).side_to_move == old(self).side_to_move,
            final(self).half_move_clock == old(self).half_move_clock,
            final(self).board_hash == old(self).board_hash,
            final(self).history.unmarked(&old(self).history),
    {
        let idx: usize = self.history.index;
        if idx < self.history.computed.len() {
            self.history.computed[idx] = false;
        }
        if idx < self.history.sfnn16_computed.len() {
            self.history.sfnn16_computed[idx] = [false, false];
        }
        let s: usize = sq as usize;
        self.pieces[piece as usize] = with(self.pieces[piece as usize], s);
        self.occupancies[side as usize] = with(self.occupancies[side as usize], s);
        self.piece_mapping[s] = piece;
    }
}

/// The coloured piece on a square: its kind, six more where the square is one
/// of Black's, nothing on an empty square.
pub proof fn law_piece_on(board: &BoardState, sq: Square)
    requires
        !(sq is NoSquare),
    ensures
        board.piece_mapping@[sq as int] is NoPiece <==> board.piece_on(sq) == -1,
        !(board.piece_mapping@[sq as int] is NoPiece) && bit(board.occupancies@[1], sq as int)
            ==> board.piece_on(sq) - 6 == board.piece_mapping@[sq as int] as int,
        !(board.piece_mapping@[sq as int] is NoPiece) && !bit(board.occupancies@[1], sq as int)
            ==> board.piece_on(sq) == board.piece_mapping@[sq as int] as int,
        board.piece_of_side_on(sq, Side::White) == if bit(board.occupancies@[0], sq as int) {
            board.piece_mapping@[sq as int] as int
        } else {
            6
        },
        board.piece_of_side_on(sq, Side::Black) == if bit(board.occupancies@[1], sq as int) {
            board.piece_mapping@[sq as int] as int
        } else {
            6
        },
{
}

/// The pieces of a side are those of the kind on the side's squares.
pub proof fn law_pieces_of_a_side(board: &BoardState, piece: Piece, s: int)
    requires
        0 <= s < 64,
        !(piece is NoPiece),
    ensures
        bit(board.pieces_of(Side::White, piece), s) <==> bit(board.pieces@[piece as int], s) && bit(
            board.occupancies@[0],
            s,
        ),
        bit(board.pieces_of(Side::Black, piece), s) <==> bit(board.pieces@[piece as int], s) && bit(
            board.occupancies@[1],
            s,
        ),
{
    lemma_bit_ops(board.pieces@[piece as int], board.occupancies@[0], s);
    lemma_bit_ops(board.pieces@[piece as int], board.occupancies@[1], s);
}

/// Kinds are numbered from pawn to king, and the two sides face each other.
pub proof fn law_numbers_of_kinds(piece: Piece, side: Side, i: int)
    ensures
        Piece::of_index(piece as int) == piece,
        0 <= i < 6 ==> Piece::of_index(i) as int == i,
        Piece::Pawn as int == 0 && Piece::Knight as int == 1 && Piece::Bishop as int == 2,
        Piece::Rook as int == 3 && Piece::Queen as int == 4 && Piece::King as int == 5,
        side.other_spec().other_spec() == side,
        !(side is Both) ==> side.other_spec() != side && !(side.other_spec() is Both),
        Side::White as int == 0 && Side::Black as int == 1,
{
}

} // verus!
