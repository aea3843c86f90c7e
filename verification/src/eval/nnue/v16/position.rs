//! A position in network numbering (`A1` is square 0) and its king-relative
//! piece features.

use vstd::prelude::*;

use crate::bits::{
    bit, chosen, flip_ranks, is_set, lemma_bit_ops, lemma_chosen_empty, lemma_chosen_step,
    lemma_same_bits, lemma_xor64, pop, popcount,
};
use crate::board::{BoardState, Piece, Side};
use crate::eval::nnue::v16::arch::{KING_BUCKET_COUNT, PSQ_DIMS, PS_PLANES};

verus! {

/// Board numbering to network numbering, and back: the ranks in reverse order.
pub fn to_sf(sq: usize) -> (r: usize)
    ensures
        r == sq ^ 56,
        sq < 64 ==> r < 64,
{
    proof {
        if sq < 64 {
            lemma_xor64(sq, 56);
        }
    }
    sq ^ 56
}

/// Converting a square twice gives it back.
pub proof fn law_to_sf_involution(sq: usize)
    requires
        sq < 64,
    ensures
        (sq ^ 56) ^ 56 == sq,
        (sq ^ 56) < 64,
{
    lemma_xor64(sq, 56);
}

/// Mirror applied to every square while the king stands on files a to d.
pub open spec fn halfka_mirror(ksq: int) -> usize {
    if ksq % 8 < 4 {
        7
    } else {
        0
    }
}

pub fn halfka_orient(ksq_sf: usize) -> (r: usize)
    ensures
        r == halfka_mirror(ksq_sf as int),
{
    if ksq_sf % 8 < 4 {
        7
    } else {
        0
    }
}

/// Code of a coloured piece: 1 to 6 for White, 9 to 14 for Black.
pub open spec fn piece_code_spec(side: Side, piece: Piece) -> int {
    piece as int + 1 + if side is Black {
        8int
    } else {
        0int
    }
}

pub fn sf_piece_code(side: Side, piece: Piece) -> (r: usize)
    ensures
        r == piece_code_spec(side, piece),
{
    let base: usize = piece as usize + 1;
    if side == Side::Black {
        base + 8
    } else {
        base
    }
}

/// Piece sets per kind and per colour, and the kind on every square.
#[derive(Clone, Copy, Debug)]
pub struct SfnnPosition {
    pub pieces: [u64; 6],
    pub white: u64,
    pub black: u64,
    pub mapping: [u8; 64],
}

impl SfnnPosition {
    /// The squares of one side; everything but White reads as Black.
    pub open spec fn side_bb(&self, side: Side) -> u64 {
        if side is White {
            self.white
        } else {
            self.black
        }
    }

    /// The kings of one side.
    pub open spec fn kings(&self, side: Side) -> u64 {
        self.pieces@[5] & self.side_bb(side)
    }

    /// The lowest king square of one side, 64 when there is none.
    pub open spec fn king_square_spec(&self, side: Side) -> int {
        vstd::std_specs::bits::u64_trailing_zeros(self.kings(side)) as int
    }

    pub open spec fn occupied_spec(&self) -> u64 {
        self.white | self.black
    }

    /// Whether this is the position of a placement, numbered from the first
    /// rank.
    pub open spec fn shows(
        &self,
        pieces: Seq<u64>,
        occupancies: Seq<u64>,
        mapping: Seq<Piece>,
    ) -> bool {
        &&& forall|k: int, s: int|
            0 <= k < 6 && 0 <= s < 64 ==> #[trigger] bit(self.pieces@[k], s) == bit(
                pieces[k],
                ((s as usize) ^ 56) as int,
            )
        &&& forall|s: int|
            0 <= s < 64 ==> #[trigger] bit(self.white, s) == bit(
                occupancies[0],
                ((s as usize) ^ 56) as int,
            )
        &&& forall|s: int|
            0 <= s < 64 ==> #[trigger] bit(self.black, s) == bit(
                occupancies[1],
                ((s as usize) ^ 56) as int,
            )
        &&& forall|s: int|
            0 <= s < 64 ==> #[trigger] self.mapping@[s] == mapping[((s as usize) ^ 56) as int] as int
    }

    /// Whether this is a board's position, numbered from the first rank.
    pub open spec fn mirrors(&self, board: &BoardState) -> bool {
        self.shows(board.pieces@, board.occupancies@, board.piece_mapping@)
    }

    /// The position of a placement, numbered from the first rank.
    pub open spec fn shown(
        pieces: Seq<u64>,
        occupancies: Seq<u64>,
        mapping: Seq<Piece>,
    ) -> SfnnPosition {
        choose|p: SfnnPosition| #[trigger] p.shows(pieces, occupancies, mapping)
    }

    /// The position of a board, numbered from the first rank.
    pub open spec fn of(board: &BoardState) -> SfnnPosition {
        SfnnPosition::shown(board.pieces@, board.occupancies@, board.piece_mapping@)
    }

    /// A board has only one position.
    pub proof fn law_position_unique(a: &SfnnPosition, b: &SfnnPosition, board: &BoardState)
        requires
            a.mirrors(board),
            b.mirrors(board),
        ensures
            *a == *b,
    {
        assert forall|k: int| 0 <= k < 6 implies #[trigger] a.pieces@[k] == b.pieces@[k] by {
            assert forall|s: int| 0 <= s < 64 implies #[trigger] bit(a.pieces@[k], s) == bit(
                b.pieces@[k],
                s,
            ) by {
                let x = bit(a.pieces@[k], s);
                let y = bit(b.pieces@[k], s);
            }
            lemma_same_bits(a.pieces@[k], b.pieces@[k]);
        }
        assert forall|s: int| 0 <= s < 64 implies #[trigger] bit(a.white, s) == bit(b.white, s) by {
            let y = bit(b.white, s);
        }
        lemma_same_bits(a.white, b.white);
        assert forall|s: int| 0 <= s < 64 implies #[trigger] bit(a.black, s) == bit(b.black, s) by {
            let y = bit(b.black, s);
        }
        lemma_same_bits(a.black, b.black);
        assert forall|s: int| 0 <= s < 64 implies #[trigger] a.mapping@[s] == b.mapping@[s] by {
            let y = b.mapping@[s];
        }
        assert(a.pieces@ =~= b.pieces@);
        assert(a.mapping@ =~= b.mapping@);
        assert(a.pieces =~= b.pieces);
        assert(a.mapping =~= b.mapping);
    }

    /// The same position numbered from the first rank.
    pub fn from_board(board: &BoardState) -> (r: SfnnPosition)
        ensures
            r.mirrors(board),
            r == SfnnPosition::of(board),
    {
        let mut pieces: [u64; 6] = [0u64; 6];
        let mut p: usize = 0;
        while p < 6
            invariant
                p <= 6,
                forall|k: int, s: int|
                    0 <= k < p && 0 <= s < 64 ==> #[trigger] bit(pieces@[k], s) == bit(
                        board.pieces@[k],
                        ((s as usize) ^ 56) as int,
                    ),
            decreases 6 - p,
        {
            let ghost before = pieces@;
            pieces[p] = flip_ranks(board.pieces[p]);
            assert forall|k: int, s: int| 0 <= k < p + 1 && 0 <= s < 64 implies #[trigger] bit(
                pieces@[k],
                s,
            ) == bit(board.pieces@[k], ((s as usize) ^ 56) as int) by {
                if k < p {
                    assert(pieces@[k] == before[k]);
                    assert(bit(before[k], s) == bit(
                        board.pieces@[k],
                        ((s as usize) ^ 56) as int,
                    ));
                }
            }
            p = p + 1;
        }
        let mut mapping: [u8; 64] = [6u8; 64];
        let mut i: usize = 0;
        while i < 64
            invariant
                i <= 64,
                forall|s: int|
                    0 <= s < i ==> #[trigger] mapping@[s] == board.piece_mapping@[((s as usize)
                        ^ 56) as int] as int,
            decreases 64 - i,
        {
            proof {
                lemma_xor64(i, 56);
            }
            mapping[i] = board.piece_mapping[i ^ 56] as u8;
            i = i + 1;
        }
        let r: SfnnPosition = SfnnPosition {
            pieces,
            white: flip_ranks(board.occupancies[0]),
            black: flip_ranks(board.occupancies[1]),
            mapping,
        };
        proof {
            assert(r.mirrors(board));
            SfnnPosition::law_position_unique(&r, &SfnnPosition::of(board), board);
        }
        r
    }

    pub fn occupied(&self) -> (r: u64)
        ensures
            r == self.occupied_spec(),
    {
        self.white | self.black
    }

    pub fn king_square(&self, perspective: Side) -> (r: usize)
        ensures
            r == self.king_square_spec(perspective),
            r <= 64,
            r < 64 <==> self.kings(perspective) != 0,
            r < 64 ==> bit(self.kings(perspective), r as int),
            forall|s: int| 0 <= s < r ==> !bit(self.kings(perspective), s),
    {
        let side: u64 = if perspective == Side::White {
            self.white
        } else {
            self.black
        };
        let bb: u64 = self.pieces[5] & side;
        proof {
            vstd::std_specs::bits::axiom_u64_trailing_zeros(bb);
            assert forall|s: int| 0 <= s < bb.trailing_zeros() implies !bit(bb, s) by {
                let j = s as u64;
                assert((bb >> j) & 1u64 == 0u64);
            }
        }
        bb.trailing_zeros() as usize
    }

    pub fn piece_count(&self) -> (r: usize)
        ensures
            r == pop(self.occupied_spec()),
            r <= 64,
    {
        popcount(self.white | self.black) as usize
    }
}

/// Whether both sides have a king.
pub open spec fn kings_present_spec(pos: &SfnnPosition) -> bool {
    pos.kings(Side::White) != 0 && pos.kings(Side::Black) != 0
}

pub fn kings_present(pos: &SfnnPosition) -> (r: bool)
    ensures
        r == kings_present_spec(pos),
{
    (pos.pieces[5] & pos.white) != 0 && (pos.pieces[5] & pos.black) != 0
}

/// Rank flip of a perspective.
pub open spec fn flip_of(perspective: Side) -> usize {
    if perspective is Black {
        56
    } else {
        0
    }
}

/// King bucket: four columns by eight ranks, numbered from the far rank.
pub open spec fn king_bucket(sq: int) -> int {
    4 * (7 - sq / 8) + if sq % 8 < 4 {
        sq % 8
    } else {
        7 - sq % 8
    }
}

/// Plane of a piece: own and enemy kinds apart, all kings together.
pub open spec fn piece_plane(perspective: Side, side: Side, piece: Piece) -> int {
    if piece is King {
        640
    } else {
        piece as int * 128 + if side == perspective {
            0int
        } else {
            64int
        }
    }
}

/// Index of the feature "this piece stands there", seen from one king.
pub open spec fn halfka_feature(
    perspective: Side,
    side: Side,
    piece: Piece,
    sq: usize,
    ksq: usize,
) -> int {
    (sq ^ halfka_mirror(ksq as int) ^ flip_of(perspective)) as int + piece_plane(
        perspective,
        side,
        piece,
    ) + king_bucket((ksq ^ flip_of(perspective)) as int) * 704
}

/// Every feature index lies in the piece-square block.
pub proof fn law_halfka_in_range(
    perspective: Side,
    side: Side,
    piece: Piece,
    sq: usize,
    ksq: usize,
)
    requires
        !(piece is NoPiece),
        sq < 64,
        ksq < 64,
    ensures
        0 <= halfka_feature(perspective, side, piece, sq, ksq) < PSQ_DIMS,
        (sq ^ halfka_mirror(ksq as int) ^ flip_of(perspective)) < 64,
        0 <= king_bucket((ksq ^ flip_of(perspective)) as int) < KING_BUCKET_COUNT,
{
    lemma_xor64(sq, halfka_mirror(ksq as int));
    lemma_xor64(sq ^ halfka_mirror(ksq as int), flip_of(perspective));
    lemma_xor64(ksq, flip_of(perspective));
}

/// For one king square a feature index names one square and one plane.
pub proof fn law_halfka_injective(
    perspective: Side,
    side1: Side,
    piece1: Piece,
    sq1: usize,
    side2: Side,
    piece2: Piece,
    sq2: usize,
    ksq: usize,
)
    requires
        !(piece1 is NoPiece),
        !(piece2 is NoPiece),
        sq1 < 64,
        sq2 < 64,
        ksq < 64,
        halfka_feature(perspective, side1, piece1, sq1, ksq) == halfka_feature(
            perspective,
            side2,
            piece2,
            sq2,
            ksq,
        ),
    ensures
        sq1 == sq2,
        piece1 == piece2,
        piece1 is King || (side1 == perspective) == (side2 == perspective),
{
    let m = halfka_mirror(ksq as int);
    let f = flip_of(perspective);
    lemma_xor64(sq1, m);
    lemma_xor64(sq1 ^ m, f);
    lemma_xor64(sq2, m);
    lemma_xor64(sq2 ^ m, f);
    let p1 = piece_plane(perspective, side1, piece1);
    let p2 = piece_plane(perspective, side2, piece2);
    assert(p1 % 64 == 0 && p2 % 64 == 0);
    assert(p1 == p2 && (sq1 ^ m) ^ f == (sq2 ^ m) ^ f);
}

/// A position and its colour-swapped mirror image look the same to both sides.
pub proof fn law_halfka_colour_symmetry(side: Side, piece: Piece, sq: usize, ksq: usize)
    requires
        sq < 64,
        ksq < 64,
        !(side is Both),
    ensures
        halfka_feature(Side::Black, side.other_spec(), piece, sq ^ 56, ksq ^ 56) == halfka_feature(
            Side::White,
            side,
            piece,
            sq,
            ksq,
        ),
{
    let m = halfka_mirror(ksq as int);
    lemma_xor64(ksq, 56);
    lemma_xor64(sq, 56);
    assert((ksq ^ 56) % 8 == ksq % 8 && (sq ^ 56) ^ m ^ 56 == sq ^ m ^ 0 && ksq ^ 0 == ksq)
        by (bit_vector)
        requires
            ksq < 64,
            sq < 64,
            m < 64,
    ;
}

pub fn halfka_index(
    perspective: Side,
    side: Side,
    piece: Piece,
    sq_sf: usize,
    ksq_sf: usize,
) -> (r: Option<usize>)
    requires
        sq_sf < 64,
        ksq_sf < 64,
    ensures
        r is None <==> piece is NoPiece,
        r matches Some(f) ==> f == halfka_feature(perspective, side, piece, sq_sf, ksq_sf) && f
            < PSQ_DIMS,
{
    if piece == Piece::NoPiece {
        return None;
    }
    proof {
        law_halfka_in_range(perspective, side, piece, sq_sf, ksq_sf);
        lemma_xor64(ksq_sf, flip_of(perspective));
    }
    let flip: usize = if perspective == Side::Black {
        56
    } else {
        0
    };
    let oriented: usize = sq_sf ^ halfka_orient(ksq_sf) ^ flip;
    let plane: usize = if piece == Piece::King {
        640
    } else {
        (piece as usize) * 128 + if side == perspective {
            0
        } else {
            64
        }
    };
    let king: usize = ksq_sf ^ flip;
    let file: usize = king % 8;
    let bucket: usize = 4 * (7 - king / 8) + if file < 4 {
        file
    } else {
        7 - file
    };
    Some(oriented + plane + bucket * PS_PLANES)
}

/// Who stands on a square, as far as the piece features see it.
pub struct Placement {
    pub occupied: u64,
    pub white: u64,
    pub mapping: Seq<u8>,
}

impl Placement {
    /// Colour of the piece on a square.
    pub open spec fn side_on(self, s: int) -> Side {
        if bit(self.white, s) {
            Side::White
        } else {
            Side::Black
        }
    }

    /// Whether a square carries a feature.
    pub open spec fn active(self, s: int) -> bool {
        bit(self.occupied, s) && self.mapping[s] <= 5
    }

    /// The feature of an active square.
    pub open spec fn feature(self, perspective: Side, ksq: int, s: int) -> int {
        halfka_feature(
            perspective,
            self.side_on(s),
            Piece::of_index(self.mapping[s] as int),
            s as usize,
            ksq as usize,
        )
    }

    /// The features of the squares below `n`, in square order.
    pub open spec fn features(self, perspective: Side, ksq: int, n: int) -> Seq<int>
        decreases n,
    {
        if n <= 0 {
            Seq::empty()
        } else if self.active(n - 1) {
            self.features(perspective, ksq, n - 1).push(self.feature(perspective, ksq, n - 1))
        } else {
            self.features(perspective, ksq, n - 1)
        }
    }
}

impl SfnnPosition {
    pub open spec fn placement(&self) -> Placement {
        Placement { occupied: self.occupied_spec(), white: self.white, mapping: self.mapping@ }
    }

    /// All piece features of one perspective; none without its king.
    pub open spec fn halfka_features(&self, perspective: Side) -> Seq<int> {
        if self.kings(perspective) == 0 {
            Seq::empty()
        } else {
            self.placement().features(perspective, self.king_square_spec(perspective), 64)
        }
    }
}

/// The numbers in a vector of indices.
pub open spec fn ints(v: Seq<usize>) -> Seq<int> {
    Seq::new(v.len(), |i: int| v[i] as int)
}

/// Appends one number to a vector of indices.
pub proof fn lemma_ints_push(v: Seq<usize>, x: usize)
    ensures
        ints(v.push(x)) == ints(v).push(x as int),
{
    assert(ints(v.push(x)) =~= ints(v).push(x as int));
}

/// Every listed feature lies in the piece-square block.
pub proof fn lemma_features_bound(pl: Placement, perspective: Side, ksq: int, n: int)
    requires
        0 <= n <= 64,
        0 <= ksq < 64,
        pl.mapping.len() == 64,
    ensures
        forall|i: int|
            0 <= i < pl.features(perspective, ksq, n).len() ==> 0 <= #[trigger] pl.features(
                perspective,
                ksq,
                n,
            )[i] < PSQ_DIMS,
        pl.features(perspective, ksq, n).len() <= n,
    decreases n,
{
    if n > 0 {
        lemma_features_bound(pl, perspective, ksq, n - 1);
        if pl.active(n - 1) {
            law_halfka_in_range(
                perspective,
                pl.side_on(n - 1),
                Piece::of_index(pl.mapping[n - 1] as int),
                (n - 1) as usize,
                ksq as usize,
            );
        }
    }
}

/// Appends the piece features of one perspective, in square order.
pub fn append_halfka(pos: &SfnnPosition, perspective: Side, out: &mut Vec<usize>)
    ensures
        ints(final(out)@) == ints(old(out)@) + pos.halfka_features(perspective),
{
    let ksq: usize = pos.king_square(perspective);
    if ksq >= 64 {
        assert(ints(out@) + Seq::<int>::empty() =~= ints(out@));
        return;
    }
    let occ: u64 = pos.occupied();
    let ghost pl = pos.placement();
    let ghost start = ints(out@);
    let mut s: usize = 0;
    assert(start + pl.features(perspective, ksq as int, 0) =~= start);
    while s < 64
        invariant
            s <= 64,
            ksq < 64,
            occ == pos.occupied_spec(),
            pl == pos.placement(),
            ints(out@) == start + pl.features(perspective, ksq as int, s as int),
        decreases 64 - s,
    {
        if is_set(occ, s) && pos.mapping[s] <= 5 {
            let side: Side = if is_set(pos.white, s) {
                Side::White
            } else {
                Side::Black
            };
            let piece: Piece = Piece::from_index(pos.mapping[s] as usize);
            if let Some(idx) = halfka_index(perspective, side, piece, s, ksq) {
                proof {
                    lemma_ints_push(out@, idx);
                    assert(start + pl.features(perspective, ksq as int, s + 1) =~= (start
                        + pl.features(perspective, ksq as int, s as int)).push(idx as int));
                }
                out.push(idx);
            }
        }
        s = s + 1;
    }
}

/// What White sees with its king on one of the files e to h: the piece's square
/// as it is, own pieces before the other side's, kinds in order with both kings
/// in one plane, and the king's rank counted from the far side with the h file
/// first.
#[verifier::rlimit(60)]
pub proof fn law_halfka_layout(side: Side, piece: Piece, sq: usize, ksq: usize)
    requires
        sq < 64,
        ksq < 64,
        ksq % 8 >= 4,
        !(piece is NoPiece),
        !(side is Both),
    ensures
        ({
            let plane = if piece is King {
                10
            } else {
                2 * (piece as int) + if side is White {
                    0int
                } else {
                    1int
                }
            };
            let bucket = 4 * (7 - ksq as int / 8) + (7 - ksq as int % 8);
            halfka_feature(Side::White, side, piece, sq, ksq) == 704 * bucket + 64 * plane + sq
        }),
{
    assert(sq ^ 0 ^ 0 == sq && ksq ^ 0 == ksq) by (bit_vector);
}

/// A position mirrored from left to right looks the same: only where the king
/// is relative to the middle matters.
#[verifier::rlimit(60)]
pub proof fn law_halfka_mirrors_files(view: Side, side: Side, piece: Piece, sq: usize, ksq: usize)
    requires
        sq < 64,
        ksq < 64,
    ensures
        halfka_feature(view, side, piece, sq ^ 7, ksq ^ 7) == halfka_feature(
            view,
            side,
            piece,
            sq,
            ksq,
        ),
{
    let f = flip_of(view);
    assert((ksq ^ 7) % 8 == 7 - ksq % 8 && ((ksq ^ 7) ^ f) / 8 == (ksq ^ f) / 8 && ((ksq ^ 7) ^ f)
        % 8 == 7 - (ksq ^ f) % 8 && (sq ^ 7) ^ 7 ^ f == sq ^ 0 ^ f && (sq ^ 7) ^ 0 ^ f == sq ^ 7
        ^ f && (ksq ^ f) % 8 == ksq % 8) by (bit_vector)
        requires
            ksq < 64,
            sq < 64,
            f == 0 || f == 56,
    ;
}

/// Whether a piece stands on a square and is of a kind that has features.
pub open spec fn stands(pos: &SfnnPosition, s: int) -> bool {
    (bit(pos.white, s) || bit(pos.black, s)) && pos.mapping@[s] <= 5
}

/// Every piece of a position has its feature in the list, and there are as many
/// features as pieces; a side without a king has none.
pub proof fn law_every_piece_has_its_feature(pos: &SfnnPosition, view: Side)
    ensures
        pos.kings(view) == 0 ==> pos.halfka_features(view).len() == 0,
        pos.kings(view) != 0 ==> pos.halfka_features(view).len() == chosen(
            |s: int| stands(pos, s),
            64,
        ).len(),
        pos.kings(view) != 0 ==> forall|s: int|
            0 <= s < 64 && #[trigger] stands(pos, s) ==> pos.halfka_features(view).contains(
                halfka_feature(
                    view,
                    if bit(pos.white, s) {
                        Side::White
                    } else {
                        Side::Black
                    },
                    Piece::of_index(pos.mapping@[s] as int),
                    s as usize,
                    pos.king_square_spec(view) as usize,
                ),
            ),
{
    lemma_features_of_pieces(pos, view, pos.king_square_spec(view), 64);
}

proof fn lemma_features_of_pieces(pos: &SfnnPosition, view: Side, ksq: int, n: int)
    requires
        0 <= n <= 64,
    ensures
        pos.placement().features(view, ksq, n).len() == chosen(|s: int| stands(pos, s), n).len(),
        forall|s: int|
            0 <= s < n && #[trigger] stands(pos, s) ==> pos.placement().features(
                view,
                ksq,
                n,
            ).contains(pos.placement().feature(view, ksq, s)),
    decreases n,
{
    let here = |s: int| stands(pos, s);
    if n > 0 {
        lemma_features_of_pieces(pos, view, ksq, n - 1);
        lemma_chosen_step(here, n);
        lemma_bit_ops(pos.white, pos.black, n - 1);
        let rest = pos.placement().features(view, ksq, n - 1);
        let all = pos.placement().features(view, ksq, n);
        assert(stands(pos, n - 1) == pos.placement().active(n - 1));
        assert forall|s: int| 0 <= s < n && #[trigger] stands(pos, s) implies all.contains(
            pos.placement().feature(view, ksq, s),
        ) by {
            let f = pos.placement().feature(view, ksq, s);
            if s < n - 1 {
                assert(rest.contains(f));
                let i = choose|i: int| 0 <= i < rest.len() && rest[i] == f;
                assert(all[i] == f);
            } else {
                assert(all[all.len() - 1] == f);
            }
        }
    } else {
        lemma_chosen_empty(here);
    }
}

/// The kings of a side are the kings on its own squares, and its king is the
/// one on the lowest of them.
pub proof fn law_king_of_a_side(pos: &SfnnPosition, s: int)
    requires
        0 <= s < 64,
    ensures
        bit(pos.kings(Side::White), s) <==> bit(pos.pieces@[5], s) && bit(pos.white, s),
        bit(pos.kings(Side::Black), s) <==> bit(pos.pieces@[5], s) && bit(pos.black, s),
        bit(pos.kings(Side::White), s) ==> pos.king_square_spec(Side::White) <= s,
        bit(pos.kings(Side::Black), s) ==> pos.king_square_spec(Side::Black) <= s,
{
    lemma_bit_ops(pos.pieces@[5], pos.white, s);
    lemma_bit_ops(pos.pieces@[5], pos.black, s);
    lemma_lowest(pos.kings(Side::White), s);
    lemma_lowest(pos.kings(Side::Black), s);
}

proof fn lemma_lowest(bb: u64, s: int)
    requires
        0 <= s < 64,
    ensures
        bit(bb, s) ==> vstd::std_specs::bits::u64_trailing_zeros(bb) <= s,
{
    vstd::std_specs::bits::axiom_u64_trailing_zeros(bb);
    if s < vstd::std_specs::bits::u64_trailing_zeros(bb) {
        let j = s as u64;
        assert((bb >> j) & 1u64 == 0u64);
    }
}

/// The codes of pieces: one to six from pawn to king for White, eight more for
/// Black.
pub proof fn law_piece_codes(piece: Piece)
    requires
        !(piece is NoPiece),
    ensures
        1 <= piece_code_spec(Side::White, piece) <= 6,
        piece_code_spec(Side::Black, piece) == piece_code_spec(Side::White, piece) + 8,
        piece is Pawn ==> piece_code_spec(Side::White, piece) == 1,
        piece is King ==> piece_code_spec(Side::White, piece) == 6,
{
}

/// The position of a board numbered from the first rank: the square on a rank
/// and a file is the board's square on the same file, as many rows from the
/// other edge.
pub proof fn law_position_counts_from_the_first_rank(
    pos: &SfnnPosition,
    board: &BoardState,
    k: int,
    rank: int,
    file: int,
)
    requires
        pos.mirrors(board),
        0 <= k < 6,
        0 <= rank < 8,
        0 <= file < 8,
    ensures
        ({
            let here = 8 * rank + file;
            let there = 8 * (7 - rank) + file;
            &&& bit(pos.pieces@[k], here) == bit(board.pieces@[k], there)
            &&& bit(pos.white, here) == bit(board.occupancies@[0], there)
            &&& bit(pos.black, here) == bit(board.occupancies@[1], there)
            &&& pos.mapping@[here] == board.piece_mapping@[there] as int
        }),
{
    let here = 8 * rank + file;
    let s = here as usize;
    assert(s ^ 56 == 8 * (7 - s / 8) + s % 8) by (bit_vector)
        requires
            s < 64,
    ;
    assert((s ^ 56) as int == 8 * (7 - rank) + file);
    let a = bit(pos.pieces@[k], here);
    let b = bit(pos.white, here);
    let c = bit(pos.black, here);
    let d = pos.mapping@[here];
}

} // verus!
