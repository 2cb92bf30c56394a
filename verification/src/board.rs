use vstd::prelude::*;

use crate::bitboard::BitBoard;
use crate::bits::lemma_or_shuffle;
use crate::castling::CastlingRights;
use crate::color::{color_index, Color};
use crate::piece::{piece_index, Piece};
use crate::square::Square;

verus! {

/// A position: one bitboard per piece kind and color, one per side, the
/// cached occupancy of both sides, and the game-state fields a FEN record
/// carries.
#[derive(Clone, Debug, PartialEq, Eq)]
pub struct Board {
    piece_bitboards: Vec<BitBoard>,
    side_bitboards: Vec<BitBoard>,
    occupancy_bitboard: BitBoard,
    to_move: Color,
    en_passant_square: Option<Square>,
    castling_rights: CastlingRights,
    hash: u64,
}

impl Board {
    /// The bitboard of one piece kind in one color.
    pub closed spec fn spec_piece_bb(self, color: Color, piece: Piece) -> u64 {
        self.piece_bitboards@[color_index(color) * 6 + piece_index(piece)].0
    }

    /// The bitboard of all of one side's pieces.
    pub closed spec fn spec_side_bb(self, color: Color) -> u64 {
        self.side_bitboards@[color_index(color)].0
    }

    /// The cached occupancy of both sides together.
    pub closed spec fn spec_occupancy(self) -> u64 {
        self.occupancy_bitboard.0
    }

    pub closed spec fn spec_to_move(self) -> Color {
        self.to_move
    }

    pub closed spec fn spec_en_passant(self) -> Option<Square> {
        self.en_passant_square
    }

    pub closed spec fn spec_castling(self) -> u8 {
        self.castling_rights.0
    }

    /// Structural soundness: the bitboard stores have their fixed sizes and
    /// the cached occupancy is the union of both sides.
    pub closed spec fn wf(self) -> bool {
        &&& self.piece_bitboards@.len() == 12
        &&& self.side_bitboards@.len() == 2
        &&& self.occupancy_bitboard.0 == self.side_bitboards@[0].0 | self.side_bitboards@[1].0
    }

    /// The empty position: no pieces anywhere, white to move, no castling
    /// permission, no en passant square.
    pub fn new() -> (r: Board)
        ensures
            r.wf(),
            forall|c: Color, p: Piece| #[trigger] r.spec_piece_bb(c, p) == 0,
            forall|c: Color| #[trigger] r.spec_side_bb(c) == 0,
            r.spec_occupancy() == 0,
            r.spec_to_move() == Color::White,
            r.spec_en_passant() is None,
            r.spec_castling() == 0,
    {
        let mut piece_bitboards: Vec<BitBoard> = Vec::new();
        let mut i: usize = 0;
        while i < 12
            invariant
                i <= 12,
                piece_bitboards@.len() == i,
                forall|j: int| 0 <= j < i ==> piece_bitboards@[j].0 == 0,
            decreases 12 - i,
        {
            piece_bitboards.push(BitBoard(0));
            i = i + 1;
        }
        let mut side_bitboards: Vec<BitBoard> = Vec::new();
        side_bitboards.push(BitBoard(0));
        side_bitboards.push(BitBoard(0));
        proof {
            crate::bits::lemma_or_zero(0);
        }
        Board {
            piece_bitboards,
            side_bitboards,
            occupancy_bitboard: BitBoard(0),
            to_move: Color::White,
            en_passant_square: None,
            castling_rights: CastlingRights(0),
            hash: 0,
        }
    }

    /// Adds the given squares to one piece kind's bitboard, to its side's
    /// bitboard and to the occupancy; every other store is untouched.
    pub fn set_piece_at(&mut self, bitboard: BitBoard, piece: Piece, color: Color)
        requires
            old(self).wf(),
        ensures
            final(self).wf(),
            forall|c: Color, p: Piece|
                #[trigger] final(self).spec_piece_bb(c, p) == if c == color && p == piece {
                    old(self).spec_piece_bb(c, p) | bitboard.0
                } else {
                    old(self).spec_piece_bb(c, p)
                },
            forall|c: Color|
                #[trigger] final(self).spec_side_bb(c) == if c == color {
                    old(self).spec_side_bb(c) | bitboard.0
                } else {
                    old(self).spec_side_bb(c)
                },
            final(self).spec_occupancy() == old(self).spec_occupancy() | bitboard.0,
            final(self).spec_to_move() == old(self).spec_to_move(),
            final(self).spec_en_passant() == old(self).spec_en_passant(),
            final(self).spec_castling() == old(self).spec_castling(),
    {
        let ci = color.to_index();
        let pi = piece.to_index();
        let idx = ci * 6 + pi;
        let cur = self.piece_bitboards[idx];
        self.piece_bitboards[idx] = BitBoard(cur.0 | bitboard.0);
        let curs = self.side_bitboards[ci];
        self.side_bitboards[ci] = BitBoard(curs.0 | bitboard.0);
        let curo = self.occupancy_bitboard;
        self.occupancy_bitboard = BitBoard(curo.0 | bitboard.0);
        proof {
            let s0 = old(self).side_bitboards@[0].0;
            let s1 = old(self).side_bitboards@[1].0;
            if color_index(color) == 0 {
                lemma_or_shuffle(s0, s1, bitboard.0);
            } else {
                crate::bits::lemma_or_assoc(s0, s1, bitboard.0);
            }
        }
    }

    /// The piece standing on a square, scanning white pieces before black
    /// ones and piece kinds in index order.
    pub fn get_piece_at(&self, square: Square) -> (r: Option<(Piece, Color)>)
        requires
            self.wf(),
        ensures
            r == piece_at_spec(*self, square@),
    {
        let mask = 1u64 << (square.to_int() as u64);
        if self.get_pawn_bitboard(Color::White).0 & mask != 0 {
            Some((Piece::Pawn, Color::White))
        } else if self.get_knight_bitboard(Color::White).0 & mask != 0 {
            Some((Piece::Knight, Color::White))
        } else if self.get_bishop_bitboard(Color::White).0 & mask != 0 {
            Some((Piece::Bishop, Color::White))
        } else if self.get_rook_bitboard(Color::White).0 & mask != 0 {
            Some((Piece::Rook, Color::White))
        } else if self.get_queen_bitboard(Color::White).0 & mask != 0 {
            Some((Piece::Queen, Color::White))
        } else if self.get_king_bitboard(Color::White).0 & mask != 0 {
            Some((Piece::King, Color::White))
        } else if self.get_pawn_bitboard(Color::Black).0 & mask != 0 {
            Some((Piece::Pawn, Color::Black))
        } else if self.get_knight_bitboard(Color::Black).0 & mask != 0 {
            Some((Piece::Knight, Color::Black))
        } else if self.get_bishop_bitboard(Color::Black).0 & mask != 0 {
            Some((Piece::Bishop, Color::Black))
        } else if self.get_rook_bitboard(Color::Black).0 & mask != 0 {
            Some((Piece::Rook, Color::Black))
        } else if self.get_queen_bitboard(Color::Black).0 & mask != 0 {
            Some((Piece::Queen, Color::Black))
        } else if self.get_king_bitboard(Color::Black).0 & mask != 0 {
            Some((Piece::King, Color::Black))
        } else {
            None
        }
    }

    pub fn get_pawn_bitboard(&self, color: Color) -> (r: BitBoard)
        requires
            self.wf(),
        ensures
            r.0 == self.spec_piece_bb(color, Piece::Pawn),
    {
        self.piece_bitboards[color.to_index() * 6]
    }

    pub fn get_white_pawn_bitboard(&self) -> (r: BitBoard)
        requires
            self.wf(),
        ensures
            r.0 == self.spec_piece_bb(Color::White, Piece::Pawn),
    {
        self.get_pawn_bitboard(Color::White)
    }

    pub fn get_black_pawn_bitboard(&self) -> (r: BitBoard)
        requires
            self.wf(),
        ensures
            r.0 == self.spec_piece_bb(Color::Black, Piece::Pawn),
    {
        self.get_pawn_bitboard(Color::Black)
    }

    pub fn get_knight_bitboard(&self, color: Color) -> (r: BitBoard)
        requires
            self.wf(),
        ensures
            r.0 == self.spec_piece_bb(color, Piece::Knight),
    {
        self.piece_bitboards[color.to_index() * 6 + 1]
    }

    pub fn get_white_knight_bitboard(&self) -> (r: BitBoard)
        requires
            self.wf(),
        ensures
            r.0 == self.spec_piece_bb(Color::White, Piece::Knight),
    {
        self.get_knight_bitboard(Color::White)
    }

    pub fn get_black_knight_bitboard(&self) -> (r: BitBoard)
        requires
            self.wf(),
        ensures
            r.0 == self.spec_piece_bb(Color::Black, Piece::Knight),
    {
        self.get_knight_bitboard(Color::Black)
    }

    pub fn get_bishop_bitboard(&self, color: Color) -> (r: BitBoard)
        requires
            self.wf(),
        ensures
            r.0 == self.spec_piece_bb(color, Piece::Bishop),
    {
        self.piece_bitboards[color.to_index() * 6 + 2]
    }

    pub fn get_white_bishop_bitboard(&self) -> (r: BitBoard)
        requires
            self.wf(),
        ensures
            r.0 == self.spec_piece_bb(Color::White, Piece::Bishop),
    {
        self.get_bishop_bitboard(Color::White)
    }

    pub fn get_black_bishop_bitboard(&self) -> (r: BitBoard)
        requires
            self.wf(),
        ensures
            r.0 == self.spec_piece_bb(Color::Black, Piece::Bishop),
    {
        self.get_bishop_bitboard(Color::Black)
    }

    pub fn get_rook_bitboard(&self, color: Color) -> (r: BitBoard)
        requires
            self.wf(),
        ensures
            r.0 == self.spec_piece_bb(color, Piece::Rook),
    {
        self.piece_bitboards[color.to_index() * 6 + 3]
    }

    pub fn get_white_rook_bitboard(&self) -> (r: BitBoard)
        requires
            self.wf(),
        ensures
            r.0 == self.spec_piece_bb(Color::White, Piece::Rook),
    {
        self.get_rook_bitboard(Color::White)
    }

    pub fn get_black_rook_bitboard(&self) -> (r: BitBoard)
        requires
            self.wf(),
        ensures
            r.0 == self.spec_piece_bb(Color::Black, Piece::Rook),
    {
        self.get_rook_bitboard(Color::Black)
    }

    pub fn get_queen_bitboard(&self, color: Color) -> (r: BitBoard)
        requires
            self.wf(),
        ensures
            r.0 == self.spec_piece_bb(color, Piece::Queen),
    {
        self.piece_bitboards[color.to_index() * 6 + 4]
    }

    pub fn get_white_queen_bitboard(&self) -> (r: BitBoard)
        requires
            self.wf(),
        ensures
            r.0 == self.spec_piece_bb(Color::White, Piece::Queen),
    {
        self.get_queen_bitboard(Color::White)
    }

    pub fn get_black_queen_bitboard(&self) -> (r: BitBoard)
        requires
            self.wf(),
        ensures
            r.0 == self.spec_piece_bb(Color::Black, Piece::Queen),
    {
        self.get_queen_bitboard(Color::Black)
    }

    pub fn get_king_bitboard(&self, color: Color) -> (r: BitBoard)
        requires
            self.wf(),
        ensures
            r.0 == self.spec_piece_bb(color, Piece::King),
    {
        self.piece_bitboards[color.to_index() * 6 + 5]
    }

    pub fn get_white_king_bitboard(&self) -> (r: BitBoard)
        requires
            self.wf(),
        ensures
            r.0 == self.spec_piece_bb(Color::White, Piece::King),
    {
        self.get_king_bitboard(Color::White)
    }

    pub fn get_black_king_bitboard(&self) -> (r: BitBoard)
        requires
            self.wf(),
        ensures
            r.0 == self.spec_piece_bb(Color::Black, Piece::King),
    {
        self.get_king_bitboard(Color::Black)
    }

    pub fn get_pieces_bitboard(&self, color: Color) -> (r: BitBoard)
        requires
            self.wf(),
        ensures
            r.0 == self.spec_side_bb(color),
    {
        self.side_bitboards[color.to_index()]
    }

    pub fn get_white_pieces_bitboard(&self) -> (r: BitBoard)
        requires
            self.wf(),
        ensures
            r.0 == self.spec_side_bb(Color::White),
    {
        self.get_pieces_bitboard(Color::White)
    }

    pub fn get_black_pieces_bitboard(&self) -> (r: BitBoard)
        requires
            self.wf(),
        ensures
            r.0 == self.spec_side_bb(Color::Black),
    {
        self.get_pieces_bitboard(Color::Black)
    }

    /// The union of both sides' pieces.
    pub fn get_occupancy_bitboard(&self) -> (r: BitBoard)
        requires
            self.wf(),
        ensures
            r.0 == self.spec_side_bb(Color::White) | self.spec_side_bb(Color::Black),
            r.0 == self.spec_occupancy(),
    {
        BitBoard(self.side_bitboards[0].0 | self.side_bitboards[1].0)
    }

    pub fn get_to_move(&self) -> (r: Color)
        ensures
            r == self.spec_to_move(),
    {
        self.to_move
    }

    pub(crate) fn set_to_move(&mut self, color: Color)
        ensures
            final(self).spec_to_move() == color,
            final(self).wf() == old(self).wf(),
            forall|c: Color, p: Piece|
                #[trigger] final(self).spec_piece_bb(c, p) == old(self).spec_piece_bb(c, p),
            forall|c: Color| #[trigger] final(self).spec_side_bb(c) == old(self).spec_side_bb(c),
            final(self).spec_occupancy() == old(self).spec_occupancy(),
            final(self).spec_en_passant() == old(self).spec_en_passant(),
            final(self).spec_castling() == old(self).spec_castling(),
    {
        self.to_move = color;
    }

    pub(crate) fn set_en_passant_square(&mut self, square: Option<Square>)
        ensures
            final(self).spec_en_passant() == square,
            final(self).wf() == old(self).wf(),
            forall|c: Color, p: Piece|
                #[trigger] final(self).spec_piece_bb(c, p) == old(self).spec_piece_bb(c, p),
            forall|c: Color| #[trigger] final(self).spec_side_bb(c) == old(self).spec_side_bb(c),
            final(self).spec_occupancy() == old(self).spec_occupancy(),
            final(self).spec_to_move() == old(self).spec_to_move(),
            final(self).spec_castling() == old(self).spec_castling(),
    {
        self.en_passant_square = square;
    }

    pub(crate) fn set_castling_rights(&mut self, castling_rights: CastlingRights)
        ensures
            final(self).spec_castling() == castling_rights.0,
            final(self).wf() == old(self).wf(),
            forall|c: Color, p: Piece|
                #[trigger] final(self).spec_piece_bb(c, p) == old(self).spec_piece_bb(c, p),
            forall|c: Color| #[trigger] final(self).spec_side_bb(c) == old(self).spec_side_bb(c),
            final(self).spec_occupancy() == old(self).spec_occupancy(),
            final(self).spec_to_move() == old(self).spec_to_move(),
            final(self).spec_en_passant() == old(self).spec_en_passant(),
    {
        self.castling_rights = castling_rights;
    }
}

/// In a sound board the cached occupancy is exactly the union of the two
/// sides' bitboards.
pub proof fn lemma_wf_occupancy(b: Board)
    requires
        b.wf(),
    ensures
        b.spec_occupancy() == b.spec_side_bb(Color::White) | b.spec_side_bb(Color::Black),
{
}

/// What a scan of the boards finds on a square: white pieces are checked
/// before black ones, piece kinds in index order, first hit wins.
pub open spec fn piece_at_spec(b: Board, sq: u64) -> Option<(Piece, Color)> {
    if b.spec_piece_bb(Color::White, Piece::Pawn) & (1u64 << sq) != 0 {
        Some((Piece::Pawn, Color::White))
    } else if b.spec_piece_bb(Color::White, Piece::Knight) & (1u64 << sq) != 0 {
        Some((Piece::Knight, Color::White))
    } else if b.spec_piece_bb(Color::White, Piece::Bishop) & (1u64 << sq) != 0 {
        Some((Piece::Bishop, Color::White))
    } else if b.spec_piece_bb(Color::White, Piece::Rook) & (1u64 << sq) != 0 {
        Some((Piece::Rook, Color::White))
    } else if b.spec_piece_bb(Color::White, Piece::Queen) & (1u64 << sq) != 0 {
        Some((Piece::Queen, Color::White))
    } else if b.spec_piece_bb(Color::White, Piece::King) & (1u64 << sq) != 0 {
        Some((Piece::King, Color::White))
    } else if b.spec_piece_bb(Color::Black, Piece::Pawn) & (1u64 << sq) != 0 {
        Some((Piece::Pawn, Color::Black))
    } else if b.spec_piece_bb(Color::Black, Piece::Knight) & (1u64 << sq) != 0 {
        Some((Piece::Knight, Color::Black))
    } else if b.spec_piece_bb(Color::Black, Piece::Bishop) & (1u64 << sq) != 0 {
        Some((Piece::Bishop, Color::Black))
    } else if b.spec_piece_bb(Color::Black, Piece::Rook) & (1u64 << sq) != 0 {
        Some((Piece::Rook, Color::Black))
    } else if b.spec_piece_bb(Color::Black, Piece::Queen) & (1u64 << sq) != 0 {
        Some((Piece::Queen, Color::Black))
    } else if b.spec_piece_bb(Color::Black, Piece::King) & (1u64 << sq) != 0 {
        Some((Piece::King, Color::Black))
    } else {
        None
    }
}

} // verus!
