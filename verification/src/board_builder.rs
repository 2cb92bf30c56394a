use vstd::prelude::*;

use crate::bitboard::BitBoard;
use crate::bits::{lemma_or_comm, lemma_or_zero};
use crate::board::Board;
use crate::castling::CastlingRights;
use crate::color::Color;
use crate::piece::Piece;
use crate::rays::sq_bit;
use crate::square::Square;

verus! {

/// The squares of the first `n` entries that hold exactly the given piece
/// in the given color.
pub open spec fn placement_bb(
    board: Seq<Option<(Piece, Color)>>,
    piece: Piece,
    color: Color,
    n: int,
) -> u64
    decreases n,
{
    if n <= 0 {
        0u64
    } else {
        (if board[n - 1] == Some((piece, color)) {
            sq_bit(n - 1)
        } else {
            0u64
        }) | placement_bb(board, piece, color, n - 1)
    }
}

/// The squares of the first `n` entries that hold any piece of one color.
pub open spec fn side_placement_bb(board: Seq<Option<(Piece, Color)>>, color: Color, n: int) -> u64
    decreases n,
{
    if n <= 0 {
        0u64
    } else {
        (if board[n - 1] matches Some(pc) && pc.1 == color {
            sq_bit(n - 1)
        } else {
            0u64
        }) | side_placement_bb(board, color, n - 1)
    }
}

/// A staged position: the per-square piece placement and the game-state
/// fields, collected before they are compiled into a `Board`.
pub struct BoardBuilder {
    board: Vec<Option<(Piece, Color)>>,
    side_to_move: Color,
    castling_rights: CastlingRights,
    en_passant: Option<Square>,
    halfmove_clock: u8,
    fullmove_counter: u16,
}

impl BoardBuilder {
    pub closed spec fn spec_board(self) -> Seq<Option<(Piece, Color)>> {
        self.board@
    }

    pub closed spec fn spec_side_to_move(self) -> Color {
        self.side_to_move
    }

    pub closed spec fn spec_castling_rights(self) -> CastlingRights {
        self.castling_rights
    }

    pub closed spec fn spec_en_passant(self) -> Option<Square> {
        self.en_passant
    }

    pub closed spec fn spec_halfmove_clock(self) -> u8 {
        self.halfmove_clock
    }

    pub closed spec fn spec_fullmove_counter(self) -> u16 {
        self.fullmove_counter
    }

    pub open spec fn wf(self) -> bool {
        self.spec_board().len() == 64
    }

    /// An empty staging area: no pieces, white to move, everything else
    /// cleared.
    pub fn new() -> (r: BoardBuilder)
        ensures
            r.wf(),
            forall|i: int| 0 <= i < 64 ==> r.spec_board()[i] is None,
            r.spec_side_to_move() == Color::White,
            r.spec_castling_rights().0 == 0,
            r.spec_en_passant() is None,
            r.spec_halfmove_clock() == 0,
            r.spec_fullmove_counter() == 0,
    {
        let mut board: Vec<Option<(Piece, Color)>> = Vec::new();
        let mut i: usize = 0;
        while i < 64
            invariant
                i <= 64,
                board@.len() == i,
                forall|j: int| 0 <= j < i ==> board@[j] is None,
            decreases 64 - i,
        {
            board.push(None);
            i = i + 1;
        }
        BoardBuilder {
            board,
            side_to_move: Color::White,
            castling_rights: CastlingRights(0),
            en_passant: None,
            halfmove_clock: 0,
            fullmove_counter: 0,
        }
    }

    /// A copy of the staged placement.
    pub fn get_board(&self) -> (r: Vec<Option<(Piece, Color)>>)
        ensures
            r@ == self.spec_board(),
    {
        let mut r: Vec<Option<(Piece, Color)>> = Vec::new();
        let mut i: usize = 0;
        let n = self.board.len();
        while i < n
            invariant
                i <= n,
                n == self.board@.len(),
                r@.len() == i,
                forall|j: int| 0 <= j < i ==> r@[j] == self.board@[j],
            decreases n - i,
        {
            r.push(self.board[i]);
            i = i + 1;
        }
        proof {
            assert(r@ =~= self.spec_board());
        }
        r
    }

    pub fn set_board(self, board: Vec<Option<(Piece, Color)>>) -> (r: BoardBuilder)
        requires
            board@.len() == 64,
        ensures
            r.wf(),
            r.spec_board() == board@,
            r.spec_side_to_move() == self.spec_side_to_move(),
            r.spec_castling_rights() == self.spec_castling_rights(),
            r.spec_en_passant() == self.spec_en_passant(),
            r.spec_halfmove_clock() == self.spec_halfmove_clock(),
            r.spec_fullmove_counter() == self.spec_fullmove_counter(),
    {
        BoardBuilder { board, ..self }
    }

    pub fn get_side_to_move(&self) -> (r: Color)
        ensures
            r == self.spec_side_to_move(),
    {
        self.side_to_move
    }

    pub fn set_side_to_move(self, side_to_move: Color) -> (r: BoardBuilder)
        ensures
            r.spec_side_to_move() == side_to_move,
            r.spec_board() == self.spec_board(),
            r.spec_castling_rights() == self.spec_castling_rights(),
            r.spec_en_passant() == self.spec_en_passant(),
            r.spec_halfmove_clock() == self.spec_halfmove_clock(),
            r.spec_fullmove_counter() == self.spec_fullmove_counter(),
    {
        BoardBuilder { side_to_move, ..self }
    }

    pub fn get_castling_rights(&self) -> (r: CastlingRights)
        ensures
            r == self.spec_castling_rights(),
    {
        self.castling_rights
    }

    pub fn set_castling_rights(self, castling_rights: CastlingRights) -> (r: BoardBuilder)
        ensures
            r.spec_castling_rights() == castling_rights,
            r.spec_board() == self.spec_board(),
            r.spec_side_to_move() == self.spec_side_to_move(),
            r.spec_en_passant() == self.spec_en_passant(),
            r.spec_halfmove_clock() == self.spec_halfmove_clock(),
            r.spec_fullmove_counter() == self.spec_fullmove_counter(),
    {
        BoardBuilder { castling_rights, ..self }
    }

    pub fn get_en_passant(&self) -> (r: Option<Square>)
        ensures
            r == self.spec_en_passant(),
    {
        self.en_passant
    }

    pub fn en_passant(self, en_passant: Option<Square>) -> (r: BoardBuilder)
        ensures
            r.spec_en_passant() == en_passant,
            r.spec_board() == self.spec_board(),
            r.spec_side_to_move() == self.spec_side_to_move(),
            r.spec_castling_rights() == self.spec_castling_rights(),
            r.spec_halfmove_clock() == self.spec_halfmove_clock(),
            r.spec_fullmove_counter() == self.spec_fullmove_counter(),
    {
        BoardBuilder { en_passant, ..self }
    }

    pub fn get_halfmove_clock(&self) -> (r: u8)
        ensures
            r == self.spec_halfmove_clock(),
    {
        self.halfmove_clock
    }

    pub fn halfmove_clock(self, halfmove_clock: u8) -> (r: BoardBuilder)
        ensures
            r.spec_halfmove_clock() == halfmove_clock,
            r.spec_board() == self.spec_board(),
            r.spec_side_to_move() == self.spec_side_to_move(),
            r.spec_castling_rights() == self.spec_castling_rights(),
            r.spec_en_passant() == self.spec_en_passant(),
            r.spec_fullmove_counter() == self.spec_fullmove_counter(),
    {
        BoardBuilder { halfmove_clock, ..self }
    }

    pub fn get_fullmove_counter(&self) -> (r: u16)
        ensures
            r == self.spec_fullmove_counter(),
    {
        self.fullmove_counter
    }

    pub fn fullmove_counter(self, fullmove_counter: u16) -> (r: BoardBuilder)
        ensures
            r.spec_fullmove_counter() == fullmove_counter,
            r.spec_board() == self.spec_board(),
            r.spec_side_to_move() == self.spec_side_to_move(),
            r.spec_castling_rights() == self.spec_castling_rights(),
            r.spec_en_passant() == self.spec_en_passant(),
            r.spec_halfmove_clock() == self.spec_halfmove_clock(),
    {
        BoardBuilder { fullmove_counter, ..self }
    }

    /// Compiles the staged placement into a `Board`: each staged piece is
    /// set on its square, and the game-state fields carry over. The staged
    /// move clocks are validation-only and hold no place in the `Board`.
    pub fn build(&mut self) -> (r: Board)
        requires
            old(self).wf(),
        ensures
            *final(self) == *old(self),
            r.wf(),
            forall|c: Color, p: Piece|
                #[trigger] r.spec_piece_bb(c, p) == placement_bb(old(self).spec_board(), p, c, 64),
            forall|c: Color|
                #[trigger] r.spec_side_bb(c) == side_placement_bb(old(self).spec_board(), c, 64),
            r.spec_occupancy() == side_placement_bb(old(self).spec_board(), Color::White, 64)
                | side_placement_bb(old(self).spec_board(), Color::Black, 64),
            r.spec_to_move() == old(self).spec_side_to_move(),
            r.spec_en_passant() == old(self).spec_en_passant(),
            r.spec_castling() == old(self).spec_castling_rights().0,
    {
        let mut board = Board::new();
        let mut i: u8 = 0;
        proof {
            assert forall|c: Color, p: Piece|
                #[trigger] board.spec_piece_bb(c, p) == placement_bb(
                    self.spec_board(),
                    p,
                    c,
                    0,
                ) by {}
        }
        while i < 64
            invariant
                self.wf(),
                i <= 64,
                board.wf(),
                forall|c: Color, p: Piece|
                    #[trigger] board.spec_piece_bb(c, p) == placement_bb(
                        self.spec_board(),
                        p,
                        c,
                        i as int,
                    ),
                forall|c: Color|
                    #[trigger] board.spec_side_bb(c) == side_placement_bb(
                        self.spec_board(),
                        c,
                        i as int,
                    ),
                board.spec_to_move() == Color::White,
                board.spec_en_passant() is None,
                board.spec_castling() == 0,
            decreases 64 - i,
        {
            let ghost board0 = board;
            match self.board[i as usize] {
                Some((piece, color)) => {
                    proof {
                        crate::bits::lemma_low6(i);
                    }
                    let square = Square::new(i);
                    let bb = BitBoard::from_square(square);
                    board.set_piece_at(bb, piece, color);
                    proof {
                        assert forall|c: Color, p: Piece|
                            #[trigger] board.spec_piece_bb(c, p) == placement_bb(
                                self.spec_board(),
                                p,
                                c,
                                i as int + 1,
                            ) by {
                            if c == color && p == piece {
                                lemma_or_comm(sq_bit(i as int), board0.spec_piece_bb(c, p));
                            } else {
                                lemma_or_zero(board0.spec_piece_bb(c, p));
                            }
                        }
                        assert forall|c: Color|
                            #[trigger] board.spec_side_bb(c) == side_placement_bb(
                                self.spec_board(),
                                c,
                                i as int + 1,
                            ) by {
                            if c == color {
                                lemma_or_comm(sq_bit(i as int), board0.spec_side_bb(c));
                            } else {
                                lemma_or_zero(board0.spec_side_bb(c));
                            }
                        }
                    }
                },
                None => {
                    proof {
                        assert forall|c: Color, p: Piece|
                            #[trigger] board.spec_piece_bb(c, p) == placement_bb(
                                self.spec_board(),
                                p,
                                c,
                                i as int + 1,
                            ) by {
                            lemma_or_zero(board0.spec_piece_bb(c, p));
                        }
                        assert forall|c: Color|
                            #[trigger] board.spec_side_bb(c) == side_placement_bb(
                                self.spec_board(),
                                c,
                                i as int + 1,
                            ) by {
                            lemma_or_zero(board0.spec_side_bb(c));
                        }
                    }
                },
            }
            i = i + 1;
        }
        board.set_to_move(self.get_side_to_move());
        board.set_castling_rights(self.get_castling_rights());
        board.set_en_passant_square(self.get_en_passant());
        proof {
            crate::board::lemma_wf_occupancy(board);
        }
        board
    }
}

} // verus!
