use vstd::prelude::*;

use crate::board::Board;
use crate::board_builder::{placement_bb, side_placement_bb, BoardBuilder};
use crate::castling::CastlingRights;
use crate::color::Color;
use crate::fen_bytes::{
    all_digits, dec_value, has_byte_in, lemma_split_on_len, parse_decimal, split_bytes, split_on,
};
use crate::file::File;
use crate::piece::Piece;
use crate::rank::Rank;
use crate::square::Square;

verus! {

use vstd::string::StringSliceAdditionalSpecFns;

/// Why a FEN record was rejected, one variant per record field.
#[derive(Copy, Clone, Debug, PartialEq, Eq, Structural)]
pub enum BoardParseError {
    InvalidFenString,
    InvalidBoard,
    InvalidSideToMove,
    InvalidCastlingRights,
    InvalidEnPassantTargetSquare,
    InvalidHalfmoveClock,
    InvalidFullmoveCounter,
}

/// The piece a placement byte stands for: upper-case letters are white,
/// lower-case letters black.
pub open spec fn piece_of_byte(b: u8) -> Option<(Piece, Color)> {
    if b == 80 {
        Some((Piece::Pawn, Color::White))
    } else if b == 78 {
        Some((Piece::Knight, Color::White))
    } else if b == 66 {
        Some((Piece::Bishop, Color::White))
    } else if b == 82 {
        Some((Piece::Rook, Color::White))
    } else if b == 81 {
        Some((Piece::Queen, Color::White))
    } else if b == 75 {
        Some((Piece::King, Color::White))
    } else if b == 112 {
        Some((Piece::Pawn, Color::Black))
    } else if b == 110 {
        Some((Piece::Knight, Color::Black))
    } else if b == 98 {
        Some((Piece::Bishop, Color::Black))
    } else if b == 114 {
        Some((Piece::Rook, Color::Black))
    } else if b == 113 {
        Some((Piece::Queen, Color::Black))
    } else if b == 107 {
        Some((Piece::King, Color::Black))
    } else {
        None
    }
}

/// One placement rank read left to right: a digit skips that many files, a
/// piece letter puts its piece on the next file; a piece past the h file or
/// an unknown byte rejects the record.
pub open spec fn apply_rank_spec(
    board: Seq<Option<(Piece, Color)>>,
    s: Seq<u8>,
    rank: int,
    file: int,
) -> Option<Seq<Option<(Piece, Color)>>>
    decreases s.len(),
{
    if s.len() == 0 {
        Some(board)
    } else if 48 <= s[0] <= 57 {
        apply_rank_spec(board, s.drop_first(), rank, file + (s[0] - 48))
    } else if piece_of_byte(s[0]) is Some {
        if file >= 8 {
            None
        } else {
            apply_rank_spec(
                board.update(rank * 8 + file, piece_of_byte(s[0])),
                s.drop_first(),
                rank,
                file + 1,
            )
        }
    } else {
        None
    }
}

/// The placement ranks applied bottom rank first: the last part of the
/// record is rank one. More than eight parts reject the record.
pub open spec fn apply_ranks_spec(
    board: Seq<Option<(Piece, Color)>>,
    parts: Seq<Seq<u8>>,
    i: int,
) -> Option<Seq<Option<(Piece, Color)>>>
    decreases parts.len() - i,
{
    if i >= parts.len() {
        Some(board)
    } else if i >= 8 {
        None
    } else {
        match apply_rank_spec(board, parts[parts.len() - 1 - i], i, 0) {
            Some(b2) => apply_ranks_spec(b2, parts, i + 1),
            None => None,
        }
    }
}

/// The placement a FEN board field describes, starting from an empty board,
/// or nothing when the field is rejected.
pub open spec fn board_of_fen(s: Seq<u8>) -> Option<Seq<Option<(Piece, Color)>>> {
    apply_ranks_spec(Seq::new(64, |i: int| None), split_on(s, 47), 0)
}

/// With more than eight rank parts the placement is always rejected.
proof fn lemma_apply_ranks_too_many(board: Seq<Option<(Piece, Color)>>, parts: Seq<Seq<u8>>, i: int)
    requires
        parts.len() > 8,
        0 <= i <= 8,
    ensures
        apply_ranks_spec(board, parts, i) is None,
    decreases 8 - i,
{
    if i < 8 {
        match apply_rank_spec(board, parts[parts.len() - 1 - i], i, 0) {
            Some(b2) => {
                lemma_apply_ranks_too_many(b2, parts, i + 1);
            },
            None => {},
        }
    }
}

/// The side-to-move field accepts exactly `w` or `b`.
pub open spec fn side_ok(f: Seq<u8>) -> bool {
    f == seq![119u8] || f == seq![98u8]
}

pub open spec fn side_of(f: Seq<u8>) -> Color {
    if f == seq![119u8] {
        Color::White
    } else {
        Color::Black
    }
}

/// The castling permissions a standard field grants: one bit per present
/// letter of `KQkq`; every other byte is ignored.
pub open spec fn castling_of(f: Seq<u8>) -> u8 {
    (((if has_byte_in(f, 75, 75) {
        1u8
    } else {
        0u8
    }) | (if has_byte_in(f, 81, 81) {
        2u8
    } else {
        0u8
    })) | (if has_byte_in(f, 107, 107) {
        4u8
    } else {
        0u8
    })) | (if has_byte_in(f, 113, 113) {
        8u8
    } else {
        0u8
    })
}

/// The castling permissions a Shredder field grants: rook-file letters, the
/// f–h files standing for the king side and the a–e files for the queen
/// side, upper case for white; every other byte is ignored.
pub open spec fn shredder_castling_of(f: Seq<u8>) -> u8 {
    (((if has_byte_in(f, 70, 72) {
        1u8
    } else {
        0u8
    }) | (if has_byte_in(f, 65, 69) {
        2u8
    } else {
        0u8
    })) | (if has_byte_in(f, 102, 104) {
        4u8
    } else {
        0u8
    })) | (if has_byte_in(f, 97, 101) {
        8u8
    } else {
        0u8
    })
}

/// The en passant field accepts `-` or a square in file-rank notation.
pub open spec fn ep_none(f: Seq<u8>) -> bool {
    f == seq![45u8]
}

pub open spec fn ep_ok(f: Seq<u8>) -> bool {
    ep_none(f) || (f.len() == 2 && 97 <= f[0] <= 104 && 49 <= f[1] <= 56)
}

/// The square index an en passant field names.
pub open spec fn ep_index(f: Seq<u8>) -> int {
    (f[1] - 49) * 8 + (f[0] - 97)
}

/// The halfmove field accepts a digit run worth at most 100.
pub open spec fn half_ok(f: Seq<u8>) -> bool {
    f.len() >= 1 && all_digits(f) && dec_value(f) <= 100
}

/// The fullmove field accepts a digit run worth 1 to 65535.
pub open spec fn full_ok(f: Seq<u8>) -> bool {
    f.len() >= 1 && all_digits(f) && 1 <= dec_value(f) <= 65535
}

/// A whole FEN record is accepted: six fields, each accepted. The castling
/// field never rejects.
pub open spec fn fen_parts_ok(fields: Seq<Seq<u8>>) -> bool {
    &&& fields.len() == 6
    &&& board_of_fen(fields[0]) is Some
    &&& side_ok(fields[1])
    &&& ep_ok(fields[3])
    &&& half_ok(fields[4])
    &&& full_ok(fields[5])
}

/// What an accepted record compiles to, with the castling permissions read
/// by the given interpretation of the castling field.
pub open spec fn parsed_board_ok(b: Board, fields: Seq<Seq<u8>>, castling: u8) -> bool {
    &&& b.wf()
    &&& forall|c: Color, p: Piece|
        #[trigger] b.spec_piece_bb(c, p) == placement_bb(board_of_fen(fields[0])->Some_0, p, c, 64)
    &&& forall|c: Color|
        #[trigger] b.spec_side_bb(c) == side_placement_bb(board_of_fen(fields[0])->Some_0, c, 64)
    &&& b.spec_occupancy() == side_placement_bb(board_of_fen(fields[0])->Some_0, Color::White, 64)
        | side_placement_bb(board_of_fen(fields[0])->Some_0, Color::Black, 64)
    &&& b.spec_to_move() == side_of(fields[1])
    &&& b.spec_castling() == castling
    &&& (ep_none(fields[3]) ==> b.spec_en_passant() is None)
    &&& (!ep_none(fields[3]) ==> (b.spec_en_passant() matches Some(sq) && sq@ == ep_index(
        fields[3],
    )))
}

impl Board {
    /// Reads one placement byte.
    fn piece_from_byte(b: u8) -> (r: Option<(Piece, Color)>)
        ensures
            r == piece_of_byte(b),
    {
        match b {
            80u8 => Some((Piece::Pawn, Color::White)),
            78u8 => Some((Piece::Knight, Color::White)),
            66u8 => Some((Piece::Bishop, Color::White)),
            82u8 => Some((Piece::Rook, Color::White)),
            81u8 => Some((Piece::Queen, Color::White)),
            75u8 => Some((Piece::King, Color::White)),
            112u8 => Some((Piece::Pawn, Color::Black)),
            110u8 => Some((Piece::Knight, Color::Black)),
            98u8 => Some((Piece::Bishop, Color::Black)),
            114u8 => Some((Piece::Rook, Color::Black)),
            113u8 => Some((Piece::Queen, Color::Black)),
            107u8 => Some((Piece::King, Color::Black)),
            _ => None,
        }
    }

    /// Reads the placement field into a 64-square staging vector.
    fn parse_board(s: &[u8]) -> (r: Result<Vec<Option<(Piece, Color)>>, ()>)
        ensures
            r is Err <==> board_of_fen(s@) is None,
            r matches Ok(v) ==> v@.len() == 64 && board_of_fen(s@) == Some(v@),
    {
        let parts = split_bytes(s, 47);
        let np = parts.len();
        let ghost gparts = split_on(s@, 47u8);
        proof {
            lemma_split_on_len(s@, 47u8);
        }
        if np > 8 {
            proof {
                lemma_apply_ranks_too_many(Seq::new(64, |i: int| None), gparts, 0);
            }
            return Err(());
        }
        let mut board: Vec<Option<(Piece, Color)>> = Vec::new();
        let mut k: usize = 0;
        while k < 64
            invariant
                k <= 64,
                board@.len() == k,
                forall|j: int| 0 <= j < k ==> board@[j] is None,
            decreases 64 - k,
        {
            board.push(None);
            k = k + 1;
        }
        proof {
            assert(board@ =~= Seq::new(64, |i: int| None::<(Piece, Color)>));
        }
        let mut i: usize = 0;
        while i < np
            invariant
                i <= np,
                np == parts@.len(),
                np <= 8,
                np == gparts.len(),
                parts@.map_values(|v: Vec<u8>| v@) == gparts,
                gparts == split_on(s@, 47u8),
                board@.len() == 64,
                apply_ranks_spec(board@, gparts, i as int) == board_of_fen(s@),
            decreases np - i,
        {
            let part: &Vec<u8> = &parts[np - 1 - i];
            let ghost board_in = board@;
            proof {
                assert(part@ == gparts[np - 1 - i as int]);
            }
            let mut file: u8 = 0;
            let ghost mut gfile: int = 0;
            let mut j: usize = 0;
            let m = part.len();
            proof {
                assert(part@.skip(0) =~= part@);
            }
            while j < m
                invariant
                    j <= m,
                    m == part@.len(),
                    i < np,
                    np <= 8,
                    np == gparts.len(),
                    gparts == split_on(s@, 47u8),
                    part@ == gparts[np - 1 - i as int],
                    board@.len() == 64,
                    0 <= gfile,
                    (gfile <= 8 && file == gfile) || (gfile > 8 && file == 8),
                    apply_rank_spec(board@, part@.skip(j as int), i as int, gfile)
                        == apply_rank_spec(board_in, part@, i as int, 0),
                    apply_ranks_spec(board_in, gparts, i as int) == board_of_fen(s@),
                decreases m - j,
            {
                let ghost rem = part@.skip(j as int);
                proof {
                    assert(rem.len() > 0);
                    assert(rem[0] == part@[j as int]);
                    assert(rem.drop_first() =~= part@.skip(j as int + 1));
                }
                let b = part[j];
                if 48 <= b && b <= 57 {
                    let d = b - 48;
                    proof {
                        gfile = gfile + d;
                    }
                    file = if file + d > 8 {
                        8
                    } else {
                        file + d
                    };
                } else {
                    match Board::piece_from_byte(b) {
                        Some((p, c)) => {
                            if file >= 8 {
                                proof {
                                    assert(apply_rank_spec(board_in, part@, i as int, 0) is None);
                                    assert(apply_ranks_spec(board_in, gparts, i as int) is None);
                                }
                                return Err(());
                            }
                            let idx = i * 8 + (file as usize);
                            let ghost board0 = board@;
                            board[idx] = Some((p, c));
                            proof {
                                assert(board@ =~= board0.update(
                                    i as int * 8 + gfile,
                                    piece_of_byte(rem[0]),
                                ));
                                gfile = gfile + 1;
                            }
                            file = file + 1;
                        },
                        None => {
                            proof {
                                assert(apply_rank_spec(board_in, part@, i as int, 0) is None);
                                assert(apply_ranks_spec(board_in, gparts, i as int) is None);
                            }
                            return Err(());
                        },
                    }
                }
                j = j + 1;
            }
            proof {
                assert(part@.skip(m as int) =~= Seq::<u8>::empty());
                assert(apply_rank_spec(board@, Seq::<u8>::empty(), i as int, gfile) == Some(
                    board@,
                ));
                assert(apply_rank_spec(board_in, part@, i as int, 0) == Some(board@));
                assert(apply_ranks_spec(board_in, gparts, i as int) == apply_ranks_spec(
                    board@,
                    gparts,
                    i as int + 1,
                ));
            }
            i = i + 1;
        }
        proof {
            assert(apply_ranks_spec(board@, gparts, np as int) == Some(board@));
        }
        Ok(board)
    }

    /// Reads the side-to-move field.
    fn parse_side_to_move(s: &[u8]) -> (r: Result<Color, ()>)
        ensures
            r is Ok <==> side_ok(s@),
            r matches Ok(c) ==> c == side_of(s@),
    {
        if s.len() == 1 && s[0] == 119 {
            proof {
                assert(s@ =~= seq![119u8]);
            }
            Ok(Color::White)
        } else if s.len() == 1 && s[0] == 98 {
            proof {
                assert(s@ =~= seq![98u8]);
                assert(s@ != seq![119u8]);
            }
            Ok(Color::Black)
        } else {
            proof {
                if s@ == seq![119u8] {
                    assert(s@.len() == 1 && s@[0] == 119);
                }
                if s@ == seq![98u8] {
                    assert(s@.len() == 1 && s@[0] == 98);
                }
            }
            Err(())
        }
    }

    /// Reads a standard castling field; unknown bytes are ignored, so the
    /// field never rejects.
    fn parse_castling_rights(s: &[u8]) -> (r: Result<CastlingRights, ()>)
        ensures
            r matches Ok(cr) && cr.0 == castling_of(s@),
    {
        let white_king: u8 = if crate::fen_bytes::contains_byte_in(s, 75, 75) {
            1
        } else {
            0
        };
        let white_queen: u8 = if crate::fen_bytes::contains_byte_in(s, 81, 81) {
            2
        } else {
            0
        };
        let black_king: u8 = if crate::fen_bytes::contains_byte_in(s, 107, 107) {
            4
        } else {
            0
        };
        let black_queen: u8 = if crate::fen_bytes::contains_byte_in(s, 113, 113) {
            8
        } else {
            0
        };
        Ok(CastlingRights(((white_king | white_queen) | black_king) | black_queen))
    }

    /// Reads a Shredder castling field; unknown bytes are ignored, so the
    /// field never rejects.
    fn parse_shredder_castling(s: &[u8]) -> (r: Result<CastlingRights, ()>)
        ensures
            r matches Ok(cr) && cr.0 == shredder_castling_of(s@),
    {
        let white_king: u8 = if crate::fen_bytes::contains_byte_in(s, 70, 72) {
            1
        } else {
            0
        };
        let white_queen: u8 = if crate::fen_bytes::contains_byte_in(s, 65, 69) {
            2
        } else {
            0
        };
        let black_king: u8 = if crate::fen_bytes::contains_byte_in(s, 102, 104) {
            4
        } else {
            0
        };
        let black_queen: u8 = if crate::fen_bytes::contains_byte_in(s, 97, 101) {
            8
        } else {
            0
        };
        Ok(CastlingRights(((white_king | white_queen) | black_king) | black_queen))
    }

    /// Reads the en passant field.
    fn parse_en_passant_target_square(s: &[u8]) -> (r: Result<Option<Square>, ()>)
        ensures
            r is Ok <==> ep_ok(s@),
            r matches Ok(o) ==> if ep_none(s@) {
                o is None
            } else {
                o matches Some(sq) && sq@ == ep_index(s@)
            },
    {
        if s.len() == 1 && s[0] == 45 {
            proof {
                assert(s@ =~= seq![45u8]);
            }
            return Ok(None);
        }
        proof {
            if s@ == seq![45u8] {
                assert(s@.len() == 1 && s@[0] == 45);
            }
        }
        if s.len() == 2 && 97 <= s[0] && s[0] <= 104 && 49 <= s[1] && s[1] <= 56 {
            let file = File::from_index((s[0] - 97) as usize);
            let rank = Rank::from_index((s[1] - 49) as usize);
            Ok(Some(Square::create_square(rank, file)))
        } else {
            Err(())
        }
    }

    /// Reads the halfmove clock field: a digit run worth at most 100.
    fn parse_halfmove_clock(s: &[u8]) -> (r: Result<u8, ()>)
        ensures
            r is Ok <==> half_ok(s@),
            r matches Ok(v) ==> v == dec_value(s@),
    {
        match parse_decimal(s, 100) {
            Ok(v) => Ok(v as u8),
            Err(()) => Err(()),
        }
    }

    /// Reads the fullmove counter field: a digit run worth 1 to 65535.
    fn parse_fullmove_counter(s: &[u8]) -> (r: Result<u16, ()>)
        ensures
            r is Ok <==> full_ok(s@),
            r matches Ok(v) ==> v == dec_value(s@),
    {
        match parse_decimal(s, 65535) {
            Ok(v) => {
                if v == 0 {
                    Err(())
                } else {
                    Ok(v as u16)
                }
            },
            Err(()) => Err(()),
        }
    }

    /// Reads a whole six-field record, with the castling field read as
    /// standard or Shredder style.
    fn parse_fen_record(fen: &str, shredder: bool) -> (r: Result<Board, BoardParseError>)
        ensures
            ({
                let fields = split_on(fen.spec_bytes(), 32);
                &&& (r is Ok <==> fen_parts_ok(fields))
                &&& (fields.len() != 6 ==> r == Err::<Board, BoardParseError>(
                    BoardParseError::InvalidFenString,
                ))
                &&& (fields.len() == 6 && board_of_fen(fields[0]) is None ==> r == Err::<
                    Board,
                    BoardParseError,
                >(BoardParseError::InvalidBoard))
                &&& (fields.len() == 6 && board_of_fen(fields[0]) is Some && !side_ok(fields[1])
                    ==> r == Err::<Board, BoardParseError>(BoardParseError::InvalidSideToMove))
                &&& (fields.len() == 6 && board_of_fen(fields[0]) is Some && side_ok(fields[1])
                    && !ep_ok(fields[3]) ==> r == Err::<Board, BoardParseError>(
                    BoardParseError::InvalidEnPassantTargetSquare,
                ))
                &&& (fields.len() == 6 && board_of_fen(fields[0]) is Some && side_ok(fields[1])
                    && ep_ok(fields[3]) && !half_ok(fields[4]) ==> r == Err::<
                    Board,
                    BoardParseError,
                >(BoardParseError::InvalidHalfmoveClock))
                &&& (fields.len() == 6 && board_of_fen(fields[0]) is Some && side_ok(fields[1])
                    && ep_ok(fields[3]) && half_ok(fields[4]) && !full_ok(fields[5]) ==> r == Err::<
                    Board,
                    BoardParseError,
                >(BoardParseError::InvalidFullmoveCounter))
                &&& (r matches Ok(b) ==> parsed_board_ok(
                    b,
                    fields,
                    if shredder {
                        shredder_castling_of(fields[2])
                    } else {
                        castling_of(fields[2])
                    },
                ))
            }),
    {
        let bytes = fen.as_bytes();
        let fields = split_bytes(bytes, 32);
        let ghost gfields = split_on(fen.spec_bytes(), 32);
        proof {
            assert(fields@.map_values(|v: Vec<u8>| v@) == gfields);
        }
        if fields.len() != 6 {
            return Err(BoardParseError::InvalidFenString);
        }
        let board_vec = match Board::parse_board(fields[0].as_slice()) {
            Ok(v) => v,
            Err(()) => {
                return Err(BoardParseError::InvalidBoard);
            },
        };
        let side_to_move = match Board::parse_side_to_move(fields[1].as_slice()) {
            Ok(c) => c,
            Err(()) => {
                return Err(BoardParseError::InvalidSideToMove);
            },
        };
        let castling_rights = if shredder {
            match Board::parse_shredder_castling(fields[2].as_slice()) {
                Ok(cr) => cr,
                Err(()) => {
                    return Err(BoardParseError::InvalidCastlingRights);
                },
            }
        } else {
            match Board::parse_castling_rights(fields[2].as_slice()) {
                Ok(cr) => cr,
                Err(()) => {
                    return Err(BoardParseError::InvalidCastlingRights);
                },
            }
        };
        let en_passant = match Board::parse_en_passant_target_square(fields[3].as_slice()) {
            Ok(o) => o,
            Err(()) => {
                return Err(BoardParseError::InvalidEnPassantTargetSquare);
            },
        };
        let halfmove = match Board::parse_halfmove_clock(fields[4].as_slice()) {
            Ok(v) => v,
            Err(()) => {
                return Err(BoardParseError::InvalidHalfmoveClock);
            },
        };
        let fullmove = match Board::parse_fullmove_counter(fields[5].as_slice()) {
            Ok(v) => v,
            Err(()) => {
                return Err(BoardParseError::InvalidFullmoveCounter);
            },
        };
        let mut builder = BoardBuilder::new().set_board(board_vec).set_side_to_move(
            side_to_move,
        ).set_castling_rights(castling_rights).en_passant(en_passant).halfmove_clock(
            halfmove,
        ).fullmove_counter(fullmove);
        let board = builder.build();
        Ok(board)
    }

    /// Reads a FEN record: placement, side to move, `KQkq` castling, en
    /// passant square, halfmove clock, fullmove counter. The clock fields
    /// are validated and then discarded: a `Board` does not carry them.
    pub fn parse_fen(fen: &str) -> (r: Result<Board, BoardParseError>)
        ensures
            ({
                let fields = split_on(fen.spec_bytes(), 32);
                &&& (r is Ok <==> fen_parts_ok(fields))
                &&& (fields.len() != 6 ==> r == Err::<Board, BoardParseError>(
                    BoardParseError::InvalidFenString,
                ))
                &&& (fields.len() == 6 && board_of_fen(fields[0]) is None ==> r == Err::<
                    Board,
                    BoardParseError,
                >(BoardParseError::InvalidBoard))
                &&& (fields.len() == 6 && board_of_fen(fields[0]) is Some && !side_ok(fields[1])
                    ==> r == Err::<Board, BoardParseError>(BoardParseError::InvalidSideToMove))
                &&& (fields.len() == 6 && board_of_fen(fields[0]) is Some && side_ok(fields[1])
                    && !ep_ok(fields[3]) ==> r == Err::<Board, BoardParseError>(
                    BoardParseError::InvalidEnPassantTargetSquare,
                ))
                &&& (fields.len() == 6 && board_of_fen(fields[0]) is Some && side_ok(fields[1])
                    && ep_ok(fields[3]) && !half_ok(fields[4]) ==> r == Err::<
                    Board,
                    BoardParseError,
                >(BoardParseError::InvalidHalfmoveClock))
                &&& (fields.len() == 6 && board_of_fen(fields[0]) is Some && side_ok(fields[1])
                    && ep_ok(fields[3]) && half_ok(fields[4]) && !full_ok(fields[5]) ==> r == Err::<
                    Board,
                    BoardParseError,
                >(BoardParseError::InvalidFullmoveCounter))
                &&& (r matches Ok(b) ==> parsed_board_ok(b, fields, castling_of(fields[2])))
            }),
    {
        Board::parse_fen_record(fen, false)
    }

    /// Reads a Shredder-FEN record: as `parse_fen`, but the castling field
    /// holds the castling rooks' file letters instead of `KQkq`.
    pub fn parse_shredder_fen(fen: &str) -> (r: Result<Board, BoardParseError>)
        ensures
            ({
                let fields = split_on(fen.spec_bytes(), 32);
                &&& (r is Ok <==> fen_parts_ok(fields))
                &&& (fields.len() != 6 ==> r == Err::<Board, BoardParseError>(
                    BoardParseError::InvalidFenString,
                ))
                &&& (fields.len() == 6 && board_of_fen(fields[0]) is None ==> r == Err::<
                    Board,
                    BoardParseError,
                >(BoardParseError::InvalidBoard))
                &&& (fields.len() == 6 && board_of_fen(fields[0]) is Some && !side_ok(fields[1])
                    ==> r == Err::<Board, BoardParseError>(BoardParseError::InvalidSideToMove))
                &&& (fields.len() == 6 && board_of_fen(fields[0]) is Some && side_ok(fields[1])
                    && !ep_ok(fields[3]) ==> r == Err::<Board, BoardParseError>(
                    BoardParseError::InvalidEnPassantTargetSquare,
                ))
                &&& (fields.len() == 6 && board_of_fen(fields[0]) is Some && side_ok(fields[1])
                    && ep_ok(fields[3]) && !half_ok(fields[4]) ==> r == Err::<
                    Board,
                    BoardParseError,
                >(BoardParseError::InvalidHalfmoveClock))
                &&& (fields.len() == 6 && board_of_fen(fields[0]) is Some && side_ok(fields[1])
                    && ep_ok(fields[3]) && half_ok(fields[4]) && !full_ok(fields[5]) ==> r == Err::<
                    Board,
                    BoardParseError,
                >(BoardParseError::InvalidFullmoveCounter))
                &&& (r matches Ok(b) ==> parsed_board_ok(b, fields, shredder_castling_of(
                    fields[2],
                )))
            }),
    {
        Board::parse_fen_record(fen, true)
    }
}

} // verus!
