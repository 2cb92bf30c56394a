use magic_tables::bitboard::BitBoard;
use magic_tables::board::Board;
use magic_tables::board_builder::BoardBuilder;
use magic_tables::castling::{CastlingRights, BLACK_QUEEN_SIDE, WHITE_KING_SIDE};
use magic_tables::chess_move::ChessMove;
use magic_tables::color::Color;
use magic_tables::constants::generate_constants;
use magic_tables::fen::BoardParseError;
use magic_tables::piece::Piece;
use magic_tables::square::Square;

#[test]
fn test_new_board_is_empty() {
    let board = Board::new();
    assert_eq!(board.get_occupancy_bitboard().0, 0);
    assert_eq!(board.get_to_move(), Color::White);
    assert_eq!(board.get_piece_at(Square::new(0)), None);
}

#[test]
fn test_set_and_get_piece() {
    let mut board = Board::new();
    board.set_piece_at(BitBoard(1), Piece::Rook, Color::White);
    board.set_piece_at(BitBoard(1 << 63), Piece::King, Color::Black);
    assert_eq!(board.get_white_rook_bitboard().0, 1);
    assert_eq!(board.get_black_king_bitboard().0, 1 << 63);
    assert_eq!(board.get_white_pieces_bitboard().0, 1);
    assert_eq!(board.get_black_pieces_bitboard().0, 1 << 63);
    assert_eq!(board.get_occupancy_bitboard().0, 1 | (1 << 63));
    assert_eq!(
        board.get_piece_at(Square::new(0)),
        Some((Piece::Rook, Color::White))
    );
    assert_eq!(
        board.get_piece_at(Square::new(63)),
        Some((Piece::King, Color::Black))
    );
    assert_eq!(board.get_piece_at(Square::new(30)), None);
}

#[test]
fn test_builder_carries_fields() {
    let mut builder = BoardBuilder::new()
        .set_side_to_move(Color::Black)
        .set_castling_rights(CastlingRights::from_bytes(WHITE_KING_SIDE | BLACK_QUEEN_SIDE))
        .halfmove_clock(42)
        .fullmove_counter(7);
    assert_eq!(builder.get_side_to_move(), Color::Black);
    assert_eq!(builder.get_halfmove_clock(), 42);
    assert_eq!(builder.get_fullmove_counter(), 7);
    assert_eq!(builder.get_en_passant(), None);
    let board = builder.build();
    assert_eq!(board.get_to_move(), Color::Black);
    assert_eq!(board.get_occupancy_bitboard().0, 0);
}

#[test]
fn test_builder_places_pieces() {
    let mut placement: Vec<Option<(Piece, Color)>> = vec![None; 64];
    placement[4] = Some((Piece::King, Color::White));
    placement[60] = Some((Piece::King, Color::Black));
    placement[27] = Some((Piece::Queen, Color::White));
    let mut builder = BoardBuilder::new().set_board(placement);
    let board = builder.build();
    assert_eq!(board.get_white_king_bitboard().0, 1 << 4);
    assert_eq!(board.get_black_king_bitboard().0, 1 << 60);
    assert_eq!(board.get_white_queen_bitboard().0, 1 << 27);
    assert_eq!(board.get_occupancy_bitboard().0, (1 << 4) | (1 << 60) | (1 << 27));
    let got = builder.get_board();
    assert_eq!(got[27], Some((Piece::Queen, Color::White)));
    assert_eq!(got[0], None);
}

#[test]
fn test_parse_fen_start_position() {
    let board = Board::parse_fen("rnbqkbnr/pppppppp/8/8/8/8/PPPPPPPP/RNBQKBNR w KQkq - 0 1")
        .expect("start position must parse");
    assert_eq!(board.get_white_pawn_bitboard().0, 0xFF00);
    assert_eq!(board.get_black_pawn_bitboard().0, 0x00FF_0000_0000_0000);
    assert_eq!(board.get_white_rook_bitboard().0, 0x81);
    assert_eq!(board.get_black_rook_bitboard().0, 0x8100_0000_0000_0000);
    assert_eq!(board.get_white_king_bitboard().0, 0x10);
    assert_eq!(board.get_occupancy_bitboard().0, 0xFFFF_0000_0000_FFFF);
    assert_eq!(board.get_to_move(), Color::White);
    assert_eq!(
        board.get_piece_at(Square::new(4)),
        Some((Piece::King, Color::White))
    );
}

#[test]
fn test_parse_shredder_fen_start_position() {
    let board =
        Board::parse_shredder_fen("rnbqkbnr/pppppppp/8/8/8/8/PPPPPPPP/RNBQKBNR w HAha - 0 1")
            .expect("Shredder start position must parse");
    assert_eq!(board.get_white_pawn_bitboard().0, 0xFF00);
    assert_eq!(board.get_to_move(), Color::White);
}

#[test]
fn test_parse_fen_black_to_move_with_en_passant() {
    let board = Board::parse_fen("rnbqkbnr/pppppppp/8/8/4P3/8/PPPP1PPP/RNBQKBNR b KQkq e3 0 1")
        .expect("position must parse");
    assert_eq!(board.get_to_move(), Color::Black);
    assert_eq!(board.get_white_pawn_bitboard().0, 0x1000_EF00);
}

#[test]
fn test_parse_fen_wrong_field_count() {
    assert_eq!(
        Board::parse_fen("only three fields"),
        Err(BoardParseError::InvalidFenString)
    );
}

#[test]
fn test_parse_fen_bad_board() {
    assert_eq!(
        Board::parse_fen("x7/8/8/8/8/8/8/8 w - - 0 1"),
        Err(BoardParseError::InvalidBoard)
    );
    assert_eq!(
        Board::parse_fen("8/8/8/8/8/8/8/8/8 w - - 0 1"),
        Err(BoardParseError::InvalidBoard)
    );
    // A ninth piece on one rank walks past the h file.
    assert_eq!(
        Board::parse_fen("ppppppppp/8/8/8/8/8/8/8 w - - 0 1"),
        Err(BoardParseError::InvalidBoard)
    );
}

#[test]
fn test_parse_fen_bad_side_to_move() {
    assert_eq!(
        Board::parse_fen("8/8/8/8/8/8/8/8 x - - 0 1"),
        Err(BoardParseError::InvalidSideToMove)
    );
}

#[test]
fn test_parse_fen_bad_en_passant() {
    assert_eq!(
        Board::parse_fen("8/8/8/8/8/8/8/8 w - e9 0 1"),
        Err(BoardParseError::InvalidEnPassantTargetSquare)
    );
    assert_eq!(
        Board::parse_fen("8/8/8/8/8/8/8/8 w - e33 0 1"),
        Err(BoardParseError::InvalidEnPassantTargetSquare)
    );
}

#[test]
fn test_parse_fen_bad_halfmove_clock() {
    assert_eq!(
        Board::parse_fen("8/8/8/8/8/8/8/8 w - - 101 1"),
        Err(BoardParseError::InvalidHalfmoveClock)
    );
    assert_eq!(
        Board::parse_fen("8/8/8/8/8/8/8/8 w - - x 1"),
        Err(BoardParseError::InvalidHalfmoveClock)
    );
}

#[test]
fn test_parse_fen_bad_fullmove_counter() {
    assert_eq!(
        Board::parse_fen("8/8/8/8/8/8/8/8 w - - 0 0"),
        Err(BoardParseError::InvalidFullmoveCounter)
    );
    assert_eq!(
        Board::parse_fen("8/8/8/8/8/8/8/8 w - - 0 99999"),
        Err(BoardParseError::InvalidFullmoveCounter)
    );
}

#[test]
fn test_castling_rights_union() {
    let mut rights = CastlingRights::empty();
    assert_eq!(rights.0, 0);
    rights.union_assign(CastlingRights::from_bytes(WHITE_KING_SIDE));
    rights.union_assign(CastlingRights::from_bytes(BLACK_QUEEN_SIDE));
    assert_eq!(rights.0, WHITE_KING_SIDE | BLACK_QUEEN_SIDE);
    let both = CastlingRights::from_bytes(1).union(CastlingRights::from_bytes(2));
    assert_eq!(both.0, 3);
}

#[test]
fn test_chess_move_accessors() {
    let m = ChessMove::new(Square::new(12), Square::new(28), Some(Piece::Queen));
    assert_eq!(m.get_from(), Square::new(12));
    assert_eq!(m.get_to(), Square::new(28));
    assert_eq!(m.get_promotion(), Some(Piece::Queen));
}

#[test]
fn test_square_offset_and_steps() {
    let d4 = Square::new(27);
    assert_eq!(d4.offset(1, 1), Some(Square::new(36)));
    assert_eq!(d4.offset(-3, 0), Some(Square::new(24)));
    assert_eq!(d4.offset(-4, 0), None);
    assert_eq!(d4.up(), Some(Square::new(35)));
    assert_eq!(d4.down(), Some(Square::new(19)));
    assert_eq!(Square::new(60).up(), None);
    assert_eq!(Square::new(4).down(), None);
}

#[test]
fn test_generate_constants_values() {
    let c = generate_constants();
    assert_eq!(c.rank_masks[0].0, 0xFF);
    assert_eq!(c.rank_masks[7].0, 0xFF00_0000_0000_0000);
    assert_eq!(c.file_masks[0].0, 0x0101_0101_0101_0101);
    assert_eq!(c.file_masks[7].0, 0x8080_8080_8080_8080);
    assert_eq!(c.adjacent_file_masks[0].0, 0x0202_0202_0202_0202);
    assert_eq!(
        c.adjacent_file_masks[3].0,
        0x0404_0404_0404_0404 | 0x1010_1010_1010_1010
    );
    assert_eq!(c.edge_mask.0, 0xFF81_8181_8181_81FF);
}

#[test]
fn test_piece_fancy_strings() {
    assert_eq!(Piece::King.to_fancy_string(Color::White), "\u{2654}");
    assert_eq!(Piece::Pawn.to_fancy_string(Color::Black), "\u{265F}");
}
