//! Further exercises: FEN round trips, move application, promotion,
//! castling-right updates, en passant after a real double advance, and the
//! error paths.
use chyes::{Board, ChessError, Color, Coordinate, Piece, Pieces};

fn coord(row: u8, col: u8) -> Coordinate {
    Coordinate { row, col }
}

const START_FEN: &str = "rnbqkbnr/pppppppp/8/8/8/8/PPPPPPPP/RNBQKBNR w KQkq - 0 1";

#[test]
fn fen_round_trip_start_position() {
    let board = Board::from_fen(START_FEN).expect("Failed to load FEN");
    assert_eq!(board.get_fen(), START_FEN);
}

#[test]
fn fen_round_trip_midgame_position() {
    let fen = "r3k2r/1p3p2/8/3Pp3/8/8/PP6/R3K2R b Kq e6 12 34";
    let board = Board::from_fen(fen).expect("Failed to load FEN");
    assert_eq!(board.get_fen(), fen);
}

#[test]
fn fen_round_trip_after_legal_moves() {
    let mut board = Board::default();
    board.move_piece(coord(6, 4), coord(4, 4)).expect("Couldn't move");
    board.move_piece(coord(1, 2), coord(3, 2)).expect("Couldn't move");
    let fen = board.get_fen();
    let reloaded = Board::from_fen(&fen).expect("Failed to load FEN");
    assert_eq!(reloaded.get_fen(), fen);
}

#[test]
fn default_board_is_start_position() {
    assert_eq!(Board::default().get_fen(), START_FEN);
}

#[test]
fn empty_board_fen() {
    assert_eq!(Board::new().get_fen(), "8/8/8/8/8/8/8/8 w - - 0 1");
}

#[test]
fn double_pawn_push_sets_en_passant_target() {
    let mut board = Board::from_fen("8/4p3/8/3P4/8/8/8/8 b - - 0 1").expect("Failed to load FEN");
    board.move_piece(coord(1, 4), coord(3, 4)).expect("Couldn't move");
    assert_eq!(board.get_fen(), "8/8/8/3Pp3/8/8/8/8 w - e6 1 2");
    // the white pawn may now capture diagonally onto the skipped square
    let moves = board.generate_moves(coord(3, 3)).expect("Couldn't generate moves");
    assert_eq!(moves.len(), 2);
    assert!(moves.contains(&coord(2, 4)));
}

#[test]
fn king_with_free_square_is_not_checkmated() {
    let board = Board::from_fen("K6r/8/8/8/8/8/8/8 w - - 0 1").expect("Failed to load FEN");
    assert!(board.is_in_check(Color::White));
    assert!(!board.is_in_checkmate(Color::White));
}

#[test]
fn pinned_pawn_has_pseudo_moves_but_no_legal_moves() {
    let board = Board::from_fen("8/8/8/8/1KP3r1/8/8/8 w - - 0 1").expect("Failed to load FEN");
    assert_eq!(board.generate_pseudo_legal_moves(coord(4, 2)).len(), 1);
    assert_eq!(board.generate_moves(coord(4, 2)).expect("Couldn't generate moves").len(), 0);
}

#[test]
fn queen_moves_at_center() {
    let board = Board::from_fen("8/8/8/3Q4/8/8/8/8 w - - 0 1").expect("Failed to load FEN");
    assert_eq!(board.generate_moves(coord(3, 3)).expect("Couldn't generate moves").len(), 27);
}

#[test]
fn move_piece_returns_captured_piece() {
    let mut board = Board::from_fen("8/8/8/3q4/8/8/8/3R4 w - - 0 1").expect("Failed to load FEN");
    let captured = board.move_piece(coord(7, 3), coord(3, 3)).expect("Couldn't move");
    assert_eq!(captured, Some(Piece { breed: Pieces::Queen, color: Color::Black }));
    assert_eq!(board.get_piece(&coord(3, 3)), Some(Piece { breed: Pieces::Rook, color: Color::White }));
    assert_eq!(board.get_piece(&coord(7, 3)), None);
}

#[test]
fn move_from_empty_square_is_rejected() {
    let mut board = Board::new();
    assert_eq!(board.move_piece(coord(3, 3), coord(4, 4)), Err(ChessError::EmptySquare));
}

#[test]
fn move_onto_friendly_piece_is_rejected() {
    let mut board = Board::from_fen("8/8/8/8/8/8/8/RN6 w - - 0 1").expect("Failed to load FEN");
    assert_eq!(board.move_piece(coord(7, 0), coord(7, 1)), Err(ChessError::FriendlyOccupied));
}

#[test]
fn pawn_promotes_to_queen() {
    let mut board = Board::from_fen("8/P7/8/8/8/8/8/8 w - - 0 1").expect("Failed to load FEN");
    board.move_piece(coord(1, 0), coord(0, 0)).expect("Couldn't move");
    assert_eq!(
        board.get_piece(&coord(0, 0)),
        Some(Piece { breed: Pieces::Queen, color: Color::White })
    );
    assert_eq!(board.get_fen(), "Q7/8/8/8/8/8/8/8 b - - 1 1");
}

#[test]
fn king_move_clears_both_castling_rights() {
    let mut board =
        Board::from_fen("r3k2r/8/8/8/8/8/8/R3K2R w KQkq - 0 1").expect("Failed to load FEN");
    board.move_piece(coord(7, 4), coord(6, 4)).expect("Couldn't move");
    assert_eq!(board.get_fen(), "r3k2r/8/8/8/8/8/4K3/R6R b kq - 1 1");
}

#[test]
fn rook_move_clears_one_castling_right() {
    let mut board =
        Board::from_fen("r3k2r/8/8/8/8/8/8/R3K2R w KQkq - 0 1").expect("Failed to load FEN");
    board.move_piece(coord(7, 7), coord(6, 7)).expect("Couldn't move");
    assert_eq!(board.get_fen(), "r3k2r/8/8/8/8/8/7R/R3K3 b Qkq - 1 1");
}

#[test]
fn malformed_fen_is_rejected() {
    assert!(matches!(Board::from_fen(""), Err(ChessError::InvalidFen)));
    // five fields
    assert!(matches!(
        Board::from_fen("8/8/8/8/8/8/8/8 w - - 0"),
        Err(ChessError::InvalidFen)
    ));
    // seven fields
    assert!(matches!(
        Board::from_fen("8/8/8/8/8/8/8/8 w - - 0 1 x"),
        Err(ChessError::InvalidFen)
    ));
    // a letter that names no piece
    assert!(matches!(
        Board::from_fen("x7/8/8/8/8/8/8/8 w - - 0 1"),
        Err(ChessError::InvalidFen)
    ));
    // an active color that is neither w nor b
    assert!(matches!(
        Board::from_fen("8/8/8/8/8/8/8/8 x - - 0 1"),
        Err(ChessError::InvalidFen)
    ));
    // a castling letter outside KQkq
    assert!(matches!(
        Board::from_fen("8/8/8/8/8/8/8/8 w x - 0 1"),
        Err(ChessError::InvalidFen)
    ));
    // an en-passant square that names no square
    assert!(matches!(
        Board::from_fen("8/8/8/8/8/8/8/8 w - x9 0 1"),
        Err(ChessError::InvalidFen)
    ));
    // a clock that is not a number
    assert!(matches!(
        Board::from_fen("8/8/8/8/8/8/8/8 w - - abc 1"),
        Err(ChessError::InvalidFen)
    ));
    // a clock too large for the board's counters
    assert!(matches!(
        Board::from_fen("8/8/8/8/8/8/8/8 w - - 99999999 1"),
        Err(ChessError::InvalidFen)
    ));
}

#[test]
fn failed_load_leaves_the_board_reset() {
    let mut board = Board::default();
    assert_eq!(board.load_fen("not a fen"), Err(ChessError::InvalidFen));
    assert_eq!(board.get_fen(), "8/8/8/8/8/8/8/8 w - - 0 1");
}

#[test]
fn linear_index_conversions() {
    assert_eq!(coord(0, 0).as_number(), 0);
    assert_eq!(coord(7, 7).as_number(), 63);
    assert_eq!(coord(3, 4).as_number(), 28);
    assert_eq!(Coordinate::from_number(0), Ok(coord(0, 0)));
    assert_eq!(Coordinate::from_number(63), Ok(coord(7, 7)));
    assert_eq!(Coordinate::from_number(64), Err(ChessError::OutOfRange));
    assert!(coord(7, 7).is_valid());
    assert!(!coord(8, 0).is_valid());
}

#[test]
fn piece_glyphs() {
    assert_eq!(Pieces::King.to_unicode(Color::Black), '♔');
    assert_eq!(Pieces::Queen.to_unicode(Color::Black), '♕');
    assert_eq!(Pieces::Pawn.to_unicode(Color::White), '♟');
    assert_eq!(Pieces::Knight.to_unicode(Color::White), '♞');
}

#[test]
fn board_as_character_grid() {
    let board = Board::from_fen("K7/8/8/8/8/8/8/7q w - - 0 1").expect("Failed to load FEN");
    let grid = chyes::utils::transform_chess_board_to_strings(&board);
    assert_eq!(grid.len(), 8);
    assert_eq!(grid[0].len(), 8);
    assert_eq!(grid[0][0], '♚');
    assert_eq!(grid[0][1], '.');
    assert_eq!(grid[7][7], '♕');
}

#[test]
fn place_and_get_pieces() {
    let mut board = Board::new();
    assert_eq!(board.get_piece(&coord(4, 4)), None);
    let knight = Piece { breed: Pieces::Knight, color: Color::White };
    assert_eq!(board.place_piece(knight, coord(4, 4)), None);
    assert_eq!(board.get_piece(&coord(4, 4)), Some(knight));
    // placing again hands back the previous occupant
    let queen = Piece { breed: Pieces::Queen, color: Color::Black };
    assert_eq!(board.place_piece(queen, coord(4, 4)), Some(knight));
    assert_eq!(board.get_piece(&coord(4, 4)), Some(queen));
    // an off-board square holds nothing
    assert_eq!(board.get_piece(&coord(9, 9)), None);
    board.reset();
    assert_eq!(board.get_piece(&coord(4, 4)), None);
}

#[test]
fn king_lookup_per_color() {
    let board = Board::from_fen("4k3/8/8/8/8/8/8/4K3 w - - 0 1").expect("Failed to load FEN");
    assert_eq!(board.get_king_coord(Color::Black), Some(coord(0, 4)));
    assert_eq!(board.get_king_coord(Color::White), Some(coord(7, 4)));
    assert_eq!(Board::new().get_king_coord(Color::White), None);
}

#[test]
fn notation_round_trip_all_squares() {
    for row in 0..8u8 {
        for col in 0..8u8 {
            let c = coord(row, col);
            let text = c.to_notation();
            assert_eq!(Coordinate::from_notation(&text), Ok(c));
        }
    }
}
