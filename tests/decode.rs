use chess_fen::board::Board;
use chess_fen::error::FenError;
use chess_fen::game::Game;
use chess_fen::piece::{letter_to_piece, Color, Piece, PieceType};

const START: &str = "rnbqkbnr/pppppppp/8/8/8/8/PPPPPPPP/RNBQKBNR w KQkq - 0 1";

fn piece(piece: PieceType, color: Color) -> Option<Piece> {
    Some(Piece { piece, color })
}

#[test]
fn index_round_trip_on_every_coordinate() {
    for x in 0..8usize {
        for y in 0..8usize {
            let i = Board::c_to_i(x, y);
            assert!(i < 64);
            assert_eq!(i, y * 8 + x);
            assert_eq!(i / 8, y);
            assert_eq!(i % 8, x);
        }
    }
    assert_eq!(Board::c_to_i(0, 0), 0);
    assert_eq!(Board::c_to_i(7, 7), 63);
    assert_eq!(Board::c_to_i(3, 2), 19);
}

#[test]
fn valid_coordinates_are_exactly_the_board() {
    for x in 0..8usize {
        for y in 0..8usize {
            assert!(Board::c_is_valid(x, y));
        }
    }
    assert!(!Board::c_is_valid(8, 0));
    assert!(!Board::c_is_valid(0, 8));
    assert!(!Board::c_is_valid(8, 8));
    assert!(!Board::c_is_valid(100, 3));
    assert!(!Board::c_is_valid(3, usize::MAX));
}

#[test]
fn blank_board_is_empty() {
    let b = Board::blank();
    assert!(b.position.iter().all(|c| c.is_none()));
}

#[test]
fn letters_read_as_pieces() {
    assert_eq!(letter_to_piece('r'), piece(PieceType::Rook, Color::Black));
    assert_eq!(letter_to_piece('N'), piece(PieceType::Knight, Color::White));
    assert_eq!(letter_to_piece('k'), piece(PieceType::King, Color::Black));
    assert_eq!(letter_to_piece('P'), piece(PieceType::Pawn, Color::White));
    assert_eq!(letter_to_piece('x'), None);
    assert_eq!(letter_to_piece('8'), None);
}

#[test]
fn empty_position_decodes() {
    let g = Game::from_fen("8/8/8/8/8/8/8/8 w - - 0 1").unwrap();
    assert!(g.board.position.iter().all(|c| c.is_none()));
    assert_eq!(g.turn, Color::White);
    assert!(g.castling.is_empty());
    assert_eq!(g.fifty_move_rule, 0);
    assert_eq!(g.full_turn_num, 1);
    assert_eq!(g.start_turn, 1);
    assert_eq!(g.half_turn_num, 2);
}

#[test]
fn start_position_decodes() {
    let g = Game::from_fen(START).unwrap();
    let p = &g.board.position;
    assert_eq!(p[0], piece(PieceType::Rook, Color::Black));
    assert_eq!(p[1], piece(PieceType::Knight, Color::Black));
    assert_eq!(p[2], piece(PieceType::Bishop, Color::Black));
    assert_eq!(p[3], piece(PieceType::Queen, Color::Black));
    assert_eq!(p[4], piece(PieceType::King, Color::Black));
    assert_eq!(p[7], piece(PieceType::Rook, Color::Black));
    for i in 8..16 {
        assert_eq!(p[i], piece(PieceType::Pawn, Color::Black));
    }
    for i in 16..48 {
        assert_eq!(p[i], None);
    }
    for i in 48..56 {
        assert_eq!(p[i], piece(PieceType::Pawn, Color::White));
    }
    assert_eq!(p[56], piece(PieceType::Rook, Color::White));
    assert_eq!(p[59], piece(PieceType::Queen, Color::White));
    assert_eq!(p[60], piece(PieceType::King, Color::White));
    assert_eq!(p[63], piece(PieceType::Rook, Color::White));
    assert_eq!(g.castling, vec!['K', 'Q', 'k', 'q']);
    assert_eq!(g.turn, Color::White);
    assert_eq!(g.half_turn_num, 2);
    assert_eq!(g.full_turn_num, 1);
    assert_eq!(g.fifty_move_rule, 0);
}

#[test]
fn full_placement_puts_each_cell_in_place() {
    // Sicilian defence after 1. e4 c5 2. Nf3
    let g = Game::from_fen("rnbqkbnr/pp1ppppp/8/2p5/4P3/5N2/PPPP1PPP/RNBQKB1R b KQkq - 1 2")
        .unwrap();
    let p = &g.board.position;
    assert_eq!(p[Board::c_to_i(2, 3)], piece(PieceType::Pawn, Color::Black));
    assert_eq!(p[Board::c_to_i(2, 1)], None);
    assert_eq!(p[Board::c_to_i(4, 4)], piece(PieceType::Pawn, Color::White));
    assert_eq!(p[Board::c_to_i(5, 5)], piece(PieceType::Knight, Color::White));
    assert_eq!(p[Board::c_to_i(4, 6)], None);
    assert_eq!(p[Board::c_to_i(6, 7)], None);
    assert_eq!(p.iter().filter(|c| c.is_some()).count(), 32);
    assert_eq!(g.turn, Color::Black);
    assert_eq!(g.fifty_move_rule, 1);
    assert_eq!(g.full_turn_num, 2);
    assert_eq!(g.half_turn_num, 5);
}

#[test]
fn board_from_fen_reads_the_first_field_only() {
    let b = Board::from_fen(START).unwrap();
    assert_eq!(b.position[0], piece(PieceType::Rook, Color::Black));
    assert_eq!(b.position[60], piece(PieceType::King, Color::White));
    let b = Board::from_fen("8/8/8/8/8/8/8/8 this is not read").unwrap();
    assert_eq!(b, Board::blank());
}

#[test]
fn invalid_turn_is_rejected() {
    let r = Game::from_fen("rnbqkbnr/pppppppp/8/8/8/8/PPPPPPPP/RNBQKBNR x KQkq - 0 1");
    assert_eq!(r, Err(FenError::InvalidTurn));
    assert_eq!(Game::from_fen("8/8/8/8/8/8/8/8  KQkq"), Err(FenError::InvalidTurn));
    assert_eq!(Game::from_fen("8/8/8/8/8/8/8/8 ww"), Err(FenError::InvalidTurn));
}

#[test]
fn turn_field_paths() {
    assert_eq!(Game::from_fen("8/8/8/8/8/8/8/8").unwrap().turn, Color::White);
    assert_eq!(Game::from_fen("8/8/8/8/8/8/8/8 w").unwrap().turn, Color::White);
    let g = Game::from_fen("8/8/8/8/8/8/8/8 b - - 0 7").unwrap();
    assert_eq!(g.turn, Color::Black);
    assert_eq!(g.half_turn_num, 15);
}

#[test]
fn invalid_placement_char_is_named() {
    let r = Game::from_fen("rnbqkbnr/ppzppppp/8/8/8/8/PPPPPPPP/RNBQKBNR w KQkq - 0 1");
    assert_eq!(r, Err(FenError::InvalidPlacementChar('z')));
    assert_eq!(Board::from_fen("9/8"), Err(FenError::InvalidPlacementChar('9')));
    assert_eq!(Board::from_fen("0"), Err(FenError::InvalidPlacementChar('0')));
}

#[test]
fn piece_past_the_edge_is_rejected() {
    assert_eq!(Board::from_fen("8p"), Err(FenError::PieceOffBoard(1)));
    assert_eq!(Board::from_fen("4p3p"), Err(FenError::PieceOffBoard(3)));
    assert_eq!(Board::from_fen("8/8/8/8/8/8/8/8/p"), Err(FenError::PieceOffBoard(16)));
}

#[test]
fn runs_may_end_at_the_edge() {
    let b = Board::from_fen("7p/p7").unwrap();
    assert_eq!(b.position[7], piece(PieceType::Pawn, Color::Black));
    assert_eq!(b.position[8], piece(PieceType::Pawn, Color::Black));
    // A run past the edge is accepted as long as no piece follows it.
    assert!(Board::from_fen("88/8").is_ok());
    let b = Board::from_fen("pppppppp").unwrap();
    assert_eq!(b.position[7], piece(PieceType::Pawn, Color::Black));
    assert_eq!(Board::from_fen("ppppppppp"), Err(FenError::PieceOffBoard(8)));
}

#[test]
fn short_placement_leaves_the_rest_empty() {
    let b = Board::from_fen("K").unwrap();
    assert_eq!(b.position[0], piece(PieceType::King, Color::White));
    assert!(b.position[1..].iter().all(|c| c.is_none()));
    let b = Board::from_fen(" w").unwrap();
    assert_eq!(b, Board::blank());
}

#[test]
fn empty_string_has_no_placement() {
    assert_eq!(Board::from_fen(""), Err(FenError::MissingField));
    assert_eq!(Game::from_fen(""), Err(FenError::MissingField));
}

#[test]
fn invalid_castling_char_is_named() {
    let r = Game::from_fen("rnbqkbnr/pppppppp/8/8/8/8/PPPPPPPP/RNBQKBNR w KQkqX - 0 1");
    assert_eq!(r, Err(FenError::InvalidCastlingChar('X')));
    let r = Game::from_fen("8/8/8/8/8/8/8/8 w --");
    assert_eq!(r, Err(FenError::InvalidCastlingChar('-')));
}

#[test]
fn castling_field_paths() {
    assert_eq!(Game::from_fen("8/8/8/8/8/8/8/8 w").unwrap().castling, vec!['K', 'Q', 'k', 'q']);
    assert!(Game::from_fen("8/8/8/8/8/8/8/8 w -").unwrap().castling.is_empty());
    assert_eq!(Game::from_fen("8/8/8/8/8/8/8/8 w qK").unwrap().castling, vec!['q', 'K']);
}

#[test]
fn non_numeric_fullmove_is_rejected() {
    let r = Game::from_fen("rnbqkbnr/pppppppp/8/8/8/8/PPPPPPPP/RNBQKBNR w KQkq - 0 abc");
    assert_eq!(r, Err(FenError::NumericParse));
    let r = Game::from_fen("8/8/8/8/8/8/8/8 w - - x1 1");
    assert_eq!(r, Err(FenError::NumericParse));
    assert_eq!(Game::from_fen("8/8/8/8/8/8/8/8 w - - -1 1"), Err(FenError::NumericParse));
    assert_eq!(Game::from_fen("8/8/8/8/8/8/8/8 w - - + 1"), Err(FenError::NumericParse));
    assert_eq!(Game::from_fen("8/8/8/8/8/8/8/8 w - -  1"), Err(FenError::NumericParse));
}

#[test]
fn counts_default_to_zero_and_accept_a_plus() {
    let g = Game::from_fen("8/8/8/8/8/8/8/8 w - -").unwrap();
    assert_eq!(g.fifty_move_rule, 0);
    assert_eq!(g.full_turn_num, 0);
    assert_eq!(g.start_turn, 0);
    assert_eq!(g.half_turn_num, 0);
    let g = Game::from_fen("8/8/8/8/8/8/8/8 w - - +12 034").unwrap();
    assert_eq!(g.fifty_move_rule, 12);
    assert_eq!(g.full_turn_num, 34);
    assert_eq!(g.half_turn_num, 68);
    let g = Game::from_fen("8/8/8/8/8/8/8/8 w - e3 0 1 extra fields").unwrap();
    assert_eq!(g.full_turn_num, 1);
}

#[test]
fn counts_that_do_not_fit_are_rejected() {
    let max = usize::MAX.to_string();
    let g = Game::from_fen(&format!("8/8/8/8/8/8/8/8 w - - {} 1", max)).unwrap();
    assert_eq!(g.fifty_move_rule, usize::MAX);
    let over = format!("8/8/8/8/8/8/8/8 w - - {}0 1", max);
    assert_eq!(Game::from_fen(&over), Err(FenError::NumericParse));
    let half_over = format!("8/8/8/8/8/8/8/8 w - - 0 {}", usize::MAX / 2 + 1);
    assert_eq!(Game::from_fen(&half_over), Err(FenError::NumericParse));
    let white_fits = format!("8/8/8/8/8/8/8/8 w - - 0 {}", usize::MAX / 2);
    assert_eq!(Game::from_fen(&white_fits).unwrap().half_turn_num, usize::MAX - 1);
    let black_fits = format!("8/8/8/8/8/8/8/8 b - - 0 {}", usize::MAX / 2);
    assert_eq!(Game::from_fen(&black_fits).unwrap().half_turn_num, usize::MAX);
}

#[test]
fn decoding_twice_gives_equal_games() {
    let a = Game::from_fen(START).unwrap();
    let b = Game::from_fen(START).unwrap();
    assert_eq!(a, b);
    let a = Game::from_fen("r3k2r/8/8/8/8/8/8/R3K2R b Kq - 12 40").unwrap();
    let b = Game::from_fen("r3k2r/8/8/8/8/8/8/R3K2R b Kq - 12 40").unwrap();
    assert_eq!(a, b);
}
