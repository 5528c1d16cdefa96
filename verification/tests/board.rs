use fen_board::castling::CastlingRights;
use fen_board::error::BoardError;
use fen_board::fen::{parse_color, parse_en_passant, parse_placement, parse_row};
use fen_board::game::Game;
use fen_board::piece::{piece_from_letter, Color, Piece, PieceType, Square};

const START_FEN: &str = "rnbqkbnr/pppppppp/8/8/8/8/PPPPPPPP/RNBQKBNR w KQkq - 0 1";

const START_TEXT: &str = "r n b q k b n r \n\
                          p p p p p p p p \n\
                          a6b6c6d6e6f6g6h6\n\
                          a5b5c5d5e5f5g5h5\n\
                          a4b4c4d4e4f4g4h4\n\
                          a3b3c3d3e3f3g3h3\n\
                          P P P P P P P P \n\
                          R N B Q K B N R \n";

fn piece(square: usize, color: Color, piece_type: PieceType) -> Piece {
    Piece { position: 1u64 << square, color, piece_type }
}

#[test]
fn piece_tokens() {
    assert_eq!(piece(0, Color::White, PieceType::Pawn).to_string(), "P ");
    assert_eq!(piece(0, Color::White, PieceType::Rook).to_string(), "R ");
    assert_eq!(piece(0, Color::White, PieceType::Knight).to_string(), "N ");
    assert_eq!(piece(0, Color::White, PieceType::Bishop).to_string(), "B ");
    assert_eq!(piece(0, Color::White, PieceType::Queen).to_string(), "Q ");
    assert_eq!(piece(0, Color::White, PieceType::King).to_string(), "K ");
    assert_eq!(piece(0, Color::Black, PieceType::Pawn).to_string(), "p ");
    assert_eq!(piece(0, Color::Black, PieceType::Rook).to_string(), "r ");
    assert_eq!(piece(0, Color::Black, PieceType::Knight).to_string(), "n ");
    assert_eq!(piece(0, Color::Black, PieceType::Bishop).to_string(), "b ");
    assert_eq!(piece(0, Color::Black, PieceType::Queen).to_string(), "q ");
    assert_eq!(piece(0, Color::Black, PieceType::King).to_string(), "k ");
}

#[test]
fn letters_name_pieces() {
    assert_eq!(piece_from_letter('K'), Some((Color::White, PieceType::King)));
    assert_eq!(piece_from_letter('n'), Some((Color::Black, PieceType::Knight)));
    assert_eq!(piece_from_letter('x'), None);
    assert_eq!(piece_from_letter('8'), None);
    assert_eq!(piece_from_letter('/'), None);
    for color in [Color::White, Color::Black] {
        for kind in [
            PieceType::Pawn,
            PieceType::Rook,
            PieceType::Knight,
            PieceType::Bishop,
            PieceType::Queen,
            PieceType::King,
        ] {
            let token = piece(0, color, kind).to_string();
            let letter = token.chars().next().unwrap();
            assert_eq!(piece_from_letter(letter), Some((color, kind)));
        }
    }
}

#[test]
fn default_is_an_empty_board() {
    let game = Game::default();
    assert!(game.pieces.is_empty());
    assert!(game.squares.is_empty());
    assert_eq!(game.active_color, Color::White);
    assert_eq!(game.castling_rights, CastlingRights::all());
    assert_eq!(game.en_passant, None);
    assert_eq!(game.halfmove_clock, 0);
    assert_eq!(game.fullmove_number, 1);
    assert!(!game.is_well_formed());
    assert_eq!(game.to_string(), "");
}

#[test]
fn pushing_pieces_and_squares() {
    let mut game = Game::default();
    let mut index = 0;
    game.push_piece_and_square(0, Color::White, PieceType::Rook, &mut index);
    assert_eq!(index, 1);
    game.push_empty_square();
    game.push_piece_and_square(2, Color::Black, PieceType::Queen, &mut index);
    assert_eq!(index, 2);
    assert_eq!(
        game.pieces,
        vec![piece(0, Color::White, PieceType::Rook), piece(2, Color::Black, PieceType::Queen)]
    );
    assert_eq!(game.squares, vec![Square::Occupied(0), Square::Empty, Square::Occupied(1)]);
    assert_eq!(game.to_string(), "R b1q ");
}

#[test]
fn unfinished_rows_come_before_the_complete_ones() {
    let mut game = Game::default();
    for _ in 0..10 {
        game.push_empty_square();
    }
    assert_eq!(game.to_string(), "a2b2a1b1c1d1e1f1g1h1\n");
}

#[test]
fn standard_start_holds_the_initial_position() {
    let game = Game::init();
    assert!(game.is_well_formed());
    assert_eq!(game.pieces.len(), 32);
    assert_eq!(game.squares.len(), 64);
    assert_eq!(game.active_color, Color::White);
    assert_eq!(game.castling_rights, CastlingRights::all());
    assert_eq!(game.en_passant, None);
    assert_eq!(game.halfmove_clock, 0);
    assert_eq!(game.fullmove_number, 1);
    let back = [
        PieceType::Rook,
        PieceType::Knight,
        PieceType::Bishop,
        PieceType::Queen,
        PieceType::King,
        PieceType::Bishop,
        PieceType::Knight,
        PieceType::Rook,
    ];
    for i in 0..8 {
        assert_eq!(game.squares[i], Square::Occupied(i));
        assert_eq!(game.pieces[i], piece(i, Color::White, back[i]));
        assert_eq!(game.squares[8 + i], Square::Occupied(8 + i));
        assert_eq!(game.pieces[8 + i], piece(8 + i, Color::White, PieceType::Pawn));
        assert_eq!(game.squares[48 + i], Square::Occupied(16 + i));
        assert_eq!(game.pieces[16 + i], piece(48 + i, Color::Black, PieceType::Pawn));
        assert_eq!(game.squares[56 + i], Square::Occupied(24 + i));
        assert_eq!(game.pieces[24 + i], piece(56 + i, Color::Black, back[i]));
    }
    for i in 16..48 {
        assert_eq!(game.squares[i], Square::Empty);
    }
}

#[test]
fn standard_start_renders_top_row_first() {
    assert_eq!(Game::init().to_string(), START_TEXT);
}

#[test]
fn decoded_start_renders_like_standard_start() {
    let game = Game::from_fen(START_FEN).unwrap();
    assert_eq!(game.to_string(), Game::init().to_string());
    assert_eq!(game.to_string(), START_TEXT);
}

#[test]
fn decoded_start_has_the_start_state() {
    let game = Game::from_fen(START_FEN).unwrap();
    assert!(game.is_well_formed());
    assert_eq!(game.active_color, Color::White);
    assert_eq!(game.castling_rights, CastlingRights::all());
    assert_eq!(game.castling_rights.bits(), 15);
    assert_eq!(game.en_passant, None);
    assert_eq!(game.halfmove_clock, 0);
    assert_eq!(game.fullmove_number, 1);
}

#[test]
fn decoded_pieces_are_numbered_in_reading_order() {
    let game = Game::from_fen(START_FEN).unwrap();
    assert_eq!(game.pieces.len(), 32);
    assert_eq!(game.pieces[0], piece(56, Color::Black, PieceType::Rook));
    assert_eq!(game.pieces[4], piece(60, Color::Black, PieceType::King));
    assert_eq!(game.pieces[8], piece(48, Color::Black, PieceType::Pawn));
    assert_eq!(game.pieces[16], piece(8, Color::White, PieceType::Pawn));
    assert_eq!(game.pieces[27], piece(3, Color::White, PieceType::Queen));
    assert_eq!(game.pieces[31], piece(7, Color::White, PieceType::Rook));
    assert_eq!(game.squares[0], Square::Occupied(24));
    assert_eq!(game.squares[7], Square::Occupied(31));
    assert_eq!(game.squares[8], Square::Occupied(16));
    assert_eq!(game.squares[56], Square::Occupied(0));
    assert_eq!(game.squares[63], Square::Occupied(7));
    assert_eq!(game.squares[30], Square::Empty);
}

#[test]
fn empty_board_with_counters() {
    let game = Game::from_fen("8/8/8/8/8/8/8/8 w - - 5 10").unwrap();
    assert!(game.is_well_formed());
    assert!(game.pieces.is_empty());
    assert_eq!(game.squares, vec![Square::Empty; 64]);
    assert_eq!(game.active_color, Color::White);
    assert!(game.castling_rights.is_empty());
    assert_eq!(game.en_passant, None);
    assert_eq!(game.halfmove_clock, 5);
    assert_eq!(game.fullmove_number, 10);
}

#[test]
fn a_position_from_the_middle_of_a_game() {
    let game =
        Game::from_fen("rnbqkbnr/pp1ppppp/8/2p5/4P3/5N2/PPPP1PPP/RNBQKB1R b Kq e3 1 2").unwrap();
    assert!(game.is_well_formed());
    assert_eq!(game.active_color, Color::Black);
    assert_eq!(game.castling_rights.bits(), 9);
    assert_eq!(game.en_passant, Some(1 << 20));
    assert_eq!(game.halfmove_clock, 1);
    assert_eq!(game.fullmove_number, 2);
    assert_eq!(game.pieces.len(), 32);
    assert_eq!(game.squares[34], Square::Occupied(15));
    assert_eq!(game.pieces[15], piece(34, Color::Black, PieceType::Pawn));
    assert_eq!(game.squares[28], Square::Occupied(16));
    assert_eq!(game.pieces[16], piece(28, Color::White, PieceType::Pawn));
    assert_eq!(game.squares[21], Square::Occupied(17));
    assert_eq!(game.pieces[17], piece(21, Color::White, PieceType::Knight));
    assert_eq!(
        game.to_string(),
        "r n b q k b n r \n\
         p p c7p p p p p \n\
         a6b6c6d6e6f6g6h6\n\
         a5b5p d5e5f5g5h5\n\
         a4b4c4d4P f4g4h4\n\
         a3b3c3d3e3N g3h3\n\
         P P P P e2P P P \n\
         R N B Q K B g1R \n"
    );
}

#[test]
fn every_occupied_square_names_the_piece_that_stands_on_it() {
    let game = Game::from_fen("r3k2r/8/2n5/8/3Q4/8/1B6/R3K2R w KQkq - 12 34").unwrap();
    assert_eq!(game.squares.len(), 64);
    let mut seen = 0;
    for (i, square) in game.squares.iter().enumerate() {
        if let Square::Occupied(k) = square {
            assert_eq!(game.pieces[*k].position, 1u64 << i);
            seen += 1;
        }
    }
    assert_eq!(seen, game.pieces.len());
    assert_eq!(game.halfmove_clock, 12);
    assert_eq!(game.fullmove_number, 34);
}

#[test]
fn text_after_the_sixth_field_is_not_read() {
    let game = Game::from_fen("8/8/8/8/8/8/8/8 b - - 0 1 trailing words").unwrap();
    assert_eq!(game.active_color, Color::Black);
    assert_eq!(game.fullmove_number, 1);
}

#[test]
fn ranks_must_describe_eight_squares() {
    let bad = Err(BoardError::InvalidRankToken);
    assert_eq!(Game::from_fen("8/8/8/8/8/8/8/8/8 w - - 0 1"), bad);
    assert_eq!(Game::from_fen("rnbqkbnr/pppppppp/8/8/8/8/PPPPPPPP/RNBQKBNR/pppppppp w - - 0 1"), bad);
    assert_eq!(Game::from_fen("8/8/8/8/8/8/8 w - - 0 1"), bad);
    assert_eq!(Game::from_fen("9/8/8/8/8/8/8/8 w - - 0 1"), bad);
    assert_eq!(Game::from_fen("7/8/8/8/8/8/8/8 w - - 0 1"), bad);
    assert_eq!(Game::from_fen("8/8/8/8/8/8/8/ppppppppp w - - 0 1"), bad);
    assert_eq!(Game::from_fen("8/8/8/8/8/8/8/ppppppp w - - 0 1"), bad);
    assert_eq!(Game::from_fen("8/8/8/8/8/8/8/44p w - - 0 1"), bad);
    assert_eq!(Game::from_fen("8/8/8/8/8/8/8/80 w - - 0 1"), bad);
    assert_eq!(Game::from_fen("8/8/8/8/8/8/8/7x w - - 0 1"), bad);
    assert_eq!(Game::from_fen("8/8/8/8//8/8/8 w - - 0 1"), bad);
    assert_eq!(Game::from_fen(""), bad);
    assert_eq!(Game::from_fen("w - - 0 1"), bad);
}

#[test]
fn each_field_has_its_failure() {
    let board = "8/8/8/8/8/8/8/8";
    let decode = |rest: &str| Game::from_fen(&format!("{} {}", board, rest)).map(|_| ());
    assert_eq!(decode("w - - 0 1"), Ok(()));
    assert_eq!(decode("x - - 0 1"), Err(BoardError::UnknownColorDesignator));
    assert_eq!(decode("W - - 0 1"), Err(BoardError::UnknownColorDesignator));
    assert_eq!(decode("wb - - 0 1"), Err(BoardError::UnknownColorDesignator));
    assert_eq!(decode(" - - 0 1"), Err(BoardError::UnknownColorDesignator));
    assert_eq!(decode("w KQx - 0 1"), Err(BoardError::UnknownCastlingDesignator));
    assert_eq!(decode("w - e 0 1"), Err(BoardError::InvalidLength));
    assert_eq!(decode("w - z3 0 1"), Err(BoardError::InvalidColumn));
    assert_eq!(decode("w - e9 0 1"), Err(BoardError::InvalidRow));
    assert_eq!(decode("w - - x 1"), Err(BoardError::InvalidHalfmoveNumber));
    assert_eq!(decode("w - - -1 1"), Err(BoardError::InvalidHalfmoveNumber));
    assert_eq!(decode("w - -  1"), Err(BoardError::InvalidHalfmoveNumber));
    assert_eq!(decode("w - - 0 x"), Err(BoardError::InvalidFullmoveNumber));
    assert_eq!(decode("w - - 0 0"), Err(BoardError::InvalidFullmoveNumber));
    assert_eq!(decode("w - - 0"), Err(BoardError::InvalidFullmoveNumber));
    assert_eq!(decode("w - - 0 "), Err(BoardError::InvalidFullmoveNumber));
    assert_eq!(decode("w - -"), Err(BoardError::InvalidHalfmoveNumber));
    assert_eq!(decode("w -"), Err(BoardError::InvalidLength));
    assert_eq!(decode("w"), Err(BoardError::InvalidLength));
    assert_eq!(decode(""), Err(BoardError::UnknownColorDesignator));
}

#[test]
fn the_first_failing_field_decides() {
    assert_eq!(Game::from_fen("7/8/8/8/8/8/8/8 x Z zz x x"), Err(BoardError::InvalidRankToken));
    assert_eq!(
        Game::from_fen("8/8/8/8/8/8/8/8 x Z zz x x"),
        Err(BoardError::UnknownColorDesignator)
    );
    assert_eq!(
        Game::from_fen("8/8/8/8/8/8/8/8 w Z zz x x"),
        Err(BoardError::UnknownCastlingDesignator)
    );
    assert_eq!(Game::from_fen("8/8/8/8/8/8/8/8 w K zz x x"), Err(BoardError::InvalidColumn));
    assert_eq!(
        Game::from_fen("8/8/8/8/8/8/8/8 w K a3 x x"),
        Err(BoardError::InvalidHalfmoveNumber)
    );
    assert_eq!(
        Game::from_fen("8/8/8/8/8/8/8/8 w K a3 7 x"),
        Err(BoardError::InvalidFullmoveNumber)
    );
}

#[test]
fn parse_row_reads_one_rank() {
    let (pieces, squares) = parse_row("2p1K3", 5, 16).unwrap();
    assert_eq!(
        pieces,
        vec![piece(18, Color::Black, PieceType::Pawn), piece(20, Color::White, PieceType::King)]
    );
    assert_eq!(
        squares,
        vec![
            Square::Empty,
            Square::Empty,
            Square::Occupied(5),
            Square::Empty,
            Square::Occupied(6),
            Square::Empty,
            Square::Empty,
            Square::Empty,
        ]
    );
    let (pieces, squares) = parse_row("8", 0, 56).unwrap();
    assert!(pieces.is_empty());
    assert_eq!(squares, vec![Square::Empty; 8]);
    let (pieces, squares) = parse_row("RNBQKBNR", 24, 0).unwrap();
    assert_eq!(pieces.len(), 8);
    assert_eq!(pieces[7], piece(7, Color::White, PieceType::Rook));
    assert_eq!(squares[0], Square::Occupied(24));
    assert_eq!(squares[7], Square::Occupied(31));
}

#[test]
fn parse_row_refuses_bad_ranks() {
    let bad = Err(BoardError::InvalidRankToken);
    assert_eq!(parse_row("", 0, 0), bad);
    assert_eq!(parse_row("7", 0, 0), bad);
    assert_eq!(parse_row("9", 0, 0), bad);
    assert_eq!(parse_row("0", 0, 0), bad);
    assert_eq!(parse_row("08", 0, 0), bad);
    assert_eq!(parse_row("pppppppp1", 0, 0), bad);
    assert_eq!(parse_row("8p", 0, 0), bad);
    assert_eq!(parse_row("4x3", 0, 0), bad);
    assert_eq!(parse_row("8/", 0, 0), bad);
}

#[test]
fn parse_placement_lays_rows_out_bottom_first() {
    let (pieces, squares) = parse_placement("k7/8/8/8/8/8/8/7K").unwrap();
    assert_eq!(
        pieces,
        vec![piece(56, Color::Black, PieceType::King), piece(7, Color::White, PieceType::King)]
    );
    assert_eq!(squares.len(), 64);
    assert_eq!(squares[56], Square::Occupied(0));
    assert_eq!(squares[7], Square::Occupied(1));
    assert_eq!(squares.iter().filter(|s| **s == Square::Empty).count(), 62);
}

#[test]
fn colour_and_en_passant_fields() {
    assert_eq!(parse_color("w"), Some(Color::White));
    assert_eq!(parse_color("b"), Some(Color::Black));
    assert_eq!(parse_color(""), None);
    assert_eq!(parse_color("ww"), None);
    assert_eq!(parse_en_passant("-"), Ok(None));
    assert_eq!(parse_en_passant("c6"), Ok(Some(1 << 42)));
    assert_eq!(parse_en_passant("--"), Err(BoardError::InvalidColumn));
}

#[test]
fn well_formedness_is_checked_square_by_square() {
    let mut game = Game::init();
    assert!(game.is_well_formed());
    game.squares[20] = Square::Occupied(40);
    assert!(!game.is_well_formed());
    game.squares[20] = Square::Occupied(3);
    assert!(!game.is_well_formed());
    game.squares[20] = Square::Empty;
    assert!(game.is_well_formed());
    game.fullmove_number = 0;
    assert!(!game.is_well_formed());
    game.fullmove_number = 1;
    game.squares.pop();
    assert!(!game.is_well_formed());
}
