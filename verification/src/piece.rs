//! Pieces, their colours and kinds, and the letters that write them.

use vstd::prelude::*;
use vstd::string::*;

verus! {

/// The side that a piece belongs to, or that is to move.
#[derive(Clone, Copy, Debug, PartialEq, Eq, Structural)]
pub enum Color {
    White,
    Black,
}

/// The kind of a piece.
#[derive(Clone, Copy, Debug, PartialEq, Eq, Structural)]
pub enum PieceType {
    Pawn,
    Rook,
    Knight,
    Bishop,
    Queen,
    King,
}

/// A piece on the board. `position` is the mask of the square it stands on.
#[derive(Clone, Copy, Debug, PartialEq, Eq, Structural)]
pub struct Piece {
    pub position: u64,
    pub color: Color,
    pub piece_type: PieceType,
}

/// One square of the board. An occupied square refers to its piece by the
/// piece's index in the position's piece list; it does not own the piece.
#[derive(Clone, Copy, Debug, PartialEq, Eq, Structural)]
pub enum Square {
    Empty,
    Occupied(usize),
}

/// The letter that writes a piece: upper case for white, lower case for
/// black.
pub open spec fn piece_letter(color: Color, piece_type: PieceType) -> char {
    match (color, piece_type) {
        (Color::White, PieceType::Pawn) => 'P',
        (Color::White, PieceType::Rook) => 'R',
        (Color::White, PieceType::Knight) => 'N',
        (Color::White, PieceType::Bishop) => 'B',
        (Color::White, PieceType::Queen) => 'Q',
        (Color::White, PieceType::King) => 'K',
        (Color::Black, PieceType::Pawn) => 'p',
        (Color::Black, PieceType::Rook) => 'r',
        (Color::Black, PieceType::Knight) => 'n',
        (Color::Black, PieceType::Bishop) => 'b',
        (Color::Black, PieceType::Queen) => 'q',
        (Color::Black, PieceType::King) => 'k',
    }
}

/// The colour and kind that a letter writes, if it writes a piece.
pub open spec fn letter_piece(c: char) -> Option<(Color, PieceType)> {
    if c == 'P' {
        Some((Color::White, PieceType::Pawn))
    } else if c == 'R' {
        Some((Color::White, PieceType::Rook))
    } else if c == 'N' {
        Some((Color::White, PieceType::Knight))
    } else if c == 'B' {
        Some((Color::White, PieceType::Bishop))
    } else if c == 'Q' {
        Some((Color::White, PieceType::Queen))
    } else if c == 'K' {
        Some((Color::White, PieceType::King))
    } else if c == 'p' {
        Some((Color::Black, PieceType::Pawn))
    } else if c == 'r' {
        Some((Color::Black, PieceType::Rook))
    } else if c == 'n' {
        Some((Color::Black, PieceType::Knight))
    } else if c == 'b' {
        Some((Color::Black, PieceType::Bishop))
    } else if c == 'q' {
        Some((Color::Black, PieceType::Queen))
    } else if c == 'k' {
        Some((Color::Black, PieceType::King))
    } else {
        None
    }
}

/// A piece as the board text shows it: its letter and a space.
pub open spec fn piece_token(piece: Piece) -> Seq<char> {
    seq![piece_letter(piece.color, piece.piece_type), ' ']
}

/// Reading the letter of a piece gives its colour and kind back.
pub proof fn lemma_letter_round_trip(color: Color, piece_type: PieceType)
    ensures
        letter_piece(piece_letter(color, piece_type)) == Some((color, piece_type)),
{
}

/// The colour and kind that `c` writes, if it writes a piece.
pub fn piece_from_letter(c: char) -> (r: Option<(Color, PieceType)>)
    ensures
        r == letter_piece(c),
{
    if c == 'P' {
        Some((Color::White, PieceType::Pawn))
    } else if c == 'R' {
        Some((Color::White, PieceType::Rook))
    } else if c == 'N' {
        Some((Color::White, PieceType::Knight))
    } else if c == 'B' {
        Some((Color::White, PieceType::Bishop))
    } else if c == 'Q' {
        Some((Color::White, PieceType::Queen))
    } else if c == 'K' {
        Some((Color::White, PieceType::King))
    } else if c == 'p' {
        Some((Color::Black, PieceType::Pawn))
    } else if c == 'r' {
        Some((Color::Black, PieceType::Rook))
    } else if c == 'n' {
        Some((Color::Black, PieceType::Knight))
    } else if c == 'b' {
        Some((Color::Black, PieceType::Bishop))
    } else if c == 'q' {
        Some((Color::Black, PieceType::Queen))
    } else if c == 'k' {
        Some((Color::Black, PieceType::King))
    } else {
        None
    }
}

impl Piece {
    /// The piece as the board text shows it.
    pub fn to_string(&self) -> (s: String)
        ensures
            s@ == piece_token(*self),
    {
        proof {
            reveal_strlit("P ");
            reveal_strlit("R ");
            reveal_strlit("N ");
            reveal_strlit("B ");
            reveal_strlit("Q ");
            reveal_strlit("K ");
            reveal_strlit("p ");
            reveal_strlit("r ");
            reveal_strlit("n ");
            reveal_strlit("b ");
            reveal_strlit("q ");
            reveal_strlit("k ");
        }
        let token = match (self.color, self.piece_type) {
            (Color::White, PieceType::Pawn) => "P ",
            (Color::White, PieceType::Rook) => "R ",
            (Color::White, PieceType::Knight) => "N ",
            (Color::White, PieceType::Bishop) => "B ",
            (Color::White, PieceType::Queen) => "Q ",
            (Color::White, PieceType::King) => "K ",
            (Color::Black, PieceType::Pawn) => "p ",
            (Color::Black, PieceType::Rook) => "r ",
            (Color::Black, PieceType::Knight) => "n ",
            (Color::Black, PieceType::Bishop) => "b ",
            (Color::Black, PieceType::Queen) => "q ",
            (Color::Black, PieceType::King) => "k ",
        };
        assert(token@ =~= piece_token(*self));
        String::from_str(token)
    }
}

} // verus!
