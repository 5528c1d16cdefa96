//! The position: pieces, squares, side to move, rights and counters.

use crate::castling::{CastlingRight, CastlingRights};
use crate::piece::{piece_token, Color, Piece, PieceType, Square};
use crate::square::{index_to_position, square_bit, square_name};
use vstd::prelude::*;
use vstd::string::*;

verus! {

/// A chess position. Squares are held by index, row by row from `a1`; an
/// occupied square gives the index of its piece in `pieces`.
#[derive(Debug, PartialEq, Eq)]
pub struct Game {
    pub pieces: Vec<Piece>,
    pub squares: Vec<Square>,
    pub active_color: Color,
    pub castling_rights: CastlingRights,
    pub en_passant: Option<u64>,
    pub halfmove_clock: usize,
    pub fullmove_number: usize,
}

/// A position as plain mathematical data.
pub struct GameView {
    pub pieces: Seq<Piece>,
    pub squares: Seq<Square>,
    pub active_color: Color,
    pub castling_rights: Set<CastlingRight>,
    pub en_passant: Option<u64>,
    pub halfmove_clock: nat,
    pub fullmove_number: nat,
}

impl GameView {
    /// Every occupied square names a piece of the list.
    pub open spec fn refs_in_range(self) -> bool {
        forall|i: int|
            0 <= i < self.squares.len() ==> match #[trigger] self.squares[i] {
                Square::Empty => true,
                Square::Occupied(k) => k < self.pieces.len(),
            }
    }

    /// Every occupied square names a piece of the list, and that piece
    /// stands on that square.
    pub open spec fn squares_consistent(self) -> bool {
        forall|i: int|
            0 <= i < self.squares.len() ==> match #[trigger] self.squares[i] {
                Square::Empty => true,
                Square::Occupied(k) => k < self.pieces.len() && self.pieces[k as int].position
                    == square_bit(i),
            }
    }

    /// A complete position: 64 consistent squares and a fullmove number
    /// that counts from 1.
    pub open spec fn wf(self) -> bool {
        &&& self.squares.len() == 64
        &&& self.squares_consistent()
        &&& self.fullmove_number >= 1
    }

    /// What the board text shows for square `i`: the piece on it, or the
    /// name of the square if it is empty.
    pub open spec fn square_token(self, i: int) -> Seq<char> {
        match self.squares[i] {
            Square::Empty => square_name(i as nat),
            Square::Occupied(k) => piece_token(self.pieces[k as int]),
        }
    }

    /// The tokens of the squares `from..to`, in that order.
    pub open spec fn tokens(self, from: int, to: int) -> Seq<char>
        decreases to - from,
    {
        if to <= from {
            Seq::empty()
        } else {
            self.tokens(from, to - 1) + self.square_token(to - 1)
        }
    }

    /// The line of row `r`, counted from 0: its eight tokens from column
    /// `a` to column `h`, then a line feed.
    pub open spec fn rank_line(self, r: int) -> Seq<char> {
        self.tokens(8 * r, 8 * r + 8).push('\n')
    }

    /// The lines of the rows below `ranks`, the highest row first.
    pub open spec fn ranks_text(self, ranks: int) -> Seq<char>
        decreases ranks,
    {
        if ranks <= 0 {
            Seq::empty()
        } else {
            self.rank_line(ranks - 1) + self.ranks_text(ranks - 1)
        }
    }

    /// The board text: the lines of the complete rows from the top row
    /// down to row 1. Squares beyond the last complete row, which only an
    /// unfinished board has, come before the first line.
    pub open spec fn render(self) -> Seq<char> {
        let full = self.squares.len() as int / 8;
        self.tokens(8 * full, self.squares.len() as int) + self.ranks_text(full)
    }
}

/// The kind of piece that starts in the given column of a back row.
pub open spec fn back_rank(column: int) -> PieceType {
    if column == 0 || column == 7 {
        PieceType::Rook
    } else if column == 1 || column == 6 {
        PieceType::Knight
    } else if column == 2 || column == 5 {
        PieceType::Bishop
    } else if column == 3 {
        PieceType::Queen
    } else {
        PieceType::King
    }
}

/// Piece number `k` of the starting position: the 16 white pieces by
/// square from `a1` to `h2`, then the 16 black ones from `a7` to `h8`.
pub open spec fn start_piece(k: int) -> Piece {
    if k < 8 {
        Piece { position: square_bit(k), color: Color::White, piece_type: back_rank(k) }
    } else if k < 16 {
        Piece { position: square_bit(k), color: Color::White, piece_type: PieceType::Pawn }
    } else if k < 24 {
        Piece { position: square_bit(k + 32), color: Color::Black, piece_type: PieceType::Pawn }
    } else {
        Piece { position: square_bit(k + 32), color: Color::Black, piece_type: back_rank(k - 24) }
    }
}

/// Square `i` of the starting position.
pub open spec fn start_square(i: int) -> Square {
    if i < 16 {
        Square::Occupied(i as usize)
    } else if i < 48 {
        Square::Empty
    } else {
        Square::Occupied((i - 32) as usize)
    }
}

/// The starting position of a game of chess.
pub open spec fn standard_start() -> GameView {
    GameView {
        pieces: Seq::new(32, |k: int| start_piece(k)),
        squares: Seq::new(64, |i: int| start_square(i)),
        active_color: Color::White,
        castling_rights: Set::full(),
        en_passant: None,
        halfmove_clock: 0,
        fullmove_number: 1,
    }
}

/// How many pieces stand on the first `i` squares of the starting position.
pub open spec fn start_piece_count(i: int) -> int {
    if i <= 16 {
        i
    } else if i <= 48 {
        16
    } else {
        i - 32
    }
}

fn back_rank_kind(column: usize) -> (kind: PieceType)
    ensures
        kind == back_rank(column as int),
{
    if column == 0 || column == 7 {
        PieceType::Rook
    } else if column == 1 || column == 6 {
        PieceType::Knight
    } else if column == 2 || column == 5 {
        PieceType::Bishop
    } else if column == 3 {
        PieceType::Queen
    } else {
        PieceType::King
    }
}

impl View for Game {
    type V = GameView;

    open spec fn view(&self) -> GameView {
        GameView {
            pieces: self.pieces@,
            squares: self.squares@,
            active_color: self.active_color,
            castling_rights: self.castling_rights@,
            en_passant: self.en_passant,
            halfmove_clock: self.halfmove_clock as nat,
            fullmove_number: self.fullmove_number as nat,
        }
    }
}

impl Game {
    /// A complete position whose castling rights use only the four flags.
    pub open spec fn wf(&self) -> bool {
        self@.wf() && self.castling_rights.wf()
    }

    /// A board without squares or pieces: white to move, all castling
    /// rights, no en-passant target, the clocks at their start.
    pub fn default() -> (game: Game)
        ensures
            game.pieces@ == Seq::<Piece>::empty(),
            game.squares@ == Seq::<Square>::empty(),
            game.active_color == Color::White,
            game.castling_rights@ == Set::<CastlingRight>::full(),
            game.castling_rights.wf(),
            game.en_passant == None::<u64>,
            game.halfmove_clock == 0,
            game.fullmove_number == 1,
    {
        Game {
            pieces: Vec::new(),
            squares: Vec::new(),
            active_color: Color::White,
            castling_rights: CastlingRights::all(),
            en_passant: None,
            halfmove_clock: 0,
            fullmove_number: 1,
        }
    }

    /// Adds a piece that stands on square `position`, and a square that
    /// refers to it as piece number `index`; then counts `index` up.
    pub fn push_piece_and_square(
        &mut self,
        position: usize,
        color: Color,
        piece_type: PieceType,
        index: &mut usize,
    )
        requires
            position < 64,
            *old(index) < usize::MAX,
        ensures
            final(self).pieces@ == old(self).pieces@.push(
                Piece { position: square_bit(position as int), color, piece_type },
            ),
            final(self).squares@ == old(self).squares@.push(Square::Occupied(*old(index))),
            *final(index) == *old(index) + 1,
            final(self).active_color == old(self).active_color,
            final(self).castling_rights == old(self).castling_rights,
            final(self).en_passant == old(self).en_passant,
            final(self).halfmove_clock == old(self).halfmove_clock,
            final(self).fullmove_number == old(self).fullmove_number,
            old(self)@.squares_consistent() && position == old(self).squares@.len() && *old(index)
                == old(self).pieces@.len() ==> final(self)@.squares_consistent(),
    {
        let bit: u64 = 1u64 << (position as u64);
        self.pieces.push(Piece { position: bit, color, piece_type });
        self.squares.push(Square::Occupied(*index));
        *index += 1;
    }

    /// Adds an empty square.
    pub fn push_empty_square(&mut self)
        ensures
            final(self).squares@ == old(self).squares@.push(Square::Empty),
            final(self).pieces@ == old(self).pieces@,
            final(self).active_color == old(self).active_color,
            final(self).castling_rights == old(self).castling_rights,
            final(self).en_passant == old(self).en_passant,
            final(self).halfmove_clock == old(self).halfmove_clock,
            final(self).fullmove_number == old(self).fullmove_number,
            old(self)@.squares_consistent() ==> final(self)@.squares_consistent(),
    {
        self.squares.push(Square::Empty);
    }

    /// The starting position of a game of chess.
    pub fn init() -> (game: Game)
        ensures
            game@ == standard_start(),
            game.wf(),
    {
        let mut game = Game::default();
        let mut piece_index: usize = 0;
        let mut i: usize = 0;
        while i < 64
            invariant
                i <= 64,
                piece_index == start_piece_count(i as int),
                game.pieces@ =~= Seq::new(piece_index as nat, |k: int| start_piece(k)),
                game.squares@ =~= Seq::new(i as nat, |j: int| start_square(j)),
                game.active_color == Color::White,
                game.castling_rights@ == Set::<CastlingRight>::full(),
                game.castling_rights.wf(),
                game.en_passant == None::<u64>,
                game.halfmove_clock == 0,
                game.fullmove_number == 1,
            decreases 64 - i,
        {
            if i < 8 {
                game.push_piece_and_square(i, Color::White, back_rank_kind(i), &mut piece_index);
            } else if i < 16 {
                game.push_piece_and_square(i, Color::White, PieceType::Pawn, &mut piece_index);
            } else if i < 48 {
                game.push_empty_square();
            } else if i < 56 {
                game.push_piece_and_square(i, Color::Black, PieceType::Pawn, &mut piece_index);
            } else {
                game.push_piece_and_square(
                    i,
                    Color::Black,
                    back_rank_kind(i - 56),
                    &mut piece_index,
                );
            }
            i += 1;
        }
        assert(game@.pieces =~= standard_start().pieces);
        assert(game@.squares =~= standard_start().squares);
        game
    }

    /// Whether the position is complete and consistent.
    pub fn is_well_formed(&self) -> (b: bool)
        ensures
            b == self.wf(),
    {
        if self.squares.len() != 64 || self.fullmove_number < 1 || self.castling_rights.bits()
            >= 16 {
            return false;
        }
        let mut i: usize = 0;
        while i < 64
            invariant
                i <= 64,
                self.squares@.len() == 64,
                forall|j: int|
                    0 <= j < i ==> match #[trigger] self.squares@[j] {
                        Square::Empty => true,
                        Square::Occupied(k) => k < self.pieces@.len() && self.pieces@[k as int].position
                            == square_bit(j),
                    },
            decreases 64 - i,
        {
            match self.squares[i] {
                Square::Empty => {},
                Square::Occupied(k) => {
                    if k >= self.pieces.len() {
                        return false;
                    }
                    if self.pieces[k].position != 1u64 << (i as u64) {
                        return false;
                    }
                },
            }
            i += 1;
        }
        true
    }

    fn push_token(&self, board: &mut String, i: usize)
        requires
            i < self.squares@.len(),
            self@.refs_in_range(),
        ensures
            final(board)@ == old(board)@ + self@.square_token(i as int),
    {
        match self.squares[i] {
            Square::Empty => {
                let name = index_to_position(i);
                board.append(name.as_str());
            },
            Square::Occupied(k) => {
                let token = self.pieces[k].to_string();
                board.append(token.as_str());
            },
        }
    }

    /// The board as text: one line per row, the top row first, each line
    /// eight tokens of two characters and a line feed. An occupied square
    /// shows the letter of its piece and a space, an empty one its name.
    pub fn to_string(&self) -> (board: String)
        requires
            self@.refs_in_range(),
        ensures
            board@ == self@.render(),
    {
        let n = self.squares.len();
        let full = n / 8;
        let mut board = String::new();
        let mut i: usize = full * 8;
        while i < n
            invariant
                n == self.squares@.len(),
                full == n / 8,
                full * 8 <= i <= n,
                self@.refs_in_range(),
                board@ == self@.tokens(8 * full, i as int),
            decreases n - i,
        {
            self.push_token(&mut board, i);
            i += 1;
        }
        let mut r: usize = full;
        while r > 0
            invariant
                n == self.squares@.len(),
                full == n / 8,
                r <= full,
                self@.refs_in_range(),
                board@ + self@.ranks_text(r as int) == self@.render(),
            decreases r,
        {
            r -= 1;
            let ghost before = board@;
            let mut j: usize = r * 8;
            while j < r * 8 + 8
                invariant
                    n == self.squares@.len(),
                    r < full,
                    full == n / 8,
                    r * 8 <= j <= r * 8 + 8,
                    self@.refs_in_range(),
                    board@ == before + self@.tokens(8 * r, j as int),
                decreases r * 8 + 8 - j,
            {
                self.push_token(&mut board, j);
                assert(before + self@.tokens(8 * r, j as int) + self@.square_token(j as int)
                    =~= before + self@.tokens(8 * r, j + 1));
                j += 1;
            }
            proof {
                reveal_strlit("\n");
            }
            board.append("\n");
            assert("\n"@ =~= seq!['\n']);
            assert(board@ =~= before + self@.rank_line(r as int));
            assert(before + self@.rank_line(r as int) + self@.ranks_text(r as int) =~= before
                + self@.ranks_text(r + 1));
        }
        assert(board@ + self@.ranks_text(0) =~= board@);
        board
    }
}

} // verus!
