//! Reading a position from Forsyth-Edwards Notation.

use crate::castling::{CastlingRight, CastlingRights};
use crate::error::BoardError;
use crate::game::{Game, GameView};
use crate::piece::{letter_piece, piece_from_letter, Color, Piece, Square};
use crate::square::{name_to_bit, position_to_bit, square_bit};
use crate::text::{after_sep, before_sep, chars_of, parse_number, parsed_number, split_on};
use vstd::prelude::*;

verus! {

/// Whether `c` may stand in a rank: a piece letter, or a digit from 1 to 8
/// that counts empty squares.
pub open spec fn token_ok(c: char) -> bool {
    letter_piece(c) is Some || ('1' <= c && c <= '8')
}

/// How many squares the rank token `c` describes.
pub open spec fn token_width(c: char) -> int {
    if letter_piece(c) is Some {
        1
    } else if '1' <= c && c <= '8' {
        c as u32 - 48
    } else {
        0
    }
}

/// How many squares the tokens of `row` describe.
pub open spec fn rank_width(row: Seq<char>) -> int
    decreases row.len(),
{
    if row.len() == 0 {
        0
    } else {
        rank_width(row.drop_last()) + token_width(row.last())
    }
}

/// A rank is valid if all its tokens are, and they describe eight squares.
pub open spec fn rank_valid(row: Seq<char>) -> bool {
    (forall|i: int| 0 <= i < row.len() ==> token_ok(#[trigger] row[i])) && rank_width(row) == 8
}

/// The pieces that `row` names, in the order of its letters, where the
/// first square of the rank has index `position`.
pub open spec fn rank_pieces(row: Seq<char>, position: int) -> Seq<Piece>
    decreases row.len(),
{
    if row.len() == 0 {
        Seq::empty()
    } else {
        let before = row.drop_last();
        match letter_piece(row.last()) {
            Some((color, piece_type)) => rank_pieces(before, position).push(
                Piece { position: square_bit(position + rank_width(before)), color, piece_type },
            ),
            None => rank_pieces(before, position),
        }
    }
}

/// The squares that `row` describes, from column `a` on, where the first
/// piece of the rank has the number `piece_index`.
pub open spec fn rank_squares(row: Seq<char>, piece_index: int) -> Seq<Square>
    decreases row.len(),
{
    if row.len() == 0 {
        Seq::empty()
    } else {
        let before = row.drop_last();
        if letter_piece(row.last()) is Some {
            rank_squares(before, piece_index).push(
                Square::Occupied((piece_index + rank_pieces(before, 0).len()) as usize),
            )
        } else {
            rank_squares(before, piece_index) + Seq::new(
                token_width(row.last()) as nat,
                |j: int| Square::Empty,
            )
        }
    }
}

/// Each occupied square of a rank names one of the rank's pieces, and that
/// piece stands on that square.
pub open spec fn rank_aligned(
    pieces: Seq<Piece>,
    squares: Seq<Square>,
    piece_index: int,
    position: int,
) -> bool {
    forall|j: int|
        0 <= j < squares.len() ==> match #[trigger] squares[j] {
            Square::Empty => true,
            Square::Occupied(k) => piece_index <= k < piece_index + pieces.len() && pieces[k
                - piece_index].position == square_bit(position + j),
        }
}

proof fn lemma_rank_width_nonnegative(row: Seq<char>)
    ensures
        0 <= rank_width(row),
    decreases row.len(),
{
    if row.len() > 0 {
        lemma_rank_width_nonnegative(row.drop_last());
    }
}

proof fn lemma_rank_width_grows(row: Seq<char>, i: int)
    requires
        0 <= i <= row.len(),
    ensures
        0 <= rank_width(row.take(i)) <= rank_width(row),
    decreases row.len() - i,
{
    lemma_rank_width_nonnegative(row.take(i));
    if i == row.len() {
        assert(row.take(i) =~= row);
    } else {
        lemma_rank_width_grows(row.drop_last(), i);
        assert(row.drop_last().take(i) =~= row.take(i));
    }
}

proof fn lemma_rank_pieces_len(row: Seq<char>, p: int, q: int)
    ensures
        rank_pieces(row, p).len() == rank_pieces(row, q).len(),
        rank_pieces(row, p).len() <= row.len(),
    decreases row.len(),
{
    if row.len() > 0 {
        lemma_rank_pieces_len(row.drop_last(), p, q);
    }
}

/// Reads one rank of a piece placement. The first square of the rank has
/// index `piece_position`, its first piece the number `piece_index`.
pub fn parse_row(row: &str, piece_index: usize, piece_position: usize) -> (r: Result<
    (Vec<Piece>, Vec<Square>),
    BoardError,
>)
    requires
        piece_position <= 56,
        piece_index <= usize::MAX - 8,
    ensures
        match r {
            Ok((pieces, squares)) => {
                &&& rank_valid(row@)
                &&& pieces@ == rank_pieces(row@, piece_position as int)
                &&& squares@ == rank_squares(row@, piece_index as int)
                &&& squares@.len() == 8
                &&& pieces@.len() <= 8
                &&& rank_aligned(pieces@, squares@, piece_index as int, piece_position as int)
            },
            Err(e) => e == BoardError::InvalidRankToken && !rank_valid(row@),
        },
{
    let v = chars_of(row);
    let n = v.len();
    let mut pieces: Vec<Piece> = Vec::new();
    let mut squares: Vec<Square> = Vec::new();
    let mut i: usize = 0;
    assert(row@.take(0) =~= Seq::<char>::empty());
    while i < n
        invariant
            v@ == row@,
            n == v.len(),
            i <= n,
            piece_position <= 56,
            piece_index <= usize::MAX - 8,
            forall|j: int| 0 <= j < i ==> token_ok(#[trigger] row@[j]),
            squares@.len() == rank_width(row@.take(i as int)),
            squares@.len() <= 8,
            pieces@.len() <= squares@.len(),
            pieces@ == rank_pieces(row@.take(i as int), piece_position as int),
            squares@ == rank_squares(row@.take(i as int), piece_index as int),
            rank_aligned(pieces@, squares@, piece_index as int, piece_position as int),
        decreases n - i,
    {
        let c = v[i];
        let ghost before = row@.take(i as int);
        let ghost next = row@.take(i + 1);
        proof {
            assert(next.drop_last() =~= before);
            assert(next.last() == c);
            lemma_rank_width_grows(row@, i + 1);
            lemma_rank_pieces_len(before, 0, piece_position as int);
        }
        match piece_from_letter(c) {
            Some((color, piece_type)) => {
                if squares.len() >= 8 {
                    return Err(BoardError::InvalidRankToken);
                }
                let position: u64 = (piece_position + squares.len()) as u64;
                pieces.push(Piece { position: 1u64 << position, color, piece_type });
                squares.push(Square::Occupied(piece_index + (pieces.len() - 1)));
            },
            None => {
                if !(c >= '1' && c <= '8') {
                    assert(!token_ok(row@[i as int]));
                    return Err(BoardError::InvalidRankToken);
                }
                let count: usize = (c as u32 - 48) as usize;
                if squares.len() + count > 8 {
                    return Err(BoardError::InvalidRankToken);
                }
                let ghost start = squares@;
                let mut j: usize = 0;
                while j < count
                    invariant
                        j <= count,
                        start.len() + count <= 8,
                        squares@ == start + Seq::new(j as nat, |k: int| Square::Empty),
                    decreases count - j,
                {
                    squares.push(Square::Empty);
                    j += 1;
                    assert(squares@ =~= start + Seq::new(j as nat, |k: int| Square::Empty));
                }
            },
        }
        i += 1;
    }
    assert(row@.take(n as int) =~= row@);
    if squares.len() != 8 {
        return Err(BoardError::InvalidRankToken);
    }
    Ok((pieces, squares))
}

/// What is left of `text` after its first `n` separators.
pub open spec fn rest_after(text: Seq<char>, sep: char, n: nat) -> Seq<char>
    decreases n,
{
    if n == 0 {
        text
    } else {
        after_sep(rest_after(text, sep, (n - 1) as nat), sep)
    }
}

/// Field `n` of a FEN text, counted from 0: what stands between its
/// `n`-th space and the next one, or the end of the text.
pub open spec fn fen_field(fen: Seq<char>, n: nat) -> Seq<char> {
    before_sep(rest_after(fen, ' ', n), ' ')
}

/// Rank `n` of a piece placement, counted from 0 for the top row. The
/// eighth rank is all that follows the seventh `/`.
pub open spec fn placement_rank(placement: Seq<char>, n: nat) -> Seq<char> {
    if n < 7 {
        before_sep(rest_after(placement, '/', n), '/')
    } else {
        rest_after(placement, '/', 7)
    }
}

/// A piece placement is valid if each of its eight ranks is.
pub open spec fn placement_valid(placement: Seq<char>) -> bool {
    forall|n: nat| n < 8 ==> rank_valid(#[trigger] placement_rank(placement, n))
}

/// The pieces of the first `n` ranks of a placement, in the order in which
/// the text names them.
pub open spec fn pieces_before(placement: Seq<char>, n: nat) -> Seq<Piece>
    decreases n,
{
    if n == 0 {
        Seq::empty()
    } else {
        pieces_before(placement, (n - 1) as nat) + rank_pieces(
            placement_rank(placement, (n - 1) as nat),
            8 * (8 - n),
        )
    }
}

/// The squares of the first `n` ranks of a placement, laid out by square
/// index: the rank that the text names last comes first.
pub open spec fn squares_before(placement: Seq<char>, n: nat) -> Seq<Square>
    decreases n,
{
    if n == 0 {
        Seq::empty()
    } else {
        rank_squares(
            placement_rank(placement, (n - 1) as nat),
            pieces_before(placement, (n - 1) as nat).len() as int,
        ) + squares_before(placement, (n - 1) as nat)
    }
}

/// The side that an active-colour field names.
pub open spec fn color_of(field: Seq<char>) -> Option<Color> {
    if field == seq!['w'] {
        Some(Color::White)
    } else if field == seq!['b'] {
        Some(Color::Black)
    } else {
        None
    }
}

/// The letter that grants `right` in a castling field.
pub open spec fn right_letter(right: CastlingRight) -> char {
    match right {
        CastlingRight::WhiteKingSide => 'K',
        CastlingRight::WhiteQueenSide => 'Q',
        CastlingRight::BlackKingSide => 'k',
        CastlingRight::BlackQueenSide => 'q',
    }
}

/// Whether `c` may stand in a castling field.
pub open spec fn castling_char_ok(c: char) -> bool {
    c == 'K' || c == 'Q' || c == 'k' || c == 'q' || c == '-'
}

/// A castling field is valid if it holds nothing but the four letters and
/// `-`.
pub open spec fn castling_valid(field: Seq<char>) -> bool {
    forall|i: int| 0 <= i < field.len() ==> castling_char_ok(#[trigger] field[i])
}

/// The rights that a castling field grants: those whose letter it holds.
pub open spec fn castling_of(field: Seq<char>) -> Set<CastlingRight> {
    Set::new(|right: CastlingRight| field.contains(right_letter(right)))
}

/// The target that an en-passant field names: none for `-`, else the mask
/// of the square named.
pub open spec fn en_passant_of(field: Seq<char>) -> Result<Option<u64>, BoardError> {
    if field == seq!['-'] {
        Ok(None)
    } else {
        match name_to_bit(field) {
            Ok(bit) => Ok(Some(bit)),
            Err(e) => Err(e),
        }
    }
}

/// The position that a FEN text describes, or the first failure met when
/// its six fields are read in order.
pub open spec fn decode(fen: Seq<char>) -> Result<GameView, BoardError> {
    let placement = fen_field(fen, 0);
    if !placement_valid(placement) {
        Err(BoardError::InvalidRankToken)
    } else if color_of(fen_field(fen, 1)) is None {
        Err(BoardError::UnknownColorDesignator)
    } else if !castling_valid(fen_field(fen, 2)) {
        Err(BoardError::UnknownCastlingDesignator)
    } else if en_passant_of(fen_field(fen, 3)) is Err {
        Err(en_passant_of(fen_field(fen, 3))->Err_0)
    } else if parsed_number(fen_field(fen, 4)) is None {
        Err(BoardError::InvalidHalfmoveNumber)
    } else if parsed_number(fen_field(fen, 5)) is None || parsed_number(fen_field(fen, 5))
        == Some(0usize) {
        Err(BoardError::InvalidFullmoveNumber)
    } else {
        Ok(
            GameView {
                pieces: pieces_before(placement, 8),
                squares: squares_before(placement, 8),
                active_color: color_of(fen_field(fen, 1))->Some_0,
                castling_rights: castling_of(fen_field(fen, 2)),
                en_passant: en_passant_of(fen_field(fen, 3))->Ok_0,
                halfmove_clock: parsed_number(fen_field(fen, 4))->Some_0 as nat,
                fullmove_number: parsed_number(fen_field(fen, 5))->Some_0 as nat,
            },
        )
    }
}

/// Reads an active-colour field.
pub fn parse_color(field: &str) -> (r: Option<Color>)
    ensures
        r == color_of(field@),
{
    let v = chars_of(field);
    if v.len() == 1 && v[0] == 'w' {
        assert(field@ =~= seq!['w']);
        Some(Color::White)
    } else if v.len() == 1 && v[0] == 'b' {
        assert(field@ =~= seq!['b']);
        Some(Color::Black)
    } else {
        assert(seq!['w'].len() == 1 && seq!['w'][0] == 'w');
        assert(seq!['b'].len() == 1 && seq!['b'][0] == 'b');
        None
    }
}

proof fn lemma_take_contains(s: Seq<char>, i: int, x: char)
    requires
        0 <= i < s.len(),
    ensures
        s.take(i + 1).contains(x) == (s.take(i).contains(x) || s[i] == x),
{
    let a = s.take(i);
    let b = s.take(i + 1);
    if a.contains(x) {
        let j = choose|j: int| 0 <= j < a.len() && a[j] == x;
        assert(b[j] == x);
    }
    if s[i] == x {
        assert(b[i] == x);
    }
    if b.contains(x) {
        let j = choose|j: int| 0 <= j < b.len() && b[j] == x;
        if j < i {
            assert(a[j] == x);
        }
    }
}

/// Reads a castling field.
pub fn parse_castling(field: &str) -> (r: Option<CastlingRights>)
    ensures
        r is Some == castling_valid(field@),
        r is Some ==> r->Some_0@ == castling_of(field@) && r->Some_0.wf(),
{
    let v = chars_of(field);
    let n = v.len();
    let mut castling = CastlingRights::none();
    let mut i: usize = 0;
    assert(castling@ =~= castling_of(field@.take(0)));
    while i < n
        invariant
            v@ == field@,
            n == v.len(),
            i <= n,
            castling.wf(),
            castling@ == castling_of(field@.take(i as int)),
            forall|j: int| 0 <= j < i ==> castling_char_ok(#[trigger] field@[j]),
        decreases n - i,
    {
        let c = v[i];
        let ghost before = castling@;
        if c == 'K' {
            castling.insert(CastlingRights::single(CastlingRight::WhiteKingSide));
        } else if c == 'Q' {
            castling.insert(CastlingRights::single(CastlingRight::WhiteQueenSide));
        } else if c == 'k' {
            castling.insert(CastlingRights::single(CastlingRight::BlackKingSide));
        } else if c == 'q' {
            castling.insert(CastlingRights::single(CastlingRight::BlackQueenSide));
        } else if c != '-' {
            assert(!castling_char_ok(field@[i as int]));
            return None;
        }
        proof {
            assert forall|right: CastlingRight|
                castling@.contains(right) == castling_of(field@.take(i + 1)).contains(
                    right,
                ) by {
                lemma_take_contains(field@, i as int, right_letter(right));
                assert(before.contains(right) == field@.take(i as int).contains(
                    right_letter(right),
                ));
            }
            assert(castling@ =~= castling_of(field@.take(i + 1)));
        }
        i += 1;
    }
    assert(field@.take(n as int) =~= field@);
    Some(castling)
}

/// Reads an en-passant field.
pub fn parse_en_passant(field: &str) -> (r: Result<Option<u64>, BoardError>)
    ensures
        r == en_passant_of(field@),
{
    let v = chars_of(field);
    if v.len() == 1 && v[0] == '-' {
        assert(field@ =~= seq!['-']);
        Ok(None)
    } else {
        assert(seq!['-'].len() == 1 && seq!['-'][0] == '-');
        match position_to_bit(field) {
            Ok(bit) => Ok(Some(bit)),
            Err(e) => Err(e),
        }
    }
}

/// Every occupied square names a piece of the list, and that piece stands
/// on that square.
pub open spec fn board_consistent(pieces: Seq<Piece>, squares: Seq<Square>) -> bool {
    forall|i: int|
        0 <= i < squares.len() ==> match #[trigger] squares[i] {
            Square::Empty => true,
            Square::Occupied(k) => k < pieces.len() && pieces[k as int].position == square_bit(i),
        }
}

/// Reads a piece placement: eight ranks separated by `/`, the top row
/// first. Pieces are numbered in the order in which the text names them;
/// squares are laid out by square index, the bottom row first.
pub fn parse_placement(placement: &str) -> (r: Result<(Vec<Piece>, Vec<Square>), BoardError>)
    ensures
        match r {
            Ok((pieces, squares)) => {
                &&& placement_valid(placement@)
                &&& pieces@ == pieces_before(placement@, 8)
                &&& squares@ == squares_before(placement@, 8)
                &&& squares@.len() == 64
                &&& board_consistent(pieces@, squares@)
            },
            Err(e) => e == BoardError::InvalidRankToken && !placement_valid(placement@),
        },
{
    let mut pieces: Vec<Piece> = Vec::new();
    let mut rows: Vec<Vec<Square>> = Vec::new();
    let mut rest: &str = placement;
    let mut n: usize = 0;
    while n < 8
        invariant
            n <= 8,
            n <= 7 ==> rest@ == rest_after(placement@, '/', n as nat),
            forall|m: nat| m < n ==> rank_valid(#[trigger] placement_rank(placement@, m)),
            pieces@ == pieces_before(placement@, n as nat),
            pieces@.len() <= 8 * n,
            rows@.len() == n,
            forall|m: int|
                0 <= m < n ==> (#[trigger] rows@[m])@ == rank_squares(
                    placement_rank(placement@, m as nat),
                    pieces_before(placement@, m as nat).len() as int,
                ),
            forall|m: int| 0 <= m < n ==> (#[trigger] rows@[m])@.len() == 8,
            forall|m: int, j: int|
                0 <= m < n && 0 <= j < 8 ==> match #[trigger] rows@[m]@[j] {
                    Square::Empty => true,
                    Square::Occupied(k) => k < pieces@.len() && pieces@[k as int].position
                        == square_bit(8 * (7 - m) + j),
                },
        decreases 8 - n,
    {
        let row: &str;
        if n < 7 {
            let parts = split_on(rest, '/');
            row = parts.0;
            rest = parts.1;
        } else {
            row = rest;
        }
        assert(row@ == placement_rank(placement@, n as nat));
        let ghost before = pieces@;
        match parse_row(row, pieces.len(), 8 * (7 - n)) {
            Err(e) => {
                return Err(e);
            },
            Ok((mut row_pieces, row_squares)) => {
                pieces.append(&mut row_pieces);
                rows.push(row_squares);
                proof {
                    let placed = rank_pieces(row@, 8 * (7 - n));
                    assert(pieces@ =~= before + placed);
                    assert forall|m: int, j: int| 0 <= m < n + 1 && 0 <= j < 8 implies match #[trigger] rows@[m]@[j] {
                        Square::Empty => true,
                        Square::Occupied(k) => k < pieces@.len() && pieces@[k as int].position
                            == square_bit(8 * (7 - m) + j),
                    } by {
                        if m == n {
                            match row_squares@[j] {
                                Square::Empty => {},
                                Square::Occupied(k) => {
                                    assert(pieces@[k as int] == placed[k - before.len()]);
                                },
                            }
                        } else {
                            match rows@[m]@[j] {
                                Square::Empty => {},
                                Square::Occupied(k) => {
                                    assert(pieces@[k as int] == before[k as int]);
                                },
                            }
                        }
                    }
                }
            },
        }
        n += 1;
    }
    let ghost all = squares_before(placement@, 8);
    let mut squares: Vec<Square> = Vec::new();
    let mut m: usize = 8;
    while m > 0
        invariant
            m <= 8,
            rows@.len() == 8,
            pieces@ == pieces_before(placement@, 8),
            all == squares_before(placement@, 8),
            forall|t: int|
                0 <= t < 8 ==> (#[trigger] rows@[t])@ == rank_squares(
                    placement_rank(placement@, t as nat),
                    pieces_before(placement@, t as nat).len() as int,
                ),
            forall|t: int| 0 <= t < 8 ==> (#[trigger] rows@[t])@.len() == 8,
            forall|t: int, j: int|
                0 <= t < 8 && 0 <= j < 8 ==> match #[trigger] rows@[t]@[j] {
                    Square::Empty => true,
                    Square::Occupied(k) => k < pieces@.len() && pieces@[k as int].position
                        == square_bit(8 * (7 - t) + j),
                },
            squares@.len() == 8 * (8 - m),
            squares@ + squares_before(placement@, m as nat) == all,
            board_consistent(pieces@, squares@),
        decreases m,
    {
        m -= 1;
        let ghost start = squares@;
        let mut j: usize = 0;
        while j < 8
            invariant
                j <= 8,
                m < 8,
                rows@.len() == 8,
                rows@[m as int]@.len() == 8,
                start.len() == 8 * (7 - m),
                squares@ == start + rows@[m as int]@.take(j as int),
                board_consistent(pieces@, start),
                forall|t: int|
                    0 <= t < 8 ==> match #[trigger] rows@[m as int]@[t] {
                        Square::Empty => true,
                        Square::Occupied(k) => k < pieces@.len() && pieces@[k as int].position
                            == square_bit(8 * (7 - m) + t),
                    },
                board_consistent(pieces@, squares@),
            decreases 8 - j,
        {
            let square = rows[m][j];
            squares.push(square);
            proof {
                assert(squares@ =~= start + rows@[m as int]@.take(j + 1));
                assert forall|i: int| 0 <= i < squares@.len() implies match #[trigger] squares@[i] {
                    Square::Empty => true,
                    Square::Occupied(k) => k < pieces@.len() && pieces@[k as int].position
                        == square_bit(i),
                } by {
                    if i < start.len() {
                        assert(squares@[i] == start[i]);
                    } else {
                        assert(squares@[i] == rows@[m as int]@[i - start.len()]);
                    }
                }
            }
            j += 1;
        }
        proof {
            assert(rows@[m as int]@.take(8) =~= rows@[m as int]@);
            assert(start + rows@[m as int]@ + squares_before(placement@, m as nat) =~= start + (
                rows@[m as int]@ + squares_before(placement@, m as nat)));
        }
    }
    assert(squares@ + squares_before(placement@, 0) =~= squares@);
    Ok((pieces, squares))
}

impl Game {
    /// Reads a position from FEN: six fields separated by single spaces,
    /// read in order. The first field that breaks its grammar ends the
    /// reading with its failure; nothing is defaulted.
    pub fn from_fen(fen: &str) -> (r: Result<Game, BoardError>)
        ensures
            match r {
                Ok(game) => decode(fen@) == Ok::<GameView, BoardError>(game@) && game.wf(),
                Err(e) => decode(fen@) == Err::<GameView, BoardError>(e),
            },
    {
        proof {
            reveal_with_fuel(rest_after, 7);
        }
        let (placement, rest) = split_on(fen, ' ');
        let (pieces, squares) = match parse_placement(placement) {
            Ok(board) => board,
            Err(e) => {
                return Err(e);
            },
        };
        let (color_field, rest) = split_on(rest, ' ');
        let active_color = match parse_color(color_field) {
            Some(color) => color,
            None => {
                return Err(BoardError::UnknownColorDesignator);
            },
        };
        let (castling_field, rest) = split_on(rest, ' ');
        let castling_rights = match parse_castling(castling_field) {
            Some(rights) => rights,
            None => {
                return Err(BoardError::UnknownCastlingDesignator);
            },
        };
        let (en_passant_field, rest) = split_on(rest, ' ');
        let en_passant = match parse_en_passant(en_passant_field) {
            Ok(target) => target,
            Err(e) => {
                return Err(e);
            },
        };
        let (halfmove_field, rest) = split_on(rest, ' ');
        let halfmove_clock = match parse_number(halfmove_field) {
            Some(number) => number,
            None => {
                return Err(BoardError::InvalidHalfmoveNumber);
            },
        };
        let (fullmove_field, _) = split_on(rest, ' ');
        let fullmove_number = match parse_number(fullmove_field) {
            Some(number) => number,
            None => {
                return Err(BoardError::InvalidFullmoveNumber);
            },
        };
        if fullmove_number == 0 {
            return Err(BoardError::InvalidFullmoveNumber);
        }
        let game = Game {
            pieces,
            squares,
            active_color,
            castling_rights,
            en_passant,
            halfmove_clock,
            fullmove_number,
        };
        assert(game@ == decode(fen@)->Ok_0);
        Ok(game)
    }
}

/// A placement with a rank that does not describe exactly eight squares,
/// or that holds a token that is neither a piece letter nor a digit from 1
/// to 8, is refused, whatever the other fields hold.
pub proof fn lemma_bad_rank_is_refused(fen: Seq<char>, n: nat)
    requires
        n < 8,
        !rank_valid(placement_rank(fen_field(fen, 0), n)),
    ensures
        decode(fen) == Err::<GameView, BoardError>(BoardError::InvalidRankToken),
{
}

/// A rank whose tokens describe more or fewer than eight squares is not
/// valid.
pub proof fn lemma_rank_of_wrong_width_is_invalid(row: Seq<char>)
    requires
        rank_width(row) != 8,
    ensures
        !rank_valid(row),
{
}

/// A placement with more than eight ranks is refused: what follows the
/// seventh `/` is read as the eighth rank, and `/` is no rank token.
pub proof fn lemma_ninth_rank_is_refused(fen: Seq<char>)
    requires
        placement_rank(fen_field(fen, 0), 7).contains('/'),
    ensures
        decode(fen) == Err::<GameView, BoardError>(BoardError::InvalidRankToken),
{
    let row = placement_rank(fen_field(fen, 0), 7);
    let i = choose|i: int| 0 <= i < row.len() && row[i] == '/';
    assert(!token_ok(row[i]));
    lemma_bad_rank_is_refused(fen, 7);
}

/// A placement with fewer than eight ranks is refused: a rank that the
/// text does not hold is read as an empty one, which describes no square.
pub proof fn lemma_missing_rank_is_refused(fen: Seq<char>, n: nat)
    requires
        n < 8,
        placement_rank(fen_field(fen, 0), n).len() == 0,
    ensures
        decode(fen) == Err::<GameView, BoardError>(BoardError::InvalidRankToken),
{
    lemma_bad_rank_is_refused(fen, n);
}

} // verus!
