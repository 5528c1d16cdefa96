//! The failures that conversions and FEN decoding can report.

use vstd::prelude::*;

verus! {

/// Why a conversion or a decode was refused. Every failure is final for the
/// operation that reported it: nothing is defaulted or partially built.
#[derive(Clone, Copy, Debug, PartialEq, Eq, Structural)]
pub enum BoardError {
    /// A bit-to-index conversion was asked of the zero mask.
    EmptyMask,
    /// A square name that is not exactly two characters long.
    InvalidLength,
    /// A square name whose first character is not in `'a'..='h'`.
    InvalidColumn,
    /// A square name whose second character is not in `'1'..='8'`.
    InvalidRow,
    /// An active-colour field other than `w` or `b`.
    UnknownColorDesignator,
    /// A castling field holding a character other than `K`, `Q`, `k`, `q`, `-`.
    UnknownCastlingDesignator,
    /// A piece-placement field with an unknown token, or a rank that does
    /// not describe exactly eight squares.
    InvalidRankToken,
    /// A halfmove clock that is not a decimal number.
    InvalidHalfmoveNumber,
    /// A fullmove number that is not a positive decimal number.
    InvalidFullmoveNumber,
}

} // verus!
