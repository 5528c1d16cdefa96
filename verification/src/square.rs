//! Conversions between single-bit masks, square indices and square names.

use crate::error::BoardError;
use crate::text::{decimal_digits, decimal_string};
use vstd::prelude::*;
use vstd::string::*;

verus! {

/// Maps the residue modulo 67 of a single-bit mask to the index of its bit.
/// Two is a primitive root modulo 67, so the 64 masks have 64 different
/// residues; the three residues that no such mask has hold 64.
pub const MOD67TABLE: [usize; 67] = [
    64, 0, 1, 39, 2, 15, 40, 23, 3, 12, 16, 59, 41, 19, 24, 54, 4, 64, 13, 10, 17, 62, 60, 28, 42,
    30, 20, 51, 25, 44, 55, 47, 5, 32, 64, 38, 14, 22, 11, 58, 18, 53, 63, 9, 61, 27, 29, 50, 43,
    46, 31, 37, 21, 57, 52, 8, 26, 49, 45, 36, 56, 7, 48, 35, 6, 34, 33,
];

/// The mask of the square with the given index: its only set bit.
pub open spec fn square_bit(index: int) -> u64
    recommends
        0 <= index < 64,
{
    1u64 << (index as u64)
}

/// What the table holds for `mask`. For the mask of a square this is the
/// square's index, as `lemma_scan_single_bit` shows.
pub open spec fn scan_index(mask: u64) -> int {
    MOD67TABLE@[(mask % 67) as int] as int
}

/// The letter of column `c`, counted from 0 for `a`.
pub open spec fn column_letter(c: int) -> char
    recommends
        0 <= c < 8,
{
    ((97 + c) as u8) as char
}

/// The name of a square: its column letter, then its row counted from 1.
pub open spec fn square_name(index: nat) -> Seq<char> {
    seq![column_letter((index % 8) as int)] + decimal_digits(index / 8 + 1)
}

/// The index of the square that a well-formed name denotes.
pub open spec fn name_index(name: Seq<char>) -> int
    recommends
        name.len() == 2,
{
    (name[1] as u32 - 49) * 8 + (name[0] as u32 - 97)
}

/// The mask that a square name denotes, or why the name is refused.
pub open spec fn name_to_bit(name: Seq<char>) -> Result<u64, BoardError> {
    if name.len() != 2 {
        Err(BoardError::InvalidLength)
    } else if !('a' <= name[0] && name[0] <= 'h') {
        Err(BoardError::InvalidColumn)
    } else if !('1' <= name[1] && name[1] <= '8') {
        Err(BoardError::InvalidRow)
    } else {
        Ok(square_bit(name_index(name)))
    }
}

/// Looks up the bit index of `bit` in constant time.
pub fn bit_scan(bit: u64) -> (index: usize)
    ensures
        index == scan_index(bit),
        index <= 64,
        forall|k: int| 0 <= k < 64 && bit == #[trigger] square_bit(k) ==> index == k,
{
    proof {
        assert forall|k: int| 0 <= k < 64 && bit == #[trigger] square_bit(k) implies scan_index(bit)
            == k by {
            lemma_scan_single_bit(k);
        }
        lemma_table_bound((bit % 67) as int);
    }
    let remainder: usize = (bit % 67) as usize;
    MOD67TABLE[remainder]
}

/// The index of the square whose mask is `mask`.
pub fn bit_to_square_index(mask: u64) -> (r: Result<usize, BoardError>)
    ensures
        mask == 0 ==> r == Err::<usize, BoardError>(BoardError::EmptyMask),
        mask != 0 ==> r == Ok::<usize, BoardError>(scan_index(mask) as usize),
        forall|k: int| 0 <= k < 64 && mask == #[trigger] square_bit(k) ==> r == Ok::<usize, BoardError>(k as usize),
{
    if mask == 0 {
        proof {
            assert forall|k: int| 0 <= k < 64 implies #[trigger] square_bit(k) != 0 by {
                lemma_scan_single_bit(k);
            }
        }
        Err(BoardError::EmptyMask)
    } else {
        Ok(bit_scan(mask))
    }
}

fn column_str(column: usize) -> (s: &'static str)
    requires
        column < 8,
    ensures
        s@ == seq![column_letter(column as int)],
{
    proof {
        reveal_strlit("a");
        reveal_strlit("b");
        reveal_strlit("c");
        reveal_strlit("d");
        reveal_strlit("e");
        reveal_strlit("f");
        reveal_strlit("g");
        reveal_strlit("h");
    }
    let s = match column {
        0 => "a",
        1 => "b",
        2 => "c",
        3 => "d",
        4 => "e",
        5 => "f",
        6 => "g",
        _ => "h",
    };
    assert(s@ =~= seq![column_letter(column as int)]);
    s
}

/// The name of the square with the given index.
pub fn index_to_position(index: usize) -> (name: String)
    ensures
        name@ == square_name(index as nat),
        index < 72 ==> name@.len() == 2,
{
    let column = index % 8;
    let row = index / 8 + 1;
    let mut name = String::from_str(column_str(column));
    let digits = decimal_string(row);
    name.append(digits.as_str());
    name
}

/// The mask of the square that `position` names.
pub fn position_to_bit(position: &str) -> (r: Result<u64, BoardError>)
    ensures
        r == name_to_bit(position@),
{
    if position.unicode_len() != 2 {
        return Err(BoardError::InvalidLength);
    }
    let c0 = position.get_char(0);
    if !(c0 >= 'a' && c0 <= 'h') {
        return Err(BoardError::InvalidColumn);
    }
    let c1 = position.get_char(1);
    if !(c1 >= '1' && c1 <= '8') {
        return Err(BoardError::InvalidRow);
    }
    let column: u64 = (c0 as u32 - 97) as u64;
    let row: u64 = (c1 as u32 - 49) as u64;
    let square_number: u64 = row * 8 + column;
    Ok(1u64 << square_number)
}

/// The name of the square whose mask is `bit`.
pub fn bit_to_position(bit: u64) -> (r: Result<String, BoardError>)
    ensures
        bit == 0 ==> r == Err::<String, BoardError>(BoardError::EmptyMask),
        bit != 0 ==> r is Ok && r->Ok_0@ == square_name(scan_index(bit) as nat),
{
    match bit_to_square_index(bit) {
        Err(e) => Err(e),
        Ok(index) => Ok(index_to_position(index)),
    }
}

/// Scanning the mask of a square finds that square: converting an index to
/// its mask and back gives the index again, and the mask is never zero.
pub proof fn lemma_scan_single_bit(k: int)
    requires
        0 <= k < 64,
    ensures
        square_bit(k) != 0,
        scan_index(square_bit(k)) == k,
{
    lemma_shift_residue(k as u64);
    lemma_table_inverts_residue(k as nat);
}

/// A square name survives the trip through its mask and its index: the
/// name of the square found by scanning the mask of a well-formed name is
/// that name.
pub proof fn lemma_name_round_trip(name: Seq<char>)
    requires
        name_to_bit(name) is Ok,
    ensures
        0 <= name_index(name) < 64,
        name_to_bit(name) == Ok::<u64, BoardError>(square_bit(name_index(name))),
        square_name(scan_index(name_to_bit(name)->Ok_0) as nat) == name,
{
    let index = name_index(name);
    lemma_scan_single_bit(index);
    assert(square_name(index as nat) =~= name);
}

proof fn lemma_table_bound(r: int)
    requires
        0 <= r < 67,
    ensures
        MOD67TABLE@[r] <= 64,
{
}

/// The residue of `2^k` modulo 67.
pub open spec fn pow2_residue(k: nat) -> int
    decreases k,
{
    if k == 0 {
        1
    } else {
        (2 * pow2_residue((k - 1) as nat)) % 67
    }
}

/// The mask of square `k` has the residue of `2^k`, and is not zero.
proof fn lemma_shift_residue(k: u64)
    requires
        k < 64,
    ensures
        (1u64 << k) % 67 == pow2_residue(k as nat),
        1 <= (1u64 << k),
    decreases k,
{
    if k == 0 {
        assert(1u64 << 0u64 == 1) by (bit_vector);
    } else {
        let j: u64 = (k - 1) as u64;
        lemma_shift_residue(j);
        assert(0 < k < 64 && j == k - 1 ==> (1u64 << j) <= 0x4000_0000_0000_0000u64 && (1u64 << k)
            == 2 * (1u64 << j)) by (bit_vector);
    }
}

/// Doubling a residue moves one entry up in the table.
proof fn lemma_table_step(r: int)
    requires
        0 <= r < 67,
        MOD67TABLE@[r] < 63,
    ensures
        MOD67TABLE@[(2 * r) % 67] == MOD67TABLE@[r] + 1,
{
}

/// The table maps the residue of `2^k` back to `k`.
proof fn lemma_table_inverts_residue(k: nat)
    requires
        k < 64,
    ensures
        0 <= pow2_residue(k) < 67,
        MOD67TABLE@[pow2_residue(k)] == k,
    decreases k,
{
    if k > 0 {
        lemma_table_inverts_residue((k - 1) as nat);
        lemma_table_step(pow2_residue((k - 1) as nat));
    }
}

} // verus!
