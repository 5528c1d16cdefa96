use fen_board::error::BoardError;
use fen_board::square::{
    bit_scan, bit_to_position, bit_to_square_index, index_to_position, position_to_bit,
    MOD67TABLE,
};
use fen_board::text::{chars_of, decimal_string, parse_number, split_on};

#[test]
fn every_single_bit_scans_to_its_index() {
    for i in 0..64usize {
        assert_eq!(bit_scan(1u64 << i), i);
        assert_eq!(bit_to_square_index(1u64 << i), Ok(i));
    }
}

#[test]
fn zero_mask_is_refused() {
    assert_eq!(bit_to_square_index(0), Err(BoardError::EmptyMask));
    assert_eq!(bit_to_position(0), Err(BoardError::EmptyMask));
}

#[test]
fn table_holds_the_sentinel_where_no_single_bit_lands() {
    assert_eq!(MOD67TABLE[0], 64);
    assert_eq!(MOD67TABLE[17], 64);
    assert_eq!(MOD67TABLE[34], 64);
    assert_eq!(bit_scan(67), 64);
    assert_eq!(bit_to_square_index(67), Ok(64));
    assert_eq!(bit_scan(3), 39);
}

#[test]
fn names_of_the_corners() {
    assert_eq!(index_to_position(0), "a1");
    assert_eq!(index_to_position(7), "h1");
    assert_eq!(index_to_position(56), "a8");
    assert_eq!(index_to_position(63), "h8");
    assert_eq!(index_to_position(28), "e4");
}

#[test]
fn names_beyond_the_board_keep_counting_rows() {
    assert_eq!(index_to_position(64), "a9");
    assert_eq!(index_to_position(72), "a10");
    assert_eq!(index_to_position(801), "b101");
}

#[test]
fn name_to_bit_gives_the_mask_of_the_square() {
    assert_eq!(position_to_bit("a1"), Ok(1));
    assert_eq!(position_to_bit("h1"), Ok(1 << 7));
    assert_eq!(position_to_bit("e4"), Ok(1 << 28));
    assert_eq!(position_to_bit("a8"), Ok(1 << 56));
    assert_eq!(position_to_bit("h8"), Ok(1 << 63));
}

#[test]
fn malformed_names_are_refused() {
    assert_eq!(position_to_bit("i1"), Err(BoardError::InvalidColumn));
    assert_eq!(position_to_bit("a9"), Err(BoardError::InvalidRow));
    assert_eq!(position_to_bit("a"), Err(BoardError::InvalidLength));
    assert_eq!(position_to_bit(""), Err(BoardError::InvalidLength));
    assert_eq!(position_to_bit("a10"), Err(BoardError::InvalidLength));
    assert_eq!(position_to_bit("A1"), Err(BoardError::InvalidColumn));
    assert_eq!(position_to_bit("a0"), Err(BoardError::InvalidRow));
    assert_eq!(position_to_bit("ax"), Err(BoardError::InvalidRow));
    assert_eq!(position_to_bit("`1"), Err(BoardError::InvalidColumn));
    assert_eq!(position_to_bit("99"), Err(BoardError::InvalidColumn));
}

#[test]
fn length_counts_characters_not_bytes() {
    assert_eq!(position_to_bit("\u{e9}"), Err(BoardError::InvalidLength));
    assert_eq!(position_to_bit("\u{e9}1"), Err(BoardError::InvalidColumn));
    assert_eq!(position_to_bit("a\u{e9}"), Err(BoardError::InvalidRow));
}

#[test]
fn every_name_survives_the_round_trip() {
    for column in "abcdefgh".chars() {
        for row in "12345678".chars() {
            let name = format!("{}{}", column, row);
            let bit = position_to_bit(&name).unwrap();
            assert_eq!(bit.count_ones(), 1);
            let index = bit_to_square_index(bit).unwrap();
            assert_eq!(index_to_position(index), name);
            assert_eq!(bit_to_position(bit), Ok(name));
        }
    }
}

#[test]
fn every_index_survives_the_round_trip() {
    for i in 0..64usize {
        assert_eq!(position_to_bit(&index_to_position(i)), Ok(1u64 << i));
    }
}

#[test]
fn decimal_string_writes_numbers() {
    assert_eq!(decimal_string(0), "0");
    assert_eq!(decimal_string(7), "7");
    assert_eq!(decimal_string(10), "10");
    assert_eq!(decimal_string(4096), "4096");
    assert_eq!(decimal_string(usize::MAX), usize::MAX.to_string());
}

#[test]
fn parse_number_reads_decimal() {
    assert_eq!(parse_number("0"), Some(0));
    assert_eq!(parse_number("5"), Some(5));
    assert_eq!(parse_number("10"), Some(10));
    assert_eq!(parse_number("007"), Some(7));
    assert_eq!(parse_number("+12"), Some(12));
    assert_eq!(parse_number(&usize::MAX.to_string()), Some(usize::MAX));
}

#[test]
fn parse_number_refuses_other_text() {
    assert_eq!(parse_number(""), None);
    assert_eq!(parse_number("+"), None);
    assert_eq!(parse_number("-1"), None);
    assert_eq!(parse_number("++1"), None);
    assert_eq!(parse_number("1+"), None);
    assert_eq!(parse_number("12a"), None);
    assert_eq!(parse_number(" 1"), None);
    assert_eq!(parse_number("x"), None);
    assert_eq!(parse_number("\u{663}"), None);
    let too_large = format!("{}0", usize::MAX);
    assert_eq!(parse_number(&too_large), None);
    let one_more = format!("{}", usize::MAX as u128 + 1);
    assert_eq!(parse_number(&one_more), None);
}

#[test]
fn parse_number_inverts_decimal_string() {
    for n in [0usize, 1, 9, 10, 99, 100, 12345, usize::MAX - 1, usize::MAX] {
        assert_eq!(parse_number(&decimal_string(n)), Some(n));
    }
}

#[test]
fn split_on_cuts_at_the_first_separator() {
    assert_eq!(split_on("a b c", ' '), ("a", "b c"));
    assert_eq!(split_on("abc", ' '), ("abc", ""));
    assert_eq!(split_on("", ' '), ("", ""));
    assert_eq!(split_on(" x", ' '), ("", "x"));
    assert_eq!(split_on("x ", ' '), ("x", ""));
    assert_eq!(split_on("a  b", ' '), ("a", " b"));
    assert_eq!(split_on("8/8/8", '/'), ("8", "8/8"));
}

#[test]
fn split_on_counts_characters() {
    assert_eq!(split_on("\u{e9}\u{e9} z", ' '), ("\u{e9}\u{e9}", "z"));
    assert_eq!(split_on("a\u{20ac}b", '\u{20ac}'), ("a", "b"));
}

#[test]
fn chars_of_lists_the_characters() {
    assert_eq!(chars_of("e4"), vec!['e', '4']);
    assert_eq!(chars_of(""), Vec::<char>::new());
    assert_eq!(chars_of("\u{e9}x"), vec!['\u{e9}', 'x']);
}
