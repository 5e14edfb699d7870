use goool::color::hex_digit;
use goool::{color_from_hex, ArgError, ErrorKind};

fn invalid(token: &str) -> ArgError {
    ArgError { kind: ErrorKind::InvalidColor, token: token.to_string() }
}

#[test]
fn six_digits_with_hash_give_full_bytes() {
    assert_eq!(color_from_hex("#ffffff"), Ok((255, 255, 255)));
}

#[test]
fn three_digits_give_high_nibbles() {
    assert_eq!(color_from_hex("fff"), Ok((240, 240, 240)));
    assert_eq!(color_from_hex("8a8"), Ok((0x80, 0xa0, 0x80)));
    assert_eq!(color_from_hex("000"), Ok((0, 0, 0)));
}

#[test]
fn six_digits_map_pairs_in_order() {
    assert_eq!(color_from_hex("e7c27d"), Ok((0xe7, 0xc2, 0x7d)));
    assert_eq!(color_from_hex("182020"), Ok((0x18, 0x20, 0x20)));
    assert_eq!(color_from_hex("0102fE"), Ok((1, 2, 254)));
}

#[test]
fn upper_case_digits_are_read() {
    assert_eq!(color_from_hex("ABC"), Ok((0xa0, 0xb0, 0xc0)));
    assert_eq!(color_from_hex("#AbCdEf"), Ok((0xab, 0xcd, 0xef)));
}

#[test]
fn non_hex_digits_are_refused() {
    assert_eq!(color_from_hex("zzz"), Err(invalid("zzz")));
    assert_eq!(color_from_hex("12345g"), Err(invalid("12345g")));
    assert_eq!(color_from_hex("+f+f+f"), Err(invalid("+f+f+f")));
    assert_eq!(color_from_hex("é12"), Err(invalid("é12")));
}

#[test]
fn other_lengths_are_refused() {
    assert_eq!(color_from_hex("ab"), Err(invalid("ab")));
    assert_eq!(color_from_hex(""), Err(invalid("")));
    assert_eq!(color_from_hex("#"), Err(invalid("#")));
    assert_eq!(color_from_hex("abcd"), Err(invalid("abcd")));
    assert_eq!(color_from_hex("abcdef0"), Err(invalid("abcdef0")));
}

#[test]
fn one_hash_is_taken_from_each_end() {
    assert_eq!(color_from_hex("fff#"), Ok((240, 240, 240)));
    assert_eq!(color_from_hex("#fff#"), Ok((240, 240, 240)));
    assert_eq!(color_from_hex("##fff"), Err(invalid("##fff")));
    assert_eq!(color_from_hex("fff##"), Err(invalid("fff##")));
}

#[test]
fn hex_digit_values() {
    assert_eq!(hex_digit('0'), Some(0));
    assert_eq!(hex_digit('9'), Some(9));
    assert_eq!(hex_digit('a'), Some(10));
    assert_eq!(hex_digit('F'), Some(15));
    assert_eq!(hex_digit('g'), None);
    assert_eq!(hex_digit('#'), None);
}
