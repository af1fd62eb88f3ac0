use butter::number::{integer_u64, parse_digit, parse_u64, IntegerError};

#[test]
fn integer_decimal() {
    let src = "123";
    let expected = 123;
    assert_eq!(integer_u64(src), Ok((expected, "")));
}

#[test]
fn integer_hex() {
    let src = "0x_12e";
    let expected = 0x12e;
    assert_eq!(integer_u64(src), Ok((expected, "")));
}

#[test]
fn integer_oct() {
    let src = "0o_127";
    let expected = 0o127;
    assert_eq!(integer_u64(src), Ok((expected, "")));
}

#[test]
fn integer_bin() {
    let src = "0b_11110000";
    let expected = 0b11110000;
    assert_eq!(integer_u64(src), Ok((expected, "")));
}

#[test]
fn number_decimal() {
    let src = "123";
    let expected = 123;
    assert_eq!(integer_u64(src), Ok((expected, "")));
}

#[test]
fn number_hex() {
    let src = "0x_12e";
    let expected = 0x12e;
    assert_eq!(integer_u64(src), Ok((expected, "")));
}

#[test]
fn number_oct() {
    let src = "0o_127";
    let expected = 0o127;
    assert_eq!(integer_u64(src), Ok((expected, "")));
}

#[test]
fn number_bin() {
    let src = "0b_11110000";
    let expected = 0b11110000;
    assert_eq!(integer_u64(src), Ok((expected, "")));
}

#[test]
fn integer_stops_before_other_text() {
    assert_eq!(integer_u64("1_000 + 2"), Ok((1000, " + 2")));
    assert_eq!(integer_u64("0XFF)"), Ok((255, ")")));
    assert_eq!(integer_u64("0123"), Ok((123, "")));
    assert_eq!(integer_u64("0x__"), Ok((0, "")));
}

#[test]
fn integer_errors() {
    assert_eq!(integer_u64(""), Err(IntegerError::NotAnInteger));
    assert_eq!(integer_u64("_1"), Err(IntegerError::NotAnInteger));
    assert_eq!(integer_u64("0xg"), Err(IntegerError::NotAnInteger));
    assert_eq!(integer_u64("12ab"), Err(IntegerError::FollowedByAlphanumeric));
    assert_eq!(integer_u64("0b102"), Err(IntegerError::FollowedByAlphanumeric));
    assert_eq!(integer_u64("18446744073709551615"), Ok((u64::MAX, "")));
    assert_eq!(integer_u64("18446744073709551616"), Err(IntegerError::Overflow));
}

#[test]
fn digits_and_values() {
    assert_eq!(parse_digit('7', 10), Some(7));
    assert_eq!(parse_digit('f', 16), Some(15));
    assert_eq!(parse_digit('F', 16), Some(15));
    assert_eq!(parse_digit('9', 8), None);
    assert_eq!(parse_digit('-', 36), None);
    assert_eq!(parse_u64("ff_ff", 16), Some(0xffff));
    assert_eq!(parse_u64("1_0_1", 2), Some(5));
    assert_eq!(parse_u64("ffffffffffffffffff", 16), None);
}
