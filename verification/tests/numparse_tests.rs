use input2cmds::numparse::{parse_i32, parse_u16};

fn bytes(s: &str) -> Vec<u8> {
    s.as_bytes().to_vec()
}

#[test]
fn parses_u16_values() {
    assert_eq!(parse_u16(&bytes("0"), 0), Some(0));
    assert_eq!(parse_u16(&bytes("42"), 0), Some(42));
    assert_eq!(parse_u16(&bytes("65535"), 0), Some(65535));
    assert_eq!(parse_u16(&bytes("+7"), 0), Some(7));
    assert_eq!(parse_u16(&bytes("00042"), 0), Some(42));
}

#[test]
fn rejects_u16_out_of_range() {
    assert_eq!(parse_u16(&bytes("65536"), 0), None);
    assert_eq!(parse_u16(&bytes("99999999999999999999"), 0), None);
}

#[test]
fn rejects_u16_malformed() {
    assert_eq!(parse_u16(&bytes(""), 0), None);
    assert_eq!(parse_u16(&bytes("+"), 0), None);
    assert_eq!(parse_u16(&bytes("-1"), 0), None);
    assert_eq!(parse_u16(&bytes("1x"), 0), None);
    assert_eq!(parse_u16(&bytes("4 2"), 0), None);
    assert_eq!(parse_u16(&bytes("++1"), 0), None);
}

#[test]
fn parses_u16_from_offset() {
    assert_eq!(parse_u16(&bytes("type=513"), 5), Some(513));
}

#[test]
fn parses_i32_values() {
    assert_eq!(parse_i32(&bytes("0"), 0), Some(0));
    assert_eq!(parse_i32(&bytes("-1"), 0), Some(-1));
    assert_eq!(parse_i32(&bytes("+12"), 0), Some(12));
    assert_eq!(parse_i32(&bytes("-0"), 0), Some(0));
    assert_eq!(parse_i32(&bytes("2147483647"), 0), Some(2147483647));
    assert_eq!(parse_i32(&bytes("-2147483648"), 0), Some(-2147483648));
}

#[test]
fn rejects_i32_out_of_range() {
    assert_eq!(parse_i32(&bytes("2147483648"), 0), None);
    assert_eq!(parse_i32(&bytes("-2147483649"), 0), None);
}

#[test]
fn rejects_i32_malformed() {
    assert_eq!(parse_i32(&bytes(""), 0), None);
    assert_eq!(parse_i32(&bytes("-"), 0), None);
    assert_eq!(parse_i32(&bytes("--1"), 0), None);
    assert_eq!(parse_i32(&bytes("1.5"), 0), None);
}
