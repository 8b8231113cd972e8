use simd_tape::error::ErrorType;
use simd_tape::node::StaticNode;
use simd_tape::number::{parse_number, BorrowedNumber, OwnedNumber};

fn int_of(n: StaticNode) -> Option<i128> {
    n.as_i128()
}

#[test]
fn integer_literals_parse_to_their_value() {
    for (text, want) in [
        ("0", 0i128),
        ("7", 7),
        ("123", 123),
        ("-45", -45),
        ("-0", 0),
        ("9223372036854775807", i64::MAX as i128),
        ("-9223372036854775808", i64::MIN as i128),
    ] {
        let got = parse_number(text.as_bytes()).unwrap();
        assert_eq!(int_of(got), Some(want), "{}", text);
        assert_eq!(text.parse::<i64>().ok().map(|v| v as i128), Some(want));
    }
}

#[test]
fn non_negative_integers_are_unsigned_and_negative_ones_signed() {
    assert!(matches!(parse_number(b"42"), Ok(StaticNode::U64(42))));
    assert!(matches!(parse_number(b"-42"), Ok(StaticNode::I64(-42))));
    assert!(matches!(
        parse_number(b"18446744073709551615"),
        Ok(StaticNode::U64(u64::MAX))
    ));
}

#[test]
fn integers_out_of_range_are_refused() {
    let e = parse_number(b"18446744073709551616").unwrap_err();
    assert_eq!(e.error, ErrorType::Syntax);
    let e = parse_number(b"-9223372036854775809").unwrap_err();
    assert_eq!(e.error, ErrorType::Syntax);
}

#[test]
fn fractions_and_exponents_parse_as_floats() {
    assert!(matches!(parse_number(b"3.5"), Ok(StaticNode::F64(b)) if b == 3.5f64.to_bits()));
    assert!(matches!(parse_number(b"-0.25"), Ok(StaticNode::F64(b)) if b == (-0.25f64).to_bits()));
    assert!(matches!(parse_number(b"1e3"), Ok(StaticNode::F64(b)) if b == 1000.0f64.to_bits()));
    assert!(matches!(parse_number(b"2.5E-1"), Ok(StaticNode::F64(b)) if b == 0.25f64.to_bits()));
    assert!(matches!(parse_number(b"1.0"), Ok(StaticNode::F64(b)) if b == 1.0f64.to_bits()));
}

#[test]
fn malformed_literals_are_refused() {
    for text in ["", "-", "1.", ".5", "1e", "1e+", "+1", "1x", "--1", "1.2.3", "e5", "1 "] {
        let e = parse_number(text.as_bytes()).unwrap_err();
        assert_eq!(e.error, ErrorType::Syntax, "{:?}", text);
    }
}

#[test]
fn float_out_of_range_is_refused() {
    assert_eq!(parse_number(b"1e400").unwrap_err().error, ErrorType::Syntax);
}

#[test]
fn borrowed_and_owned_numbers_of_one_literal_are_equal() {
    for text in ["1", "-17", "3.25", "1.0", "0"] {
        let b = BorrowedNumber::from_slice(text.as_bytes());
        let o = OwnedNumber::from_slice(text.as_bytes());
        assert!(b.eq_owned(&o));
        assert!(o.eq_borrowed(&b));
        assert_eq!(b.parse(), o.parse());
    }
    let b = BorrowedNumber::from_slice(b"1.0");
    let o = OwnedNumber::from_slice(b"1");
    assert!(!b.eq_owned(&o));
}

#[test]
fn numbers_compare_by_parsed_value() {
    let b = BorrowedNumber::from_slice(b"1e2");
    let o = OwnedNumber::from_slice(b"100.0");
    assert!(b.eq_owned(&o));
    assert!(o.eq_borrowed(&b));
    assert!(!b.same_bytes(&o));
    assert_eq!(OwnedNumber::from_slice(b"0.0"), OwnedNumber::from_slice(b"-0.0"));
    assert_eq!(BorrowedNumber::from_slice(b"2.50"), BorrowedNumber::from_slice(b"25e-1"));
}

#[test]
fn unparseable_numbers_equal_nothing() {
    for text in ["abc", "1e400", "12345678901234567890123"] {
        let b = BorrowedNumber::from_slice(text.as_bytes());
        let o = OwnedNumber::from_slice(text.as_bytes());
        assert!(!b.eq_owned(&o));
        assert!(!o.eq_borrowed(&b));
        assert!(b.same_bytes(&o));
        assert!(o != OwnedNumber::from_slice(text.as_bytes()));
    }
}

#[test]
fn parsing_twice_gives_the_same_result() {
    let n = OwnedNumber::from_vec(b"-12.5".to_vec());
    assert_eq!(n.parse(), n.parse());
    let b = BorrowedNumber::from_vec(b"77".to_vec());
    assert_eq!(b.parse(), b.parse());
}

#[test]
fn numbers_compare_with_scalars_by_value() {
    let n = BorrowedNumber::from_slice(b"5");
    assert!(n.eq_static(&StaticNode::I64(5)));
    assert!(n.eq_static(&StaticNode::U128(5)));
    assert!(!n.eq_static(&StaticNode::I64(6)));
    let bad = OwnedNumber::from_slice(b"5x");
    assert!(!bad.eq_static(&StaticNode::U64(5)));
    let f = OwnedNumber::from_slice(b"0.5");
    assert!(f.eq_static(&StaticNode::F64(0.5f64.to_bits())));
    assert!(StaticNode::U64(5).eq_borrowed_number(&n));
    assert!(StaticNode::F64(0.5f64.to_bits()).eq_owned_number(&f));
    assert!(!StaticNode::U64(5).eq_owned_number(&bad));
}

#[test]
fn materializing_keeps_the_literal_bytes() {
    let b = BorrowedNumber::from_slice(b"1.0");
    let o = b.to_owned_number();
    assert_eq!(o.as_bytes(), b"1.0");
    let back = o.into_borrowed_number();
    assert_eq!(back.as_bytes(), b"1.0");
}

#[test]
fn same_type_numbers_compare_by_bytes() {
    assert_eq!(OwnedNumber::from_slice(b"10"), OwnedNumber::from_vec(b"10".to_vec()));
    assert_ne!(OwnedNumber::from_slice(b"10"), OwnedNumber::from_slice(b"10.0"));
    assert_eq!(BorrowedNumber::from_slice(b"2"), BorrowedNumber::from_vec(b"2".to_vec()));
}

#[test]
fn conversions_from_bytes_keep_them() {
    let b: BorrowedNumber = BorrowedNumber::from(&b"-3"[..]);
    assert_eq!(b.as_bytes(), b"-3");
    assert!(matches!(b.parse(), Ok(StaticNode::I64(-3))));
    let b: BorrowedNumber = BorrowedNumber::from(b"4".to_vec());
    assert!(matches!(b.parse(), Ok(StaticNode::U64(4))));
    let o: OwnedNumber = OwnedNumber::from(b"2.0".to_vec());
    assert_eq!(o.as_bytes(), b"2.0");
}
