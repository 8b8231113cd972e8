use simd_tape::borrowed::{BorrowedStr, BorrowedValue};
use simd_tape::node::StaticNode;
use simd_tape::number::{BorrowedNumber, OwnedNumber};
use simd_tape::value::{JsonNumber, JsonValue, OwnedValue, SerdeConversionError};

fn to_serde(j: &JsonValue) -> serde_json::Value {
    match j {
        JsonValue::Null => serde_json::Value::Null,
        JsonValue::Bool(b) => serde_json::Value::Bool(*b),
        JsonValue::Number(JsonNumber::PosInt(u)) => serde_json::Value::Number((*u).into()),
        JsonValue::Number(JsonNumber::NegInt(i)) => serde_json::Value::Number((*i).into()),
        JsonValue::Number(JsonNumber::Float(b)) => {
            serde_json::Value::Number(serde_json::Number::from_f64(f64::from_bits(*b)).unwrap())
        }
        JsonValue::String(s) => serde_json::Value::String(s.clone()),
        JsonValue::Array(a) => serde_json::Value::Array(a.iter().map(to_serde).collect()),
        JsonValue::Object(o) => serde_json::Value::Object(
            o.iter().map(|(k, v)| (k.clone(), to_serde(v))).collect(),
        ),
    }
}

fn from_serde(v: &serde_json::Value) -> JsonValue {
    match v {
        serde_json::Value::Null => JsonValue::Null,
        serde_json::Value::Bool(b) => JsonValue::Bool(*b),
        serde_json::Value::Number(n) => JsonValue::Number(if let Some(u) = n.as_u64() {
            JsonNumber::PosInt(u)
        } else if let Some(i) = n.as_i64() {
            JsonNumber::NegInt(i)
        } else {
            JsonNumber::Float(n.as_f64().unwrap().to_bits())
        }),
        serde_json::Value::String(s) => JsonValue::String(s.clone()),
        serde_json::Value::Array(a) => JsonValue::Array(a.iter().map(from_serde).collect()),
        serde_json::Value::Object(o) => {
            JsonValue::Object(o.iter().map(|(k, v)| (k.clone(), from_serde(v))).collect())
        }
    }
}

fn s(x: &str) -> String {
    x.to_string()
}

fn int_node(v: i64) -> OwnedValue {
    OwnedValue::Static(StaticNode::I64(v))
}

fn float(v: f64) -> OwnedValue {
    OwnedValue::Static(StaticNode::F64(v.to_bits()))
}

fn sample() -> OwnedValue {
    OwnedValue::Object(vec![
        (s("int"), int_node(42)),
        (s("float"), float(7.2)),
        (s("neg-int"), int_node(-23)),
        (s("string"), OwnedValue::String(s("string"))),
        (s("bool"), OwnedValue::Static(StaticNode::Bool(true))),
        (s("null"), OwnedValue::Static(StaticNode::Null)),
        (
            s("object"),
            OwnedValue::Object(vec![(
                s("array"),
                OwnedValue::Array(vec![
                    int_node(42),
                    int_node(7),
                    int_node(-23),
                    OwnedValue::Static(StaticNode::Bool(false)),
                    OwnedValue::Static(StaticNode::Null),
                    OwnedValue::Object(vec![(s("key"), OwnedValue::String(s("value")))]),
                ]),
            )]),
        ),
    ])
}

#[test]
fn convert_owned_value() {
    let v = sample();
    let s: serde_json::Value = serde_json::from_str(
        r#"{"int": 42, "float": 7.2, "neg-int": -23, "string": "string", "bool": true,
            "null": null, "object": {"array": [42, 7, -23, false, null, {"key": "value"}]}}"#,
    )
    .unwrap();
    let s_c = to_serde(&v.try_into_json().unwrap());
    assert_eq!(s, s_c);
    let v_c = OwnedValue::try_from_json(&from_serde(&s)).unwrap();
    assert_eq!(v, v_c);
}

#[test]
fn nan_and_infinity_do_not_export() {
    for f in [f64::NAN, f64::INFINITY, f64::NEG_INFINITY] {
        let e = float(f).try_into_json().unwrap_err();
        assert_eq!(e, SerdeConversionError::NanOrInfinity);
    }
    let nested = OwnedValue::Array(vec![int_node(1), float(f64::NAN)]);
    assert_eq!(nested.try_into_json().unwrap_err(), SerdeConversionError::NanOrInfinity);
}

#[test]
fn wide_integers_export_only_when_they_fit() {
    let v = OwnedValue::Static(StaticNode::I128(-5));
    assert!(matches!(v.try_into_json(), Ok(JsonValue::Number(JsonNumber::NegInt(-5)))));
    let v = OwnedValue::Static(StaticNode::U128(5));
    assert!(matches!(v.try_into_json(), Ok(JsonValue::Number(JsonNumber::PosInt(5)))));
    let v = OwnedValue::Static(StaticNode::I128(i64::MAX as i128 + 1));
    assert_eq!(v.try_into_json().unwrap_err(), SerdeConversionError::NumberOutOfBounds);
    let v = OwnedValue::Static(StaticNode::U128(u64::MAX as u128 + 1));
    assert_eq!(v.try_into_json().unwrap_err(), SerdeConversionError::NumberOutOfBounds);
}

#[test]
fn first_failure_in_document_order_wins() {
    let v = OwnedValue::Object(vec![
        (s("a"), OwnedValue::Static(StaticNode::U128(u128::MAX))),
        (s("b"), float(f64::INFINITY)),
    ]);
    assert_eq!(v.try_into_json().unwrap_err(), SerdeConversionError::NumberOutOfBounds);
}

#[test]
fn export_then_import_keeps_order_and_kinds() {
    // {"a":1,"b":[2,3.5,-4]}
    let v = OwnedValue::Object(vec![
        (s("a"), OwnedValue::Static(StaticNode::U64(1))),
        (
            s("b"),
            OwnedValue::Array(vec![
                OwnedValue::Static(StaticNode::U64(2)),
                float(3.5),
                int_node(-4),
            ]),
        ),
    ]);
    let j = v.try_into_json().unwrap();
    let back = OwnedValue::try_from_json(&j).unwrap();
    assert_eq!(back, v);
    match &back {
        OwnedValue::Object(o) => {
            assert_eq!(o[0].0, "a");
            assert_eq!(o[1].0, "b");
            match &o[1].1 {
                OwnedValue::Array(a) => {
                    assert!(matches!(a[0], OwnedValue::Static(StaticNode::I64(2))));
                    assert!(
                        matches!(a[1], OwnedValue::Static(StaticNode::F64(b)) if b == 3.5f64.to_bits())
                    );
                    assert!(matches!(a[2], OwnedValue::Static(StaticNode::I64(-4))));
                }
                _ => panic!("not an array"),
            }
        }
        _ => panic!("not an object"),
    }
}

#[test]
fn import_probes_signed_then_unsigned_then_float() {
    let j = JsonValue::Array(vec![
        JsonValue::Number(JsonNumber::PosInt(5)),
        JsonValue::Number(JsonNumber::PosInt(u64::MAX)),
        JsonValue::Number(JsonNumber::NegInt(-9)),
        JsonValue::Number(JsonNumber::Float((-0.0f64).to_bits())),
    ]);
    match OwnedValue::try_from_json(&j).unwrap() {
        OwnedValue::Array(a) => {
            assert!(matches!(a[0], OwnedValue::Static(StaticNode::I64(5))));
            assert!(matches!(a[1], OwnedValue::Static(StaticNode::U64(u64::MAX))));
            assert!(matches!(a[2], OwnedValue::Static(StaticNode::I64(-9))));
            assert!(
                matches!(a[3], OwnedValue::Static(StaticNode::F64(b)) if b == (-0.0f64).to_bits())
            );
        }
        _ => panic!("not an array"),
    }
}

#[test]
fn round_trip_of_mixed_tree() {
    let v = sample();
    let back = OwnedValue::try_from_json(&v.try_into_json().unwrap()).unwrap();
    assert_eq!(back, v);
    let u = OwnedValue::Array(vec![
        OwnedValue::Static(StaticNode::U64(u64::MAX)),
        OwnedValue::Static(StaticNode::I128(-7)),
        float(-0.0),
    ]);
    let back = OwnedValue::try_from_json(&u.try_into_json().unwrap()).unwrap();
    assert_eq!(back, u);
}

#[test]
fn trees_differ_on_order_and_strings() {
    let a = OwnedValue::Array(vec![int_node(1), int_node(2)]);
    let b = OwnedValue::Array(vec![int_node(2), int_node(1)]);
    assert_ne!(a, b);
    assert_ne!(OwnedValue::String(s("x")), OwnedValue::String(s("y")));
    assert_ne!(OwnedValue::String(s("1")), int_node(1));
}

fn bstr(x: &str) -> BorrowedStr<'_> {
    BorrowedStr::Borrowed(x)
}

fn bint(v: i64) -> BorrowedValue<'static> {
    BorrowedValue::Static(StaticNode::I64(v))
}

fn borrowed_sample(input: &str) -> BorrowedValue<'_> {
    // `input` holds the text "string" and "value" for the borrowed strings.
    let (first, second) = input.split_at(6);
    BorrowedValue::Object(vec![
        (bstr("int"), bint(42)),
        (bstr("float"), BorrowedValue::Static(StaticNode::F64(7.2f64.to_bits()))),
        (bstr("neg-int"), bint(-23)),
        (bstr("string"), BorrowedValue::String(bstr(first))),
        (bstr("bool"), BorrowedValue::Static(StaticNode::Bool(true))),
        (bstr("null"), BorrowedValue::Static(StaticNode::Null)),
        (
            bstr("object"),
            BorrowedValue::Object(vec![(
                bstr("array"),
                BorrowedValue::Array(vec![
                    bint(42),
                    bint(7),
                    bint(-23),
                    BorrowedValue::Static(StaticNode::Bool(false)),
                    BorrowedValue::Static(StaticNode::Null),
                    BorrowedValue::Object(vec![(
                        bstr("key"),
                        BorrowedValue::String(BorrowedStr::Owned(second.to_string())),
                    )]),
                ]),
            )]),
        ),
    ])
}

#[test]
fn convert_borrowed_value() {
    let input = String::from("stringvalue");
    let v = borrowed_sample(&input);
    let s: serde_json::Value = serde_json::from_str(
        r#"{"int": 42, "float": 7.2, "neg-int": -23, "string": "string", "bool": true,
            "null": null, "object": {"array": [42, 7, -23, false, null, {"key": "value"}]}}"#,
    )
    .unwrap();
    let s_c = to_serde(&v.try_into_json().unwrap());
    assert_eq!(s, s_c);
    let v_c = BorrowedValue::try_from_json(&from_serde(&s)).unwrap();
    assert_eq!(v.into_owned_value(), v_c.into_owned_value());
}

#[test]
fn materializing_copies_every_string() {
    let input = String::from("stringvalue");
    let owned = borrowed_sample(&input).into_owned_value();
    drop(input);
    assert_eq!(owned, sample());
}

#[test]
fn borrowed_nan_does_not_export() {
    let v = BorrowedValue::Array(vec![BorrowedValue::Static(StaticNode::F64(f64::NAN.to_bits()))]);
    assert_eq!(v.try_into_json().unwrap_err(), SerdeConversionError::NanOrInfinity);
}

#[test]
fn borrowed_and_owned_trees_compare_by_content() {
    let input = String::from("stringvalue");
    let b = borrowed_sample(&input);
    assert!(b.eq_owned(&sample()));
    assert!(b.eq_owned(&b.into_owned_value()));
    let other = OwnedValue::Array(vec![int_node(1)]);
    assert!(!b.eq_owned(&other));
    let one = BorrowedValue::Array(vec![BorrowedValue::Static(StaticNode::U64(1))]);
    assert!(one.eq_owned(&other));
    let text = BorrowedValue::String(bstr("abc"));
    assert!(text.eq_owned(&OwnedValue::String(s("abc"))));
    assert!(!text.eq_owned(&OwnedValue::String(s("abd"))));
}

#[test]
fn lazy_numbers_keep_their_literal_through_materializing() {
    let input = b"1.0".to_vec();
    let b = BorrowedValue::Number(BorrowedNumber::from_slice(&input));
    match b.into_owned_value() {
        OwnedValue::Number(m) => assert_eq!(m.as_bytes(), b"1.0"),
        _ => panic!("not a number"),
    }
    match OwnedValue::from_borrowed_number(&BorrowedNumber::from_slice(b"1e2")) {
        OwnedValue::Number(m) => assert_eq!(m.as_bytes(), b"1e2"),
        _ => panic!("not a number"),
    }
    match BorrowedValue::from_owned_number(OwnedNumber::from_slice(b"-7")) {
        BorrowedValue::Number(m) => assert_eq!(m.as_bytes(), b"-7"),
        _ => panic!("not a number"),
    }
}

#[test]
fn lazy_numbers_export_as_they_parse() {
    let v = OwnedValue::Number(OwnedNumber::from_slice(b"1.0"));
    assert!(matches!(
        v.try_into_json(),
        Ok(JsonValue::Number(JsonNumber::Float(b))) if b == 1.0f64.to_bits()
    ));
    let v = OwnedValue::Number(OwnedNumber::from_slice(b"-3"));
    assert!(matches!(v.try_into_json(), Ok(JsonValue::Number(JsonNumber::NegInt(-3)))));
    let v = OwnedValue::Array(vec![OwnedValue::Number(OwnedNumber::from_slice(b"abc"))]);
    assert_eq!(v.try_into_json().unwrap_err(), SerdeConversionError::InvalidNumber);
    let b = BorrowedValue::Number(BorrowedNumber::from_slice(b"1e400"));
    assert_eq!(b.try_into_json().unwrap_err(), SerdeConversionError::InvalidNumber);
}

#[test]
fn lazy_numbers_equal_scalars_of_their_value() {
    let n = OwnedValue::Number(OwnedNumber::from_slice(b"5"));
    assert_eq!(n, int_node(5));
    assert_eq!(int_node(5), n);
    assert_ne!(n, int_node(6));
    let bad = OwnedValue::Number(OwnedNumber::from_slice(b"x"));
    assert_ne!(bad, OwnedValue::Number(OwnedNumber::from_slice(b"x")));
    let b = BorrowedValue::Number(BorrowedNumber::from_slice(b"5.0e0"));
    assert!(b.eq_owned(&float(5.0)));
    let back = OwnedValue::try_from_json(&n.try_into_json().unwrap()).unwrap();
    assert_eq!(back, n);
}
