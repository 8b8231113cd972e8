use simd_tape::borrowed::{BorrowedStr, BorrowedValue};
use simd_tape::node::{Node, StaticNode};
use simd_tape::number::parse_number;
use simd_tape::value::{JsonNumber, JsonValue, OwnedValue};
use simd_tape::walker::Deserializer;

fn num(text: &str) -> Node<'static> {
    Node::Static(parse_number(text.as_bytes()).unwrap())
}

// {"a":1,"b":[2,3.5,-4]}
fn sample_tape() -> Vec<Node<'static>> {
    vec![
        Node::Object { len: 2, end: 8 },
        Node::String("a"),
        num("1"),
        Node::String("b"),
        Node::Array { len: 3, end: 8 },
        num("2"),
        num("3.5"),
        num("-4"),
    ]
}

#[test]
fn document_round_trips_through_the_generic_model() {
    let mut d = Deserializer::new(sample_tape());
    let tree = d.to_owned_value().unwrap();
    assert_eq!(d.position(), 8);
    let j = tree.try_into_json().unwrap();
    match &j {
        JsonValue::Object(o) => {
            assert_eq!(o.len(), 2);
            assert_eq!(o[0].0, "a");
            assert_eq!(o[1].0, "b");
            match &o[1].1 {
                JsonValue::Array(a) => {
                    assert!(matches!(a[0], JsonValue::Number(JsonNumber::PosInt(2))));
                    assert!(
                        matches!(a[1], JsonValue::Number(JsonNumber::Float(b)) if f64::from_bits(b) == 3.5)
                    );
                    assert!(matches!(a[2], JsonValue::Number(JsonNumber::NegInt(-4))));
                }
                _ => panic!("not an array"),
            }
        }
        _ => panic!("not an object"),
    }
    let back = OwnedValue::try_from_json(&j).unwrap();
    assert_eq!(back, tree);
    match &back {
        OwnedValue::Object(o) => {
            assert_eq!(o[0].0, "a");
            assert_eq!(o[1].0, "b");
            match &o[1].1 {
                OwnedValue::Array(a) => {
                    assert!(matches!(a[1], OwnedValue::Static(StaticNode::F64(b)) if f64::from_bits(b) == 3.5));
                    assert!(matches!(a[2], OwnedValue::Static(StaticNode::I64(-4))));
                }
                _ => panic!("not an array"),
            }
        }
        _ => panic!("not an object"),
    }
}

#[test]
fn tree_from_tape_keeps_scalars_and_strings() {
    let mut d = Deserializer::new(vec![
        Node::Array { len: 3, end: 4 },
        Node::String("x"),
        Node::Static(StaticNode::Null),
        Node::Static(StaticNode::Bool(false)),
    ]);
    let tree = d.to_owned_value().unwrap();
    let want = OwnedValue::Array(vec![
        OwnedValue::String("x".to_string()),
        OwnedValue::Static(StaticNode::Null),
        OwnedValue::Static(StaticNode::Bool(false)),
    ]);
    assert_eq!(tree, want);
}

#[test]
fn short_container_is_refused_and_cursor_stays() {
    let mut d = Deserializer::new(vec![Node::Array { len: 2, end: 2 }, num("1")]);
    assert!(d.to_owned_value().is_err());
    assert_eq!(d.position(), 0);
}

#[test]
fn object_key_must_be_a_string() {
    let mut d = Deserializer::new(vec![Node::Object { len: 1, end: 3 }, num("1"), num("2")]);
    assert!(d.to_owned_value().is_err());
    assert_eq!(d.position(), 0);
}

#[test]
fn values_are_taken_one_after_another() {
    let mut d = Deserializer::new(vec![num("5"), Node::Array { len: 0, end: 2 }]);
    assert_eq!(d.to_owned_value().unwrap(), OwnedValue::Static(StaticNode::U64(5)));
    assert_eq!(d.to_owned_value().unwrap(), OwnedValue::Array(vec![]));
    assert!(d.to_owned_value().is_err());
}

#[test]
fn container_end_must_match_its_children() {
    let mut d = Deserializer::new(vec![Node::Array { len: 1, end: 5 }, num("1")]);
    assert!(d.to_owned_value().is_err());
    assert_eq!(d.position(), 0);
    let mut d = Deserializer::new(vec![Node::Object { len: 1, end: 2 }, Node::String("k"), num("1")]);
    assert!(d.to_borrowed_value().is_err());
}

#[test]
fn borrowed_tree_from_tape_borrows_strings() {
    let text = String::from("keyvalue");
    let (k, v) = text.split_at(3);
    let mut d = Deserializer::new(vec![
        Node::Object { len: 2, end: 5 },
        Node::String(k),
        Node::String(v),
        Node::String("n"),
        num("-2"),
    ]);
    let tree = d.to_borrowed_value().unwrap();
    assert_eq!(d.position(), 5);
    match &tree {
        BorrowedValue::Object(o) => {
            assert!(matches!(o[0].0, BorrowedStr::Borrowed("key")));
            assert!(matches!(o[0].1, BorrowedValue::String(BorrowedStr::Borrowed("value"))));
            assert!(matches!(o[1].1, BorrowedValue::Static(StaticNode::I64(-2))));
        }
        _ => panic!("not an object"),
    }
    let owned = tree.into_owned_value();
    assert!(tree.eq_owned(&owned));
}

#[test]
fn repeated_keys_are_kept_in_tape_order() {
    let mut d = Deserializer::new(vec![
        Node::Object { len: 2, end: 5 },
        Node::String("a"),
        num("1"),
        Node::String("a"),
        num("2"),
    ]);
    match d.to_owned_value().unwrap() {
        OwnedValue::Object(o) => {
            assert_eq!(o.len(), 2);
            assert_eq!(o[1].1, OwnedValue::Static(StaticNode::U64(2)));
        }
        _ => panic!("not an object"),
    }
}

#[test]
fn skip_jumps_over_containers() {
    let mut d = Deserializer::new(sample_tape());
    assert!(d.next().is_ok());
    assert!(d.skip().is_ok()); // key "a"
    assert!(d.skip().is_ok()); // 1
    assert!(d.skip().is_ok()); // key "b"
    assert_eq!(d.position(), 4);
    assert!(d.skip().is_ok()); // [2,3.5,-4]
    assert_eq!(d.position(), 8);
    assert!(d.skip().is_err());
    assert_eq!(d.position(), 9);
}
