use lumber::atom::Atomizer;
use lumber::identifier::IdentifierKind;
use lumber::pattern::PatternKind;
use lumber::value::{from_value, Value};

#[test]
fn literal_values_become_literals_at_their_age() {
    let atoms = Atomizer::new();
    let p = from_value(Some(Value::Integer(5)), 3, 0).0;
    assert_eq!(p.text(&atoms, None), "5");
    assert_eq!(p.age(), Some(3));
    assert_eq!(from_value(Some(Value::Rational(1, 2)), 0, 0).0.text(&atoms, None), "1/2");
    assert_eq!(from_value(Some(Value::String("hi".to_string())), 0, 0).0.text(&atoms, None), "\"hi\"");
    assert_eq!(from_value(Some(Value::Any(16)), 0, 0).0.text(&atoms, None), "[0x10]");
}

#[test]
fn missing_value_is_a_wildcard_in_the_generation() {
    let p = from_value(None, 4, 0).0;
    match p.kind() {
        PatternKind::Variable(v) => {
            assert_eq!(v.identifier().kind(), IdentifierKind::Wildcard);
            assert_eq!(v.generation(), Some(4));
        },
        other => panic!("not a variable: {:?}", other),
    }
}

#[test]
fn lists_keep_order_and_openness() {
    let atoms = Atomizer::new();
    let complete = Value::List(vec![Some(Value::Integer(1)), Some(Value::Integer(2))], true);
    assert_eq!(from_value(Some(complete), 0, 0).0.text(&atoms, None), "[1, 2]");
    let open = Value::List(vec![Some(Value::Integer(1)), None], false);
    assert_eq!(from_value(Some(open), 0, 0).0.text(&atoms, None), "[1, $0@0, ..$1@0]");
}

#[test]
fn records_and_structures_keep_their_names() {
    let mut atoms = Atomizer::new();
    let point = atoms.atomize_str("point");
    let x = atoms.atomize_str("x");
    let y = atoms.atomize_str("y");
    let record = Value::Record(vec![(y, Some(Value::Integer(2))), (x, Some(Value::Integer(1))), (y, Some(Value::Integer(3)))], true);
    let value = Value::Struct(point, Some(Box::new(record)));
    assert_eq!(from_value(Some(value), 0, 0).0.text(&atoms, None), "point { x: 1, y: 3 }");
    let bare = Value::Struct(point, None);
    assert_eq!(from_value(Some(bare), 0, 0).0.text(&atoms, None), "point");
    let open = Value::Record(vec![], false);
    assert_eq!(from_value(Some(open), 1, 0).0.text(&atoms, None), "{ , ..$0@1 }");
}

#[test]
fn each_missing_value_has_a_wildcard_of_its_own() {
    let atoms = Atomizer::new();
    let open = Value::List(vec![None, Some(Value::Integer(7)), None], false);
    let (p, next) = from_value(Some(open), 2, 5);
    assert_eq!(p.text(&atoms, None), "[$5@2, 7, $6@2, ..$7@2]");
    assert_eq!(next, 8);
}
