use quickdiff::value::{Kind, Value};

fn text(s: &str) -> Value {
    Value::String(s.to_string())
}

fn num(i: i128) -> Value {
    Value::Integer(i)
}

fn one_of_each() -> Vec<Value> {
    vec![
        text("s"),
        text(""),
        num(0),
        num(1),
        Value::Bool(false),
        Value::Bool(true),
        Value::Float(0),
        Value::Float(1),
        Value::Mapping(vec![]),
        Value::Mapping(vec![(num(0), num(1))]),
        Value::Mapping(vec![(num(0), num(2))]),
        Value::Mapping(vec![(num(1), num(1))]),
        Value::Sequence(vec![]),
        Value::Sequence(vec![num(0)]),
        Value::Sequence(vec![num(0), num(1)]),
        Value::Sequence(vec![num(1), num(0)]),
        Value::Null,
        Value::Opaque(0),
        Value::Opaque(1),
    ]
}

#[test]
fn each_variant_has_its_kind() {
    assert_eq!(text("x").kind(), Kind::String);
    assert_eq!(num(3).kind(), Kind::Integer);
    assert_eq!(Value::Bool(true).kind(), Kind::Integer);
    assert_eq!(Value::Float(0).kind(), Kind::Float);
    assert_eq!(Value::Mapping(vec![]).kind(), Kind::Mapping);
    assert_eq!(Value::Sequence(vec![]).kind(), Kind::Sequence);
    assert_eq!(Value::Null.kind(), Kind::Null);
    assert_eq!(Value::Opaque(9).kind(), Kind::Opaque);
}

#[test]
fn three_kinds_are_scalar() {
    assert!(Kind::String.is_scalar());
    assert!(Kind::Integer.is_scalar());
    assert!(Kind::Float.is_scalar());
    assert!(!Kind::Mapping.is_scalar());
    assert!(!Kind::Sequence.is_scalar());
    assert!(!Kind::Null.is_scalar());
    assert!(!Kind::Opaque.is_scalar());
}

#[test]
fn only_null_is_none() {
    assert!(Value::Null.is_none());
    for v in one_of_each() {
        assert_eq!(v.is_none(), matches!(v, Value::Null));
    }
}

#[test]
fn same_is_identity_on_distinct_samples() {
    let samples = one_of_each();
    for (i, x) in samples.iter().enumerate() {
        for (j, y) in samples.iter().enumerate() {
            assert_eq!(x.same(y), i == j, "{:?} against {:?}", x, y);
            assert_eq!(x == y, i == j);
        }
    }
}

#[test]
fn same_takes_floats_by_their_bits() {
    let nan = Value::Float(f64::NAN.to_bits());
    assert!(nan.same(&Value::Float(f64::NAN.to_bits())));
    assert!(!Value::Float(0.0f64.to_bits()).same(&Value::Float((-0.0f64).to_bits())));
    assert!(!Value::Bool(true).same(&num(1)));
}

#[test]
fn same_looks_at_every_depth() {
    let a = Value::Sequence(vec![Value::Mapping(vec![(text("k"), Value::Sequence(vec![num(1)]))])]);
    let b = Value::Sequence(vec![Value::Mapping(vec![(text("k"), Value::Sequence(vec![num(1)]))])]);
    let c = Value::Sequence(vec![Value::Mapping(vec![(text("k"), Value::Sequence(vec![num(2)]))])]);
    let d = Value::Sequence(vec![Value::Mapping(vec![(text("j"), Value::Sequence(vec![num(1)]))])]);
    assert!(a.same(&b));
    assert!(!a.same(&c));
    assert!(!a.same(&d));
}

#[test]
fn same_minds_the_order_of_entries() {
    let a = Value::Mapping(vec![(num(1), num(1)), (num(2), num(2))]);
    let b = Value::Mapping(vec![(num(2), num(2)), (num(1), num(1))]);
    assert!(!a.same(&b));
}

#[test]
fn a_clone_has_the_same_content() {
    for v in one_of_each() {
        let copy = v.clone();
        assert!(copy.same(&v));
        assert_eq!(copy, v);
    }
    let deep = Value::Mapping(vec![(
        text("a"),
        Value::Sequence(vec![Value::Mapping(vec![(text("b"), Value::Float(7))]), Value::Null]),
    )]);
    assert_eq!(deep.clone(), deep);
}

#[test]
fn values_without_mappings_are_well_formed() {
    assert!(text("x").is_well_formed());
    assert!(num(1).is_well_formed());
    assert!(Value::Null.is_well_formed());
    assert!(Value::Opaque(3).is_well_formed());
    assert!(Value::Float(f64::NAN.to_bits()).is_well_formed());
    assert!(Value::Sequence(vec![num(1), num(1)]).is_well_formed());
    assert!(Value::Mapping(vec![]).is_well_formed());
}

#[test]
fn a_mapping_with_distinct_keys_is_well_formed() {
    let v = Value::Mapping(vec![
        (num(1), num(0)),
        (text("1"), num(0)),
        (Value::Bool(true), num(0)),
        (Value::Float(1.0f64.to_bits()), num(0)),
    ]);
    assert!(v.is_well_formed());
}

#[test]
fn a_repeated_key_is_not_well_formed() {
    let v = Value::Mapping(vec![(text("k"), num(1)), (text("j"), num(2)), (text("k"), num(3))]);
    assert!(!v.is_well_formed());
    let adjacent = Value::Mapping(vec![(num(1), num(1)), (num(1), num(1))]);
    assert!(!adjacent.is_well_formed());
}

#[test]
fn well_formedness_reaches_every_depth() {
    let bad = Value::Mapping(vec![(text("k"), num(1)), (text("k"), num(2))]);
    let in_value = Value::Mapping(vec![(text("outer"), bad.clone())]);
    let in_key = Value::Mapping(vec![(bad.clone(), num(0))]);
    let in_item = Value::Sequence(vec![num(1), Value::Sequence(vec![bad.clone()])]);
    assert!(!in_value.is_well_formed());
    assert!(!in_key.is_well_formed());
    assert!(!in_item.is_well_formed());
    let good = Value::Sequence(vec![Value::Mapping(vec![(
        text("outer"),
        Value::Mapping(vec![(text("k"), num(1)), (text("j"), num(2))]),
    )])]);
    assert!(good.is_well_formed());
}
