use quickdiff::diff::{quickdiff, quickdiff_dispatch};
use quickdiff::record::{Diff, DictDiff, IterLenMismatch, KeyPath, Output, TypeAndValChange};
use quickdiff::value::Value;

fn text(s: &str) -> Value {
    Value::String(s.to_string())
}

fn num(i: i128) -> Value {
    Value::Integer(i)
}

fn float(x: f64) -> Value {
    Value::Float(x.to_bits())
}

fn list(items: Vec<Value>) -> Value {
    Value::Sequence(items)
}

fn dict(pairs: Vec<(&str, Value)>) -> Value {
    Value::Mapping(pairs.into_iter().map(|(k, v)| (text(k), v)).collect())
}

fn comparable_samples() -> Vec<Value> {
    vec![
        Value::Null,
        text(""),
        text("text"),
        num(0),
        num(-17),
        Value::Bool(true),
        float(0.0),
        float(-2.75),
        float(f64::INFINITY),
        list(vec![]),
        list(vec![num(1), text("two"), float(3.0), Value::Null]),
        dict(vec![]),
        dict(vec![("a", num(1)), ("b", list(vec![num(2), dict(vec![("c", Value::Null)])]))]),
        Value::Mapping(vec![
            (Value::Opaque(1), num(1)),
            (float(f64::NAN), text("under a key that is no number")),
            (list(vec![num(1)]), dict(vec![("deep", list(vec![list(vec![])]))])),
        ]),
        list(vec![list(vec![list(vec![list(vec![dict(vec![("x", float(1.5))])])])])]),
    ]
}

fn mixed_samples() -> Vec<Value> {
    let mut samples = comparable_samples();
    samples.push(Value::Opaque(7));
    samples.push(float(f64::NAN));
    samples.push(list(vec![num(1), Value::Opaque(7)]));
    samples.push(dict(vec![("n", float(f64::NAN)), ("m", num(1))]));
    samples.push(dict(vec![("a", num(2)), ("c", text("only here"))]));
    samples.push(dict(vec![
        ("b", list(vec![num(2), dict(vec![("d", Value::Null), ("c", num(0))])])),
        ("z", dict(vec![("k", num(1))])),
    ]));
    samples
}

fn sorted_entries(entries: &Vec<DictDiff>) -> Vec<String> {
    let mut keys: Vec<String> = entries.iter().map(|e| format!("{:?}", e)).collect();
    keys.sort();
    keys
}

fn paths_of(out: &Output) -> Vec<KeyPath> {
    let mut paths: Vec<KeyPath> = Vec::new();
    paths.extend(out.val_changes.iter().map(|r| r.path.clone()));
    paths.extend(out.type_and_val_changes.iter().map(|r| r.path.clone()));
    paths.extend(out.dict_items_added.iter().map(|r| r.path.clone()));
    paths.extend(out.dict_items_removed.iter().map(|r| r.path.clone()));
    paths.extend(out.iter_len_mismatch.iter().map(|r| r.path.clone()));
    paths
}

fn count(out: &Output) -> usize {
    out.val_changes.len()
        + out.type_and_val_changes.len()
        + out.dict_items_added.len()
        + out.dict_items_removed.len()
        + out.iter_len_mismatch.len()
}

#[test]
fn a_comparable_value_does_not_differ_from_itself() {
    for v in comparable_samples() {
        assert!(v.is_well_formed());
        assert!(quickdiff(&v, &v).is_empty(), "{:?}", v);
        assert!(quickdiff(&v, &v.clone()).is_empty(), "{:?}", v);
        assert!(quickdiff_dispatch(&v, &v, vec![text("anywhere")]).is_empty());
    }
}

#[test]
fn an_opaque_handle_differs_from_itself() {
    let v = Value::Opaque(7);
    let out = quickdiff(&v, &v);
    assert_eq!(
        out.type_and_val_changes,
        vec![TypeAndValChange { path: vec![], a: Value::Opaque(7), b: Value::Opaque(7) }]
    );
    let inside = list(vec![num(1), Value::Opaque(7)]);
    let out = quickdiff(&inside, &inside);
    assert_eq!(
        out.type_and_val_changes,
        vec![TypeAndValChange { path: vec![num(1)], a: Value::Opaque(7), b: Value::Opaque(7) }]
    );
}

#[test]
fn a_nan_inside_differs_from_itself() {
    let v = dict(vec![("n", float(f64::NAN)), ("m", num(1))]);
    let out = quickdiff(&v, &v);
    assert_eq!(out.val_changes.len(), 1);
    assert_eq!(out.val_changes[0].path, vec![text("n")]);
    assert_eq!(count(&out), 1);
}

#[test]
fn a_repeated_key_breaks_reflexivity() {
    let v = Value::Mapping(vec![(text("k"), num(1)), (text("k"), num(2))]);
    assert!(!v.is_well_formed());
    assert!(!quickdiff(&v, &v).is_empty());
}

#[test]
fn removed_and_added_change_places_with_the_values() {
    let samples = mixed_samples();
    for a in samples.iter() {
        for b in samples.iter() {
            assert!(a.is_well_formed() && b.is_well_formed());
            let forth = quickdiff(a, b);
            let back = quickdiff(b, a);
            assert_eq!(
                sorted_entries(&forth.dict_items_removed),
                sorted_entries(&back.dict_items_added),
                "{:?} against {:?}",
                a,
                b
            );
            assert_eq!(
                sorted_entries(&forth.dict_items_added),
                sorted_entries(&back.dict_items_removed)
            );
        }
    }
}

#[test]
fn a_swap_keeps_the_entries_of_nested_mappings() {
    let a = dict(vec![
        ("p", dict(vec![("only a", num(1)), ("both", num(2))])),
        ("q", dict(vec![("gone", Value::Null)])),
        ("top a", num(0)),
    ]);
    let b = dict(vec![
        ("q", dict(vec![("come", Value::Null)])),
        ("top b", num(0)),
        ("p", dict(vec![("both", num(2)), ("only b", num(3))])),
    ]);
    let forth = quickdiff(&a, &b);
    let back = quickdiff(&b, &a);
    assert_eq!(
        forth.dict_items_removed,
        vec![
            DictDiff { path: vec![text("p")], key: text("only a"), val: num(1) },
            DictDiff { path: vec![text("q")], key: text("gone"), val: Value::Null },
            DictDiff { path: vec![], key: text("top a"), val: num(0) },
        ]
    );
    assert_eq!(
        back.dict_items_added,
        vec![
            DictDiff { path: vec![text("q")], key: text("gone"), val: Value::Null },
            DictDiff { path: vec![text("p")], key: text("only a"), val: num(1) },
            DictDiff { path: vec![], key: text("top a"), val: num(0) },
        ]
    );
    assert_eq!(sorted_entries(&forth.dict_items_added), sorted_entries(&back.dict_items_removed));
    assert_eq!(forth.dict_items_added.len(), 3);
}

#[test]
fn one_more_item_is_one_length_mismatch_whatever_the_items() {
    let items = comparable_samples();
    let n = items.len();
    for extra in mixed_samples() {
        let mut longer = items.clone();
        longer.push(extra);
        let out = quickdiff(&list(items.clone()), &list(longer));
        assert_eq!(
            out.iter_len_mismatch,
            vec![IterLenMismatch { path: vec![], a_len: n, b_len: n + 1 }]
        );
        assert_eq!(count(&out), 1);
    }
}

#[test]
fn values_of_two_kinds_give_one_change_of_type_and_value() {
    let by_kind = vec![
        text("5"),
        num(5),
        float(5.0),
        dict(vec![("5", num(5))]),
        list(vec![num(5)]),
        Value::Null,
        Value::Opaque(5),
    ];
    for (i, a) in by_kind.iter().enumerate() {
        for (j, b) in by_kind.iter().enumerate() {
            if i != j {
                let diffs = quickdiff_dispatch(a, b, vec![text("here")]);
                assert_eq!(
                    diffs,
                    vec![Diff::TypeAndValChange(TypeAndValChange {
                        path: vec![text("here")],
                        a: a.clone(),
                        b: b.clone()
                    })]
                );
            }
        }
    }
}

#[test]
fn the_output_is_empty_exactly_for_values_that_agree() {
    let a = dict(vec![("x", list(vec![num(1), Value::Bool(true)])), ("y", float(0.0))]);
    let b = dict(vec![("y", float(-0.0)), ("x", list(vec![Value::Bool(true), num(1)]))]);
    assert!(!a.same(&b));
    assert!(quickdiff(&a, &b).is_empty());
    let c = dict(vec![("y", float(-0.0)), ("x", list(vec![Value::Bool(true), num(2)]))]);
    assert!(!quickdiff(&a, &c).is_empty());
}

#[test]
fn every_record_stands_at_the_start_path_or_below() {
    let start = vec![text("root"), num(3)];
    let samples = mixed_samples();
    for a in samples.iter() {
        for b in samples.iter() {
            let out = Output::collect(quickdiff_dispatch(a, b, start.clone()));
            for path in paths_of(&out) {
                assert!(path.len() >= 2);
                assert_eq!(path[0], text("root"));
                assert_eq!(path[1], num(3));
            }
        }
    }
}

#[test]
fn sorting_by_kind_keeps_the_number_of_records() {
    let samples = mixed_samples();
    for a in samples.iter() {
        for b in samples.iter() {
            let flat = quickdiff_dispatch(a, b, vec![]);
            let n = flat.len();
            assert_eq!(count(&Output::collect(flat)), n);
            assert_eq!(count(&quickdiff(a, b)), n);
        }
    }
}
