use quickdiff::diff::{extend_keypath, quickdiff, quickdiff_iter};
use quickdiff::record::{Diff, IterLenMismatch, TypeAndValChange, ValChange};
use quickdiff::value::Value;

fn text(s: &str) -> Value {
    Value::String(s.to_string())
}

fn num(i: i128) -> Value {
    Value::Integer(i)
}

fn list(items: Vec<Value>) -> Value {
    Value::Sequence(items)
}

#[test]
fn empty_against_empty_gives_nothing() {
    assert!(quickdiff(&list(vec![]), &list(vec![])).is_empty());
    assert!(quickdiff_iter(&vec![], &vec![], vec![]).is_empty());
}

#[test]
fn empty_against_items_is_one_length_mismatch() {
    let out = quickdiff(&list(vec![]), &list(vec![num(1), num(2)]));
    assert_eq!(
        out.iter_len_mismatch,
        vec![IterLenMismatch { path: vec![], a_len: 0, b_len: 2 }]
    );
    assert!(out.val_changes.is_empty());
    assert!(out.type_and_val_changes.is_empty());
    assert!(out.dict_items_added.is_empty());
    assert!(out.dict_items_removed.is_empty());
    let out = quickdiff(&list(vec![num(1), num(2)]), &list(vec![]));
    assert_eq!(
        out.iter_len_mismatch,
        vec![IterLenMismatch { path: vec![], a_len: 2, b_len: 0 }]
    );
    assert!(out.val_changes.is_empty());
}

#[test]
fn items_are_paired_by_index() {
    let a = list(vec![num(1), num(2), num(3), num(4)]);
    let b = list(vec![num(1), num(20), num(3), num(40)]);
    let out = quickdiff(&a, &b);
    assert_eq!(
        out.val_changes,
        vec![
            ValChange { path: vec![num(1)], a: num(2), b: num(20) },
            ValChange { path: vec![num(3)], a: num(4), b: num(40) },
        ]
    );
    assert!(out.iter_len_mismatch.is_empty());
}

#[test]
fn the_length_mismatch_comes_after_the_pairs() {
    let a = vec![num(1), text("x"), num(3)];
    let b = vec![num(0), num(7)];
    let diffs = quickdiff_iter(&a, &b, vec![text("root")]);
    assert_eq!(
        diffs,
        vec![
            Diff::ValChange(ValChange { path: vec![text("root"), num(0)], a: num(1), b: num(0) }),
            Diff::TypeAndValChange(TypeAndValChange {
                path: vec![text("root"), num(1)],
                a: text("x"),
                b: num(7)
            }),
            Diff::IterLenMismatch(IterLenMismatch { path: vec![text("root")], a_len: 3, b_len: 2 }),
        ]
    );
}

#[test]
fn items_beyond_the_shorter_length_are_not_reported() {
    let a = list(vec![num(1)]);
    let b = list(vec![num(1), text("extra"), list(vec![num(5)]), Value::Null]);
    let out = quickdiff(&a, &b);
    assert_eq!(
        out.iter_len_mismatch,
        vec![IterLenMismatch { path: vec![], a_len: 1, b_len: 4 }]
    );
    assert!(out.val_changes.is_empty());
    assert!(out.type_and_val_changes.is_empty());
}

#[test]
fn nested_sequences_accumulate_indices() {
    let a = list(vec![list(vec![num(1), list(vec![num(2), num(3)])])]);
    let b = list(vec![list(vec![num(1), list(vec![num(2), num(4), num(5)])])]);
    let out = quickdiff(&a, &b);
    assert_eq!(
        out.val_changes,
        vec![ValChange { path: vec![num(0), num(1), num(1)], a: num(3), b: num(4) }]
    );
    assert_eq!(
        out.iter_len_mismatch,
        vec![IterLenMismatch { path: vec![num(0), num(1)], a_len: 2, b_len: 3 }]
    );
}

#[test]
fn a_sequence_is_no_mapping_and_no_string() {
    let out = quickdiff(&list(vec![]), &Value::Mapping(vec![]));
    assert_eq!(
        out.type_and_val_changes,
        vec![TypeAndValChange { path: vec![], a: list(vec![]), b: Value::Mapping(vec![]) }]
    );
    let out = quickdiff(&text("ab"), &list(vec![text("a"), text("b")]));
    assert_eq!(
        out.type_and_val_changes,
        vec![TypeAndValChange {
            path: vec![],
            a: text("ab"),
            b: list(vec![text("a"), text("b")])
        }]
    );
    assert!(out.val_changes.is_empty());
    assert!(out.iter_len_mismatch.is_empty());
}

#[test]
fn a_mismatch_inside_a_sequence_is_not_looked_into() {
    let a = list(vec![list(vec![num(1), num(2)])]);
    let b = list(vec![Value::Mapping(vec![(num(1), num(2))])]);
    let out = quickdiff(&a, &b);
    assert_eq!(
        out.type_and_val_changes,
        vec![TypeAndValChange {
            path: vec![num(0)],
            a: list(vec![num(1), num(2)]),
            b: Value::Mapping(vec![(num(1), num(2))])
        }]
    );
    assert!(out.val_changes.is_empty());
    assert!(out.iter_len_mismatch.is_empty());
}

#[test]
fn extend_keypath_appends_and_leaves_the_parent() {
    let parent = vec![text("a"), num(1)];
    let child = extend_keypath(&parent, &text("b"));
    assert_eq!(child, vec![text("a"), num(1), text("b")]);
    assert_eq!(parent, vec![text("a"), num(1)]);
    let first = extend_keypath(&vec![], &num(0));
    assert_eq!(first, vec![num(0)]);
}
