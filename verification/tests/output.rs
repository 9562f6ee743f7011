use quickdiff::record::{
    Diff, DictDiff, IterLenMismatch, Output, TypeAndValChange, ValChange,
};
use quickdiff::value::Value;

fn num(i: i128) -> Value {
    Value::Integer(i)
}

fn change(i: i128) -> ValChange {
    ValChange { path: vec![num(i)], a: num(i), b: num(i + 1) }
}

fn type_change(i: i128) -> TypeAndValChange {
    TypeAndValChange { path: vec![num(i)], a: num(i), b: Value::Null }
}

fn entry(i: i128) -> DictDiff {
    DictDiff { path: vec![], key: num(i), val: num(i) }
}

fn lengths(i: usize) -> IterLenMismatch {
    IterLenMismatch { path: vec![], a_len: i, b_len: i + 1 }
}

#[test]
fn the_default_output_is_empty() {
    let out = Output::default();
    assert!(out.is_empty());
    assert!(out.val_changes.is_empty());
    assert!(out.type_and_val_changes.is_empty());
    assert!(out.dict_items_added.is_empty());
    assert!(out.dict_items_removed.is_empty());
    assert!(out.iter_len_mismatch.is_empty());
}

#[test]
fn collecting_nothing_gives_the_empty_output() {
    assert_eq!(Output::collect(vec![]), Output::default());
}

#[test]
fn collect_sorts_by_kind_and_keeps_the_order() {
    let out = Output::collect(vec![
        Diff::DictItemAdded(entry(1)),
        Diff::ValChange(change(1)),
        Diff::IterLenMismatch(lengths(1)),
        Diff::DictItemRemoved(entry(2)),
        Diff::ValChange(change(2)),
        Diff::TypeAndValChange(type_change(1)),
        Diff::DictItemAdded(entry(3)),
        Diff::DictItemRemoved(entry(4)),
        Diff::TypeAndValChange(type_change(2)),
        Diff::IterLenMismatch(lengths(2)),
        Diff::ValChange(change(3)),
    ]);
    assert_eq!(out.val_changes, vec![change(1), change(2), change(3)]);
    assert_eq!(out.type_and_val_changes, vec![type_change(1), type_change(2)]);
    assert_eq!(out.dict_items_added, vec![entry(1), entry(3)]);
    assert_eq!(out.dict_items_removed, vec![entry(2), entry(4)]);
    assert_eq!(out.iter_len_mismatch, vec![lengths(1), lengths(2)]);
    assert!(!out.is_empty());
}

#[test]
fn an_added_entry_is_not_a_removed_one() {
    let out = Output::collect(vec![Diff::DictItemAdded(entry(1))]);
    assert_eq!(out.dict_items_added, vec![entry(1)]);
    assert!(out.dict_items_removed.is_empty());
    let out = Output::collect(vec![Diff::DictItemRemoved(entry(1))]);
    assert_eq!(out.dict_items_removed, vec![entry(1)]);
    assert!(out.dict_items_added.is_empty());
}

#[test]
fn equal_records_are_kept_apart() {
    let out = Output::collect(vec![
        Diff::ValChange(change(1)),
        Diff::ValChange(change(1)),
        Diff::ValChange(change(1)),
    ]);
    assert_eq!(out.val_changes.len(), 3);
}

#[test]
fn one_record_of_any_kind_makes_the_output_non_empty() {
    assert!(!Output::collect(vec![Diff::ValChange(change(0))]).is_empty());
    assert!(!Output::collect(vec![Diff::TypeAndValChange(type_change(0))]).is_empty());
    assert!(!Output::collect(vec![Diff::DictItemAdded(entry(0))]).is_empty());
    assert!(!Output::collect(vec![Diff::DictItemRemoved(entry(0))]).is_empty());
    assert!(!Output::collect(vec![Diff::IterLenMismatch(lengths(0))]).is_empty());
}
