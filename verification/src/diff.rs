//! The comparison itself: the dispatcher, the three comparators and the
//! entry point.
//!
//! The comparison is recursive: it uses as many stack frames as the
//! first value is deep, and a mapping of n entries against one of m
//! costs n * m comparisons of keys.

use crate::laws::{lemma_agreement, lemma_partition_len};
use crate::mapping::{mapping_contains, mapping_get};
use crate::model::{
    added_pass, added_records, entry_records, item_records, length_records, mapping_records,
    paired_pass, records, removed_pass, scalar_records, sequence_records,
};
use crate::record::{
    partition, Diff, DictDiff, IterLenMismatch, KeyPath, Output, TypeAndValChange, ValChange,
};
use crate::value::{
    float_bits_equal, lemma_entry_decreases, lemma_item_decreases, lemma_mapping_view,
    lemma_sequence_view, Value,
};
use vstd::prelude::*;

verus! {

/// The path that leads one step further than `keypath`, to the key or
/// index `val`.
pub fn extend_keypath(keypath: &KeyPath, val: &Value) -> (extended: KeyPath)
    ensures
        extended.deep_view() == keypath.deep_view().push(val@),
{
    let mut extended = keypath.clone();
    assert(extended.deep_view() =~= keypath.deep_view());
    extended.push(val.clone());
    assert(extended.deep_view() =~= keypath.deep_view().push(val@));
    extended
}

/// Whether two scalars of the same kind are equal.
pub fn scalar_equal(a: &Value, b: &Value) -> (equal: bool)
    ensures
        equal == a@.scalar_equal(b@),
{
    match (a, b) {
        (Value::String(s), Value::String(t)) => *s == *t,
        (Value::Float(x), Value::Float(y)) => float_bits_equal(*x, *y),
        (Value::Integer(i), Value::Integer(j)) => *i == *j,
        (Value::Integer(i), Value::Bool(y)) => *i == (if *y { 1i128 } else { 0i128 }),
        (Value::Bool(x), Value::Integer(j)) => (if *x { 1i128 } else { 0i128 }) == *j,
        (Value::Bool(x), Value::Bool(y)) => *x == *y,
        _ => false,
    }
}

/// Compares two scalars of the same kind: one value change where they
/// are unequal, nothing where they are equal.
pub fn quickdiff_primitive(a: &Value, b: &Value, keypath: KeyPath) -> (diffs: Vec<Diff>)
    ensures
        diffs.deep_view() == scalar_records(a@, b@, keypath.deep_view()),
{
    let mut diffs: Vec<Diff> = Vec::new();
    if !scalar_equal(a, b) {
        let ghost path = keypath.deep_view();
        diffs.push(Diff::ValChange(ValChange { path: keypath, a: a.clone(), b: b.clone() }));
        assert(diffs.deep_view() =~= scalar_records(a@, b@, path));
    } else {
        assert(diffs.deep_view() =~= scalar_records(a@, b@, keypath.deep_view()));
    }
    diffs
}

/// Compares the values `a` and `b` that stand at `keypath`, by the kinds
/// that the two are of.
pub fn quickdiff_dispatch(a: &Value, b: &Value, keypath: KeyPath) -> (diffs: Vec<Diff>)
    ensures
        diffs.deep_view() == records(a@, b@, keypath.deep_view()),
    decreases a,
{
    let kind = a.kind();
    if kind.is_scalar() && kind == b.kind() {
        return quickdiff_primitive(a, b, keypath);
    }
    match (a, b) {
        (Value::Mapping(ea), Value::Mapping(eb)) => {
            proof {
                lemma_mapping_view(*ea);
                lemma_mapping_view(*eb);
            }
            quickdiff_map(ea, eb, keypath)
        },
        (Value::Sequence(xa), Value::Sequence(xb)) => {
            proof {
                lemma_sequence_view(*xa);
                lemma_sequence_view(*xb);
            }
            quickdiff_iter(xa, xb, keypath)
        },
        (Value::Null, Value::Null) => {
            let diffs: Vec<Diff> = Vec::new();
            assert(diffs.deep_view() =~= records(a@, b@, keypath.deep_view()));
            diffs
        },
        _ => {
            let ghost path = keypath.deep_view();
            let mut diffs: Vec<Diff> = Vec::new();
            diffs.push(
                Diff::TypeAndValChange(
                    TypeAndValChange { path: keypath, a: a.clone(), b: b.clone() },
                ),
            );
            assert(diffs.deep_view() =~= records(a@, b@, path));
            diffs
        },
    }
}

/// Compares two mappings, given by their entries: first the entries of
/// `a`, each against the value that `b` gives to its key; then the
/// entries of `b` whose key `a` lacks.
pub fn quickdiff_map(a: &Vec<(Value, Value)>, b: &Vec<(Value, Value)>, keypath: KeyPath) -> (diffs:
    Vec<Diff>)
    ensures
        diffs.deep_view() == mapping_records(a.deep_view(), b.deep_view(), keypath.deep_view()),
    decreases a,
{
    let ghost ea = a.deep_view();
    let ghost eb = b.deep_view();
    let ghost path = keypath.deep_view();
    let mut diffs: Vec<Diff> = Vec::new();
    assert(diffs.deep_view() =~= removed_pass(ea, eb, path, 0));
    let mut i: usize = 0;
    while i < a.len()
        invariant
            ea == a.deep_view(),
            eb == b.deep_view(),
            path == keypath.deep_view(),
            i <= a.len(),
            diffs.deep_view() == removed_pass(ea, eb, path, i as nat),
        decreases a.len() - i,
    {
        let ghost before = diffs.deep_view();
        let key = &a[i].0;
        let val = &a[i].1;
        match mapping_get(b, key) {
            Some(other) => {
                proof {
                    lemma_entry_decreases(*a, i as int);
                }
                let mut below = quickdiff_dispatch(val, other, extend_keypath(&keypath, key));
                let ghost added = below.deep_view();
                diffs.append(&mut below);
                assert(diffs.deep_view() =~= before + added);
            },
            None => {
                let removed = DictDiff { path: keypath.clone(), key: key.clone(), val: val.clone() };
                assert(removed.path.deep_view() =~= path);
                diffs.push(Diff::DictItemRemoved(removed));
                assert(diffs.deep_view() =~= before + entry_records(ea, eb, path, i as int));
            },
        }
        i += 1;
    }
    let ghost first = diffs.deep_view();
    assert(first + added_pass(ea, eb, path, 0) =~= first);
    let mut j: usize = 0;
    while j < b.len()
        invariant
            ea == a.deep_view(),
            eb == b.deep_view(),
            path == keypath.deep_view(),
            j <= b.len(),
            diffs.deep_view() == first + added_pass(ea, eb, path, j as nat),
        decreases b.len() - j,
    {
        let ghost before = diffs.deep_view();
        let key = &b[j].0;
        let val = &b[j].1;
        if !mapping_contains(a, key) {
            let added = DictDiff { path: keypath.clone(), key: key.clone(), val: val.clone() };
            assert(added.path.deep_view() =~= path);
            diffs.push(Diff::DictItemAdded(added));
            assert(diffs.deep_view() =~= before + added_records(ea, eb, path, j as int));
        } else {
            assert(before + added_records(ea, eb, path, j as int) =~= before);
        }
        j += 1;
    }
    diffs
}

/// Compares two sequences, given by their items: the items at the same
/// index pair by pair, as far as both sequences reach; then the lengths.
pub fn quickdiff_iter(a: &Vec<Value>, b: &Vec<Value>, keypath: KeyPath) -> (diffs: Vec<Diff>)
    ensures
        diffs.deep_view() == sequence_records(a.deep_view(), b.deep_view(), keypath.deep_view()),
    decreases a,
{
    let ghost xa = a.deep_view();
    let ghost xb = b.deep_view();
    let ghost path = keypath.deep_view();
    let common = if a.len() <= b.len() {
        a.len()
    } else {
        b.len()
    };
    let mut diffs: Vec<Diff> = Vec::new();
    assert(diffs.deep_view() =~= paired_pass(xa, xb, path, 0));
    let mut i: usize = 0;
    while i < common
        invariant
            xa == a.deep_view(),
            xb == b.deep_view(),
            path == keypath.deep_view(),
            common <= a.len(),
            common <= b.len(),
            i <= common,
            diffs.deep_view() == paired_pass(xa, xb, path, i as nat),
        decreases common - i,
    {
        let ghost before = diffs.deep_view();
        let index = Value::Integer(i as i128);
        proof {
            lemma_item_decreases(*a, i as int);
        }
        let mut below = quickdiff_dispatch(&a[i], &b[i], extend_keypath(&keypath, &index));
        let ghost added = below.deep_view();
        diffs.append(&mut below);
        assert(diffs.deep_view() =~= before + added);
        assert(added == item_records(xa, xb, path, i as int));
        i += 1;
    }
    if a.len() != b.len() {
        let ghost before = diffs.deep_view();
        diffs.push(
            Diff::IterLenMismatch(
                IterLenMismatch { path: keypath, a_len: a.len(), b_len: b.len() },
            ),
        );
        assert(diffs.deep_view() =~= before + length_records(xa, xb, path));
    } else {
        assert(diffs.deep_view() + length_records(xa, xb, path) =~= diffs.deep_view());
    }
    diffs
}

/// Compares two values and reports every divergence, sorted by kind.
///
/// Each list of the output is in the order of a depth-first traversal of
/// the first value, with the paths starting at the root. The output is
/// empty exactly when the two values agree.
pub fn quickdiff(a: &Value, b: &Value) -> (out: Output)
    ensures
        out@ == partition(records(a@, b@, Seq::empty())),
        out@.len() == 0 <==> a@.agrees(b@),
{
    let keypath: KeyPath = Vec::new();
    assert(keypath.deep_view() =~= Seq::empty());
    proof {
        lemma_agreement(a@, b@, Seq::empty());
        lemma_partition_len(records(a@, b@, Seq::empty()));
    }
    Output::collect(quickdiff_dispatch(a, b, keypath))
}

} // verus!
