//! Mappings as lists of entries: which entry a key stands for.

use crate::value::{Entries, Value, ValueView};
use vstd::prelude::*;

verus! {

/// The keys of a mapping's entries, in the entries' order.
pub open spec fn keys(entries: Entries) -> Seq<ValueView> {
    entries.map_values(|e: (ValueView, ValueView)| e.0)
}

/// Whether some entry has the key.
pub open spec fn has_key(entries: Entries, key: ValueView) -> bool {
    keys(entries).contains(key)
}

/// The index of the first entry with the key.
pub open spec fn position(entries: Entries, key: ValueView) -> Option<int> {
    keys(entries).index_of_first(key)
}

/// The value that the mapping gives to the key: that of the first entry
/// with the key.
pub open spec fn lookup(entries: Entries, key: ValueView) -> Option<ValueView> {
    match position(entries, key) {
        Some(i) => Some(entries[i].1),
        None => None,
    }
}

/// What `position` returns: the least index of an entry with the key, or
/// nothing where no entry has it.
pub proof fn lemma_position(entries: Entries, key: ValueView)
    ensures
        match position(entries, key) {
            Some(i) => {
                &&& 0 <= i < entries.len()
                &&& entries[i].0 == key
                &&& forall|j: int| 0 <= j < i ==> entries[j].0 != key
                &&& lookup(entries, key) == Some(entries[i].1)
                &&& has_key(entries, key)
            },
            None => {
                &&& forall|j: int| 0 <= j < entries.len() ==> entries[j].0 != key
                &&& lookup(entries, key) is None
                &&& !has_key(entries, key)
            },
        },
{
    let ks = keys(entries);
    ks.index_of_first_ensures(key);
    match position(entries, key) {
        Some(i) => {
            assert forall|j: int| 0 <= j < i implies entries[j].0 != key by {
                assert(ks[j] != key);
            }
        },
        None => {
            assert forall|j: int| 0 <= j < entries.len() implies entries[j].0 != key by {
                assert(ks[j] == entries[j].0);
            }
        },
    }
}

/// An entry with the key, before which no entry has it, is the one that
/// `position` finds.
pub proof fn lemma_position_is(entries: Entries, key: ValueView, i: int)
    requires
        0 <= i < entries.len(),
        entries[i].0 == key,
        forall|j: int| 0 <= j < i ==> entries[j].0 != key,
    ensures
        position(entries, key) == Some(i),
        lookup(entries, key) == Some(entries[i].1),
{
    lemma_position(entries, key);
    assert(keys(entries)[i] == key);
}

/// No entry has the key where none of the indices holds it.
pub proof fn lemma_position_none(entries: Entries, key: ValueView)
    requires
        forall|j: int| 0 <= j < entries.len() ==> entries[j].0 != key,
    ensures
        position(entries, key) is None,
        lookup(entries, key) is None,
{
    lemma_position(entries, key);
}

/// The index of the first entry with the key, if there is one.
pub fn mapping_position(entries: &Vec<(Value, Value)>, key: &Value) -> (found: Option<usize>)
    ensures
        match found {
            Some(i) => position(entries.deep_view(), key@) == Some(i as int),
            None => position(entries.deep_view(), key@) is None,
        },
{
    let mut i: usize = 0;
    while i < entries.len()
        invariant
            i <= entries.len(),
            forall|j: int| 0 <= j < i ==> (#[trigger] entries.deep_view()[j]).0 != key@,
        decreases entries.len() - i,
    {
        if entries[i].0.same(key) {
            proof {
                lemma_position_is(entries.deep_view(), key@, i as int);
            }
            return Some(i);
        }
        i += 1;
    }
    proof {
        lemma_position_none(entries.deep_view(), key@);
    }
    None
}

/// The value that the mapping gives to the key, if it has the key.
pub fn mapping_get<'a>(entries: &'a Vec<(Value, Value)>, key: &Value) -> (found: Option<
    &'a Value,
>)
    ensures
        match found {
            Some(val) => lookup(entries.deep_view(), key@) == Some(val@),
            None => lookup(entries.deep_view(), key@) is None,
        },
{
    match mapping_position(entries, key) {
        Some(i) => {
            proof {
                lemma_position(entries.deep_view(), key@);
            }
            Some(&entries[i].1)
        },
        None => None,
    }
}

/// Whether the mapping has the key.
pub fn mapping_contains(entries: &Vec<(Value, Value)>, key: &Value) -> (found: bool)
    ensures
        found == has_key(entries.deep_view(), key@),
{
    proof {
        lemma_position(entries.deep_view(), key@);
    }
    mapping_position(entries, key).is_some()
}

} // verus!
