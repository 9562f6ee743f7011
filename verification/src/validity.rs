//! Checking that a value is well formed.

use crate::mapping::{lemma_position, mapping_position};
use crate::value::{
    lemma_entry_decreases, lemma_item_decreases, lemma_mapping_view, lemma_sequence_view,
    lemma_well_formed_mapping, lemma_well_formed_sequence, Value,
};
use vstd::prelude::*;

verus! {

impl Value {
    /// Whether no mapping inside the value, at any depth, holds a key
    /// twice.
    pub fn is_well_formed(&self) -> (r: bool)
        ensures
            r == self@.well_formed(),
        decreases self,
    {
        match self {
            Value::Mapping(entries) => {
                let ghost es = entries.deep_view();
                proof {
                    lemma_mapping_view(*entries);
                    lemma_well_formed_mapping(es);
                }
                let mut i: usize = 0;
                while i < entries.len()
                    invariant
                        *self == Value::Mapping(*entries),
                        es == entries.deep_view(),
                        self@.well_formed() <==> {
                            &&& forall|i: int, j: int|
                                0 <= i < j < es.len() ==> (#[trigger] es[i]).0 != (
                                #[trigger] es[j]).0
                            &&& forall|i: int|
                                0 <= i < es.len() ==> (#[trigger] es[i]).0.well_formed()
                                    && es[i].1.well_formed()
                        },
                        i <= entries.len(),
                        forall|k: int, l: int|
                            0 <= k < l < i ==> (#[trigger] es[k]).0 != (#[trigger] es[l]).0,
                        forall|k: int|
                            0 <= k < i ==> (#[trigger] es[k]).0.well_formed()
                                && es[k].1.well_formed(),
                    decreases entries.len() - i,
                {
                    proof {
                        lemma_entry_decreases(*entries, i as int);
                    }
                    if !entries[i].0.is_well_formed() || !entries[i].1.is_well_formed() {
                        assert(!(es[i as int].0.well_formed() && es[i as int].1.well_formed()));
                        return false;
                    }
                    proof {
                        lemma_position(es, es[i as int].0);
                    }
                    match mapping_position(entries, &entries[i].0) {
                        Some(first) => {
                            if first != i {
                                assert(es[first as int].0 == es[i as int].0);
                                return false;
                            }
                        },
                        None => {
                            return false;
                        },
                    }
                    i += 1;
                }
                true
            },
            Value::Sequence(items) => {
                let ghost xs = items.deep_view();
                proof {
                    lemma_sequence_view(*items);
                    lemma_well_formed_sequence(xs);
                }
                let mut i: usize = 0;
                while i < items.len()
                    invariant
                        *self == Value::Sequence(*items),
                        xs == items.deep_view(),
                        self@.well_formed() <==> forall|i: int|
                            0 <= i < xs.len() ==> (#[trigger] xs[i]).well_formed(),
                        i <= items.len(),
                        forall|k: int| 0 <= k < i ==> (#[trigger] xs[k]).well_formed(),
                    decreases items.len() - i,
                {
                    proof {
                        lemma_item_decreases(*items, i as int);
                    }
                    if !items[i].is_well_formed() {
                        assert(!xs[i as int].well_formed());
                        return false;
                    }
                    i += 1;
                }
                true
            },
            _ => true,
        }
    }
}

} // verus!
