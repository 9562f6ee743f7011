//! Equality of values by content.

use crate::value::{
    lemma_entry_decreases, lemma_item_decreases, lemma_mapping_view, lemma_sequence_view, Value,
    ValueView,
};
use vstd::prelude::*;

verus! {

impl Value {
    /// Whether two values have the same content: the same variant, and
    /// the same numbers, characters, items and entries in the same order.
    /// A floating-point number is taken by its bits here, so that this is
    /// an equivalence; the comparison of scalars is another relation.
    pub fn same(&self, other: &Value) -> (r: bool)
        ensures
            r == (self@ == other@),
        decreases self,
    {
        match (self, other) {
            (Value::String(s), Value::String(t)) => *s == *t,
            (Value::Integer(i), Value::Integer(j)) => *i == *j,
            (Value::Bool(x), Value::Bool(y)) => *x == *y,
            (Value::Float(x), Value::Float(y)) => *x == *y,
            (Value::Mapping(ea), Value::Mapping(eb)) => {
                proof {
                    lemma_mapping_view(*ea);
                    lemma_mapping_view(*eb);
                }
                if ea.len() != eb.len() {
                    assert(ea.deep_view().len() != eb.deep_view().len());
                    return false;
                }
                let mut i: usize = 0;
                while i < ea.len()
                    invariant
                        *self == Value::Mapping(*ea),
                        self@ == ValueView::Mapping(ea.deep_view()),
                        other@ == ValueView::Mapping(eb.deep_view()),
                        ea.len() == eb.len(),
                        i <= ea.len(),
                        forall|j: int|
                            0 <= j < i ==> ea.deep_view()[j] == #[trigger] eb.deep_view()[j],
                    ensures
                        i == ea.len(),
                    decreases ea.len() - i,
                {
                    proof {
                        lemma_entry_decreases(*ea, i as int);
                    }
                    if !ea[i].0.same(&eb[i].0) || !ea[i].1.same(&eb[i].1) {
                        assert(ea.deep_view()[i as int] != eb.deep_view()[i as int]);
                        return false;
                    }
                    i += 1;
                }
                assert(ea.deep_view() =~= eb.deep_view());
                true
            },
            (Value::Sequence(xa), Value::Sequence(xb)) => {
                proof {
                    lemma_sequence_view(*xa);
                    lemma_sequence_view(*xb);
                }
                if xa.len() != xb.len() {
                    assert(xa.deep_view().len() != xb.deep_view().len());
                    return false;
                }
                let mut i: usize = 0;
                while i < xa.len()
                    invariant
                        *self == Value::Sequence(*xa),
                        self@ == ValueView::Sequence(xa.deep_view()),
                        other@ == ValueView::Sequence(xb.deep_view()),
                        xa.len() == xb.len(),
                        i <= xa.len(),
                        forall|j: int|
                            0 <= j < i ==> xa.deep_view()[j] == #[trigger] xb.deep_view()[j],
                    ensures
                        i == xa.len(),
                    decreases xa.len() - i,
                {
                    proof {
                        lemma_item_decreases(*xa, i as int);
                    }
                    if !xa[i].same(&xb[i]) {
                        assert(xa.deep_view()[i as int] != xb.deep_view()[i as int]);
                        return false;
                    }
                    i += 1;
                }
                assert(xa.deep_view() =~= xb.deep_view());
                true
            },
            (Value::Null, Value::Null) => true,
            (Value::Opaque(x), Value::Opaque(y)) => *x == *y,
            _ => false,
        }
    }
}

impl PartialEq for Value {
    fn eq(&self, other: &Self) -> (r: bool) {
        self.same(other)
    }
}

impl Eq for Value {

}

impl vstd::std_specs::cmp::PartialEqSpecImpl for Value {
    open spec fn obeys_eq_spec() -> bool {
        true
    }

    open spec fn eq_spec(&self, other: &Self) -> bool {
        self@ == other@
    }
}

} // verus!
