//! What the comparison of two values reports: the records, and their
//! order, as functions of the values' contents.

use crate::mapping::{has_key, lookup};
use crate::record::{ChangeView, DiffView, EntryView, LengthsView};
use crate::value::{Entries, ValueView};
use vstd::prelude::*;

verus! {

/// The records for two scalars of the same kind: one value change where
/// they are unequal, none where they are equal.
pub open spec fn scalar_records(a: ValueView, b: ValueView, path: Seq<ValueView>) -> Seq<
    DiffView,
> {
    if a.scalar_equal(b) {
        Seq::empty()
    } else {
        seq![DiffView::ValChange(ChangeView { path, a, b })]
    }
}

/// The records for the values `a` and `b` that stand at `path`.
///
/// Two scalars of the same kind are compared by value, two mappings entry
/// by entry and two sequences item by item; two null values do not
/// differ. Any other two values are not looked into: they give one
/// record of a change of type and value.
pub open spec fn records(a: ValueView, b: ValueView, path: Seq<ValueView>) -> Seq<DiffView>
    decreases a, 0nat,
{
    if a.kind().scalar() && a.kind() == b.kind() {
        scalar_records(a, b, path)
    } else {
        match (a, b) {
            (ValueView::Mapping(ea), ValueView::Mapping(eb)) => mapping_records(ea, eb, path),
            (ValueView::Sequence(xa), ValueView::Sequence(xb)) => sequence_records(
                xa,
                xb,
                path,
            ),
            (ValueView::Null, ValueView::Null) => Seq::empty(),
            _ => seq![DiffView::TypeAndValChange(ChangeView { path, a, b })],
        }
    }
}

/// The records for two mappings: first what the entries of the first
/// mapping give, in their order, then the entries of the second mapping
/// that the first lacks, in their order.
pub open spec fn mapping_records(ea: Entries, eb: Entries, path: Seq<ValueView>) -> Seq<DiffView>
    decreases ea, ea.len() + 1,
{
    removed_pass(ea, eb, path, ea.len()) + added_pass(ea, eb, path, eb.len())
}

/// What the first `n` entries of the first mapping give, entry after
/// entry.
pub open spec fn removed_pass(ea: Entries, eb: Entries, path: Seq<ValueView>, n: nat) -> Seq<
    DiffView,
>
    decreases ea, n,
{
    if n == 0 {
        Seq::empty()
    } else {
        removed_pass(ea, eb, path, (n - 1) as nat) + entry_records(ea, eb, path, n - 1)
    }
}

/// What entry `i` of the first mapping gives: where the second mapping
/// has its key, the records for the two values, one level down; where
/// not, one record of a removed entry.
pub open spec fn entry_records(ea: Entries, eb: Entries, path: Seq<ValueView>, i: int) -> Seq<
    DiffView,
>
    decreases ea, 0nat,
{
    if 0 <= i < ea.len() {
        match lookup(eb, ea[i].0) {
            Some(bv) => records(ea[i].1, bv, path.push(ea[i].0)),
            None => seq![
                DiffView::DictItemRemoved(EntryView { path, key: ea[i].0, val: ea[i].1 }),
            ],
        }
    } else {
        Seq::empty()
    }
}

/// What the first `n` entries of the second mapping give, entry after
/// entry.
pub open spec fn added_pass(ea: Entries, eb: Entries, path: Seq<ValueView>, n: nat) -> Seq<
    DiffView,
>
    decreases n,
{
    if n == 0 {
        Seq::empty()
    } else {
        added_pass(ea, eb, path, (n - 1) as nat) + added_records(ea, eb, path, n - 1)
    }
}

/// What entry `j` of the second mapping gives: one record of an added
/// entry where the first mapping lacks its key, nothing where it has it.
pub open spec fn added_records(ea: Entries, eb: Entries, path: Seq<ValueView>, j: int) -> Seq<
    DiffView,
> {
    if 0 <= j < eb.len() && !has_key(ea, eb[j].0) {
        seq![DiffView::DictItemAdded(EntryView { path, key: eb[j].0, val: eb[j].1 })]
    } else {
        Seq::empty()
    }
}

/// The number of items that both sequences have.
pub open spec fn common_len(xa: Seq<ValueView>, xb: Seq<ValueView>) -> nat {
    if xa.len() <= xb.len() {
        xa.len()
    } else {
        xb.len()
    }
}

/// The records for two sequences: what the pairs of items at the same
/// index give, in increasing order of the index, then one record of a
/// length mismatch where the lengths differ.
pub open spec fn sequence_records(
    xa: Seq<ValueView>,
    xb: Seq<ValueView>,
    path: Seq<ValueView>,
) -> Seq<DiffView>
    decreases xa, xa.len() + 1,
{
    paired_pass(xa, xb, path, common_len(xa, xb)) + length_records(xa, xb, path)
}

/// What the first `n` pairs of items give, pair after pair.
pub open spec fn paired_pass(
    xa: Seq<ValueView>,
    xb: Seq<ValueView>,
    path: Seq<ValueView>,
    n: nat,
) -> Seq<DiffView>
    decreases xa, n,
{
    if n == 0 {
        Seq::empty()
    } else {
        paired_pass(xa, xb, path, (n - 1) as nat) + item_records(xa, xb, path, n - 1)
    }
}

/// What the items at index `i` give: the records for the two, one level
/// down.
pub open spec fn item_records(
    xa: Seq<ValueView>,
    xb: Seq<ValueView>,
    path: Seq<ValueView>,
    i: int,
) -> Seq<DiffView>
    decreases xa, 0nat,
{
    if 0 <= i < xa.len() && i < xb.len() {
        records(xa[i], xb[i], path.push(ValueView::Integer(i)))
    } else {
        Seq::empty()
    }
}

/// One record of a length mismatch where the lengths differ.
pub open spec fn length_records(
    xa: Seq<ValueView>,
    xb: Seq<ValueView>,
    path: Seq<ValueView>,
) -> Seq<DiffView> {
    if xa.len() != xb.len() {
        seq![DiffView::IterLenMismatch(LengthsView { path, a_len: xa.len(), b_len: xb.len() })]
    } else {
        Seq::empty()
    }
}

impl ValueView {
    /// Whether two values are equal by the rules of the comparison: two
    /// scalars of one kind that are equal, two mappings with the same
    /// keys whose values agree, two sequences of one length whose items
    /// agree, or two null values.
    pub open spec fn agrees(self, other: ValueView) -> bool
        decreases self,
    {
        if self.kind().scalar() && self.kind() == other.kind() {
            self.scalar_equal(other)
        } else {
            match (self, other) {
                (ValueView::Mapping(ea), ValueView::Mapping(eb)) => {
                    &&& forall|i: int|
                        0 <= i < ea.len() ==> (lookup(eb, (#[trigger] ea[i]).0) matches Some(bv)
                            && ea[i].1.agrees(bv))
                    &&& forall|j: int| 0 <= j < eb.len() ==> has_key(ea, (#[trigger] eb[j]).0)
                },
                (ValueView::Sequence(xa), ValueView::Sequence(xb)) => {
                    &&& xa.len() == xb.len()
                    &&& forall|i: int| 0 <= i < xa.len() ==> (#[trigger] xa[i]).agrees(xb[i])
                },
                (ValueView::Null, ValueView::Null) => true,
                _ => false,
            }
        }
    }
}

/// What it is for two mappings to agree, spelled out.
pub proof fn lemma_agrees_mappings(ea: Entries, eb: Entries)
    ensures
        ValueView::Mapping(ea).agrees(ValueView::Mapping(eb)) <==> {
            &&& forall|i: int|
                0 <= i < ea.len() ==> (lookup(eb, (#[trigger] ea[i]).0) matches Some(bv)
                    && ea[i].1.agrees(bv))
            &&& forall|j: int| 0 <= j < eb.len() ==> has_key(ea, (#[trigger] eb[j]).0)
        },
{
    assert(ValueView::Mapping(ea)->Mapping_0 == ea);
    assert(ValueView::Mapping(eb)->Mapping_0 == eb);
}

/// What it is for two sequences to agree, spelled out.
pub proof fn lemma_agrees_sequences(xa: Seq<ValueView>, xb: Seq<ValueView>)
    ensures
        ValueView::Sequence(xa).agrees(ValueView::Sequence(xb)) <==> {
            &&& xa.len() == xb.len()
            &&& forall|i: int| 0 <= i < xa.len() ==> (#[trigger] xa[i]).agrees(xb[i])
        },
{
    assert(ValueView::Sequence(xa)->Sequence_0 == xa);
    assert(ValueView::Sequence(xb)->Sequence_0 == xb);
}

} // verus!
