//! Laws of the comparison, each proved from the model.

use crate::mapping::{has_key, lemma_position, lemma_position_is, lookup};
use crate::model::{
    added_pass, added_records, common_len, entry_records, item_records, lemma_agrees_mappings,
    lemma_agrees_sequences, length_records, paired_pass, records, removed_pass,
};
use crate::record::{partition, ChangeView, DiffView, LengthsView};
use crate::value::{
    lemma_comparable_mapping, lemma_comparable_sequence, lemma_well_formed_mapping,
    lemma_well_formed_sequence, Entries, ValueView,
};
use vstd::prelude::*;

verus! {

/// In a well-formed mapping every entry is the first one with its key.
pub proof fn lemma_own_entry(entries: Entries, i: int)
    requires
        ValueView::Mapping(entries).well_formed(),
        0 <= i < entries.len(),
    ensures
        lookup(entries, entries[i].0) == Some(entries[i].1),
        has_key(entries, entries[i].0),
        entries[i].0.well_formed(),
        entries[i].1.well_formed(),
{
    lemma_well_formed_mapping(entries);
    lemma_position_is(entries, entries[i].0, i);
    lemma_position(entries, entries[i].0);
}

/// A mapping against itself: the first pass is empty exactly where the
/// values of its entries are comparable, and the second pass is empty.
proof fn lemma_reflexive_passes(entries: Entries, path: Seq<ValueView>, n: nat)
    requires
        ValueView::Mapping(entries).well_formed(),
        n <= entries.len(),
    ensures
        removed_pass(entries, entries, path, n).len() == 0 <==> forall|i: int|
            0 <= i < n ==> (#[trigger] entries[i]).1.comparable(),
        added_pass(entries, entries, path, n).len() == 0,
    decreases entries, n,
{
    if n > 0 {
        let i = n - 1;
        let before = removed_pass(entries, entries, path, i as nat);
        let last = entry_records(entries, entries, path, i);
        lemma_reflexive_passes(entries, path, i as nat);
        lemma_own_entry(entries, i);
        lemma_reflexive(entries[i].1, path.push(entries[i].0));
        assert(removed_pass(entries, entries, path, n) == before + last);
        assert(last.len() == 0 <==> entries[i].1.comparable());
        if before.len() == 0 && last.len() == 0 {
            assert forall|k: int| 0 <= k < n implies (#[trigger] entries[k]).1.comparable() by {
                if k < i {
                }
            }
        }
    }
}

/// A sequence against itself: the pairs give no record exactly where
/// the items are comparable.
proof fn lemma_reflexive_pairs(items: Seq<ValueView>, path: Seq<ValueView>, n: nat)
    requires
        ValueView::Sequence(items).well_formed(),
        n <= items.len(),
    ensures
        paired_pass(items, items, path, n).len() == 0 <==> forall|i: int|
            0 <= i < n ==> (#[trigger] items[i]).comparable(),
    decreases items, n,
{
    if n > 0 {
        let i = n - 1;
        let before = paired_pass(items, items, path, i as nat);
        let last = item_records(items, items, path, i);
        lemma_reflexive_pairs(items, path, i as nat);
        lemma_well_formed_sequence(items);
        lemma_reflexive(items[i], path.push(ValueView::Integer(i)));
        assert(paired_pass(items, items, path, n) == before + last);
        assert(last.len() == 0 <==> items[i].comparable());
        if before.len() == 0 && last.len() == 0 {
            assert forall|k: int| 0 <= k < n implies (#[trigger] items[k]).comparable() by {
                if k < i {
                }
            }
        }
    }
}

/// Reflexivity. A well-formed value compared with itself gives no
/// record, at whatever path it stands, exactly when it is comparable:
/// a NaN differs from itself, and an opaque handle is never looked into.
pub proof fn lemma_reflexive(v: ValueView, path: Seq<ValueView>)
    requires
        v.well_formed(),
    ensures
        records(v, v, path).len() == 0 <==> v.comparable(),
    decreases v, 0nat,
{
    match v {
        ValueView::Mapping(entries) => {
            lemma_reflexive_passes(entries, path, entries.len());
            lemma_comparable_mapping(entries);
        },
        ValueView::Sequence(items) => {
            lemma_reflexive_pairs(items, path, items.len());
            lemma_comparable_sequence(items);
        },
        _ => {},
    }
}

/// The pairs of a sequence and of the same sequence with one more item
/// give no record where the items are comparable.
proof fn lemma_prefix_pairs(items: Seq<ValueView>, extra: ValueView, path: Seq<ValueView>, n: nat)
    requires
        ValueView::Sequence(items).well_formed(),
        ValueView::Sequence(items).comparable(),
        n <= items.len(),
    ensures
        paired_pass(items, items.push(extra), path, n) == Seq::<DiffView>::empty(),
    decreases n,
{
    if n > 0 {
        let i = n - 1;
        lemma_prefix_pairs(items, extra, path, i as nat);
        lemma_well_formed_sequence(items);
        lemma_comparable_sequence(items);
        lemma_reflexive(items[i], path.push(ValueView::Integer(i)));
        assert(items.push(extra)[i] == items[i]);
        assert(item_records(items, items.push(extra), path, i) =~= Seq::<DiffView>::empty());
    }
}

/// Prefix independence. A sequence of comparable items against the same
/// sequence with one more item gives exactly one record: the length
/// mismatch, with the two lengths.
pub proof fn lemma_one_extra_item(items: Seq<ValueView>, extra: ValueView, path: Seq<ValueView>)
    requires
        ValueView::Sequence(items).well_formed(),
        ValueView::Sequence(items).comparable(),
    ensures
        records(ValueView::Sequence(items), ValueView::Sequence(items.push(extra)), path) == seq![
            DiffView::IterLenMismatch(
                LengthsView { path, a_len: items.len(), b_len: items.len() + 1 },
            ),
        ],
{
    lemma_prefix_pairs(items, extra, path, items.len());
    assert(records(ValueView::Sequence(items), ValueView::Sequence(items.push(extra)), path)
        =~= seq![
        DiffView::IterLenMismatch(
            LengthsView { path, a_len: items.len(), b_len: items.len() + 1 },
        ),
    ]);
}

/// Sorting by kind neither drops nor repeats a record: the five lists
/// together hold as many records as there were.
pub proof fn lemma_partition_len(records: Seq<DiffView>)
    ensures
        partition(records).len() == records.len(),
    decreases records.len(),
{
    if records.len() > 0 {
        lemma_partition_len(records.drop_last());
    }
}

/// The first pass over the first `n` entries is empty exactly where the
/// second mapping has each of their keys, with a value that agrees.
proof fn lemma_agreement_first_pass(ea: Entries, eb: Entries, path: Seq<ValueView>, n: nat)
    requires
        n <= ea.len(),
    ensures
        removed_pass(ea, eb, path, n).len() == 0 <==> forall|i: int|
            0 <= i < n ==> (lookup(eb, (#[trigger] ea[i]).0) matches Some(bv) && ea[i].1.agrees(
                bv,
            )),
    decreases ea, n,
{
    if n > 0 {
        let i = n - 1;
        let before = removed_pass(ea, eb, path, i as nat);
        let last = entry_records(ea, eb, path, i);
        lemma_agreement_first_pass(ea, eb, path, i as nat);
        assert(removed_pass(ea, eb, path, n) == before + last);
        match lookup(eb, ea[i].0) {
            Some(bv) => {
                lemma_agreement(ea[i].1, bv, path.push(ea[i].0));
            },
            None => {},
        }
        assert(last.len() == 0 <==> (lookup(eb, ea[i].0) matches Some(bv) && ea[i].1.agrees(bv)));
        if before.len() == 0 && last.len() == 0 {
            assert forall|k: int| 0 <= k < n implies (lookup(eb, (#[trigger] ea[k]).0) matches Some(
                bv,
            ) && ea[k].1.agrees(bv)) by {
                if k < i {
                }
            }
        }
    }
}

/// The second pass over the first `n` entries is empty exactly where
/// the first mapping has each of their keys.
proof fn lemma_agreement_second_pass(ea: Entries, eb: Entries, path: Seq<ValueView>, n: nat)
    requires
        n <= eb.len(),
    ensures
        added_pass(ea, eb, path, n).len() == 0 <==> forall|j: int|
            0 <= j < n ==> has_key(ea, (#[trigger] eb[j]).0),
    decreases n,
{
    if n > 0 {
        let j = n - 1;
        let before = added_pass(ea, eb, path, j as nat);
        let last = added_records(ea, eb, path, j);
        lemma_agreement_second_pass(ea, eb, path, j as nat);
        assert(added_pass(ea, eb, path, n) == before + last);
        assert(last.len() == 0 <==> has_key(ea, eb[j].0));
        if before.len() == 0 && last.len() == 0 {
            assert forall|k: int| 0 <= k < n implies has_key(ea, (#[trigger] eb[k]).0) by {
                if k < j {
                }
            }
        }
    }
}

/// The first `n` pairs give no record exactly where their items agree.
proof fn lemma_agreement_pairs(
    xa: Seq<ValueView>,
    xb: Seq<ValueView>,
    path: Seq<ValueView>,
    n: nat,
)
    requires
        n <= xa.len(),
        n <= xb.len(),
    ensures
        paired_pass(xa, xb, path, n).len() == 0 <==> forall|i: int|
            0 <= i < n ==> (#[trigger] xa[i]).agrees(xb[i]),
    decreases xa, n,
{
    if n > 0 {
        let i = n - 1;
        let before = paired_pass(xa, xb, path, i as nat);
        let last = item_records(xa, xb, path, i);
        lemma_agreement_pairs(xa, xb, path, i as nat);
        lemma_agreement(xa[i], xb[i], path.push(ValueView::Integer(i)));
        assert(paired_pass(xa, xb, path, n) == before + last);
        assert(last.len() == 0 <==> xa[i].agrees(xb[i]));
        if before.len() == 0 && last.len() == 0 {
            assert forall|k: int| 0 <= k < n implies (#[trigger] xa[k]).agrees(xb[k]) by {
                if k < i {
                }
            }
        }
    }
}

/// An empty output means equal values. The comparison of two values
/// gives no record, at whatever path they stand, exactly when the two
/// agree.
pub proof fn lemma_agreement(a: ValueView, b: ValueView, path: Seq<ValueView>)
    ensures
        records(a, b, path).len() == 0 <==> a.agrees(b),
    decreases a, 0nat,
{
    if a.kind().scalar() && a.kind() == b.kind() {
    } else {
        match (a, b) {
            (ValueView::Mapping(ea), ValueView::Mapping(eb)) => {
                lemma_agreement_first_pass(ea, eb, path, ea.len());
                lemma_agreement_second_pass(ea, eb, path, eb.len());
                lemma_agrees_mappings(ea, eb);
            },
            (ValueView::Sequence(xa), ValueView::Sequence(xb)) => {
                lemma_agreement_pairs(xa, xb, path, common_len(xa, xb));
                lemma_agrees_sequences(xa, xb);
            },
            _ => {},
        }
    }
}

/// Type-mismatch short circuit. Two values of different kinds, or two
/// opaque handles, give exactly one record, a change of type and value
/// at the path where they stand, whatever they hold.
pub proof fn lemma_kind_mismatch(a: ValueView, b: ValueView, path: Seq<ValueView>)
    requires
        a.kind() != b.kind() || a.kind() is Opaque,
    ensures
        records(a, b, path) == seq![DiffView::TypeAndValChange(ChangeView { path, a, b })],
{
}

/// Every record of `records` stands at `path` or below it.
pub open spec fn all_below(records: Seq<DiffView>, path: Seq<ValueView>) -> bool {
    forall|i: int| 0 <= i < records.len() ==> path.is_prefix_of((#[trigger] records[i]).path())
}

/// What stands below a path one step further stands below the path.
proof fn lemma_below_step(records: Seq<DiffView>, path: Seq<ValueView>, step: ValueView)
    requires
        all_below(records, path.push(step)),
    ensures
        all_below(records, path),
{
    assert forall|i: int| 0 <= i < records.len() implies path.is_prefix_of(
        (#[trigger] records[i]).path(),
    ) by {
        let longer = path.push(step);
        let whole = records[i].path();
        assert(longer.is_prefix_of(whole));
        assert(path =~= longer.subrange(0, path.len() as int));
        assert(path =~= whole.subrange(0, path.len() as int));
    }
}

/// What two lists of records stand below, their concatenation stands
/// below.
proof fn lemma_below_concat(s: Seq<DiffView>, t: Seq<DiffView>, path: Seq<ValueView>)
    requires
        all_below(s, path),
        all_below(t, path),
    ensures
        all_below(s + t, path),
{
    assert forall|i: int| 0 <= i < (s + t).len() implies path.is_prefix_of(
        (#[trigger] (s + t)[i]).path(),
    ) by {
        if i < s.len() {
            assert((s + t)[i] == s[i]);
        } else {
            assert((s + t)[i] == t[i - s.len()]);
        }
    }
}

/// The records of the two passes over two mappings stand at the path
/// of the mappings or below it.
proof fn lemma_passes_below(ea: Entries, eb: Entries, path: Seq<ValueView>, n: nat, m: nat)
    requires
        n <= ea.len(),
        m <= eb.len(),
    ensures
        all_below(removed_pass(ea, eb, path, n), path),
        all_below(added_pass(ea, eb, path, m), path),
    decreases ea, n + m,
{
    assert(path.is_prefix_of(path));
    if n > 0 {
        let i = n - 1;
        lemma_passes_below(ea, eb, path, i as nat, m);
        match lookup(eb, ea[i].0) {
            Some(bv) => {
                lemma_paths_extend(ea[i].1, bv, path.push(ea[i].0));
                lemma_below_step(entry_records(ea, eb, path, i), path, ea[i].0);
            },
            None => {},
        }
        lemma_below_concat(
            removed_pass(ea, eb, path, i as nat),
            entry_records(ea, eb, path, i),
            path,
        );
    } else if m > 0 {
        let j = m - 1;
        lemma_passes_below(ea, eb, path, n, j as nat);
        lemma_below_concat(added_pass(ea, eb, path, j as nat), added_records(ea, eb, path, j), path);
    }
}

/// The records of the pairs of two sequences stand at the path of the
/// sequences or below it.
proof fn lemma_pairs_below(xa: Seq<ValueView>, xb: Seq<ValueView>, path: Seq<ValueView>, n: nat)
    requires
        n <= xa.len(),
        n <= xb.len(),
    ensures
        all_below(paired_pass(xa, xb, path, n), path),
    decreases xa, n,
{
    if n > 0 {
        let i = n - 1;
        lemma_pairs_below(xa, xb, path, i as nat);
        lemma_paths_extend(xa[i], xb[i], path.push(ValueView::Integer(i)));
        lemma_below_step(item_records(xa, xb, path, i), path, ValueView::Integer(i));
        lemma_below_concat(paired_pass(xa, xb, path, i as nat), item_records(xa, xb, path, i), path);
    }
}

/// Path accumulation. Every record of a comparison stands at the path
/// of the two values or at a path that goes on from it.
pub proof fn lemma_paths_extend(a: ValueView, b: ValueView, path: Seq<ValueView>)
    ensures
        all_below(records(a, b, path), path),
    decreases a, 0nat,
{
    assert(path.is_prefix_of(path));
    if a.kind().scalar() && a.kind() == b.kind() {
    } else {
        match (a, b) {
            (ValueView::Mapping(ea), ValueView::Mapping(eb)) => {
                lemma_passes_below(ea, eb, path, ea.len(), eb.len());
                lemma_below_concat(
                    removed_pass(ea, eb, path, ea.len()),
                    added_pass(ea, eb, path, eb.len()),
                    path,
                );
            },
            (ValueView::Sequence(xa), ValueView::Sequence(xb)) => {
                let n = common_len(xa, xb);
                lemma_pairs_below(xa, xb, path, n);
                lemma_below_concat(paired_pass(xa, xb, path, n), length_records(xa, xb, path), path);
            },
            _ => {},
        }
    }
}

} // verus!
