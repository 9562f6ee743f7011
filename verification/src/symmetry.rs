//! The symmetry between removed and added entries when the two values
//! change places.

use crate::laws::lemma_own_entry;
use crate::mapping::{has_key, keys, lemma_position, lookup};
use crate::model::{
    added_pass, added_records, common_len, entry_records, item_records, length_records,
    paired_pass, records, removed_pass, scalar_records,
};
use crate::record::{partition, DiffView, EntryView};
use crate::value::{
    lemma_well_formed_mapping, lemma_well_formed_sequence, Entries, ValueView,
};
use vstd::multiset::Multiset;
use vstd::prelude::*;

verus! {

/// The removed entries among the records, without their order.
pub open spec fn removed_bag(records: Seq<DiffView>) -> Multiset<EntryView> {
    partition(records).dict_items_removed.to_multiset()
}

/// The added entries among the records, without their order.
pub open spec fn added_bag(records: Seq<DiffView>) -> Multiset<EntryView> {
    partition(records).dict_items_added.to_multiset()
}

/// Filtering and mapping a concatenation is concatenating what the two
/// parts give.
proof fn lemma_filter_map_concat<A, B>(s: Seq<A>, t: Seq<A>, f: spec_fn(A) -> Option<B>)
    ensures
        (s + t).filter_map(f) == s.filter_map(f) + t.filter_map(f),
    decreases t.len(),
{
    if t.len() == 0 {
        assert(s + t =~= s);
        assert(s.filter_map(f) + t.filter_map(f) =~= s.filter_map(f));
    } else {
        lemma_filter_map_concat(s, t.drop_last(), f);
        assert((s + t).drop_last() =~= s + t.drop_last());
        assert((s + t).last() == t.last());
        match f(t.last()) {
            Some(x) => {
                assert((s + t).filter_map(f) =~= s.filter_map(f) + (t.drop_last().filter_map(f)
                    + seq![x]));
            },
            None => {},
        }
    }
}

/// The bag of no items is empty, and the bag of one item holds it once.
proof fn lemma_small_bags<T>(x: T)
    ensures
        Seq::<T>::empty().to_multiset() == Multiset::<T>::empty(),
        seq![x].to_multiset() == Multiset::<T>::singleton(x),
{
    let none = Seq::<T>::empty();
    none.to_multiset_ensures();
    assert forall|y: T| none.to_multiset().count(y) == 0 by {
        assert(!none.contains(y));
    }
    assert(none.to_multiset() =~= Multiset::<T>::empty());
    assert(seq![x] =~= none.push(x));
    assert(seq![x].to_multiset() =~= Multiset::<T>::singleton(x));
}

/// The bags of a concatenation are the sums of the bags of its parts.
pub proof fn lemma_bags_concat(s: Seq<DiffView>, t: Seq<DiffView>)
    ensures
        removed_bag(s + t) == removed_bag(s).add(removed_bag(t)),
        added_bag(s + t) == added_bag(s).add(added_bag(t)),
{
    lemma_filter_map_concat(s, t, |d: DiffView| d.dict_item_removed());
    lemma_filter_map_concat(s, t, |d: DiffView| d.dict_item_added());
    vstd::seq_lib::lemma_multiset_commutative(
        partition(s).dict_items_removed,
        partition(t).dict_items_removed,
    );
    vstd::seq_lib::lemma_multiset_commutative(
        partition(s).dict_items_added,
        partition(t).dict_items_added,
    );
}

/// No records, no entries.
pub proof fn lemma_bags_empty()
    ensures
        removed_bag(Seq::empty()) == Multiset::<EntryView>::empty(),
        added_bag(Seq::empty()) == Multiset::<EntryView>::empty(),
{
    let e = EntryView { path: Seq::empty(), key: ValueView::Null, val: ValueView::Null };
    lemma_small_bags(e);
    assert(partition(Seq::empty()).dict_items_removed =~= Seq::<EntryView>::empty());
    assert(partition(Seq::empty()).dict_items_added =~= Seq::<EntryView>::empty());
}

/// The bags of a single record: its entry where it is of the bag's
/// kind, nothing where it is not.
pub proof fn lemma_bags_one(d: DiffView)
    ensures
        removed_bag(seq![d]) == match d {
            DiffView::DictItemRemoved(e) => Multiset::singleton(e),
            _ => Multiset::empty(),
        },
        added_bag(seq![d]) == match d {
            DiffView::DictItemAdded(e) => Multiset::singleton(e),
            _ => Multiset::empty(),
        },
{
    let s = seq![d];
    assert(s.drop_last() =~= Seq::<DiffView>::empty());
    assert(s.last() == d);
    let none = EntryView { path: Seq::empty(), key: ValueView::Null, val: ValueView::Null };
    lemma_small_bags(none);
    lemma_bags_empty();
    match d {
        DiffView::DictItemRemoved(e) => {
            lemma_small_bags(e);
            assert(partition(s).dict_items_removed =~= seq![e]);
            assert(partition(s).dict_items_added =~= Seq::<EntryView>::empty());
        },
        DiffView::DictItemAdded(e) => {
            lemma_small_bags(e);
            assert(partition(s).dict_items_added =~= seq![e]);
            assert(partition(s).dict_items_removed =~= Seq::<EntryView>::empty());
        },
        _ => {
            assert(partition(s).dict_items_added =~= Seq::<EntryView>::empty());
            assert(partition(s).dict_items_removed =~= Seq::<EntryView>::empty());
        },
    }
}

/// The sum of `term(k)` over those of the first `n` keys of `ks` that
/// `others` holds too.
spec fn shared_bag(
    ks: Seq<ValueView>,
    others: Seq<ValueView>,
    term: spec_fn(ValueView) -> Multiset<EntryView>,
    n: nat,
) -> Multiset<EntryView>
    decreases n,
{
    if n == 0 {
        Multiset::empty()
    } else {
        shared_bag(ks, others, term, (n - 1) as nat).add(
            if others.contains(ks[n - 1]) {
                term(ks[n - 1])
            } else {
                Multiset::empty()
            },
        )
    }
}

/// The sum over the first `n` keys looks at no other key of `ks`.
proof fn lemma_shared_bag_prefix(
    ks: Seq<ValueView>,
    ls: Seq<ValueView>,
    others: Seq<ValueView>,
    term: spec_fn(ValueView) -> Multiset<EntryView>,
    n: nat,
)
    requires
        n <= ks.len(),
        n <= ls.len(),
        forall|i: int| 0 <= i < n ==> ks[i] == ls[i],
    ensures
        shared_bag(ks, others, term, n) == shared_bag(ls, others, term, n),
    decreases n,
{
    if n > 0 {
        lemma_shared_bag_prefix(ks, ls, others, term, (n - 1) as nat);
    }
}

/// One more key `k` among the others adds `term(k)` to the sum, if `k`
/// is among the first `n` keys, and nothing if not.
proof fn lemma_shared_bag_more(
    ks: Seq<ValueView>,
    others: Seq<ValueView>,
    k: ValueView,
    term: spec_fn(ValueView) -> Multiset<EntryView>,
    n: nat,
)
    requires
        n <= ks.len(),
        ks.no_duplicates(),
        !others.contains(k),
    ensures
        shared_bag(ks, others.push(k), term, n) == shared_bag(ks, others, term, n).add(
            if ks.take(n as int).contains(k) {
                term(k)
            } else {
                Multiset::empty()
            },
        ),
    decreases n,
{
    if n == 0 {
        assert(!ks.take(0).contains(k));
        assert(shared_bag(ks, others.push(k), term, n) =~= shared_bag(ks, others, term, n).add(
            Multiset::empty(),
        ));
    } else {
        let i = n - 1;
        let x = ks[i];
        lemma_shared_bag_more(ks, others, k, term, i as nat);
        assert(others.push(k).contains(x) <==> others.contains(x) || x == k) by {
            if others.contains(x) {
                let j = choose|j: int| 0 <= j < others.len() && others[j] == x;
                assert(others.push(k)[j] == x);
            }
            if x == k {
                assert(others.push(k)[others.len() as int] == k);
            }
        }
        if x == k {
            assert(ks.take(n as int)[i] == k);
            assert(!ks.take(i).contains(k)) by {
                if ks.take(i).contains(k) {
                    let j = choose|j: int| 0 <= j < ks.take(i).len() && ks.take(i)[j] == k;
                    assert(ks[j] == ks[i]);
                }
            }
        } else {
            assert(ks.take(n as int).contains(k) <==> ks.take(i).contains(k)) by {
                if ks.take(n as int).contains(k) {
                    let j = choose|j: int|
                        0 <= j < ks.take(n as int).len() && ks.take(n as int)[j] == k;
                    assert(ks.take(i)[j] == k);
                }
                if ks.take(i).contains(k) {
                    let j = choose|j: int| 0 <= j < ks.take(i).len() && ks.take(i)[j] == k;
                    assert(ks.take(n as int)[j] == k);
                }
            }
        }
        assert(shared_bag(ks, others.push(k), term, n) =~= shared_bag(ks, others, term, n).add(
            if ks.take(n as int).contains(k) {
                term(k)
            } else {
                Multiset::empty()
            },
        ));
    }
}

/// The sum over the keys that two lists share is the same from either
/// side, where neither list holds a key twice.
proof fn lemma_shared_bag_swap(
    ka: Seq<ValueView>,
    kb: Seq<ValueView>,
    term: spec_fn(ValueView) -> Multiset<EntryView>,
)
    requires
        ka.no_duplicates(),
        kb.no_duplicates(),
    ensures
        shared_bag(ka, kb, term, ka.len()) == shared_bag(kb, ka, term, kb.len()),
    decreases ka.len(),
{
    if ka.len() == 0 {
        lemma_shared_bag_none(kb, ka, term, kb.len());
    } else {
        let rest = ka.drop_last();
        let k = ka.last();
        assert(ka =~= rest.push(k));
        assert(!rest.contains(k)) by {
            if rest.contains(k) {
                let j = choose|j: int| 0 <= j < rest.len() && rest[j] == k;
                assert(ka[j] == ka[ka.len() - 1]);
            }
        }
        lemma_shared_bag_swap(rest, kb, term);
        lemma_shared_bag_prefix(ka, rest, kb, term, rest.len());
        lemma_shared_bag_more(kb, rest, k, term, kb.len());
        assert(kb.take(kb.len() as int) =~= kb);
    }
}

/// Against no other keys the sum is empty.
proof fn lemma_shared_bag_none(
    ks: Seq<ValueView>,
    others: Seq<ValueView>,
    term: spec_fn(ValueView) -> Multiset<EntryView>,
    n: nat,
)
    requires
        others.len() == 0,
    ensures
        shared_bag(ks, others, term, n) == Multiset::<EntryView>::empty(),
    decreases n,
{
    if n > 0 {
        lemma_shared_bag_none(ks, others, term, (n - 1) as nat);
        assert(!others.contains(ks[n - 1]));
        assert(shared_bag(ks, others, term, n) =~= Multiset::<EntryView>::empty());
    }
}

/// The added entries that the values of the key `k` give when the
/// second mapping stands first.
spec fn shared_term(ea: Entries, eb: Entries, path: Seq<ValueView>, k: ValueView) -> Multiset<
    EntryView,
> {
    added_bag(records(lookup(eb, k).unwrap(), lookup(ea, k).unwrap(), path.push(k)))
}

/// `shared_term` as a function of the key.
spec fn shared_terms(ea: Entries, eb: Entries, path: Seq<ValueView>) -> spec_fn(ValueView) -> Multiset<
    EntryView,
> {
    |k: ValueView| shared_term(ea, eb, path, k)
}

/// The entries among the first `n` of `ea` whose key `eb` lacks.
spec fn only_bag(ea: Entries, eb: Entries, path: Seq<ValueView>, n: nat) -> Multiset<EntryView>
    decreases n,
{
    if n == 0 {
        Multiset::empty()
    } else {
        only_bag(ea, eb, path, (n - 1) as nat).add(
            if !has_key(eb, ea[n - 1].0) {
                Multiset::singleton(EntryView { path, key: ea[n - 1].0, val: ea[n - 1].1 })
            } else {
                Multiset::empty()
            },
        )
    }
}

/// The keys of a well-formed mapping are all different.
proof fn lemma_keys_differ(entries: Entries)
    requires
        ValueView::Mapping(entries).well_formed(),
    ensures
        keys(entries).no_duplicates(),
        keys(entries).len() == entries.len(),
        forall|i: int| 0 <= i < entries.len() ==> (#[trigger] keys(entries)[i]) == entries[i].0,
{
    lemma_well_formed_mapping(entries);
    let ks = keys(entries);
    assert forall|i: int, j: int| 0 <= i < ks.len() && 0 <= j < ks.len() && i != j implies ks[i]
        != ks[j] by {
        assert(ks[i] == entries[i].0);
        assert(ks[j] == entries[j].0);
        if i < j {
        } else {
            assert(entries[j].0 != entries[i].0);
        }
    }
}

/// The value that a well-formed mapping gives to a key is well formed.
proof fn lemma_lookup_well_formed(entries: Entries, k: ValueView)
    requires
        ValueView::Mapping(entries).well_formed(),
    ensures
        lookup(entries, k) matches Some(v) ==> v.well_formed(),
{
    lemma_position(entries, k);
    lemma_well_formed_mapping(entries);
}

/// The removed entries that the first pass gives are those that the
/// shared keys give and the entries that only the first mapping has.
proof fn lemma_first_pass_removed(ea: Entries, eb: Entries, path: Seq<ValueView>, n: nat)
    requires
        ValueView::Mapping(ea).well_formed(),
        ValueView::Mapping(eb).well_formed(),
        n <= ea.len(),
    ensures
        removed_bag(removed_pass(ea, eb, path, n)) == shared_bag(
            keys(ea),
            keys(eb),
            shared_terms(ea, eb, path),
            n,
        ).add(only_bag(ea, eb, path, n)),
    decreases ea, n,
{
    let term = shared_terms(ea, eb, path);
    if n == 0 {
        lemma_bags_empty();
        assert(removed_bag(removed_pass(ea, eb, path, n)) =~= shared_bag(
            keys(ea),
            keys(eb),
            term,
            n,
        ).add(only_bag(ea, eb, path, n)));
    } else {
        let i = n - 1;
        let k = ea[i].0;
        let before = removed_pass(ea, eb, path, i as nat);
        let last = entry_records(ea, eb, path, i);
        lemma_first_pass_removed(ea, eb, path, i as nat);
        lemma_bags_concat(before, last);
        lemma_own_entry(ea, i);
        lemma_position(eb, k);
        lemma_keys_differ(ea);
        assert(keys(ea)[i] == k);
        match lookup(eb, k) {
            Some(bv) => {
                lemma_lookup_well_formed(eb, k);
                lemma_symmetric_entries(ea[i].1, bv, path.push(k));
                assert(removed_bag(last) == term(k));
            },
            None => {
                lemma_bags_one(last[0]);
                assert(last =~= seq![last[0]]);
            },
        }
        assert(removed_bag(removed_pass(ea, eb, path, n)) =~= shared_bag(
            keys(ea),
            keys(eb),
            term,
            n,
        ).add(only_bag(ea, eb, path, n)));
    }
}

/// The added entries that the first pass gives when the second mapping
/// stands first are those that the shared keys give.
proof fn lemma_first_pass_added(ea: Entries, eb: Entries, path: Seq<ValueView>, n: nat)
    requires
        ValueView::Mapping(ea).well_formed(),
        ValueView::Mapping(eb).well_formed(),
        n <= eb.len(),
    ensures
        added_bag(removed_pass(eb, ea, path, n)) == shared_bag(
            keys(eb),
            keys(ea),
            shared_terms(ea, eb, path),
            n,
        ),
    decreases n,
{
    let term = shared_terms(ea, eb, path);
    if n == 0 {
        lemma_bags_empty();
    } else {
        let j = n - 1;
        let k = eb[j].0;
        let before = removed_pass(eb, ea, path, j as nat);
        let last = entry_records(eb, ea, path, j);
        lemma_first_pass_added(ea, eb, path, j as nat);
        lemma_bags_concat(before, last);
        lemma_own_entry(eb, j);
        lemma_position(ea, k);
        lemma_keys_differ(eb);
        assert(keys(eb)[j] == k);
        match lookup(ea, k) {
            Some(av) => {
                assert(added_bag(last) == term(k));
            },
            None => {
                lemma_bags_one(last[0]);
                assert(last =~= seq![last[0]]);
            },
        }
        assert(added_bag(removed_pass(eb, ea, path, n)) =~= shared_bag(
            keys(eb),
            keys(ea),
            term,
            n,
        ));
    }
}

/// The second pass gives no removed entry, and when the second mapping
/// stands first its added entries are those that only the first has.
proof fn lemma_second_pass(ea: Entries, eb: Entries, path: Seq<ValueView>, n: nat, m: nat)
    requires
        n <= ea.len(),
        m <= eb.len(),
    ensures
        added_bag(added_pass(eb, ea, path, n)) == only_bag(ea, eb, path, n),
        removed_bag(added_pass(ea, eb, path, m)) == Multiset::<EntryView>::empty(),
    decreases n + m,
{
    lemma_bags_empty();
    if n > 0 {
        let i = n - 1;
        let before = added_pass(eb, ea, path, i as nat);
        let last = added_records(eb, ea, path, i);
        lemma_second_pass(ea, eb, path, i as nat, m);
        lemma_bags_concat(before, last);
        if !has_key(eb, ea[i].0) {
            lemma_bags_one(last[0]);
            assert(last =~= seq![last[0]]);
        }
        assert(added_bag(added_pass(eb, ea, path, n)) =~= only_bag(ea, eb, path, n));
    } else if m > 0 {
        let j = m - 1;
        let before = added_pass(ea, eb, path, j as nat);
        let last = added_records(ea, eb, path, j);
        lemma_second_pass(ea, eb, path, n, j as nat);
        lemma_bags_concat(before, last);
        if !has_key(ea, eb[j].0) {
            lemma_bags_one(last[0]);
            assert(last =~= seq![last[0]]);
        }
        assert(removed_bag(added_pass(ea, eb, path, m)) =~= Multiset::<EntryView>::empty());
    }
}

/// The removed entries that the first `n` pairs give are the added
/// entries that they give when the sequences change places.
proof fn lemma_symmetric_pairs(
    xa: Seq<ValueView>,
    xb: Seq<ValueView>,
    path: Seq<ValueView>,
    n: nat,
)
    requires
        ValueView::Sequence(xa).well_formed(),
        ValueView::Sequence(xb).well_formed(),
        n <= xa.len(),
        n <= xb.len(),
    ensures
        removed_bag(paired_pass(xa, xb, path, n)) == added_bag(paired_pass(xb, xa, path, n)),
    decreases xa, n,
{
    if n == 0 {
        lemma_bags_empty();
    } else {
        let i = n - 1;
        lemma_symmetric_pairs(xa, xb, path, i as nat);
        lemma_well_formed_sequence(xa);
        lemma_well_formed_sequence(xb);
        lemma_symmetric_entries(xa[i], xb[i], path.push(ValueView::Integer(i)));
        lemma_bags_concat(paired_pass(xa, xb, path, i as nat), item_records(xa, xb, path, i));
        lemma_bags_concat(paired_pass(xb, xa, path, i as nat), item_records(xb, xa, path, i));
    }
}

/// The entries that the comparison of `a` with `b` reports as removed
/// are those that the comparison of `b` with `a` reports as added: the
/// same paths, keys and values, each as many times.
pub proof fn lemma_symmetric_entries(a: ValueView, b: ValueView, path: Seq<ValueView>)
    requires
        a.well_formed(),
        b.well_formed(),
    ensures
        removed_bag(records(a, b, path)) == added_bag(records(b, a, path)),
    decreases a, 0nat,
{
    lemma_bags_empty();
    if a.kind().scalar() && a.kind() == b.kind() {
        if !a.scalar_equal(b) {
            lemma_bags_one(scalar_records(a, b, path)[0]);
            assert(scalar_records(a, b, path) =~= seq![scalar_records(a, b, path)[0]]);
        }
        if !b.scalar_equal(a) {
            lemma_bags_one(scalar_records(b, a, path)[0]);
            assert(scalar_records(b, a, path) =~= seq![scalar_records(b, a, path)[0]]);
        }
    } else {
        match (a, b) {
            (ValueView::Mapping(ea), ValueView::Mapping(eb)) => {
                let term = shared_terms(ea, eb, path);
                lemma_first_pass_removed(ea, eb, path, ea.len());
                lemma_first_pass_added(ea, eb, path, eb.len());
                lemma_second_pass(ea, eb, path, ea.len(), eb.len());
                lemma_keys_differ(ea);
                lemma_keys_differ(eb);
                lemma_shared_bag_swap(keys(ea), keys(eb), term);
                lemma_bags_concat(
                    removed_pass(ea, eb, path, ea.len()),
                    added_pass(ea, eb, path, eb.len()),
                );
                lemma_bags_concat(
                    removed_pass(eb, ea, path, eb.len()),
                    added_pass(eb, ea, path, ea.len()),
                );
                assert(removed_bag(records(a, b, path)) =~= added_bag(records(b, a, path)));
            },
            (ValueView::Sequence(xa), ValueView::Sequence(xb)) => {
                let n = common_len(xa, xb);
                lemma_symmetric_pairs(xa, xb, path, n);
                lemma_bags_concat(paired_pass(xa, xb, path, n), length_records(xa, xb, path));
                lemma_bags_concat(paired_pass(xb, xa, path, n), length_records(xb, xa, path));
                if xa.len() != xb.len() {
                    lemma_bags_one(length_records(xa, xb, path)[0]);
                    assert(length_records(xa, xb, path) =~= seq![length_records(xa, xb, path)[0]]);
                    lemma_bags_one(length_records(xb, xa, path)[0]);
                    assert(length_records(xb, xa, path) =~= seq![length_records(xb, xa, path)[0]]);
                }
            },
            (ValueView::Null, ValueView::Null) => {},
            _ => {
                lemma_bags_one(records(a, b, path)[0]);
                assert(records(a, b, path) =~= seq![records(a, b, path)[0]]);
                lemma_bags_one(records(b, a, path)[0]);
                assert(records(b, a, path) =~= seq![records(b, a, path)[0]]);
            },
        }
    }
}

/// Symmetry of detection, asymmetry of labelling. When two well-formed
/// values change places, the removed entries become the added entries
/// and the added entries become the removed ones: the two lists hold the
/// same entries, each as many times, whatever their order.
pub proof fn lemma_symmetry(a: ValueView, b: ValueView)
    requires
        a.well_formed(),
        b.well_formed(),
    ensures
        partition(records(a, b, Seq::empty())).dict_items_removed.to_multiset() == partition(
            records(b, a, Seq::empty()),
        ).dict_items_added.to_multiset(),
        partition(records(a, b, Seq::empty())).dict_items_added.to_multiset() == partition(
            records(b, a, Seq::empty()),
        ).dict_items_removed.to_multiset(),
{
    lemma_symmetric_entries(a, b, Seq::empty());
    lemma_symmetric_entries(b, a, Seq::empty());
}

} // verus!
