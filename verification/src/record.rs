//! The records that report a divergence, and the output that sorts them
//! by kind.

use crate::value::{Value, ValueView};
use vstd::prelude::*;

verus! {

/// The place of a value below the root: the keys and indices that lead
/// to it, outermost first.
pub type KeyPath = Vec<Value>;

/// Two scalars of the same kind that differ.
#[derive(Debug, PartialEq, Eq)]
pub struct ValChange {
    pub path: KeyPath,
    pub a: Value,
    pub b: Value,
}

/// Two values that are not of one comparable kind: the second replaces
/// the first wholesale.
#[derive(Debug, PartialEq, Eq)]
pub struct TypeAndValChange {
    pub path: KeyPath,
    pub a: Value,
    pub b: Value,
}

/// An entry that only one of two mappings holds.
#[derive(Debug, PartialEq, Eq)]
pub struct DictDiff {
    pub path: KeyPath,
    pub key: Value,
    pub val: Value,
}

/// Two sequences of different lengths.
#[derive(Debug, PartialEq, Eq)]
pub struct IterLenMismatch {
    pub path: KeyPath,
    pub a_len: usize,
    pub b_len: usize,
}

/// One point of divergence between two values.
#[derive(Debug, PartialEq, Eq)]
pub enum Diff {
    ValChange(ValChange),
    TypeAndValChange(TypeAndValChange),
    /// The second mapping holds a key that the first lacks.
    DictItemAdded(DictDiff),
    /// The first mapping holds a key that the second lacks.
    DictItemRemoved(DictDiff),
    IterLenMismatch(IterLenMismatch),
}

/// All the divergences between two values, one list for each kind of
/// record, each in the order in which the traversal met them.
#[derive(Debug, PartialEq, Eq)]
pub struct Output {
    pub val_changes: Vec<ValChange>,
    pub type_and_val_changes: Vec<TypeAndValChange>,
    pub dict_items_added: Vec<DictDiff>,
    pub dict_items_removed: Vec<DictDiff>,
    pub iter_len_mismatch: Vec<IterLenMismatch>,
}

/// The content of a [`ValChange`] or a [`TypeAndValChange`].
pub struct ChangeView {
    pub path: Seq<ValueView>,
    pub a: ValueView,
    pub b: ValueView,
}

/// The content of a [`DictDiff`].
pub struct EntryView {
    pub path: Seq<ValueView>,
    pub key: ValueView,
    pub val: ValueView,
}

/// The content of an [`IterLenMismatch`].
pub struct LengthsView {
    pub path: Seq<ValueView>,
    pub a_len: nat,
    pub b_len: nat,
}

/// The content of a [`Diff`].
pub enum DiffView {
    ValChange(ChangeView),
    TypeAndValChange(ChangeView),
    DictItemAdded(EntryView),
    DictItemRemoved(EntryView),
    IterLenMismatch(LengthsView),
}

/// The content of an [`Output`].
pub struct OutputView {
    pub val_changes: Seq<ChangeView>,
    pub type_and_val_changes: Seq<ChangeView>,
    pub dict_items_added: Seq<EntryView>,
    pub dict_items_removed: Seq<EntryView>,
    pub iter_len_mismatch: Seq<LengthsView>,
}

impl View for ValChange {
    type V = ChangeView;

    open spec fn view(&self) -> ChangeView {
        ChangeView { path: self.path.deep_view(), a: self.a@, b: self.b@ }
    }
}

impl DeepView for ValChange {
    type V = ChangeView;

    open spec fn deep_view(&self) -> ChangeView {
        self.view()
    }
}

impl View for TypeAndValChange {
    type V = ChangeView;

    open spec fn view(&self) -> ChangeView {
        ChangeView { path: self.path.deep_view(), a: self.a@, b: self.b@ }
    }
}

impl DeepView for TypeAndValChange {
    type V = ChangeView;

    open spec fn deep_view(&self) -> ChangeView {
        self.view()
    }
}

impl View for DictDiff {
    type V = EntryView;

    open spec fn view(&self) -> EntryView {
        EntryView { path: self.path.deep_view(), key: self.key@, val: self.val@ }
    }
}

impl DeepView for DictDiff {
    type V = EntryView;

    open spec fn deep_view(&self) -> EntryView {
        self.view()
    }
}

impl View for IterLenMismatch {
    type V = LengthsView;

    open spec fn view(&self) -> LengthsView {
        LengthsView {
            path: self.path.deep_view(),
            a_len: self.a_len as nat,
            b_len: self.b_len as nat,
        }
    }
}

impl DeepView for IterLenMismatch {
    type V = LengthsView;

    open spec fn deep_view(&self) -> LengthsView {
        self.view()
    }
}

impl View for Diff {
    type V = DiffView;

    open spec fn view(&self) -> DiffView {
        match self {
            Diff::ValChange(c) => DiffView::ValChange(c@),
            Diff::TypeAndValChange(c) => DiffView::TypeAndValChange(c@),
            Diff::DictItemAdded(e) => DiffView::DictItemAdded(e@),
            Diff::DictItemRemoved(e) => DiffView::DictItemRemoved(e@),
            Diff::IterLenMismatch(m) => DiffView::IterLenMismatch(m@),
        }
    }
}

impl DeepView for Diff {
    type V = DiffView;

    open spec fn deep_view(&self) -> DiffView {
        self.view()
    }
}

impl View for Output {
    type V = OutputView;

    open spec fn view(&self) -> OutputView {
        OutputView {
            val_changes: self.val_changes.deep_view(),
            type_and_val_changes: self.type_and_val_changes.deep_view(),
            dict_items_added: self.dict_items_added.deep_view(),
            dict_items_removed: self.dict_items_removed.deep_view(),
            iter_len_mismatch: self.iter_len_mismatch.deep_view(),
        }
    }
}

impl DiffView {
    /// The path at which the record's divergence stands.
    pub open spec fn path(self) -> Seq<ValueView> {
        match self {
            DiffView::ValChange(c) => c.path,
            DiffView::TypeAndValChange(c) => c.path,
            DiffView::DictItemAdded(e) => e.path,
            DiffView::DictItemRemoved(e) => e.path,
            DiffView::IterLenMismatch(m) => m.path,
        }
    }

    /// The record's content if it is a value change.
    pub open spec fn val_change(self) -> Option<ChangeView> {
        match self {
            DiffView::ValChange(c) => Some(c),
            _ => None,
        }
    }

    /// The record's content if it is a change of type and value.
    pub open spec fn type_and_val_change(self) -> Option<ChangeView> {
        match self {
            DiffView::TypeAndValChange(c) => Some(c),
            _ => None,
        }
    }

    /// The record's content if it is an added entry.
    pub open spec fn dict_item_added(self) -> Option<EntryView> {
        match self {
            DiffView::DictItemAdded(e) => Some(e),
            _ => None,
        }
    }

    /// The record's content if it is a removed entry.
    pub open spec fn dict_item_removed(self) -> Option<EntryView> {
        match self {
            DiffView::DictItemRemoved(e) => Some(e),
            _ => None,
        }
    }

    /// The record's content if it is a length mismatch.
    pub open spec fn iter_len_mismatch(self) -> Option<LengthsView> {
        match self {
            DiffView::IterLenMismatch(m) => Some(m),
            _ => None,
        }
    }
}

/// The records sorted by kind: each list holds the records of its kind,
/// all of them and in the order that they have in `records`.
pub open spec fn partition(records: Seq<DiffView>) -> OutputView {
    OutputView {
        val_changes: records.filter_map(|d: DiffView| d.val_change()),
        type_and_val_changes: records.filter_map(|d: DiffView| d.type_and_val_change()),
        dict_items_added: records.filter_map(|d: DiffView| d.dict_item_added()),
        dict_items_removed: records.filter_map(|d: DiffView| d.dict_item_removed()),
        iter_len_mismatch: records.filter_map(|d: DiffView| d.iter_len_mismatch()),
    }
}

impl OutputView {
    /// The number of records in all five lists.
    pub open spec fn len(self) -> nat {
        self.val_changes.len() + self.type_and_val_changes.len() + self.dict_items_added.len()
            + self.dict_items_removed.len() + self.iter_len_mismatch.len()
    }
}

impl Default for Output {
    /// The output that reports no divergence.
    fn default() -> (out: Output)
        ensures
            out@ == partition(Seq::empty()),
    {
        let out = Output {
            val_changes: Vec::new(),
            type_and_val_changes: Vec::new(),
            dict_items_added: Vec::new(),
            dict_items_removed: Vec::new(),
            iter_len_mismatch: Vec::new(),
        };
        assert(out@.val_changes =~= partition(Seq::empty()).val_changes);
        assert(out@.type_and_val_changes =~= partition(Seq::empty()).type_and_val_changes);
        assert(out@.dict_items_added =~= partition(Seq::empty()).dict_items_added);
        assert(out@.dict_items_removed =~= partition(Seq::empty()).dict_items_removed);
        assert(out@.iter_len_mismatch =~= partition(Seq::empty()).iter_len_mismatch);
        out
    }
}

impl Output {
    /// Whether the output reports no divergence at all.
    pub fn is_empty(&self) -> (r: bool)
        ensures
            r == (self@.len() == 0),
    {
        self.val_changes.len() == 0 && self.type_and_val_changes.len() == 0
            && self.dict_items_added.len() == 0 && self.dict_items_removed.len() == 0
            && self.iter_len_mismatch.len() == 0
    }

    /// Sorts a list of records by kind.
    pub fn collect(diffs: Vec<Diff>) -> (out: Output)
        ensures
            out@ == partition(diffs.deep_view()),
    {
        let mut out = Output::default();
        let ghost all = diffs.deep_view();
        for d in it: diffs.into_iter()
            invariant
                it.seq() == diffs@,
                all == diffs.deep_view(),
                out@ == partition(all.take(it.index() as int)),
        {
            proof {
                let i = it.index() as int;
                all.lemma_filter_map_take_succ(|d: DiffView| d.val_change(), i);
                all.lemma_filter_map_take_succ(|d: DiffView| d.type_and_val_change(), i);
                all.lemma_filter_map_take_succ(|d: DiffView| d.dict_item_added(), i);
                all.lemma_filter_map_take_succ(|d: DiffView| d.dict_item_removed(), i);
                all.lemma_filter_map_take_succ(|d: DiffView| d.iter_len_mismatch(), i);
                assert(all[i] == d@);
            }
            let ghost before = out@;
            let ghost after = partition(all.take(it.index() + 1));
            match d {
                Diff::ValChange(c) => {
                    out.val_changes.push(c);
                },
                Diff::TypeAndValChange(c) => {
                    out.type_and_val_changes.push(c);
                },
                Diff::DictItemAdded(e) => {
                    out.dict_items_added.push(e);
                },
                Diff::DictItemRemoved(e) => {
                    out.dict_items_removed.push(e);
                },
                Diff::IterLenMismatch(m) => {
                    out.iter_len_mismatch.push(m);
                },
            }
            assert(out@.val_changes =~= after.val_changes);
            assert(out@.type_and_val_changes =~= after.type_and_val_changes);
            assert(out@.dict_items_added =~= after.dict_items_added);
            assert(out@.dict_items_removed =~= after.dict_items_removed);
            assert(out@.iter_len_mismatch =~= after.iter_len_mismatch);
        }
        assert(all.take(all.len() as int) =~= all);
        out
    }
}

} // verus!
