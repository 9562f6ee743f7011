//! The value model: scalars, mappings, sequences, the null value and
//! opaque handles, together with their mathematical view.

use vstd::prelude::*;

verus! {

/// A dynamically typed value.
///
/// A floating-point number is held as the bit pattern of its binary64
/// encoding, so that every value is made of integers, strings and lists.
#[derive(Debug)]
pub enum Value {
    /// A text string.
    String(String),
    /// An integer.
    Integer(i128),
    /// A truth value. It is compared as the integer 0 or 1.
    Bool(bool),
    /// A binary64 floating-point number, as its bit pattern.
    Float(u64),
    /// Key-value entries, in the mapping's iteration order.
    Mapping(Vec<(Value, Value)>),
    /// An ordered list of values.
    Sequence(Vec<Value>),
    /// The absence of a value.
    Null,
    /// A handle to something that is never looked into.
    Opaque(u64),
}

/// The mathematical content of a [`Value`].
pub enum ValueView {
    String(Seq<char>),
    Integer(int),
    Bool(bool),
    Float(u64),
    Mapping(Seq<(ValueView, ValueView)>),
    Sequence(Seq<ValueView>),
    Null,
    Opaque(u64),
}

/// The entries of a mapping, in the mapping's iteration order.
pub type Entries = Seq<(ValueView, ValueView)>;

/// The kinds by which two values are matched up for comparison.
#[derive(Clone, Copy, Debug, PartialEq, Eq, Structural)]
pub enum Kind {
    String,
    Integer,
    Float,
    Mapping,
    Sequence,
    Null,
    Opaque,
}

/// The sign bit of a binary64 bit pattern.
pub const FLOAT_SIGN_BIT: u64 = 0x8000_0000_0000_0000;

/// The bit pattern of positive infinity: every larger magnitude is a NaN.
pub const FLOAT_INFINITY: u64 = 0x7ff0_0000_0000_0000;

/// The bit pattern without its sign bit.
pub open spec fn float_magnitude(bits: u64) -> int {
    if bits >= FLOAT_SIGN_BIT {
        bits - FLOAT_SIGN_BIT
    } else {
        bits as int
    }
}

/// Whether the bit pattern encodes a NaN.
pub open spec fn float_is_nan(bits: u64) -> bool {
    float_magnitude(bits) > FLOAT_INFINITY
}

/// IEEE-754 equality of two binary64 numbers given by their bit patterns:
/// a NaN equals nothing, not even itself; the two zeros are equal; any
/// other two numbers are equal exactly when their bits are.
pub open spec fn float_equal(a: u64, b: u64) -> bool {
    &&& !float_is_nan(a)
    &&& !float_is_nan(b)
    &&& (a == b || (float_magnitude(a) == 0 && float_magnitude(b) == 0))
}

impl Kind {
    /// Strings, integers and floats are the scalar kinds.
    pub open spec fn scalar(self) -> bool {
        self is String || self is Integer || self is Float
    }

    /// Whether this is one of the scalar kinds.
    pub fn is_scalar(&self) -> (r: bool)
        ensures
            r == self.scalar(),
    {
        match self {
            Kind::String => true,
            Kind::Integer => true,
            Kind::Float => true,
            _ => false,
        }
    }
}

impl ValueView {
    /// The kind that the value is classified as.
    pub open spec fn kind(self) -> Kind {
        match self {
            ValueView::String(_) => Kind::String,
            ValueView::Integer(_) => Kind::Integer,
            ValueView::Bool(_) => Kind::Integer,
            ValueView::Float(_) => Kind::Float,
            ValueView::Mapping(_) => Kind::Mapping,
            ValueView::Sequence(_) => Kind::Sequence,
            ValueView::Null => Kind::Null,
            ValueView::Opaque(_) => Kind::Opaque,
        }
    }

    /// The number that a value of the integer kind stands for.
    pub open spec fn integer(self) -> int {
        match self {
            ValueView::Integer(i) => i,
            ValueView::Bool(b) => if b { 1 } else { 0 },
            _ => 0,
        }
    }

    /// Equality of two scalars of the same kind: exact for strings and
    /// integers, IEEE-754 for floats. No other two values are equal in
    /// this sense.
    pub open spec fn scalar_equal(self, other: ValueView) -> bool {
        match (self, other) {
            (ValueView::String(s), ValueView::String(t)) => s == t,
            (ValueView::Float(x), ValueView::Float(y)) => float_equal(x, y),
            _ => self.kind() is Integer && other.kind() is Integer && self.integer()
                == other.integer(),
        }
    }

    /// No mapping inside the value, at any depth, holds a key twice.
    pub open spec fn well_formed(self) -> bool
        decreases self,
    {
        match self {
            ValueView::Mapping(entries) => {
                &&& forall|i: int, j: int|
                    0 <= i < j < entries.len() ==> (#[trigger] entries[i]).0 != (
                    #[trigger] entries[j]).0
                &&& forall|i: int|
                    0 <= i < entries.len() ==> (#[trigger] entries[i]).0.well_formed()
                        && entries[i].1.well_formed()
            },
            ValueView::Sequence(items) => forall|i: int|
                0 <= i < items.len() ==> (#[trigger] items[i]).well_formed(),
            _ => true,
        }
    }

    /// The value holds no NaN and no opaque handle where values are
    /// compared: in itself, in an item of a sequence or in a value of a
    /// mapping, at any depth. Keys are looked up, not compared, and may
    /// hold either.
    pub open spec fn comparable(self) -> bool
        decreases self,
    {
        match self {
            ValueView::Float(bits) => !float_is_nan(bits),
            ValueView::Opaque(_) => false,
            ValueView::Mapping(entries) => forall|i: int|
                0 <= i < entries.len() ==> (#[trigger] entries[i]).1.comparable(),
            ValueView::Sequence(items) => forall|i: int|
                0 <= i < items.len() ==> (#[trigger] items[i]).comparable(),
            _ => true,
        }
    }
}

/// What it is for a mapping to be well formed, spelled out.
pub proof fn lemma_well_formed_mapping(entries: Entries)
    ensures
        ValueView::Mapping(entries).well_formed() <==> {
            &&& forall|i: int, j: int|
                0 <= i < j < entries.len() ==> (#[trigger] entries[i]).0 != (
                #[trigger] entries[j]).0
            &&& forall|i: int|
                0 <= i < entries.len() ==> (#[trigger] entries[i]).0.well_formed()
                    && entries[i].1.well_formed()
        },
{
    assert(ValueView::Mapping(entries)->Mapping_0 == entries);
}

/// What it is for a sequence to be well formed, spelled out.
pub proof fn lemma_well_formed_sequence(items: Seq<ValueView>)
    ensures
        ValueView::Sequence(items).well_formed() <==> forall|i: int|
            0 <= i < items.len() ==> (#[trigger] items[i]).well_formed(),
{
    assert(ValueView::Sequence(items)->Sequence_0 == items);
}

/// What it is for a mapping to be comparable, spelled out.
pub proof fn lemma_comparable_mapping(entries: Entries)
    ensures
        ValueView::Mapping(entries).comparable() <==> forall|i: int|
            0 <= i < entries.len() ==> (#[trigger] entries[i]).1.comparable(),
{
    assert(ValueView::Mapping(entries)->Mapping_0 == entries);
}

/// What it is for a sequence to be comparable, spelled out.
pub proof fn lemma_comparable_sequence(items: Seq<ValueView>)
    ensures
        ValueView::Sequence(items).comparable() <==> forall|i: int|
            0 <= i < items.len() ==> (#[trigger] items[i]).comparable(),
{
    assert(ValueView::Sequence(items)->Sequence_0 == items);
}

/// The mathematical content of a value: each list becomes the sequence of
/// the contents of its items.
pub open spec fn content(value: Value) -> ValueView
    decreases value,
{
    match value {
        Value::String(s) => ValueView::String(s@),
        Value::Integer(i) => ValueView::Integer(i as int),
        Value::Bool(b) => ValueView::Bool(b),
        Value::Float(bits) => ValueView::Float(bits),
        Value::Mapping(entries) => ValueView::Mapping(
            Seq::new(
                entries@.len(),
                |i: int|
                    if 0 <= i < entries@.len() {
                        (content(entries@[i].0), content(entries@[i].1))
                    } else {
                        (ValueView::Null, ValueView::Null)
                    },
            ),
        ),
        Value::Sequence(items) => ValueView::Sequence(
            Seq::new(
                items@.len(),
                |i: int|
                    if 0 <= i < items@.len() {
                        content(items@[i])
                    } else {
                        ValueView::Null
                    },
            ),
        ),
        Value::Null => ValueView::Null,
        Value::Opaque(id) => ValueView::Opaque(id),
    }
}

impl View for Value {
    type V = ValueView;

    open spec fn view(&self) -> ValueView {
        content(*self)
    }
}

impl DeepView for Value {
    type V = ValueView;

    open spec fn deep_view(&self) -> ValueView {
        content(*self)
    }
}

/// The view of a sequence value is the sequence of its items' views.
pub proof fn lemma_sequence_view(items: Vec<Value>)
    ensures
        Value::Sequence(items)@ == ValueView::Sequence(items.deep_view()),
{
    assert(Value::Sequence(items)@->Sequence_0 =~= items.deep_view());
}

/// The view of a mapping value is the sequence of its entries' views.
pub proof fn lemma_mapping_view(entries: Vec<(Value, Value)>)
    ensures
        Value::Mapping(entries)@ == ValueView::Mapping(entries.deep_view()),
{
    assert(Value::Mapping(entries)@->Mapping_0 =~= entries.deep_view());
}

/// The keys and values of a mapping are smaller than the mapping: a
/// recursion that goes from a mapping to one of them ends.
pub proof fn lemma_entry_decreases(entries: Vec<(Value, Value)>, i: int)
    requires
        0 <= i < entries.len(),
    ensures
        decreases_to!(Value::Mapping(entries) => entries[i].0),
        decreases_to!(Value::Mapping(entries) => entries[i].1),
        decreases_to!(entries => entries[i].0),
        decreases_to!(entries => entries[i].1),
{
    let value = Value::Mapping(entries);
    assert(decreases_to!(value => value->Mapping_0));
    assert(decreases_to!(entries => entries[i]));
    assert(decreases_to!(entries[i] => entries[i].0));
    assert(decreases_to!(entries[i] => entries[i].1));
}

/// The items of a sequence are smaller than the sequence: a recursion
/// that goes from a sequence to one of them ends.
pub proof fn lemma_item_decreases(items: Vec<Value>, i: int)
    requires
        0 <= i < items.len(),
    ensures
        decreases_to!(Value::Sequence(items) => items[i]),
        decreases_to!(items => items[i]),
{
    let value = Value::Sequence(items);
    assert(decreases_to!(value => value->Sequence_0));
    assert(decreases_to!(items => items[i]));
}

/// IEEE-754 equality of two binary64 numbers given by their bit patterns.
pub fn float_bits_equal(a: u64, b: u64) -> (r: bool)
    ensures
        r == float_equal(a, b),
{
    let ma: u64 = if a >= FLOAT_SIGN_BIT {
        a - FLOAT_SIGN_BIT
    } else {
        a
    };
    let mb: u64 = if b >= FLOAT_SIGN_BIT {
        b - FLOAT_SIGN_BIT
    } else {
        b
    };
    ma <= FLOAT_INFINITY && mb <= FLOAT_INFINITY && (a == b || (ma == 0 && mb == 0))
}

impl Value {
    /// The kind that the value is classified as.
    pub fn kind(&self) -> (r: Kind)
        ensures
            r == self@.kind(),
    {
        match self {
            Value::String(_) => Kind::String,
            Value::Integer(_) => Kind::Integer,
            Value::Bool(_) => Kind::Integer,
            Value::Float(_) => Kind::Float,
            Value::Mapping(_) => Kind::Mapping,
            Value::Sequence(_) => Kind::Sequence,
            Value::Null => Kind::Null,
            Value::Opaque(_) => Kind::Opaque,
        }
    }

    /// Whether the value is the null value.
    pub fn is_none(&self) -> (r: bool)
        ensures
            r == (self@ is Null),
    {
        match self {
            Value::Null => true,
            _ => false,
        }
    }
}

impl Clone for Value {
    /// A deep copy: the copy has the same content as the value.
    fn clone(&self) -> (copy: Self)
        ensures
            copy@ == self@,
        decreases self,
    {
        match self {
            Value::String(s) => Value::String(s.clone()),
            Value::Integer(i) => Value::Integer(*i),
            Value::Bool(b) => Value::Bool(*b),
            Value::Float(bits) => Value::Float(*bits),
            Value::Mapping(entries) => {
                let mut copies: Vec<(Value, Value)> = Vec::new();
                let mut i: usize = 0;
                while i < entries.len()
                    invariant
                        *self == Value::Mapping(*entries),
                        i <= entries.len(),
                        copies.len() == i,
                        forall|j: int|
                            0 <= j < i ==> (#[trigger] copies[j]).0@ == entries[j].0@
                                && copies[j].1@ == entries[j].1@,
                    decreases entries.len() - i,
                {
                    proof {
                        lemma_entry_decreases(*entries, i as int);
                    }
                    let key = entries[i].0.clone();
                    let val = entries[i].1.clone();
                    copies.push((key, val));
                    i += 1;
                }
                proof {
                    assert(copies.deep_view() =~= entries.deep_view());
                    lemma_mapping_view(copies);
                    lemma_mapping_view(*entries);
                }
                Value::Mapping(copies)
            },
            Value::Sequence(items) => {
                let mut copies: Vec<Value> = Vec::new();
                let mut i: usize = 0;
                while i < items.len()
                    invariant
                        *self == Value::Sequence(*items),
                        i <= items.len(),
                        copies.len() == i,
                        forall|j: int| 0 <= j < i ==> (#[trigger] copies[j])@ == items[j]@,
                    decreases items.len() - i,
                {
                    proof {
                        lemma_item_decreases(*items, i as int);
                    }
                    let item = items[i].clone();
                    copies.push(item);
                    i += 1;
                }
                proof {
                    assert(copies.deep_view() =~= items.deep_view());
                    lemma_sequence_view(copies);
                    lemma_sequence_view(*items);
                }
                Value::Sequence(copies)
            },
            Value::Null => Value::Null,
            Value::Opaque(id) => Value::Opaque(*id),
        }
    }
}

} // verus!
