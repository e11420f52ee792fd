//! The query-string value tree.

use vstd::prelude::*;

use crate::temporal::TemporalValue;

verus! {

/// An ordered object: its entries in insertion order.
pub type Object = Vec<(String, Value)>;

/// A query-string-compatible value tree: scalars, temporal leaves, byte
/// strings, arrays, and ordered objects.
///
/// A 64-bit float is held as its IEEE-754 bit pattern (`f64::to_bits`).
#[derive(Debug)]
pub enum Value {
    /// A null value.
    Null,
    /// A boolean scalar.
    Bool(bool),
    /// A signed 64-bit integer scalar.
    I64(i64),
    /// An unsigned 64-bit integer scalar.
    U64(u64),
    /// A 64-bit floating-point scalar, as its bit pattern.
    F64(u64),
    /// A UTF-8 string scalar.
    String(String),
    /// A core temporal scalar.
    Temporal(TemporalValue),
    /// An opaque byte string scalar.
    Bytes(Vec<u8>),
    /// An ordered list of values.
    Array(Vec<Value>),
    /// An ordered object map.
    Object(Object),
}

/// Every variant but arrays and objects is a scalar.
pub open spec fn spec_is_scalar(v: Value) -> bool {
    !(v is Array || v is Object)
}

/// Null, the empty string, the empty array and the empty object are empty.
pub open spec fn spec_is_empty_for_decode(v: Value) -> bool {
    match v {
        Value::Null => true,
        Value::String(text) => text@.len() == 0,
        Value::Array(values) => values@.len() == 0,
        Value::Object(entries) => entries@.len() == 0,
        _ => false,
    }
}

impl Value {
    /// Whether this value is a scalar (neither an array nor an object).
    pub fn is_scalar(&self) -> (r: bool)
        ensures
            r == spec_is_scalar(*self),
    {
        match self {
            Value::Null | Value::Bool(_) | Value::I64(_) | Value::U64(_) | Value::F64(_)
            | Value::String(_) | Value::Temporal(_) | Value::Bytes(_) => true,
            Value::Array(_) | Value::Object(_) => false,
        }
    }

    /// Whether this value counts as empty while decoding.
    pub fn is_empty_for_decode(&self) -> (r: bool)
        ensures
            r == spec_is_empty_for_decode(*self),
    {
        match self {
            Value::Null => true,
            Value::String(text) => text.as_str().is_empty(),
            Value::Array(values) => values.len() == 0,
            Value::Object(entries) => entries.len() == 0,
            _ => false,
        }
    }
}

/// The position of the first entry of an object with key `key`.
pub open spec fn find_object_key(entries: Seq<(String, Value)>, key: Seq<char>) -> Option<int>
    decreases entries.len(),
{
    if entries.len() == 0 {
        None
    } else {
        match find_object_key(entries.drop_last(), key) {
            Some(j) => Some(j),
            None => if entries.last().0@ == key {
                Some(entries.len() - 1)
            } else {
                None
            },
        }
    }
}

/// `find_object_key` gives the first position of a key, if the key is present.
pub proof fn lemma_find_object_key(entries: Seq<(String, Value)>, key: Seq<char>)
    ensures
        match find_object_key(entries, key) {
            Some(j) => 0 <= j < entries.len() && entries[j].0@ == key && forall|i: int|
                0 <= i < j ==> (#[trigger] entries[i]).0@ != key,
            None => forall|i: int| 0 <= i < entries.len() ==> (#[trigger] entries[i]).0@ != key,
        },
    decreases entries.len(),
{
    if entries.len() > 0 {
        lemma_find_object_key(entries.drop_last(), key);
        assert forall|i: int| 0 <= i < entries.len() - 1 implies entries.drop_last()[i]
            == #[trigger] entries[i] by {}
    }
}

/// Sets the value under `key` in an object: in place, keeping the entry's
/// position, when the key is present, appended otherwise. Gives back the
/// value that was replaced.
pub fn object_insert(entries: &mut Object, key: String, value: Value) -> (r: Option<Value>)
    ensures
        match find_object_key(old(entries)@, key@) {
            Some(j) => final(entries)@ == old(entries)@.update(j, (old(entries)@[j].0, value)) && r
                == Some(old(entries)@[j].1),
            None => final(entries)@ == old(entries)@.push((key, value)) && r is None,
        },
{
    proof {
        lemma_find_object_key(entries@, key@);
    }
    let mut i: usize = 0;
    while i < entries.len()
        invariant
            i <= entries@.len(),
            entries@ == old(entries)@,
            forall|j: int| 0 <= j < i ==> (#[trigger] entries@[j]).0@ != key@,
        decreases entries@.len() - i,
    {
        if entries[i].0 == key {
            proof {
                lemma_find_object_key(entries@, key@);
            }
            let ghost before = entries@;
            let mut slot = (String::default(), Value::Null);
            entries.set_and_swap(i, &mut slot);
            let (old_key, old_value) = slot;
            entries.set(i, (old_key, value));
            assert(entries@ =~= before.update(i as int, (before[i as int].0, value)));
            return Some(old_value);
        }
        i = i + 1;
    }
    entries.push((key, value));
    None
}

/// An object with the value under `key` set: in place when the key is
/// present, appended otherwise.
pub open spec fn object_set(entries: Seq<(String, Value)>, key: String, value: Value) -> Seq<(String, Value)> {
    match find_object_key(entries, key@) {
        Some(j) => entries.update(j, (entries[j].0, value)),
        None => entries.push((key, value)),
    }
}

/// The object made by setting each pair in turn, starting from no entries.
pub open spec fn object_of_pairs(pairs: Seq<(String, Value)>) -> Seq<(String, Value)>
    decreases pairs.len(),
{
    if pairs.len() == 0 {
        Seq::empty()
    } else {
        object_set(object_of_pairs(pairs.drop_last()), pairs.last().0, pairs.last().1)
    }
}

/// Builds an object from pairs, as collecting them into an ordered map does:
/// a repeated key keeps the position of its first pair and the value of its
/// last.
pub fn object_from_pairs(pairs: Vec<(String, Value)>) -> (r: Object)
    ensures
        r@ == object_of_pairs(pairs@),
        object_keys_unique(r@),
{
    let ghost original = pairs@;
    let mut pairs = pairs;
    let mut out: Object = Vec::with_capacity(pairs.len());
    let mut i: usize = 0;
    while i < pairs.len()
        invariant
            i <= pairs@.len(),
            pairs@.len() == original.len(),
            forall|j: int| i <= j < original.len() ==> #[trigger] pairs@[j] == original[j],
            out@ == object_of_pairs(original.subrange(0, i as int)),
            object_keys_unique(out@),
        decreases pairs@.len() - i,
    {
        let mut slot = (String::default(), Value::Null);
        pairs.set_and_swap(i, &mut slot);
        let (key, value) = slot;
        proof {
            law_object_insert_keeps_keys_unique(out@, key, value);
            assert(original.subrange(0, i as int + 1).drop_last() =~= original.subrange(0, i as int));
        }
        object_insert(&mut out, key, value);
        i = i + 1;
    }
    assert(original.subrange(0, original.len() as int) =~= original);
    out
}

/// No two entries of an object share a key.
pub open spec fn object_keys_unique(entries: Seq<(String, Value)>) -> bool {
    forall|i: int, j: int|
        0 <= i < j < entries.len() ==> (#[trigger] entries[i]).0@ != (#[trigger] entries[j]).0@
}

/// Setting a value in an object never gives it two entries under one key.
pub proof fn law_object_insert_keeps_keys_unique(
    entries: Seq<(String, Value)>,
    key: String,
    value: Value,
)
    requires
        object_keys_unique(entries),
    ensures
        object_keys_unique(
            match find_object_key(entries, key@) {
                Some(j) => entries.update(j, (entries[j].0, value)),
                None => entries.push((key, value)),
            },
        ),
{
    lemma_find_object_key(entries, key@);
    let r = match find_object_key(entries, key@) {
        Some(j) => entries.update(j, (entries[j].0, value)),
        None => entries.push((key, value)),
    };
    assert forall|a: int, b: int| 0 <= a < b < r.len() implies (#[trigger] r[a]).0@ != (
    #[trigger] r[b]).0@ by {
        match find_object_key(entries, key@) {
            Some(j) => {
                assert(r[a].0 == entries[a].0);
                assert(r[b].0 == entries[b].0);
            },
            None => {
                assert(r[a] == entries[a]);
                if b < entries.len() {
                    assert(r[b] == entries[b]);
                }
            },
        }
    }
}

/// The contents of a [`Value`]: texts and byte strings as sequences, lists
/// and objects as sequences of the contents of their members.
pub enum ValueModel {
    Null,
    Bool(bool),
    I64(i64),
    U64(u64),
    F64(u64),
    String(Seq<char>),
    Temporal(TemporalValue),
    Bytes(Seq<u8>),
    Array(Seq<ValueModel>),
    Object(Seq<(Seq<char>, ValueModel)>),
}

/// The contents of a value.
pub open spec fn value_model(v: Value) -> ValueModel
    decreases v,
{
    match v {
        Value::Null => ValueModel::Null,
        Value::Bool(b) => ValueModel::Bool(b),
        Value::I64(n) => ValueModel::I64(n),
        Value::U64(n) => ValueModel::U64(n),
        Value::F64(bits) => ValueModel::F64(bits),
        Value::String(text) => ValueModel::String(text@),
        Value::Temporal(t) => ValueModel::Temporal(t),
        Value::Bytes(bytes) => ValueModel::Bytes(bytes@),
        Value::Array(items) => ValueModel::Array(value_models(items@)),
        Value::Object(entries) => ValueModel::Object(entry_models(entries@)),
    }
}

/// The contents of a sequence of values.
pub open spec fn value_models(s: Seq<Value>) -> Seq<ValueModel>
    decreases s,
{
    if s.len() == 0 {
        Seq::empty()
    } else {
        value_models(s.drop_last()).push(value_model(s.last()))
    }
}

/// The contents of an object entry: the text of its key and the contents of
/// its value.
pub open spec fn entry_model(e: (String, Value)) -> (Seq<char>, ValueModel)
    decreases e,
{
    (e.0@, value_model(e.1))
}

/// The contents of a sequence of object entries.
pub open spec fn entry_models(s: Seq<(String, Value)>) -> Seq<(Seq<char>, ValueModel)>
    decreases s,
{
    if s.len() == 0 {
        Seq::empty()
    } else {
        entry_models(s.drop_last()).push(entry_model(s.last()))
    }
}

impl DeepView for Value {
    type V = ValueModel;

    open spec fn deep_view(&self) -> ValueModel {
        value_model(*self)
    }
}

/// The contents of a sequence of values, element by element.
pub proof fn lemma_value_models(s: Seq<Value>)
    ensures
        value_models(s).len() == s.len(),
        forall|i: int| 0 <= i < s.len() ==> #[trigger] value_models(s)[i] == value_model(s[i]),
    decreases s.len(),
{
    if s.len() > 0 {
        lemma_value_models(s.drop_last());
    }
}

/// The contents of a sequence of entries, entry by entry.
pub proof fn lemma_entry_models(s: Seq<(String, Value)>)
    ensures
        entry_models(s).len() == s.len(),
        forall|i: int| 0 <= i < s.len() ==> #[trigger] entry_models(s)[i] == entry_model(s[i]),
    decreases s.len(),
{
    if s.len() > 0 {
        lemma_entry_models(s.drop_last());
    }
}

/// A copy of `items`, element by element.
fn clone_items(items: &Vec<Value>) -> (r: Vec<Value>)
    ensures
        value_models(r@) == value_models(items@),
    decreases items, 0int,
{
    let mut out: Vec<Value> = Vec::with_capacity(items.len());
    let mut i: usize = 0;
    while i < items.len()
        invariant
            i <= items.len(),
            out@.len() == i,
            forall|j: int| 0 <= j < i ==> #[trigger] value_model(out@[j]) == value_model(items@[j]),
        decreases items.len() - i,
    {
        proof {
            assert(decreases_to!(items => items[i as int]));
        }
        out.push(clone_value(&items[i]));
        i = i + 1;
    }
    proof {
        lemma_value_models(out@);
        lemma_value_models(items@);
        assert(value_models(out@) =~= value_models(items@));
    }
    out
}

/// A copy of `entries`, entry by entry.
fn clone_entries(entries: &Vec<(String, Value)>) -> (r: Vec<(String, Value)>)
    ensures
        entry_models(r@) == entry_models(entries@),
    decreases entries, 0int,
{
    let mut out: Vec<(String, Value)> = Vec::with_capacity(entries.len());
    let mut i: usize = 0;
    while i < entries.len()
        invariant
            i <= entries.len(),
            out@.len() == i,
            forall|j: int| 0 <= j < i ==> #[trigger] entry_model(out@[j]) == entry_model(entries@[j]),
        decreases entries.len() - i,
    {
        let (key, value) = &entries[i];
        proof {
            assert(decreases_to!(entries => entries[i as int].1));
        }
        out.push((key.clone(), clone_value(value)));
        i = i + 1;
    }
    proof {
        lemma_entry_models(out@);
        lemma_entry_models(entries@);
        assert(entry_models(out@) =~= entry_models(entries@));
    }
    out
}

/// A copy of `v`: a value with the same contents.
fn clone_value(v: &Value) -> (r: Value)
    ensures
        value_model(r) == value_model(*v),
    decreases v, 1int,
{
    match v {
        Value::Null => Value::Null,
        Value::Bool(b) => Value::Bool(*b),
        Value::I64(n) => Value::I64(*n),
        Value::U64(n) => Value::U64(*n),
        Value::F64(bits) => Value::F64(*bits),
        Value::String(text) => Value::String(text.clone()),
        Value::Temporal(t) => Value::Temporal(*t),
        Value::Bytes(bytes) => {
            let copied = bytes.clone();
            assert(copied@ =~= bytes@);
            Value::Bytes(copied)
        },
        Value::Array(items) => Value::Array(clone_items(items)),
        Value::Object(entries) => Value::Object(clone_entries(entries)),
    }
}

impl Clone for Value {
    /// A value with the same contents.
    fn clone(&self) -> (r: Self)
        ensures
            r.deep_view() == self.deep_view(),
    {
        clone_value(self)
    }
}

/// A 64-bit pattern that is a NaN: every exponent bit set and a non-zero
/// fraction.
pub open spec fn spec_f64_bits_nan(bits: u64) -> bool {
    (bits & 0x7ff0_0000_0000_0000u64) == 0x7ff0_0000_0000_0000u64 && (bits
        & 0x000f_ffff_ffff_ffffu64) != 0
}

/// Float equality of two bit patterns: a NaN equals nothing, the two zeros
/// are equal, and otherwise equal patterns are equal.
pub open spec fn spec_f64_bits_eq(a: u64, b: u64) -> bool {
    !spec_f64_bits_nan(a) && !spec_f64_bits_nan(b) && (a == b || ((a | b)
        & 0x7fff_ffff_ffff_ffffu64) == 0)
}

/// Equality of value contents: floats compare as floats, everything else by
/// its contents, lists and objects member by member in order.
pub open spec fn model_eq(a: ValueModel, b: ValueModel) -> bool
    decreases a,
{
    match a {
        ValueModel::F64(x) => b matches ValueModel::F64(y) && spec_f64_bits_eq(x, y),
        ValueModel::Array(xs) => match b {
            ValueModel::Array(ys) => xs.len() == ys.len() && forall|i: int|
                0 <= i < xs.len() ==> model_eq(#[trigger] xs[i], ys[i]),
            _ => false,
        },
        ValueModel::Object(xs) => match b {
            ValueModel::Object(ys) => xs.len() == ys.len() && forall|i: int|
                0 <= i < xs.len() ==> (#[trigger] xs[i]).0 == ys[i].0 && model_eq(xs[i].1, ys[i].1),
            _ => false,
        },
        _ => a == b,
    }
}

/// Two lists of contents are equal exactly when they are member by member.
proof fn lemma_model_eq_unfold(
    xs: Seq<ValueModel>,
    ys: Seq<ValueModel>,
    es: Seq<(Seq<char>, ValueModel)>,
    fs: Seq<(Seq<char>, ValueModel)>,
)
    ensures
        model_eq(ValueModel::Array(xs), ValueModel::Array(ys)) == (xs.len() == ys.len() && forall|i: int|
            0 <= i < xs.len() ==> model_eq(#[trigger] xs[i], ys[i])),
        model_eq(ValueModel::Object(es), ValueModel::Object(fs)) == (es.len() == fs.len()
            && forall|i: int| 0 <= i < es.len() ==> (#[trigger] es[i]).0 == fs[i].0 && model_eq(es[i].1, fs[i].1)),
{
    let a = ValueModel::Array(xs);
    let b = ValueModel::Array(ys);
    assert(a->Array_0 == xs);
    assert(b->Array_0 == ys);
    let o = ValueModel::Object(es);
    let p = ValueModel::Object(fs);
    assert(o->Object_0 == es);
    assert(p->Object_0 == fs);
}

/// Float equality of two bit patterns.
fn f64_bits_eq(a: u64, b: u64) -> (r: bool)
    ensures
        r == spec_f64_bits_eq(a, b),
{
    let a_nan = (a & 0x7ff0_0000_0000_0000u64) == 0x7ff0_0000_0000_0000u64 && (a
        & 0x000f_ffff_ffff_ffffu64) != 0;
    let b_nan = (b & 0x7ff0_0000_0000_0000u64) == 0x7ff0_0000_0000_0000u64 && (b
        & 0x000f_ffff_ffff_ffffu64) != 0;
    !a_nan && !b_nan && (a == b || ((a | b) & 0x7fff_ffff_ffff_ffffu64) == 0)
}

/// Whether two byte strings hold the same bytes.
fn bytes_eq(a: &Vec<u8>, b: &Vec<u8>) -> (r: bool)
    ensures
        r == (a@ == b@),
{
    if a.len() != b.len() {
        return false;
    }
    let mut i: usize = 0;
    while i < a.len()
        invariant
            i <= a@.len(),
            a@.len() == b@.len(),
            forall|j: int| 0 <= j < i ==> a@[j] == b@[j],
        decreases a@.len() - i,
    {
        if a[i] != b[i] {
            return false;
        }
        i = i + 1;
    }
    assert(a@ =~= b@);
    true
}

/// Whether two lists of values are equal member by member.
fn items_eq(a: &Vec<Value>, b: &Vec<Value>) -> (r: bool)
    ensures
        r == model_eq(ValueModel::Array(value_models(a@)), ValueModel::Array(value_models(b@))),
    decreases a, 0int,
{
    proof {
        lemma_value_models(a@);
        lemma_value_models(b@);
        lemma_model_eq_unfold(value_models(a@), value_models(b@), Seq::empty(), Seq::empty());
    }
    if a.len() != b.len() {
        return false;
    }
    let mut i: usize = 0;
    while i < a.len()
        invariant
            i <= a@.len(),
            a@.len() == b@.len(),
            value_models(a@).len() == a@.len(),
            value_models(b@).len() == b@.len(),
            forall|j: int| 0 <= j < a@.len() ==> #[trigger] value_models(a@)[j] == value_model(a@[j]),
            forall|j: int| 0 <= j < b@.len() ==> #[trigger] value_models(b@)[j] == value_model(b@[j]),
            forall|j: int| 0 <= j < i ==> #[trigger] model_eq(value_models(a@)[j], value_models(b@)[j]),
        decreases a@.len() - i,
    {
        proof {
            assert(decreases_to!(a => a[i as int]));
        }
        if !value_eq(&a[i], &b[i]) {
            assert(!model_eq(value_models(a@)[i as int], value_models(b@)[i as int]));
            return false;
        }
        i = i + 1;
    }
    true
}

/// Whether two objects are equal entry by entry: the same keys in the same
/// order, with equal values.
fn entries_eq(a: &Vec<(String, Value)>, b: &Vec<(String, Value)>) -> (r: bool)
    ensures
        r == model_eq(ValueModel::Object(entry_models(a@)), ValueModel::Object(entry_models(b@))),
    decreases a, 0int,
{
    proof {
        lemma_entry_models(a@);
        lemma_entry_models(b@);
        lemma_model_eq_unfold(Seq::empty(), Seq::empty(), entry_models(a@), entry_models(b@));
    }
    if a.len() != b.len() {
        return false;
    }
    let mut i: usize = 0;
    while i < a.len()
        invariant
            i <= a@.len(),
            a@.len() == b@.len(),
            entry_models(a@).len() == a@.len(),
            entry_models(b@).len() == b@.len(),
            forall|j: int| 0 <= j < a@.len() ==> #[trigger] entry_models(a@)[j] == entry_model(a@[j]),
            forall|j: int| 0 <= j < b@.len() ==> #[trigger] entry_models(b@)[j] == entry_model(b@[j]),
            forall|j: int|
                0 <= j < i ==> (#[trigger] entry_models(a@)[j]).0 == entry_models(b@)[j].0
                    && model_eq(entry_models(a@)[j].1, entry_models(b@)[j].1),
        decreases a@.len() - i,
    {
        let (ka, va) = &a[i];
        let (kb, vb) = &b[i];
        proof {
            assert(decreases_to!(a => a[i as int].1));
        }
        if !(*ka == *kb) {
            assert(entry_models(a@)[i as int].0 != entry_models(b@)[i as int].0);
            return false;
        }
        if !value_eq(va, vb) {
            assert(!model_eq(entry_models(a@)[i as int].1, entry_models(b@)[i as int].1));
            return false;
        }
        i = i + 1;
    }
    true
}

/// Whether two values are equal, floats compared as floats.
fn value_eq(a: &Value, b: &Value) -> (r: bool)
    ensures
        r == model_eq(value_model(*a), value_model(*b)),
    decreases a, 1int,
{
    match (a, b) {
        (Value::Null, Value::Null) => true,
        (Value::Bool(x), Value::Bool(y)) => *x == *y,
        (Value::I64(x), Value::I64(y)) => *x == *y,
        (Value::U64(x), Value::U64(y)) => *x == *y,
        (Value::F64(x), Value::F64(y)) => f64_bits_eq(*x, *y),
        (Value::String(x), Value::String(y)) => *x == *y,
        (Value::Temporal(x), Value::Temporal(y)) => *x == *y,
        (Value::Bytes(x), Value::Bytes(y)) => bytes_eq(x, y),
        (Value::Array(x), Value::Array(y)) => items_eq(x, y),
        (Value::Object(x), Value::Object(y)) => entries_eq(x, y),
        _ => false,
    }
}

impl PartialEq for Value {
    /// Equality of contents, with floats compared as floats: a NaN equals no
    /// value and the two zeros are equal.
    fn eq(&self, other: &Self) -> (r: bool) {
        value_eq(self, other)
    }
}

impl vstd::std_specs::cmp::PartialEqSpecImpl for Value {
    open spec fn obeys_eq_spec() -> bool {
        true
    }

    open spec fn eq_spec(&self, other: &Self) -> bool {
        model_eq(value_model(*self), value_model(*other))
    }
}

impl From<Object> for Value {
    fn from(value: Object) -> (r: Self) {
        Value::Object(value)
    }
}

impl vstd::std_specs::convert::FromSpecImpl<Object> for Value {
    open spec fn obeys_from_spec() -> bool {
        true
    }

    open spec fn from_spec(value: Object) -> Self {
        Value::Object(value)
    }
}

} // verus!
