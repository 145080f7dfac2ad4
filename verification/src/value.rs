//! The value model: a closed, recursive tagged union of everything the format
//! can carry, together with the mathematical view that contracts speak of.

use vstd::prelude::*;

verus! {

/// An integer, tagged by the signedness of the wire form that carries it.
#[derive(Debug, Clone, Copy, PartialEq, Eq)]
pub enum Integer {
    U64(u64),
    I64(i64),
}

impl From<i64> for Integer {
    fn from(v: i64) -> (r: Self) {
        Integer::I64(v)
    }
}

impl vstd::std_specs::convert::FromSpecImpl<i64> for Integer {
    open spec fn obeys_from_spec() -> bool {
        true
    }

    open spec fn from_spec(v: i64) -> Self {
        Integer::I64(v)
    }
}

impl From<u64> for Integer {
    fn from(v: u64) -> (r: Self) {
        Integer::U64(v)
    }
}

impl vstd::std_specs::convert::FromSpecImpl<u64> for Integer {
    open spec fn obeys_from_spec() -> bool {
        true
    }

    open spec fn from_spec(v: u64) -> Self {
        Integer::U64(v)
    }
}

/// An application-defined payload under a signed 8-bit type identifier.
/// Identifier `-1` is reserved for timestamps.
#[derive(Debug, PartialEq, Eq)]
pub struct Extension {
    pub type_id: i8,
    pub data: Vec<u8>,
}

/// Any value the format can carry.
///
/// `Float` holds the IEEE-754 binary64 bit pattern of the number, so that two
/// values are equal exactly when they are written as the same bytes.
#[derive(Debug, PartialEq)]
pub enum Value {
    Nil,
    Boolean(bool),
    Integer(Integer),
    Float(u64),
    String(String),
    Binary(Vec<u8>),
    Array(Vec<Value>),
    Mapping(Vec<(Value, Value)>),
    Extension(Extension),
}

/// The mathematical content of an [`Extension`].
pub ghost struct ExtensionView {
    pub type_id: i8,
    pub data: Seq<u8>,
}

/// The mathematical content of a [`Value`]: sequences in place of vectors,
/// and a string as the sequence of its characters.
pub ghost enum ValueView {
    Nil,
    Boolean(bool),
    Integer(Integer),
    Float(u64),
    String(Seq<char>),
    Binary(Seq<u8>),
    Array(Seq<ValueView>),
    Mapping(Seq<(ValueView, ValueView)>),
    Extension(ExtensionView),
}

impl View for Extension {
    type V = ExtensionView;

    open spec fn view(&self) -> ExtensionView {
        ExtensionView { type_id: self.type_id, data: self.data@ }
    }
}

impl View for Value {
    type V = ValueView;

    open spec fn view(&self) -> ValueView {
        value_view(*self)
    }
}

/// The mathematical content of a value.
pub open spec fn value_view(v: Value) -> ValueView
    decreases v,
{
    match v {
        Value::Nil => ValueView::Nil,
        Value::Boolean(b) => ValueView::Boolean(b),
        Value::Integer(i) => ValueView::Integer(i),
        Value::Float(bits) => ValueView::Float(bits),
        Value::String(s) => ValueView::String(s@),
        Value::Binary(b) => ValueView::Binary(b@),
        Value::Array(items) => ValueView::Array(
            Seq::new(
                items@.len(),
                |i: int|
                    if 0 <= i < items.len() {
                        value_view(items[i])
                    } else {
                        ValueView::Nil
                    },
            ),
        ),
        Value::Mapping(pairs) => ValueView::Mapping(
            Seq::new(
                pairs@.len(),
                |i: int|
                    if 0 <= i < pairs.len() {
                        (value_view(pairs[i].0), value_view(pairs[i].1))
                    } else {
                        (ValueView::Nil, ValueView::Nil)
                    },
            ),
        ),
        Value::Extension(e) => ValueView::Extension(e@),
    }
}

impl Clone for Extension {
    fn clone(&self) -> (r: Self)
        ensures
            r@ == self@,
    {
        let data = self.data.clone();
        assert(data@ =~= self.data@);
        Extension { type_id: self.type_id, data }
    }
}

impl Clone for Value {
    fn clone(&self) -> (r: Self)
        ensures
            r@ == self@,
        decreases self,
    {
        match self {
            Value::Nil => Value::Nil,
            Value::Boolean(b) => Value::Boolean(*b),
            Value::Integer(i) => Value::Integer(*i),
            Value::Float(bits) => Value::Float(*bits),
            Value::String(s) => Value::String(s.clone()),
            Value::Binary(b) => {
                let bytes = b.clone();
                assert(bytes@ =~= b@);
                Value::Binary(bytes)
            },
            Value::Array(items) => {
                let out = clone_items(items.as_slice());
                proof {
                    lemma_array_view(*items);
                    lemma_array_view(out);
                }
                Value::Array(out)
            },
            Value::Mapping(pairs) => {
                let out = clone_pairs(pairs.as_slice());
                proof {
                    lemma_mapping_view(*pairs);
                    lemma_mapping_view(out);
                }
                Value::Mapping(out)
            },
            Value::Extension(e) => Value::Extension(e.clone()),
        }
    }
}

/// Copies of the elements, in order.
pub fn clone_items(items: &[Value]) -> (out: Vec<Value>)
    ensures
        views(out@) == views(items@),
    decreases items@,
{
    let mut out: Vec<Value> = Vec::new();
    let mut i: usize = 0;
    while i < items.len()
        invariant
            i <= items.len(),
            out@.len() == i,
            forall|j: int| 0 <= j < i ==> (#[trigger] out@[j])@ == items@[j]@,
        decreases items.len() - i,
    {
        out.push(items[i].clone());
        i += 1;
    }
    assert(views(out@) =~= views(items@));
    out
}

/// Copies of the pairs, in order.
pub fn clone_pairs(pairs: &[(Value, Value)]) -> (out: Vec<(Value, Value)>)
    ensures
        pair_views(out@) == pair_views(pairs@),
    decreases pairs@,
{
    let mut out: Vec<(Value, Value)> = Vec::new();
    let mut i: usize = 0;
    while i < pairs.len()
        invariant
            i <= pairs.len(),
            out@.len() == i,
            forall|j: int|
                0 <= j < i ==> (#[trigger] out@[j]).0@ == pairs@[j].0@ && out@[j].1@
                    == pairs@[j].1@,
        decreases pairs.len() - i,
    {
        out.push((pairs[i].0.clone(), pairs[i].1.clone()));
        i += 1;
    }
    assert(pair_views(out@) =~= pair_views(pairs@));
    out
}

/// The views of a sequence of values, element by element.
pub open spec fn views(items: Seq<Value>) -> Seq<ValueView> {
    Seq::new(items.len(), |i: int| items[i]@)
}

/// The views of a sequence of pairs, key by key and value by value.
pub open spec fn pair_views(pairs: Seq<(Value, Value)>) -> Seq<(ValueView, ValueView)> {
    Seq::new(pairs.len(), |i: int| (pairs[i].0@, pairs[i].1@))
}

/// An array is viewed as the views of its elements.
pub proof fn lemma_array_view(items: Vec<Value>)
    ensures
        Value::Array(items)@ == ValueView::Array(views(items@)),
{
    let v = Value::Array(items)@;
    assert(v is Array);
    assert(v->Array_0.len() == items@.len());
    assert forall|i: int| 0 <= i < items@.len() implies v->Array_0[i] == views(items@)[i] by {
        assert(items[i] == items@[i]);
    }
    assert(v->Array_0 =~= views(items@));
}

/// A map is viewed as the views of its pairs.
pub proof fn lemma_mapping_view(pairs: Vec<(Value, Value)>)
    ensures
        Value::Mapping(pairs)@ == ValueView::Mapping(pair_views(pairs@)),
{
    let v = Value::Mapping(pairs)@;
    assert(v is Mapping);
    assert(v->Mapping_0.len() == pairs@.len());
    assert forall|i: int| 0 <= i < pairs@.len() implies v->Mapping_0[i] == pair_views(
        pairs@,
    )[i] by {
        assert(pairs[i] == pairs@[i]);
    }
    assert(v->Mapping_0 =~= pair_views(pairs@));
}

} // verus!
