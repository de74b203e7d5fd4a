//! The values of a record: one for each field that holds a value, a nested
//! record as a value of its own.

use vstd::prelude::*;

verus! {

/// One value of a record.
#[derive(Debug, PartialEq, Eq)]
pub enum Value {
    /// A signed integer of any width.
    Int(i64),
    /// An unsigned integer of any width.
    UInt(u64),
    /// A 32-bit float, as its IEEE-754 bit pattern.
    Float(u32),
    /// A 64-bit float, as its IEEE-754 bit pattern.
    Double(u64),
    Bool(bool),
    /// A byte array of fixed length.
    Bytes(Vec<u8>),
    /// The values of a nested record.
    Struct(Vec<Value>),
}

/// What a [`Value`] stands for in contracts.
pub ghost enum ValueView {
    Int(i64),
    UInt(u64),
    Float(u32),
    Double(u64),
    Bool(bool),
    Bytes(Seq<u8>),
    Struct(Seq<ValueView>),
}

/// What a value stands for: itself, with sequences for vectors at any depth.
pub open spec fn value_view(value: Value) -> ValueView
    decreases value,
{
    match value {
        Value::Int(v) => ValueView::Int(v),
        Value::UInt(v) => ValueView::UInt(v),
        Value::Float(bits) => ValueView::Float(bits),
        Value::Double(bits) => ValueView::Double(bits),
        Value::Bool(b) => ValueView::Bool(b),
        Value::Bytes(b) => ValueView::Bytes(b@),
        Value::Struct(vs) => ValueView::Struct(
            Seq::new(
                vs.len() as nat,
                |i: int|
                    if 0 <= i < vs.len() {
                        value_view(vs[i])
                    } else {
                        ValueView::Bool(false)
                    },
            ),
        ),
    }
}

impl View for Value {
    type V = ValueView;

    open spec fn view(&self) -> ValueView {
        value_view(*self)
    }
}

/// The views of a sequence of values, in order.
pub open spec fn values_view(values: Seq<Value>) -> Seq<ValueView> {
    Seq::new(values.len(), |i: int| values[i]@)
}

/// The view of a nested record is made of the views of its values.
pub proof fn lemma_struct_view(values: Vec<Value>)
    ensures
        Value::Struct(values)@ == ValueView::Struct(values_view(values@)),
{
    let whole = Value::Struct(values);
    assert(whole@ is Struct);
    let inner = whole@->Struct_0;
    assert(inner.len() == values@.len());
    assert forall|i: int| 0 <= i < inner.len() implies inner[i] == values_view(values@)[i] by {
        assert(inner[i] == values[i]@);
    }
    assert(inner =~= values_view(values@));
}


impl Value {
    /// A copy of the value, nested values and all.
    pub fn duplicate(&self) -> (copy: Value)
        ensures
            copy@ == self@,
        decreases self,
    {
        match self {
            Value::Int(v) => Value::Int(*v),
            Value::UInt(v) => Value::UInt(*v),
            Value::Float(bits) => Value::Float(*bits),
            Value::Double(bits) => Value::Double(*bits),
            Value::Bool(b) => Value::Bool(*b),
            Value::Bytes(b) => {
                let mut bytes: Vec<u8> = Vec::new();
                let mut i: usize = 0;
                while i < b.len()
                    invariant
                        i <= b.len(),
                        bytes@ == b@.take(i as int),
                    decreases b.len() - i,
                {
                    bytes.push(b[i]);
                    i = i + 1;
                    assert(bytes@ =~= b@.take(i as int));
                }
                assert(b@.take(b.len() as int) =~= b@);
                Value::Bytes(bytes)
            },
            Value::Struct(vs) => {
                let mut values: Vec<Value> = Vec::new();
                let mut i: usize = 0;
                while i < vs.len()
                    invariant
                        i <= vs.len(),
                        *self == Value::Struct(*vs),
                        values@.len() == i,
                        forall|j: int| 0 <= j < i ==> values@[j]@ == vs@[j]@,
                    decreases vs.len() - i,
                {
                    proof {
                        assert(self->Struct_0 == *vs);
                        assert(decreases_to!(*self => self->Struct_0));
                        assert(decreases_to!(*vs => vs@[i as int]));
                    }
                    values.push(vs[i].duplicate());
                    i = i + 1;
                }
                proof {
                    lemma_struct_view(values);
                    lemma_struct_view(*vs);
                    assert(values_view(values@) =~= values_view(vs@));
                }
                Value::Struct(values)
            },
        }
    }
}


impl Clone for Value {
    fn clone(&self) -> (copy: Value)
        ensures
            copy@ == self@,
    {
        self.duplicate()
    }
}

} // verus!
