use vstd::prelude::*;

verus! {

/// The scalar a [`crate::pb::abi::Value`] carries.
///
/// A floating-point scalar is held as the 64 bits of its IEEE 754 binary64
/// form, which is also what travels on the wire.
#[derive(Clone, Debug, PartialEq)]
pub enum Value {
    String(String),
    Binary(Vec<u8>),
    Integer(i64),
    Float(u64),
    Bool(bool),
}

/// Mathematical model of a scalar.
pub enum ValueView {
    String(Seq<char>),
    Binary(Seq<u8>),
    Integer(i64),
    Float(u64),
    Bool(bool),
}

impl View for Value {
    type V = ValueView;

    open spec fn view(&self) -> ValueView {
        match self {
            Value::String(s) => ValueView::String(s@),
            Value::Binary(b) => ValueView::Binary(b@),
            Value::Integer(i) => ValueView::Integer(*i),
            Value::Float(bits) => ValueView::Float(*bits),
            Value::Bool(b) => ValueView::Bool(*b),
        }
    }
}

} // verus!
