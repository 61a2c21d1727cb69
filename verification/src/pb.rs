pub mod abi;
pub mod message;
pub mod varint;
pub mod wire;

use vstd::prelude::*;
use vstd::slice::slice_to_vec;
use vstd::std_specs::convert::{FromSpecImpl, TryFromSpecImpl};
use crate::error::HikvError;
use crate::pb::abi::command_request::{Data, DataView};
use crate::pb::abi::value::ValueView;
use crate::pb::abi::{
    value, values_view, CommandRequest, CommandResponse, CommandResponseView, Del, Exist, Get,
    KvSet, KvSetView, Value, ValueModel,
};
use crate::pb::message::{parse_value, read_value, value_bytes, value_to_bytes};

verus! {

impl CommandRequest {
    /// The request to set `key` to `value`.
    pub fn new_set(key: &str, value: Value) -> (r: Self)
        ensures
            r@ == Some(DataView::KvSet(KvSetView { key: key@, value: Some(value@) })),
    {
        CommandRequest {
            data: Some(Data::KvSet(KvSet { key: key.to_owned(), value: Some(value) })),
        }
    }

    /// The request for the value of `key`.
    pub fn new_get(key: &str) -> (r: Self)
        ensures
            r@ == Some(DataView::Get(key@)),
    {
        CommandRequest { data: Some(Data::Get(Get { key: key.to_owned() })) }
    }

    /// The request to delete `key`.
    pub fn new_del(key: &str) -> (r: Self)
        ensures
            r@ == Some(DataView::Del(key@)),
    {
        CommandRequest { data: Some(Data::Del(Del { key: key.to_owned() })) }
    }

    /// The request to tell whether `key` is there.
    pub fn new_exist(key: &str) -> (r: Self)
        ensures
            r@ == Some(DataView::Exist(key@)),
    {
        CommandRequest { data: Some(Data::Exist(Exist { key: key.to_owned() })) }
    }
}

#[verifier::external_type_specification]
#[verifier::external_body]
pub struct ExBytes(bytes::Bytes);

/// The bytes that a `Bytes` holds, first to last.
pub uninterp spec fn bytes_of(b: bytes::Bytes) -> Seq<u8>;

/// `Bytes::to_vec`, through its view as a slice: a copy of the bytes.
#[verifier::external_body]
fn bytes_to_vec(b: &bytes::Bytes) -> (out: Vec<u8>)
    ensures
        out@ == bytes_of(*b),
{
    b.to_vec()
}

/// `Bytes::from` on a vector: the same bytes.
#[verifier::external_body]
fn bytes_from_vec(v: Vec<u8>) -> (out: bytes::Bytes)
    ensures
        bytes_of(out) == v@,
{
    bytes::Bytes::from(v)
}

/// The response that reports an error: the error's status and text, and no
/// values.
pub open spec fn error_response(e: HikvError) -> CommandResponseView {
    CommandResponseView { status: e.status(), message: e.text(), values: Seq::empty() }
}

/// The response that succeeds with the given values: status 200 and no
/// message.
pub open spec fn ok_response(values: Seq<ValueModel>) -> CommandResponseView {
    CommandResponseView { status: 200, message: Seq::empty(), values }
}

impl FromSpecImpl<HikvError> for CommandResponse {
    open spec fn obeys_from_spec() -> bool {
        false
    }

    open spec fn from_spec(err: HikvError) -> Self {
        arbitrary()
    }
}

impl From<HikvError> for CommandResponse {
    fn from(err: HikvError) -> (r: Self)
        ensures
            r@ == error_response(err),
    {
        let status: u32 = match err {
            HikvError::NotFound(_) => 404,
            HikvError::InvalidCommand(_) => 400,
            _ => 500,
        };
        let r = CommandResponse { status, message: err.to_string(), values: Vec::new() };
        assert(r@.values =~= Seq::<ValueModel>::empty());
        r
    }
}

impl FromSpecImpl<Value> for CommandResponse {
    open spec fn obeys_from_spec() -> bool {
        false
    }

    open spec fn from_spec(value: Value) -> Self {
        arbitrary()
    }
}

impl From<Value> for CommandResponse {
    fn from(value: Value) -> (r: Self)
        ensures
            r@ == ok_response(seq![value@]),
    {
        let mut values = Vec::new();
        values.push(value);
        let r = CommandResponse { status: 200, message: String::new(), values };
        assert(r@.values =~= seq![value@]);
        r
    }
}

impl FromSpecImpl<Vec<Value>> for CommandResponse {
    open spec fn obeys_from_spec() -> bool {
        false
    }

    open spec fn from_spec(values: Vec<Value>) -> Self {
        arbitrary()
    }
}

impl From<Vec<Value>> for CommandResponse {
    fn from(values: Vec<Value>) -> (r: Self)
        ensures
            r@ == ok_response(values_view(values@)),
    {
        CommandResponse { status: 200, message: String::new(), values }
    }
}

impl FromSpecImpl<bool> for Value {
    open spec fn obeys_from_spec() -> bool {
        true
    }

    open spec fn from_spec(b: bool) -> Self {
        Value { value: Some(value::Value::Bool(b)) }
    }
}

impl From<bool> for Value {
    fn from(b: bool) -> (r: Self)
        ensures
            r@ == Some(ValueView::Bool(b)),
    {
        Value { value: Some(value::Value::Bool(b)) }
    }
}

impl FromSpecImpl<String> for Value {
    open spec fn obeys_from_spec() -> bool {
        true
    }

    open spec fn from_spec(s: String) -> Self {
        Value { value: Some(value::Value::String(s)) }
    }
}

impl From<String> for Value {
    fn from(s: String) -> (r: Self)
        ensures
            r@ == Some(ValueView::String(s@)),
    {
        Value { value: Some(value::Value::String(s)) }
    }
}

impl FromSpecImpl<&str> for Value {
    open spec fn obeys_from_spec() -> bool {
        false
    }

    open spec fn from_spec(s: &str) -> Self {
        arbitrary()
    }
}

impl From<&str> for Value {
    fn from(s: &str) -> (r: Self)
        ensures
            r@ == Some(ValueView::String(s@)),
    {
        Value { value: Some(value::Value::String(s.to_owned())) }
    }
}

impl FromSpecImpl<i64> for Value {
    open spec fn obeys_from_spec() -> bool {
        true
    }

    open spec fn from_spec(i: i64) -> Self {
        Value { value: Some(value::Value::Integer(i)) }
    }
}

impl From<i64> for Value {
    fn from(i: i64) -> (r: Self)
        ensures
            r@ == Some(ValueView::Integer(i)),
    {
        Value { value: Some(value::Value::Integer(i)) }
    }
}

impl<const N: usize> FromSpecImpl<&[u8; N]> for Value {
    open spec fn obeys_from_spec() -> bool {
        false
    }

    open spec fn from_spec(buf: &[u8; N]) -> Self {
        arbitrary()
    }
}

impl<const N: usize> From<&[u8; N]> for Value {
    fn from(buf: &[u8; N]) -> (r: Self)
        ensures
            r@ == Some(ValueView::Binary(buf@)),
    {
        Value { value: Some(value::Value::Binary(slice_to_vec(vstd::array::array_as_slice(buf)))) }
    }
}

impl FromSpecImpl<bytes::Bytes> for Value {
    open spec fn obeys_from_spec() -> bool {
        false
    }

    open spec fn from_spec(buf: bytes::Bytes) -> Self {
        arbitrary()
    }
}

impl From<bytes::Bytes> for Value {
    fn from(buf: bytes::Bytes) -> (r: Self)
        ensures
            r@ == Some(ValueView::Binary(bytes_of(buf))),
    {
        Value { value: Some(value::Value::Binary(bytes_to_vec(&buf))) }
    }
}

impl TryFromSpecImpl<Value> for i64 {
    open spec fn obeys_try_from_spec() -> bool {
        false
    }

    open spec fn try_from_spec(v: Value) -> Result<Self, Self::Error> {
        arbitrary()
    }
}

impl TryFrom<Value> for i64 {
    type Error = HikvError;

    fn try_from(v: Value) -> (r: Result<Self, Self::Error>)
        ensures
            match r {
                Ok(i) => v@ == Some(ValueView::Integer(i)),
                Err(e) => {
                    &&& !(v@ matches Some(ValueView::Integer(_)))
                    &&& e matches HikvError::ConvertError(w, target)
                    &&& w == v
                    &&& target@ == "Integer"@
                },
            },
    {
        match v.value {
            Some(value::Value::Integer(i)) => Ok(i),
            _ => Err(HikvError::ConvertError(v, "Integer")),
        }
    }
}

impl TryFromSpecImpl<Value> for bool {
    open spec fn obeys_try_from_spec() -> bool {
        false
    }

    open spec fn try_from_spec(v: Value) -> Result<Self, Self::Error> {
        arbitrary()
    }
}

impl TryFrom<Value> for bool {
    type Error = HikvError;

    fn try_from(v: Value) -> (r: Result<Self, Self::Error>)
        ensures
            match r {
                Ok(b) => v@ == Some(ValueView::Bool(b)),
                Err(e) => {
                    &&& !(v@ matches Some(ValueView::Bool(_)))
                    &&& e matches HikvError::ConvertError(w, target)
                    &&& w == v
                    &&& target@ == "Boolean"@
                },
            },
    {
        match v.value {
            Some(value::Value::Bool(b)) => Ok(b),
            _ => Err(HikvError::ConvertError(v, "Boolean")),
        }
    }
}

impl TryFromSpecImpl<Value> for bytes::Bytes {
    open spec fn obeys_try_from_spec() -> bool {
        false
    }

    open spec fn try_from_spec(v: Value) -> Result<Self, Self::Error> {
        arbitrary()
    }
}

impl TryFrom<Value> for bytes::Bytes {
    type Error = HikvError;

    fn try_from(v: Value) -> (r: Result<Self, Self::Error>)
        ensures
            match r {
                Ok(b) => v@ == Some(ValueView::Binary(bytes_of(b))),
                Err(e) => {
                    &&& !(v@ matches Some(ValueView::Binary(_)))
                    &&& e matches HikvError::ConvertError(w, target)
                    &&& w == v
                    &&& target@ == "Binary"@
                },
            },
    {
        match v.value {
            Some(value::Value::Binary(b)) => Ok(bytes_from_vec(b)),
            _ => Err(HikvError::ConvertError(v, "Binary")),
        }
    }
}

impl TryFromSpecImpl<Value> for Vec<u8> {
    open spec fn obeys_try_from_spec() -> bool {
        false
    }

    open spec fn try_from_spec(v: Value) -> Result<Self, Self::Error> {
        arbitrary()
    }
}

impl TryFrom<Value> for Vec<u8> {
    type Error = HikvError;

    /// The bytes that the value is stored and sent as. They read back as the
    /// value.
    fn try_from(v: Value) -> (r: Result<Self, Self::Error>)
        ensures
            r matches Ok(bytes) && bytes@ == value_bytes(v@) && parse_value(bytes@) == Some(v@),
    {
        let bytes = value_to_bytes(&v);
        proof {
            crate::pb::message::lemma_value_round_trip(None, v@);
        }
        Ok(bytes)
    }
}

impl TryFromSpecImpl<&[u8]> for Value {
    open spec fn obeys_try_from_spec() -> bool {
        false
    }

    open spec fn try_from_spec(data: &[u8]) -> Result<Self, Self::Error> {
        arbitrary()
    }
}

impl TryFrom<&[u8]> for Value {
    type Error = HikvError;

    /// The value that `data` spells.
    fn try_from(data: &[u8]) -> (r: Result<Self, Self::Error>)
        ensures
            match r {
                Ok(v) => parse_value(data@) == Some(v@),
                Err(e) => e is DecodeError && parse_value(data@) is None,
            },
    {
        read_value(data)
    }
}

} // verus!
