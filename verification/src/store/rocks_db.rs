//! What a table kept by a RocksDB database computes around the engine's
//! calls. A write to it first reads the key, writes only where the read went
//! well, and reports what the read found.

use vstd::prelude::*;
use crate::error::HikvError;
use crate::pb::abi::Value;
use crate::pb::message::{parse_value, value_bytes, value_to_bytes};
use crate::store::sleddb::stored_value;

verus! {

/// What a read of the engine found, as a value.
pub fn convert(x: Result<Option<Vec<u8>>, HikvError>) -> (r: Result<Option<Value>, HikvError>)
    ensures
        match x {
            Err(e) => r == Err::<Option<Value>, HikvError>(e),
            Ok(None) => r matches Ok(None),
            Ok(Some(bytes)) => match parse_value(bytes@) {
                Some(v) => r matches Ok(Some(found)) && found@ == v,
                None => r matches Err(HikvError::DecodeError(_)),
            },
        },
{
    match x {
        Ok(raw) => stored_value(raw),
        Err(e) => Err(e),
    }
}

/// The bytes that a set has to write after its read: those of `value`, or
/// nothing where the read failed.
pub fn bytes_to_put(read: &Result<Option<Vec<u8>>, HikvError>, value: &Value) -> (r: Option<
    Vec<u8>,
>)
    ensures
        match r {
            Some(bytes) => read is Ok && bytes@ == value_bytes(value@),
            None => read is Err,
        },
{
    if read.is_ok() {
        Some(value_to_bytes(value))
    } else {
        None
    }
}

/// Whether a delete has to remove the key after its read: unless the read
/// failed.
pub fn should_delete(read: &Result<Option<Vec<u8>>, HikvError>) -> (r: bool)
    ensures
        r == read is Ok,
{
    read.is_ok()
}

/// What a set or a delete reports once its write is done: the write's error
/// if it failed, else what the read found.
pub fn after_write(read: Result<Option<Vec<u8>>, HikvError>, written: Result<(), HikvError>) -> (r:
    Result<Option<Value>, HikvError>)
    ensures
        match written {
            Err(e) => r == Err::<Option<Value>, HikvError>(e),
            Ok(()) => match read {
                Err(e) => r == Err::<Option<Value>, HikvError>(e),
                Ok(None) => r matches Ok(None),
                Ok(Some(bytes)) => match parse_value(bytes@) {
                    Some(v) => r matches Ok(Some(found)) && found@ == v,
                    None => r matches Err(HikvError::DecodeError(_)),
                },
            },
        },
{
    match written {
        Err(e) => Err(e),
        Ok(()) => convert(read),
    }
}

} // verus!
