use vstd::prelude::*;
use crate::error::HikvError;
use crate::pb::abi::Value;
use crate::pb::message::{parse_value, read_value, value_to_bytes};
use crate::store::{Storage, Table};

verus! {

#[verifier::external_type_specification]
#[verifier::external_body]
pub struct ExSledDb(sled::Db);

#[verifier::external_type_specification]
#[verifier::external_body]
pub struct ExSledError(sled::Error);

/// `sled::Tree::insert` on the database's default tree, with what was there
/// before copied out. What it returns depends on what the engine holds.
#[verifier::external_body]
fn sled_insert(db: &sled::Db, key: &str, data: Vec<u8>) -> (r: Result<Option<Vec<u8>>, sled::Error>) {
    db.insert(key, data).map(|before| before.map(|v| v.to_vec()))
}

/// `sled::Tree::get` on the database's default tree, with what was found
/// copied out. What it returns depends on what the engine holds.
#[verifier::external_body]
fn sled_get(db: &sled::Db, key: &str) -> (r: Result<Option<Vec<u8>>, sled::Error>) {
    db.get(key).map(|found| found.map(|v| v.to_vec()))
}

/// `sled::Tree::remove` on the database's default tree, with what was there
/// before copied out. What it returns depends on what the engine holds.
#[verifier::external_body]
fn sled_remove(db: &sled::Db, key: &str) -> (r: Result<Option<Vec<u8>>, sled::Error>) {
    db.remove(key).map(|before| before.map(|v| v.to_vec()))
}

/// `sled::Tree::contains_key` on the database's default tree. What it returns
/// depends on what the engine holds.
#[verifier::external_body]
fn sled_contains_key(db: &sled::Db, key: &str) -> (r: Result<bool, sled::Error>) {
    db.contains_key(key)
}

/// `Display` for `sled::Error`, through `to_string`: the text of the error.
#[verifier::external_body]
fn sled_error_text(e: &sled::Error) -> (text: String) {
    e.to_string()
}

/// The error for a failure of the engine, with the text of that failure.
fn engine_failed(e: sled::Error) -> (r: HikvError)
    ensures
        r is SledError,
{
    HikvError::SledError(sled_error_text(&e))
}

/// Turns an optional result inside out: nothing is `Ok(None)`, a value is
/// `Ok(Some(..))`, an error is the error.
pub fn flip<T, E>(x: Option<Result<T, E>>) -> (r: Result<Option<T>, E>)
    ensures
        r == match x {
            None => Ok(None),
            Some(Ok(v)) => Ok(Some(v)),
            Some(Err(e)) => Err(e),
        },
{
    match x {
        None => Ok(None),
        Some(Ok(v)) => Ok(Some(v)),
        Some(Err(e)) => Err(e),
    }
}

/// The value that an engine handed out as bytes, if it handed one out. Bytes
/// that spell no value are an error, not an absent value.
pub fn stored_value(raw: Option<Vec<u8>>) -> (r: Result<Option<Value>, HikvError>)
    ensures
        match raw {
            None => r matches Ok(None),
            Some(bytes) => match parse_value(bytes@) {
                Some(v) => r matches Ok(Some(found)) && found@ == v,
                None => r matches Err(HikvError::DecodeError(_)),
            },
        },
{
    flip(
        match raw {
            Some(bytes) => Some(read_value(bytes.as_slice())),
            None => None,
        },
    )
}

/// A table kept by a sled database.
#[derive(Debug)]
pub struct SledDb(pub sled::Db);

impl SledDb {
    /// The table that the open database `db` keeps.
    pub fn new(db: sled::Db) -> (r: Self)
        ensures
            r.0 == db,
    {
        SledDb(db)
    }
}

impl Storage for SledDb {
    /// The table is the engine's: the contracts cannot follow it.
    open spec fn table(&self) -> Option<Table> {
        None
    }

    /// Writes the bytes of `value` under `key`. It fails with `SledError`,
    /// which holds the engine's text, where the engine does, and with
    /// `DecodeError` where what was there before spells no value.
    fn set(&mut self, key: String, value: Value) -> (r: Result<Option<Value>, HikvError>)
        ensures
            r matches Err(e) ==> e is SledError || e is DecodeError,
    {
        let data = value_to_bytes(&value);
        match sled_insert(&self.0, key.as_str(), data) {
            Ok(before) => stored_value(before),
            Err(e) => Err(engine_failed(e)),
        }
    }

    /// Reads the bytes under `key`. It fails with `SledError`, which holds
    /// the engine's text, where the engine does, and with `DecodeError`
    /// where they spell no value.
    fn get(&self, key: &str) -> (r: Result<Option<Value>, HikvError>)
        ensures
            r matches Err(e) ==> e is SledError || e is DecodeError,
    {
        match sled_get(&self.0, key) {
            Ok(found) => stored_value(found),
            Err(e) => Err(engine_failed(e)),
        }
    }

    /// Removes `key`. It fails with `SledError`, which holds the engine's
    /// text, where the engine does, and with `DecodeError` where what was
    /// there before spells no value.
    fn del(&mut self, key: &str) -> (r: Result<Option<Value>, HikvError>)
        ensures
            r matches Err(e) ==> e is SledError || e is DecodeError,
    {
        match sled_remove(&self.0, key) {
            Ok(before) => stored_value(before),
            Err(e) => Err(engine_failed(e)),
        }
    }

    /// Asks the engine for `key`. It fails with `SledError`, which holds
    /// the engine's text, where the engine does.
    fn contains(&self, key: &str) -> (r: Result<bool, HikvError>)
        ensures
            r matches Err(e) ==> e is SledError,
    {
        match sled_contains_key(&self.0, key) {
            Ok(there) => Ok(there),
            Err(e) => Err(engine_failed(e)),
        }
    }
}

} // verus!
