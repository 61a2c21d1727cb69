pub mod memory;
pub mod rocks_db;
pub mod sleddb;

use vstd::prelude::*;
use crate::error::HikvError;
use crate::pb::abi::{Value, ValueModel};

verus! {

/// A table from keys to values, as contracts speak of it.
pub type Table = Map<Seq<char>, ValueModel>;

/// The table that holds nothing.
pub open spec fn empty_table() -> Table {
    Map::empty()
}

/// The model of a value that may be there.
pub open spec fn found_view(found: Option<Value>) -> Option<ValueModel> {
    match found {
        Some(v) => Some(v@),
        None => None,
    }
}

/// A backend that keeps the table.
///
/// The contracts speak of the table where the backend makes it known. A
/// backend that keeps its table in an engine outside the program's own memory
/// makes none known: its operations can fail, and promise only what their own
/// contracts add.
pub trait Storage {
    /// The table that the backend holds, `None` where it cannot be told. A
    /// backend that does not say makes none known.
    open spec fn table(&self) -> Option<Table> {
        None
    }

    /// Puts `value` under `key` and returns what was there before.
    fn set(&mut self, key: String, value: Value) -> (r: Result<Option<Value>, HikvError>)
        ensures
            final(self).table() is Some <==> old(self).table() is Some,
            old(self).table() matches Some(t) ==> {
                &&& final(self).table() == Some(t.insert(key@, value@))
                &&& r matches Ok(before)
                &&& found_view(before) == t.get(key@)
            },
    ;

    /// Returns what is under `key`.
    fn get(&self, key: &str) -> (r: Result<Option<Value>, HikvError>)
        ensures
            self.table() matches Some(t) ==> (r matches Ok(found) && found_view(found) == t.get(
                key@,
            )),
    ;

    /// Takes `key` out of the table and returns what was under it.
    fn del(&mut self, key: &str) -> (r: Result<Option<Value>, HikvError>)
        ensures
            final(self).table() is Some <==> old(self).table() is Some,
            old(self).table() matches Some(t) ==> {
                &&& final(self).table() == Some(t.remove(key@))
                &&& r matches Ok(before)
                &&& found_view(before) == t.get(key@)
            },
    ;

    /// Tells whether there is something under `key`.
    fn contains(&self, key: &str) -> (r: Result<bool, HikvError>)
        ensures
            self.table() matches Some(t) ==> (r matches Ok(there) && there == t.contains_key(key@)),
    ;
}

} // verus!
