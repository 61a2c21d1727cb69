use vstd::prelude::*;
use crate::error::HikvError;
use crate::pb::abi::{Value, ValueModel};
use crate::store::{empty_table, found_view, Storage, Table};

verus! {

#[verifier::external_type_specification]
#[verifier::external_body]
#[verifier::reject_recursive_types(K)]
#[verifier::reject_recursive_types(V)]
#[verifier::reject_recursive_types(S)]
pub struct ExDashMap<K, V, S>(dashmap::DashMap<K, V, S>);

/// What a map holds: the value under each key.
pub uninterp spec fn table_of(m: dashmap::DashMap<String, Value>) -> Map<Seq<char>, ValueModel>;

/// `DashMap::new`: a map that holds nothing.
#[verifier::external_body]
fn dash_new() -> (m: dashmap::DashMap<String, Value>)
    ensures
        table_of(m) == empty_table(),
{
    dashmap::DashMap::new()
}

/// `DashMap::insert`, on a map that no one else holds: `value` is under `key`
/// afterwards, and what was there before is returned.
#[verifier::external_body]
fn dash_insert(m: &mut dashmap::DashMap<String, Value>, key: String, value: Value) -> (before:
    Option<Value>)
    ensures
        table_of(*final(m)) == table_of(*old(m)).insert(key@, value@),
        found_view(before) == table_of(*old(m)).get(key@),
{
    m.insert(key, value)
}

/// `DashMap::get`, with the value cloned out of the guard: what is under
/// `key`.
#[verifier::external_body]
fn dash_get(m: &dashmap::DashMap<String, Value>, key: &str) -> (found: Option<Value>)
    ensures
        found_view(found) == table_of(*m).get(key@),
{
    m.get(key).map(|v| v.value().clone())
}

/// `DashMap::remove`, on a map that no one else holds, with the value taken
/// out of the pair: nothing is under `key` afterwards, and what was there
/// before is returned.
#[verifier::external_body]
fn dash_remove(m: &mut dashmap::DashMap<String, Value>, key: &str) -> (before: Option<Value>)
    ensures
        table_of(*final(m)) == table_of(*old(m)).remove(key@),
        found_view(before) == table_of(*old(m)).get(key@),
{
    m.remove(key).map(|(_k, v)| v)
}

/// `DashMap::contains_key`: whether something is under `key`.
#[verifier::external_body]
fn dash_contains_key(m: &dashmap::DashMap<String, Value>, key: &str) -> (there: bool)
    ensures
        there == table_of(*m).contains_key(key@),
{
    m.contains_key(key)
}

/// `Clone` for `DashMap`: a map of its own that holds the same.
#[verifier::external_body]
fn dash_clone(m: &dashmap::DashMap<String, Value>) -> (copy: dashmap::DashMap<String, Value>)
    ensures
        table_of(copy) == table_of(*m),
{
    m.clone()
}

/// A table in memory.
#[derive(Debug)]
pub struct MemTable {
    inner: dashmap::DashMap<String, Value>,
}

impl MemTable {
    /// What the table holds.
    pub closed spec fn contents(&self) -> Table {
        table_of(self.inner)
    }

    /// A table that holds nothing.
    pub fn new() -> (r: Self)
        ensures
            r.table() == Some(empty_table()),
    {
        MemTable { inner: dash_new() }
    }
}

impl Clone for MemTable {
    /// A table of its own that holds the same.
    fn clone(&self) -> (r: Self)
        ensures
            r.table() == self.table(),
    {
        MemTable { inner: dash_clone(&self.inner) }
    }
}

impl Default for MemTable {
    fn default() -> (r: Self)
        ensures
            r.table() == Some(empty_table()),
    {
        MemTable::new()
    }
}

impl Storage for MemTable {
    /// The table is known: it is what the map holds.
    open spec fn table(&self) -> Option<Table> {
        Some(self.contents())
    }

    fn set(&mut self, key: String, value: Value) -> (r: Result<Option<Value>, HikvError>) {
        Ok(dash_insert(&mut self.inner, key, value))
    }

    fn get(&self, key: &str) -> (r: Result<Option<Value>, HikvError>) {
        Ok(dash_get(&self.inner, key))
    }

    fn del(&mut self, key: &str) -> (r: Result<Option<Value>, HikvError>) {
        Ok(dash_remove(&mut self.inner, key))
    }

    fn contains(&self, key: &str) -> (r: Result<bool, HikvError>) {
        Ok(dash_contains_key(&self.inner, key))
    }
}

} // verus!
