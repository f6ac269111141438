//! The in-memory cell-set index.
//!
//! A [`CellSet`] maps a transaction hash to its [`TransactionMeta`] and
//! represents which outputs of which transactions are currently unspent.  It
//! wraps a persistent, structurally-shared hash-trie map, so a snapshot of the
//! whole index costs O(1) and can be discarded without mutation cost when a
//! candidate branch is rejected.

use vstd::prelude::*;
use std::collections::hash_map::RandomState;
use crate::meta::{MetaV, TransactionMeta};

verus! {

#[verifier::external_type_specification]
#[verifier::external_body]
#[verifier::reject_recursive_types(K)]
#[verifier::reject_recursive_types(V)]
#[verifier::reject_recursive_types(S)]
pub struct ExImHashMap<K, V, S>(im::hashmap::HashMap<K, V, S>);

/// The persistent hash-trie map backing the index.
pub type MetaTrie = im::hashmap::HashMap<Vec<u8>, TransactionMeta, RandomState>;

/// The association a hash-trie map holds, from key bytes to the model of the
/// stored meta.
pub uninterp spec fn hamt_contents(m: MetaTrie) -> Map<Seq<u8>, MetaV>;

/// The contents of an index that holds nothing.
pub open spec fn empty_contents() -> Map<Seq<u8>, MetaV> {
    Map::empty()
}

/// Relies on `im::HashMap::new`: a freshly built map holds nothing.
#[verifier::external_body]
fn hamt_new() -> (r: MetaTrie)
    ensures
        hamt_contents(r) == empty_contents(),
{
    im::hashmap::HashMap::new()
}

/// Relies on `im::HashMap::get`: the value under the key, if the map holds
/// one; the returned copy is a clone of the held value.
#[verifier::external_body]
fn hamt_get(m: &MetaTrie, key: &Vec<u8>) -> (r: Option<TransactionMeta>)
    ensures
        match r {
            Some(v) => hamt_contents(*m).contains_key(key@) && v@ == hamt_contents(*m)[key@],
            None => !hamt_contents(*m).contains_key(key@),
        },
{
    m.get(key).cloned()
}

/// Relies on `im::HashMap::insert`: maps the key to the value and leaves
/// every other key unchanged.
#[verifier::external_body]
fn hamt_insert(m: &mut MetaTrie, key: Vec<u8>, value: TransactionMeta)
    ensures
        hamt_contents(*final(m)) == hamt_contents(*old(m)).insert(key@, value@),
{
    m.insert(key, value);
}

/// Relies on `im::HashMap::remove`: unmaps the key and leaves every other
/// key unchanged.
#[verifier::external_body]
fn hamt_remove(m: &mut MetaTrie, key: &Vec<u8>)
    ensures
        hamt_contents(*final(m)) == hamt_contents(*old(m)).remove(key@),
{
    m.remove(key);
}

/// Relies on `im::HashMap::clone`: an O(1), structurally shared copy with
/// the same contents.
#[verifier::external_body]
fn hamt_clone(m: &MetaTrie) -> (r: MetaTrie)
    ensures
        hamt_contents(r) == hamt_contents(*m),
{
    m.clone()
}

/// The in-memory index from transaction hash to spendability meta.
pub struct CellSet {
    map: MetaTrie,
}

impl View for CellSet {
    type V = Map<Seq<u8>, MetaV>;

    closed spec fn view(&self) -> Map<Seq<u8>, MetaV> {
        hamt_contents(self.map)
    }
}

impl CellSet {
    /// An empty index.
    pub fn new() -> (r: CellSet)
        ensures
            r@ == empty_contents(),
    {
        CellSet { map: hamt_new() }
    }

    /// The meta recorded for a transaction hash, if any.
    pub fn get(&self, tx_hash: &Vec<u8>) -> (r: Option<TransactionMeta>)
        ensures
            match r {
                Some(m) => self@.contains_key(tx_hash@) && m@ == self@[tx_hash@],
                None => !self@.contains_key(tx_hash@),
            },
    {
        hamt_get(&self.map, tx_hash)
    }

    /// Records a meta for a transaction hash, replacing any meta held.
    pub fn insert(&mut self, tx_hash: Vec<u8>, meta: TransactionMeta)
        ensures
            final(self)@ == old(self)@.insert(tx_hash@, meta@),
    {
        hamt_insert(&mut self.map, tx_hash, meta);
    }

    /// Removes the meta recorded for a transaction hash, if any.
    pub fn remove(&mut self, tx_hash: &Vec<u8>)
        ensures
            final(self)@ == old(self)@.remove(tx_hash@),
    {
        hamt_remove(&mut self.map, tx_hash);
    }

    /// An O(1) snapshot sharing structure with this index; mutating either
    /// afterwards leaves the other untouched.
    pub fn snapshot(&self) -> (r: CellSet)
        ensures
            r@ == self@,
    {
        CellSet { map: hamt_clone(&self.map) }
    }
}

} // verus!
