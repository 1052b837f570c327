use vstd::prelude::*;

use dashmap::DashMap;

use crate::keyed::{keys_unique, map_of};
use crate::token::EdgeToken;

verus! {

/// The records that a token map holds, by token string.
pub uninterp spec fn token_map_contents(m: DashMap<String, EdgeToken>) -> Map<Seq<char>, EdgeToken>;

/// Relies on `DashMap::new`: a map with no entries.
#[verifier::external_body]
fn map_new() -> (r: DashMap<String, EdgeToken>)
    ensures
        token_map_contents(r).dom().len() == 0,
        token_map_contents(r).dom().finite(),
{
    DashMap::new()
}

/// Relies on `DashMap::insert`: afterwards `key` maps to `value`, and no
/// other key changes.
#[verifier::external_body]
fn map_insert(m: &mut DashMap<String, EdgeToken>, key: String, value: EdgeToken)
    ensures
        token_map_contents(*final(m)) == token_map_contents(*old(m)).insert(key@, value),
{
    m.insert(key, value);
}

/// Relies on `DashMap::get`: the record under `key`, if there is one.
#[verifier::external_body]
fn map_get(m: &DashMap<String, EdgeToken>, key: &String) -> (r: Option<EdgeToken>)
    ensures
        match r {
            Some(t) => token_map_contents(*m).contains_key(key@) && t == token_map_contents(*m)[key@],
            None => !token_map_contents(*m).contains_key(key@),
        },
{
    m.get(key).map(|e| e.value().duplicate())
}

/// Relies on `DashMap::len`: the number of entries.
#[verifier::external_body]
fn map_len(m: &DashMap<String, EdgeToken>) -> (r: usize)
    ensures
        r == token_map_contents(*m).dom().len(),
{
    m.len()
}

/// Relies on `DashMap::iter`: every entry, each once, in no set order.
#[verifier::external_body]
fn map_entries(m: &DashMap<String, EdgeToken>) -> (r: Vec<(String, EdgeToken)>)
    ensures
        keys_unique(r@),
        map_of(r@) == token_map_contents(*m),
{
    m.iter().map(|e| (e.key().clone(), e.value().duplicate())).collect()
}

/// The token cache: validated and rejected token records, keyed by token
/// string, in a concurrent map.
pub struct TokenCache {
    map: DashMap<String, EdgeToken>,
}

impl View for TokenCache {
    type V = Map<Seq<char>, EdgeToken>;

    closed spec fn view(&self) -> Map<Seq<char>, EdgeToken> {
        token_map_contents(self.map)
    }
}

impl TokenCache {
    pub fn new() -> (r: TokenCache)
        ensures
            r@ == Map::<Seq<char>, EdgeToken>::empty(),
    {
        TokenCache { map: map_new() }
    }

    /// Publishes `value` under `key`.
    pub fn insert(&mut self, key: String, value: EdgeToken)
        ensures
            final(self)@ == old(self)@.insert(key@, value),
    {
        map_insert(&mut self.map, key, value);
    }

    /// The record under `key`, if there is one.
    pub fn get(&self, key: &String) -> (r: Option<EdgeToken>)
        ensures
            match r {
                Some(t) => self@.contains_key(key@) && t == self@[key@],
                None => !self@.contains_key(key@),
            },
    {
        map_get(&self.map, key)
    }

    /// The number of records.
    pub fn len(&self) -> (r: usize)
        ensures
            r == self@.dom().len(),
    {
        map_len(&self.map)
    }

    /// Every (token string, record) pair, each once, in no set order.
    pub fn entries(&self) -> (r: Vec<(String, EdgeToken)>)
        ensures
            keys_unique(r@),
            map_of(r@) == self@,
    {
        map_entries(&self.map)
    }
}

} // verus!
