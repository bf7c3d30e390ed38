//! The connections of a loop, each under the token it is registered with.

use std::collections::BTreeMap;
use vstd::prelude::*;
use vstd::std_specs::btree::*;

verus! {

broadcast use group_btree_axioms;

/// `BTreeMap::get_mut` with a `usize` key: the entry under `token`, if there
/// is one. What is written through the reference replaces that entry and
/// nothing else changes.
#[verifier::external_body]
fn entry_mut<'a, C>(map: &'a mut BTreeMap<usize, C>, token: usize) -> (entry: Option<&'a mut C>)
    ensures
        match entry {
            Some(connection) => {
                &&& old(map)@.contains_key(token)
                &&& *connection == old(map)@[token]
                &&& final(map)@ == old(map)@.insert(token, *final(connection))
            },
            None => {
                &&& !old(map)@.contains_key(token)
                &&& final(map)@ == old(map)@
            },
        },
{
    map.get_mut(&token)
}

/// A map from tokens to connections. A token names at most one connection
/// at a time.
pub struct Registry<C> {
    connections: BTreeMap<usize, C>,
}

impl<C> View for Registry<C> {
    type V = Map<usize, C>;

    closed spec fn view(&self) -> Map<usize, C> {
        self.connections@
    }
}

impl<C> Registry<C> {
    /// A registry without connections.
    pub fn new() -> (registry: Self)
        ensures
            registry@ == Map::<usize, C>::empty(),
    {
        Registry { connections: BTreeMap::new() }
    }

    /// Puts `connection` under `token` and hands back the connection that
    /// was there before, if any.
    pub fn insert(&mut self, token: usize, connection: C) -> (displaced: Option<C>)
        ensures
            final(self)@ == old(self)@.insert(token, connection),
            displaced == (if old(self)@.contains_key(token) {
                Some(old(self)@[token])
            } else {
                None
            }),
    {
        self.connections.insert(token, connection)
    }

    /// Takes the connection under `token` out of the registry.
    pub fn remove(&mut self, token: usize) -> (removed: Option<C>)
        ensures
            final(self)@ == old(self)@.remove(token),
            removed == (if old(self)@.contains_key(token) {
                Some(old(self)@[token])
            } else {
                None
            }),
    {
        self.connections.remove(&token)
    }

    /// Whether a connection is registered under `token`.
    pub fn contains(&self, token: usize) -> (found: bool)
        ensures
            found == self@.contains_key(token),
    {
        self.connections.contains_key(&token)
    }

    /// The connection under `token`.
    pub fn get(&self, token: usize) -> (connection: Option<&C>)
        ensures
            connection == (if self@.contains_key(token) {
                Some(&self@[token])
            } else {
                None
            }),
    {
        self.connections.get(&token)
    }

    /// The connection under `token`, to read from or write to.
    pub fn get_mut(&mut self, token: usize) -> (connection: Option<&mut C>)
        ensures
            match connection {
                Some(entry) => {
                    &&& old(self)@.contains_key(token)
                    &&& *entry == old(self)@[token]
                    &&& final(self)@ == old(self)@.insert(token, *final(entry))
                },
                None => {
                    &&& !old(self)@.contains_key(token)
                    &&& final(self)@ == old(self)@
                },
            },
    {
        entry_mut(&mut self.connections, token)
    }

    /// How many connections are registered.
    pub fn len(&self) -> (count: usize)
        ensures
            count == self@.len(),
            self@.dom().finite(),
    {
        self.connections.len()
    }

    /// Whether no connection is registered.
    pub fn is_empty(&self) -> (empty: bool)
        ensures
            empty == (self@.len() == 0),
            self@.dom().finite(),
    {
        self.connections.len() == 0
    }
}

} // verus!
