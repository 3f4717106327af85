use vstd::prelude::*;
use std::collections::HashMap;

verus! {

broadcast use vstd::std_specs::hash::group_hash_axioms;

/// Records by token.
pub struct Table<V> {
    pub slots: HashMap<usize, V>,
}

impl<V> View for Table<V> {
    type V = Map<usize, V>;

    open spec fn view(&self) -> Map<usize, V> {
        self.slots@
    }
}

impl<V> Table<V> {
    /// A table without records.
    pub fn new() -> (r: Self)
        ensures
            r@ == Map::<usize, V>::empty(),
    {
        Table { slots: HashMap::new() }
    }

    /// Whether a record stands under `token`.
    pub fn contains(&self, token: usize) -> (r: bool)
        ensures
            r == self@.contains_key(token),
    {
        self.slots.contains_key(&token)
    }

    /// The record under `token`.
    pub fn get(&self, token: usize) -> (r: Option<&V>)
        ensures
            match r {
                Some(v) => self@.contains_key(token) && self@[token] == *v,
                None => !self@.contains_key(token),
            },
    {
        self.slots.get(&token)
    }

    /// Puts a record under `token`, in place of the one there.
    pub fn insert(&mut self, token: usize, value: V)
        ensures
            final(self)@ == old(self)@.insert(token, value),
    {
        self.slots.insert(token, value);
    }

    /// Takes the record under `token` out.
    pub fn remove(&mut self, token: usize) -> (r: Option<V>)
        ensures
            final(self)@ == old(self)@.remove(token),
            match r {
                Some(v) => old(self)@.contains_key(token) && old(self)@[token] == v,
                None => !old(self)@.contains_key(token),
            },
    {
        self.slots.remove(&token)
    }

    /// Whether the table holds no record.
    pub fn is_empty(&self) -> (r: bool)
        ensures
            r == self@.is_empty(),
    {
        self.slots.is_empty()
    }
}

} // verus!
