//! The identifier map: which name each requested secret is exposed under.

use crate::identifier::SecretId;
use std::collections::HashMap;
use vstd::prelude::*;
use vstd::std_specs::hash::*;

verus! {

broadcast use group_hash_axioms;

/// A map from secret identifiers to the names they are exposed under. An
/// identifier has at most one name: a name given later replaces the one
/// given before.
///
/// The view is the map from the identifiers' values to the names.
#[derive(Debug)]
pub struct IdentifierMap {
    names: HashMap<u128, String>,
}

impl View for IdentifierMap {
    type V = Map<u128, Seq<char>>;

    closed spec fn view(&self) -> Map<u128, Seq<char>> {
        self.names@.map_values(|name: String| name@)
    }
}

impl IdentifierMap {
    /// A map without entries.
    pub fn new() -> (r: IdentifierMap)
        ensures
            r@ == Map::<u128, Seq<char>>::empty(),
    {
        let r = IdentifierMap { names: HashMap::new() };
        assert(r@ =~= Map::<u128, Seq<char>>::empty());
        r
    }

    /// Gives `id` the name `name`, and hands back the name it had before.
    pub fn insert(&mut self, id: SecretId, name: String) -> (previous: Option<String>)
        ensures
            final(self)@ == old(self)@.insert(id.value, name@),
            match previous {
                Some(earlier) => old(self)@.contains_key(id.value) && earlier@ == old(self)@[id.value],
                None => !old(self)@.contains_key(id.value),
            },
    {
        let ghost added = name@;
        let previous = self.names.insert(id.value, name);
        assert(self@ =~= old(self)@.insert(id.value, added));
        previous
    }

    /// The name that `id` is exposed under, if it has one.
    pub fn get(&self, id: &SecretId) -> (r: Option<&String>)
        ensures
            match r {
                Some(name) => self@.contains_key(id.value) && name@ == self@[id.value],
                None => !self@.contains_key(id.value),
            },
    {
        self.names.get(&id.value)
    }

    /// Whether `id` has a name.
    pub fn contains(&self, id: &SecretId) -> (r: bool)
        ensures
            r == self@.contains_key(id.value),
    {
        self.names.contains_key(&id.value)
    }

    /// The number of identifiers that have a name.
    pub fn len(&self) -> (r: usize)
        ensures
            r == self@.len(),
    {
        assert(self@.dom() =~= self.names@.dom());
        self.names.len()
    }

    /// Whether no identifier has a name.
    pub fn is_empty(&self) -> (r: bool)
        ensures
            r == (self@.len() == 0),
    {
        self.len() == 0
    }

    /// The identifiers that have a name, each of them once. The order is
    /// that of the hash map and is not fixed.
    pub fn ids(&self) -> (r: Vec<SecretId>)
        ensures
            r@.no_duplicates(),
            r@.len() == self@.len(),
            forall|id: SecretId| r@.contains(id) <==> self@.contains_key(id.value),
    {
        let mut r: Vec<SecretId> = Vec::new();
        for key in it: self.names.keys()
            invariant
                r@.len() == it.index(),
                it.seq().no_duplicates(),
                it.seq().unref().to_set() == self.names@.dom(),
                it.seq().len() == self.names@.dom().len(),
                forall|i: int| 0 <= i < r@.len() ==> (#[trigger] r@[i]).value == *it.seq()[i],
                forall|i: int| 0 <= i < r@.len() ==> self.names@.contains_key((#[trigger] r@[i]).value),
        {
            assert(it.seq().unref()[it.index()] == *key);
            assert(it.seq().unref().to_set().contains(*key));
            r.push(SecretId { value: *key });
        }
        proof {
            let values = r@.map_values(|id: SecretId| id.value);
            assert(self@.dom() =~= self.names@.dom());
            assert(values.to_set().subset_of(self.names@.dom()));
            values.unique_seq_to_set();
            vstd::set_lib::lemma_subset_equality(values.to_set(), self.names@.dom());
            assert forall|id: SecretId| r@.contains(id) <==> self@.contains_key(id.value) by {
                if r@.contains(id) {
                    let i = choose|i: int| 0 <= i < r@.len() && r@[i] == id;
                    assert(values[i] == id.value);
                }
                if self@.contains_key(id.value) {
                    assert(values.to_set().contains(id.value));
                    let i = choose|i: int| 0 <= i < values.len() && values[i] == id.value;
                    assert(r@[i] == id);
                }
            }
        }
        r
    }
}

} // verus!
