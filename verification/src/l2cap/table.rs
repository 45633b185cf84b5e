//! A table of values under 16-bit identifiers, walked in ascending order.

use std::collections::BTreeMap;
use vstd::prelude::*;
use vstd::std_specs::cmp::OrdSpec;

verus! {

/// Values under 16-bit identifiers.
#[derive(Debug)]
pub struct Table<T: View> {
    entries: BTreeMap<u16, T>,
}

impl<T: View> View for Table<T> {
    type V = Map<u16, T::V>;

    closed spec fn view(&self) -> Map<u16, T::V> {
        self.entries@.map_values(|value: T| value@)
    }
}

/// Gives access to the value under a key, as `BTreeMap::get_mut` does: there is
/// a value exactly where the map has the key, and what is left in it afterwards
/// is what the map then holds under that key, with all else unchanged.
#[verifier::external_body]
fn entry_mut<T>(entries: &mut BTreeMap<u16, T>, key: u16) -> (found: Option<&mut T>)
    ensures
        match found {
            Some(value) => old(entries)@.contains_key(key) && *value == old(entries)@[key] && final(entries)@ == old(entries)@.insert(key, *final(value)),
            None => !old(entries)@.contains_key(key) && final(entries)@ == old(entries)@,
        },
{
    entries.get_mut(&key)
}

impl<T: View> Table<T> {
    pub fn new() -> (table: Self)
        ensures
            table@ == Map::<u16, T::V>::empty(),
    {
        let table = Table { entries: BTreeMap::new() };
        assert(table@ =~= Map::<u16, T::V>::empty());
        table
    }

    pub fn contains(&self, key: u16) -> (found: bool)
        ensures
            found == self@.contains_key(key),
    {
        broadcast use vstd::std_specs::btree::group_btree_axioms;

        self.entries.contains_key(&key)
    }

    pub fn get(&self, key: u16) -> (found: Option<&T>)
        ensures
            match found {
                Some(value) => self@.contains_key(key) && value@ == self@[key],
                None => !self@.contains_key(key),
            },
    {
        broadcast use vstd::std_specs::btree::group_btree_axioms;

        self.entries.get(&key)
    }

    pub fn get_mut(&mut self, key: u16) -> (found: Option<&mut T>)
        ensures
            match found {
                Some(value) => old(self)@.contains_key(key) && value@ == old(self)@[key] && final(self)@ == old(self)@.insert(key, final(value)@),
                None => !old(self)@.contains_key(key) && final(self)@ == old(self)@,
            },
    {
        let ghost before = self.entries@;
        let found = entry_mut(&mut self.entries, key);
        proof {
            if found is Some {
                let last = *final(found->0);
                assert(before.insert(key, last).map_values(|value: T| value@) =~= before.map_values(
                    |value: T| value@,
                ).insert(key, last@));
            }
        }
        found
    }

    /// Takes the value under a key out of the table.
    pub fn take(&mut self, key: u16) -> (found: Option<T>)
        ensures
            match found {
                Some(value) => old(self)@.contains_key(key) && value@ == old(self)@[key],
                None => !old(self)@.contains_key(key),
            },
            final(self)@ == old(self)@.remove(key),
    {
        broadcast use vstd::std_specs::btree::group_btree_axioms;

        let found = self.entries.remove(&key);
        assert(self@ =~= old(self)@.remove(key));
        found
    }

    /// Puts a value under a key, in place of any value that was there.
    pub fn put(&mut self, key: u16, value: T)
        ensures
            final(self)@ == old(self)@.insert(key, value@),
    {
        broadcast use vstd::std_specs::btree::group_btree_axioms;

        let ghost model = value@;
        self.entries.insert(key, value);
        assert(self@ =~= old(self)@.insert(key, model));
    }

    /// The keys in use, in ascending order.
    pub fn keys(&self) -> (keys: Vec<u16>)
        ensures
            forall|i: int, j: int| 0 <= i < j < keys@.len() ==> keys@[i] < keys@[j],
            forall|key: u16| #[trigger] self@.contains_key(key) <==> keys@.contains(key),
    {
        broadcast use vstd::std_specs::btree::group_btree_axioms;

        let mut keys: Vec<u16> = Vec::new();
        let walk = self.entries.keys();
        let ghost all = vstd::std_specs::iter::IteratorSpec::remaining(&walk);
        for key in steps: self.entries.keys()
            invariant
                keys@ =~= steps.seq().unref().take(steps.index()),
        {
            keys.push(*key);
        }
        proof {
            assert(keys@ =~= all.unref());
            assert(vstd::laws_cmp::obeys_cmp::<&u16>());
            assert forall|i: int, j: int| 0 <= i < j < keys@.len() implies keys@[i] < keys@[j] by {
                assert(OrdSpec::cmp_spec(&all[i], &all[j]) is Less);
            }
            assert forall|key: u16| #[trigger] self@.contains_key(key) <==> keys@.contains(key) by {
                assert(keys@.to_set().contains(key) <==> self.entries@.dom().contains(key));
            }
        }
        keys
    }
}

} // verus!
