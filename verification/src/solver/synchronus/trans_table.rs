//! A table with one place for each residue of the key: a key is kept in
//! the place of its residue, and what was there before is lost.
use crate::solver::synchronus::ab_tt::Bounds;
use vstd::prelude::*;

verus! {

/// The number of places of a table.
pub const SIZE: usize = 8388617;

/// A table that keeps, in the place of each key, the key with its score
/// and what the score says of the value. A place is empty until something
/// is put there.
pub struct TranspositionTable {
    pub keys: Vec<u32>,
    pub values: Vec<i8>,
    pub bounds: Vec<Bounds>,
    pub used: Vec<bool>,
}

/// The place of a key.
pub open spec fn place(key: u32) -> int {
    key as int % 8388617
}

impl TranspositionTable {
    /// The table has all its places.
    pub open spec fn wf(&self) -> bool {
        &&& self.keys@.len() == SIZE
        &&& self.values@.len() == SIZE
        &&& self.bounds@.len() == SIZE
        &&& self.used@.len() == SIZE
    }

    /// What the table holds for a key: the entry in the place of the key
    /// where that place is in use and holds the key, nothing otherwise.
    pub open spec fn lookup(&self, key: u32) -> Option<(i8, Bounds)> {
        if self.used@[place(key)] && self.keys@[place(key)] == key {
            Some((self.values@[place(key)], self.bounds@[place(key)]))
        } else {
            None
        }
    }

    /// A table that holds nothing.
    pub fn new() -> (table: TranspositionTable)
        ensures
            table.wf(),
            forall|key: u32| table.lookup(key).is_none(),
    {
        TranspositionTable {
            keys: vec![0; SIZE],
            values: vec![0; SIZE],
            bounds: vec![Bounds::Valid; SIZE],
            used: vec![false; SIZE],
        }
    }

    pub fn index(&self, key: u32) -> (pos: usize)
        ensures
            pos == place(key),
            pos < SIZE,
    {
        (key % (SIZE as u32)) as usize
    }

    /// Keeps a score and its kind of bound for a key. What the place of
    /// the key held before is lost; the other places stay as they are.
    pub fn put(&mut self, key: u32, value: i8, bounds: Bounds)
        requires
            old(self).wf(),
        ensures
            final(self).wf(),
            final(self).lookup(key) == Some((value, bounds)),
            forall|other: u32|
                other != key ==> #[trigger] final(self).lookup(other) == (if place(other) == place(
                    key,
                ) {
                    None
                } else {
                    old(self).lookup(other)
                }),
    {
        let pos = self.index(key);
        self.keys[pos] = key;
        self.values[pos] = value;
        self.bounds[pos] = bounds;
        self.used[pos] = true;
    }

    /// The entry kept for a key, if its place still holds the key.
    pub fn get(&self, key: u32) -> (entry: Option<(i8, Bounds)>)
        requires
            self.wf(),
        ensures
            entry == self.lookup(key),
    {
        let pos = self.index(key);
        if self.used[pos] && self.keys[pos] == key {
            Some((self.values[pos], self.bounds[pos]))
        } else {
            None
        }
    }
}

} // verus!
