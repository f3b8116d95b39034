use std::collections::HashMap;
use vstd::prelude::*;

verus! {

broadcast use vstd::std_specs::hash::group_hash_axioms;

/// A two-way table between entity ids: each insert records `first -> second` and
/// `second -> first`. Entities are held by their 64-bit id.
#[derive(Debug, Default)]
pub struct Bimap {
    to_second: HashMap<u64, u64>,
    to_first: HashMap<u64, u64>,
}

impl View for Bimap {
    /// The forward table and the backward table.
    type V = (Map<u64, u64>, Map<u64, u64>);

    open spec fn view(&self) -> (Map<u64, u64>, Map<u64, u64>) {
        (self.forward(), self.backward())
    }
}

impl Bimap {
    /// The table from first to second.
    pub closed spec fn forward(&self) -> Map<u64, u64> {
        self.to_second@
    }

    /// The table from second to first.
    pub closed spec fn backward(&self) -> Map<u64, u64> {
        self.to_first@
    }

    /// An empty table.
    pub fn new() -> (b: Bimap)
        ensures
            b@.0 == Map::<u64, u64>::empty(),
            b@.1 == Map::<u64, u64>::empty(),
    {
        Bimap { to_second: HashMap::new(), to_first: HashMap::new() }
    }

    /// Records `key -> value` forward and `value -> key` backward. Entries that an
    /// earlier insert made and that these two do not overwrite stay as they were.
    pub fn insert(&mut self, key: u64, value: u64)
        ensures
            final(self)@.0 == old(self)@.0.insert(key, value),
            final(self)@.1 == old(self)@.1.insert(value, key),
    {
        self.to_second.insert(key, value);
        self.to_first.insert(value, key);
    }

    /// Looks `key` up in the forward table.
    pub fn get_by_first(&self, key: &u64) -> (r: Option<&u64>)
        ensures
            match r {
                Some(v) => self@.0.contains_key(*key) && self@.0[*key] == *v,
                None => !self@.0.contains_key(*key),
            },
    {
        self.to_second.get(key)
    }

    /// Looks `value` up in the backward table.
    pub fn get_by_second(&self, value: &u64) -> (r: Option<&u64>)
        ensures
            match r {
                Some(k) => self@.1.contains_key(*value) && self@.1[*value] == *k,
                None => !self@.1.contains_key(*value),
            },
    {
        self.to_first.get(value)
    }
}

/// Law: after `insert(k, v)`, looking `k` up forward gives `v` and looking `v` up
/// backward gives `k`; every other forward key and every other backward key reads as
/// before.
pub proof fn lemma_bimap_insert_then_get(before: Bimap, after: Bimap, k: u64, v: u64, other_first: u64, other_second: u64)
    requires
        after@.0 == before@.0.insert(k, v),
        after@.1 == before@.1.insert(v, k),
    ensures
        after@.0.contains_key(k) && after@.0[k] == v,
        after@.1.contains_key(v) && after@.1[v] == k,
        other_first != k ==> after@.0.contains_key(other_first) == before@.0.contains_key(other_first)
            && (before@.0.contains_key(other_first) ==> after@.0[other_first] == before@.0[other_first]),
        other_second != v ==> after@.1.contains_key(other_second) == before@.1.contains_key(other_second)
            && (before@.1.contains_key(other_second) ==> after@.1[other_second] == before@.1[other_second]),
{
}

/// Client-side table between the entity a client spawned and the server's entity for it.
#[derive(Debug, Default)]
pub struct Entities {
    pub entities: Bimap,
}

/// The players of a game: each client id with the entity that stands for it.
#[derive(Debug, Default)]
pub struct Lobby {
    pub players: HashMap<u64, u64>,
}

impl Lobby {
    /// Takes client `id` out of the lobby and gives back its entity, if it was there.
    pub fn remove_player(&mut self, id: u64) -> (ent: Option<u64>)
        ensures
            final(self).players@ == old(self).players@.remove(id),
            ent == if old(self).players@.contains_key(id) { Some(old(self).players@[id]) } else { None },
    {
        self.players.remove(&id)
    }

    /// The entity of client `id`, if it is in the lobby.
    pub fn player_entity(&self, id: u64) -> (ent: Option<u64>)
        ensures
            ent == if self.players@.contains_key(id) { Some(self.players@[id]) } else { None },
    {
        match self.players.get(&id) {
            Some(e) => Some(*e),
            None => None,
        }
    }
}

/// The movement keys a client holds down.
#[derive(Clone, Copy, Debug, Default, PartialEq, Eq, Structural)]
pub struct MovementInput {
    pub up: bool,
    pub down: bool,
    pub left: bool,
    pub right: bool,
}

} // verus!
