//! The coordinates whose generation job has been dispatched and whose
//! result has not been consumed yet.

use crate::grid::ChunkCoordinate;
use vstd::prelude::*;

verus! {

/// A hash set of coordinate keys, kept in the engine's `HashSet`.
#[verifier::external_body]
pub struct KeySet {
    keys: bevy::utils::HashSet<u128>,
}

/// The keys that a `KeySet` holds.
pub uninterp spec fn key_set_contents(set: KeySet) -> Set<u128>;

/// `bevy::utils::HashSet::default`: the new set holds no key.
#[verifier::external_body]
fn key_set_new() -> (set: KeySet)
    ensures
        key_set_contents(set) == Set::<u128>::empty(),
{
    KeySet { keys: bevy::utils::HashSet::default() }
}

/// `hashbrown::HashSet::contains`: whether the set holds `key`.
#[verifier::external_body]
fn key_set_contains(set: &KeySet, key: u128) -> (found: bool)
    ensures
        found == key_set_contents(*set).contains(key),
{
    set.keys.contains(&key)
}

/// `hashbrown::HashSet::insert`: adds `key`, and returns whether the set
/// did not hold it before.
#[verifier::external_body]
fn key_set_insert(set: &mut KeySet, key: u128) -> (fresh: bool)
    ensures
        key_set_contents(*final(set)) == key_set_contents(*old(set)).insert(key),
        fresh == !key_set_contents(*old(set)).contains(key),
{
    set.keys.insert(key)
}

/// `hashbrown::HashSet::remove`: takes `key` out, and returns whether the
/// set held it.
#[verifier::external_body]
fn key_set_remove(set: &mut KeySet, key: u128) -> (present: bool)
    ensures
        key_set_contents(*final(set)) == key_set_contents(*old(set)).remove(key),
        present == key_set_contents(*old(set)).contains(key),
{
    set.keys.remove(&key)
}

/// The set of pending chunk coordinates.
pub struct PendingSet {
    keys: KeySet,
}

impl View for PendingSet {
    type V = Set<ChunkCoordinate>;

    closed spec fn view(&self) -> Set<ChunkCoordinate> {
        Set::new(|c: ChunkCoordinate| key_set_contents(self.keys).contains(c.key_spec() as u128))
    }
}

impl PendingSet {
    /// An empty set.
    pub fn new() -> (set: Self)
        ensures
            set@ == Set::<ChunkCoordinate>::empty(),
    {
        let set = PendingSet { keys: key_set_new() };
        assert(set@ =~= Set::<ChunkCoordinate>::empty());
        set
    }

    /// Whether `coordinate` is pending.
    pub fn contains(&self, coordinate: &ChunkCoordinate) -> (found: bool)
        ensures
            found == self@.contains(*coordinate),
    {
        key_set_contains(&self.keys, coordinate.key())
    }

    /// Marks `coordinate` as pending. Returns whether it was not pending
    /// before.
    pub fn insert(&mut self, coordinate: ChunkCoordinate) -> (fresh: bool)
        ensures
            final(self)@ == old(self)@.insert(coordinate),
            fresh == !old(self)@.contains(coordinate),
    {
        let fresh = key_set_insert(&mut self.keys, coordinate.key());
        proof {
            assert forall|c: ChunkCoordinate| self@.contains(c) == old(self)@.insert(
                coordinate,
            ).contains(c) by {
                c.lemma_key_injective(coordinate);
            }
            assert(self@ =~= old(self)@.insert(coordinate));
        }
        fresh
    }

    /// Takes `coordinate` out of the set. Returns whether it was pending.
    pub fn remove(&mut self, coordinate: &ChunkCoordinate) -> (present: bool)
        ensures
            final(self)@ == old(self)@.remove(*coordinate),
            present == old(self)@.contains(*coordinate),
    {
        let present = key_set_remove(&mut self.keys, coordinate.key());
        proof {
            assert forall|c: ChunkCoordinate| self@.contains(c) == old(self)@.remove(
                *coordinate,
            ).contains(c) by {
                c.lemma_key_injective(*coordinate);
            }
            assert(self@ =~= old(self)@.remove(*coordinate));
        }
        present
    }
}

} // verus!
