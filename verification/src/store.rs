//! The chunk store: the resident chunks, by coordinate.

use crate::grid::ChunkCoordinate;
use std::collections::HashMap;
use vstd::prelude::*;
use vstd::std_specs::hash::*;
use vstd::std_specs::iter::IteratorSpec;

verus! {

broadcast use vstd::std_specs::hash::group_hash_axioms;

/// A resident chunk. `M` is the handle of a registered geometry, `E` the
/// handle of a world object.
#[derive(Debug)]
pub struct TerrainChunk<M, E> {
    /// Index into the detail table.
    pub lod: usize,
    /// The chunk's current geometry.
    pub mesh: M,
    /// The world object that shows the chunk and collides as it.
    pub entity: E,
}

/// A chunk that left the store, with the coordinate it was at.
pub struct UnloadedChunk<M, E> {
    pub position: ChunkCoordinate,
    pub chunk: TerrainChunk<M, E>,
}

/// The resident chunks, found by their coordinate.
pub struct ChunkStore<M, E> {
    chunks: HashMap<u128, TerrainChunk<M, E>>,
}

impl<M, E> View for ChunkStore<M, E> {
    type V = Map<ChunkCoordinate, TerrainChunk<M, E>>;

    closed spec fn view(&self) -> Map<ChunkCoordinate, TerrainChunk<M, E>> {
        Map::new(
            |c: ChunkCoordinate| self.chunks@.contains_key(c.key_spec() as u128),
            |c: ChunkCoordinate| self.chunks@[c.key_spec() as u128],
        )
    }
}

impl<M, E> ChunkStore<M, E> {
    /// A store without chunks.
    pub fn new() -> (store: Self)
        ensures
            store@ == Map::<ChunkCoordinate, TerrainChunk<M, E>>::empty(),
    {
        let store = ChunkStore { chunks: HashMap::new() };
        assert(store@ =~= Map::<ChunkCoordinate, TerrainChunk<M, E>>::empty());
        store
    }

    /// Whether no chunk is resident.
    pub fn is_empty(&self) -> (empty: bool)
        ensures
            empty <==> forall|c: ChunkCoordinate| !self@.contains_key(c),
    {
        let empty = self.chunks.is_empty();
        proof {
            if !empty {
                let key = choose|key: u128| self.chunks@.contains_key(key);
                ChunkCoordinate::lemma_key_surjective(key);
                assert(self@.contains_key(ChunkCoordinate::of_key(key)));
            }
        }
        empty
    }

    /// The chunk at `coordinate`, if one is resident.
    pub fn get(&self, coordinate: &ChunkCoordinate) -> (found: Option<&TerrainChunk<M, E>>)
        ensures
            found is Some <==> self@.contains_key(*coordinate),
            found matches Some(chunk) ==> *chunk == self@[*coordinate],
    {
        let key = coordinate.key();
        self.chunks.get(&key)
    }

    /// Whether a chunk is resident at `coordinate`.
    pub fn contains(&self, coordinate: &ChunkCoordinate) -> (found: bool)
        ensures
            found == self@.contains_key(*coordinate),
    {
        let key = coordinate.key();
        self.chunks.contains_key(&key)
    }

    /// Puts `chunk` at `coordinate` and returns the chunk that was there.
    pub fn insert(&mut self, coordinate: ChunkCoordinate, chunk: TerrainChunk<M, E>) -> (previous:
        Option<TerrainChunk<M, E>>)
        ensures
            final(self)@ == old(self)@.insert(coordinate, chunk),
            previous is Some <==> old(self)@.contains_key(coordinate),
            previous matches Some(p) ==> p == old(self)@[coordinate],
    {
        let previous = self.chunks.insert(coordinate.key(), chunk);
        proof {
            assert forall|c: ChunkCoordinate| c != coordinate implies c.key_spec()
                != coordinate.key_spec() by {
                c.lemma_key_injective(coordinate);
            }
            assert(self@ =~= old(self)@.insert(coordinate, chunk));
        }
        previous
    }

    /// Takes the chunk at `coordinate` out of the store.
    pub fn remove(&mut self, coordinate: &ChunkCoordinate) -> (removed: Option<TerrainChunk<M, E>>)
        ensures
            final(self)@ == old(self)@.remove(*coordinate),
            removed is Some <==> old(self)@.contains_key(*coordinate),
            removed matches Some(chunk) ==> chunk == old(self)@[*coordinate],
    {
        let key = coordinate.key();
        let removed = self.chunks.remove(&key);
        proof {
            assert forall|c: ChunkCoordinate| c != *coordinate implies c.key_spec()
                != coordinate.key_spec() by {
                c.lemma_key_injective(*coordinate);
            }
            assert(self@ =~= old(self)@.remove(*coordinate));
        }
        removed
    }

    /// The coordinates of the resident chunks, each once, in no particular
    /// order.
    pub fn positions(&self) -> (positions: Vec<ChunkCoordinate>)
        ensures
            positions@.no_duplicates(),
            forall|c: ChunkCoordinate| positions@.contains(c) <==> self@.contains_key(c),
    {
        let mut positions: Vec<ChunkCoordinate> = Vec::new();
        for key in it: self.chunks.keys()
            invariant
                positions@.len() == it.index(),
                forall|i: int|
                    0 <= i < positions@.len() ==> positions@[i].key_spec() == *it.seq()[i],
        {
            positions.push(ChunkCoordinate::from_key(*key));
        }
        proof {
            let keys = spec_keys_iter(&self.chunks).remaining();
            assert(positions@.len() == keys.len());
            assert forall|i: int, j: int|
                0 <= i < positions@.len() && 0 <= j < positions@.len() && i != j implies positions@[i]
                != positions@[j] by {
                assert(keys[i] != keys[j]);
            }
            assert forall|c: ChunkCoordinate| positions@.contains(c) <==> self@.contains_key(c) by {
                if positions@.contains(c) {
                    let i = choose|i: int| 0 <= i < positions@.len() && positions@[i] == c;
                    assert(keys.unref()[i] == c.key_spec());
                    assert(keys.unref().to_set().contains(keys.unref()[i]));
                }
                if self@.contains_key(c) {
                    let k = c.key_spec() as u128;
                    assert(keys.unref().to_set().contains(k));
                    let i = choose|i: int| 0 <= i < keys.unref().len() && keys.unref()[i] == k;
                    positions@[i].lemma_key_injective(c);
                    assert(positions@[i] == c);
                }
            }
        }
        positions
    }
}

} // verus!
