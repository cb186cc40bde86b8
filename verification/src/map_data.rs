//! The logical side of the world: chunks, tiles, turf occupants and the
//! lookup tables that resolve an occupant to its rendering metadata.

use vstd::arithmetic::div_mod::{lemma_fundamental_div_mod, lemma_multiply_divide_lt};
use vstd::prelude::*;

verus! {

/// Side length of a square chunk, in tiles.
pub const CHUNK_SIZE: u32 = 16;

/// Number of tile slots in one chunk: the square of [`CHUNK_SIZE`].
pub const CHUNK_LENGTH: usize = 256;

/// Reference to a mesh asset owned by the materialization backend's asset
/// store. Opaque to this crate: only carried through to backend calls.
#[derive(Clone, Copy, Debug, PartialEq, Eq, Structural, Hash)]
pub struct MeshId(pub u64);

/// The occupant snapshot of a tile: the comparable value used to decide
/// whether a realized object is out of date. Two tiles with equal snapshots
/// materialize identically.
#[derive(Clone, Copy, Debug, PartialEq, Eq, Structural, Hash)]
pub struct TurfData {
    /// Index into the world's turf definition table.
    pub definition_id: u32,
}

/// One logical tile: optionally occupied by a turf.
#[derive(Clone, Copy, Debug, PartialEq, Eq, Structural)]
pub struct TileData {
    pub turf: Option<TurfData>,
}

/// Rendering metadata for one turf definition id. The mesh is absent while
/// its asset has not finished loading (or failed to load).
#[derive(Clone, Debug)]
pub struct TurfDefinition {
    pub name: String,
    pub mesh: Option<MeshId>,
}

/// One logical chunk: tile slots plus change markers, index-aligned.
/// Both sequences must have length [`CHUNK_LENGTH`].
#[derive(Clone, Debug)]
pub struct MapChunk {
    pub tiles: Vec<Option<TileData>>,
    pub changed_tiles: Vec<bool>,
}

/// Errors a reconciliation call surfaces to its caller. Both indicate caller
/// misuse, not environmental conditions, and leave all state untouched.
#[derive(Clone, Copy, Debug, PartialEq, Eq, Structural)]
pub enum MapError {
    /// A supplied logical or shadow chunk's length differs from [`CHUNK_LENGTH`].
    ShapeMismatch,
    /// The requested chunk index lies outside the world's grid, or no chunk
    /// is loaded at it.
    IndexOutOfRange,
}

/// The logical world: a row-major grid of chunks plus the turf definition
/// table. Chunk slots may be empty where no chunk is loaded.
pub struct MapData {
    /// Chunk-grid dimensions: `(width, height)`, in chunks.
    pub size: (u32, u32),
    /// Row-major chunk storage; length is `size.0 * size.1`.
    pub chunks: Vec<Option<MapChunk>>,
    /// Lookup from a turf's `definition_id` to its rendering metadata.
    pub turf_definitions: Vec<TurfDefinition>,
}

impl MapChunk {
    /// Both per-tile sequences present in full.
    pub open spec fn wf(self) -> bool {
        self.tiles@.len() == CHUNK_LENGTH && self.changed_tiles@.len() == CHUNK_LENGTH
    }
}

impl MapData {
    /// The chunk storage matches the declared grid dimensions.
    pub open spec fn wf(self) -> bool {
        self.chunks@.len() == self.size.0 as int * self.size.1 as int
    }

    /// The logical chunk stored at `index`, if the index is inside the grid
    /// and a chunk is loaded there.
    pub fn chunk(&self, index: usize) -> (result: Option<&MapChunk>)
        ensures
            match result {
                Some(chunk) => {
                    &&& index < self.chunks@.len()
                    &&& self.chunks@[index as int] matches Some(c) && *chunk == c
                },
                None => index >= self.chunks@.len() || self.chunks@[index as int] is None,
            },
    {
        if index < self.chunks.len() {
            self.chunks[index].as_ref()
        } else {
            None
        }
    }

    /// Rendering metadata for a definition id, if the table knows it.
    pub fn turf_definition(&self, definition_id: u32) -> (result: Option<&TurfDefinition>)
        ensures
            match result {
                Some(definition) => {
                    &&& (definition_id as int) < self.turf_definitions@.len()
                    &&& *definition == self.turf_definitions@[definition_id as int]
                },
                None => definition_id as int >= self.turf_definitions@.len(),
            },
    {
        if (definition_id as usize) < self.turf_definitions.len() {
            Some(&self.turf_definitions[definition_id as usize])
        } else {
            None
        }
    }

    /// Grid position of a chunk index: row-major decomposition over the grid
    /// width.
    pub fn position_from_chunk_index(size: (u32, u32), index: usize) -> (position: (u32, u32))
        requires
            (index as int) < size.0 as int * size.1 as int,
        ensures
            position.0 as int == index as int % size.0 as int,
            position.1 as int == index as int / size.0 as int,
            position.0 < size.0,
            position.1 < size.1,
    {
        proof {
            if size.0 == 0 {
                assert(size.0 as int * size.1 as int == 0);
            }
        }
        let width = size.0 as usize;
        let x = index % width;
        let y = index / width;
        proof {
            lemma_fundamental_div_mod(index as int, width as int);
            lemma_multiply_divide_lt(index as int, size.0 as int, size.1 as int);
        }
        (x as u32, y as u32)
    }
}

impl TileData {
    /// Local coordinates of a tile slot within its chunk, row-major.
    pub fn position_in_chunk(index: usize) -> (position: (u32, u32))
        requires
            index < CHUNK_LENGTH,
        ensures
            position.0 as int == index as int % CHUNK_SIZE as int,
            position.1 as int == index as int / CHUNK_SIZE as int,
            position.0 < CHUNK_SIZE,
            position.1 < CHUNK_SIZE,
    {
        let side = CHUNK_SIZE as usize;
        ((index % side) as u32, (index / side) as u32)
    }
}

} // verus!
