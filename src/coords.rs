use crate::arith::{floor_div, floor_div_spec, lemma_floor_div_bounds};
use vstd::prelude::*;

verus! {

/// Edge length of a chunk, in blocks.
pub const CHUNK_SIZE: i64 = 32;

/// Number of blocks in one chunk.
pub const CHUNK_VOLUME: usize = 32768;

/// Edge length of a block in fixed-point units.
pub const UNITS_PER_BLOCK: i64 = 1000;

/// Integer coordinates of one block.
#[derive(Clone, Copy, Debug, PartialEq, Eq, Structural, Hash)]
pub struct BlockPos {
    pub px: i64,
    pub py: i64,
    pub pz: i64,
}

/// Integer coordinates of one chunk.
#[derive(Clone, Copy, Debug, PartialEq, Eq, Structural, Hash)]
pub struct ChunkPos {
    pub px: i64,
    pub py: i64,
    pub pz: i64,
}

/// The chunk that holds a block: each coordinate floored by the chunk size.
pub open spec fn chunk_of(b: BlockPos) -> ChunkPos {
    ChunkPos {
        px: floor_div_spec(b.px as int, CHUNK_SIZE as int) as i64,
        py: floor_div_spec(b.py as int, CHUNK_SIZE as int) as i64,
        pz: floor_div_spec(b.pz as int, CHUNK_SIZE as int) as i64,
    }
}

/// Offset of a block inside its chunk, along one axis.
pub open spec fn local_coord(c: int) -> int {
    c - floor_div_spec(c, CHUNK_SIZE as int) * CHUNK_SIZE
}

/// Index of a block inside the storage of its chunk.
pub open spec fn local_index(b: BlockPos) -> int {
    (local_coord(b.px as int) * CHUNK_SIZE + local_coord(b.py as int)) * CHUNK_SIZE
        + local_coord(b.pz as int)
}

/// The block that holds a fixed-point position: each coordinate floored.
pub open spec fn block_of_units(x: int, y: int, z: int) -> BlockPos {
    BlockPos {
        px: floor_div_spec(x, UNITS_PER_BLOCK as int) as i64,
        py: floor_div_spec(y, UNITS_PER_BLOCK as int) as i64,
        pz: floor_div_spec(z, UNITS_PER_BLOCK as int) as i64,
    }
}

/// Local offsets always address a cell of the chunk.
pub proof fn lemma_local_index_bounds(b: BlockPos)
    ensures
        0 <= local_coord(b.px as int) < CHUNK_SIZE,
        0 <= local_coord(b.py as int) < CHUNK_SIZE,
        0 <= local_coord(b.pz as int) < CHUNK_SIZE,
        0 <= local_index(b) < CHUNK_VOLUME,
{
    lemma_floor_div_bounds(b.px as int, CHUNK_SIZE as int);
    lemma_floor_div_bounds(b.py as int, CHUNK_SIZE as int);
    lemma_floor_div_bounds(b.pz as int, CHUNK_SIZE as int);
}

impl BlockPos {
    pub fn new(px: i64, py: i64, pz: i64) -> (r: BlockPos)
        ensures
            r == (BlockPos { px, py, pz }),
    {
        BlockPos { px, py, pz }
    }

    /// The block that holds the fixed-point position `(x, y, z)`.
    pub fn from_units(x: i64, y: i64, z: i64) -> (r: BlockPos)
        ensures
            r == block_of_units(x as int, y as int, z as int),
    {
        BlockPos {
            px: floor_div(x, UNITS_PER_BLOCK),
            py: floor_div(y, UNITS_PER_BLOCK),
            pz: floor_div(z, UNITS_PER_BLOCK),
        }
    }

    /// The chunk that holds this block.
    pub fn containing_chunk_pos(&self) -> (r: ChunkPos)
        ensures
            r == chunk_of(*self),
    {
        ChunkPos {
            px: floor_div(self.px, CHUNK_SIZE),
            py: floor_div(self.py, CHUNK_SIZE),
            pz: floor_div(self.pz, CHUNK_SIZE),
        }
    }

    /// Index of this block inside the storage of its chunk.
    pub fn local_index(&self) -> (r: usize)
        ensures
            r == local_index(*self),
            r < CHUNK_VOLUME,
    {
        proof {
            lemma_local_index_bounds(*self);
        }
        let c = self.containing_chunk_pos();
        let lx = self.px - c.px * CHUNK_SIZE;
        let ly = self.py - c.py * CHUNK_SIZE;
        let lz = self.pz - c.pz * CHUNK_SIZE;
        ((lx * CHUNK_SIZE + ly) * CHUNK_SIZE + lz) as usize
    }
}

impl ChunkPos {
    pub fn new(px: i64, py: i64, pz: i64) -> (r: ChunkPos)
        ensures
            r == (ChunkPos { px, py, pz }),
    {
        ChunkPos { px, py, pz }
    }

    /// The chunk translated by `(di, dj, dk)` chunks.
    pub fn offset(&self, di: i64, dj: i64, dk: i64) -> (r: ChunkPos)
        requires
            i64::MIN <= self.px + di <= i64::MAX,
            i64::MIN <= self.py + dj <= i64::MAX,
            i64::MIN <= self.pz + dk <= i64::MAX,
        ensures
            r.px == self.px + di,
            r.py == self.py + dj,
            r.pz == self.pz + dk,
    {
        ChunkPos { px: self.px + di, py: self.py + dj, pz: self.pz + dk }
    }
}

} // verus!
