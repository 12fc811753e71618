use crate::coords::ChunkPos;
use vstd::prelude::*;

verus! {

/// How many chunks are kept around the player, independently along each axis
/// and in each direction.
#[derive(Clone, Copy, Debug, PartialEq, Eq, Structural)]
pub struct RenderDistance {
    pub x_max: u64,
    pub x_min: u64,
    pub y_max: u64,
    pub y_min: u64,
    pub z_max: u64,
    pub z_min: u64,
}

/// `d` lies within `[-below, above]`.
pub open spec fn within(d: int, below: u64, above: u64) -> bool {
    -(below as int) <= d && d <= above as int
}

impl RenderDistance {
    /// `chunk` lies within the bounds counted from `player_chunk`, per axis.
    pub open spec fn visible(&self, player_chunk: ChunkPos, chunk: ChunkPos) -> bool {
        &&& within(chunk.px - player_chunk.px, self.x_min, self.x_max)
        &&& within(chunk.py - player_chunk.py, self.y_min, self.y_max)
        &&& within(chunk.pz - player_chunk.pz, self.z_min, self.z_max)
    }

    /// Whether a chunk is relevant to a player standing in `player_chunk`.
    pub fn is_chunk_visible(&self, player_chunk: ChunkPos, chunk: ChunkPos) -> (r: bool)
        ensures
            r == self.visible(player_chunk, chunk),
    {
        let dx = chunk.px as i128 - player_chunk.px as i128;
        let dy = chunk.py as i128 - player_chunk.py as i128;
        let dz = chunk.pz as i128 - player_chunk.pz as i128;
        -(self.x_min as i128) <= dx && dx <= self.x_max as i128 && -(self.y_min as i128) <= dy
            && dy <= self.y_max as i128 && -(self.z_min as i128) <= dz && dz
            <= self.z_max as i128
    }
}

/// A chunk offset from the player's chunk along one axis by exactly a
/// configured bound, in either direction, is relevant; one chunk further is
/// not. The answer depends on its arguments alone.
pub proof fn lemma_visibility_bounds(rd: RenderDistance, p: ChunkPos, c: ChunkPos)
    ensures
        c.py == p.py && c.pz == p.pz ==> {
            &&& c.px - p.px == rd.x_max ==> rd.visible(p, c)
            &&& c.px - p.px == rd.x_max + 1 ==> !rd.visible(p, c)
            &&& p.px - c.px == rd.x_min ==> rd.visible(p, c)
            &&& p.px - c.px == rd.x_min + 1 ==> !rd.visible(p, c)
        },
        c.px == p.px && c.pz == p.pz ==> {
            &&& c.py - p.py == rd.y_max ==> rd.visible(p, c)
            &&& c.py - p.py == rd.y_max + 1 ==> !rd.visible(p, c)
            &&& p.py - c.py == rd.y_min ==> rd.visible(p, c)
            &&& p.py - c.py == rd.y_min + 1 ==> !rd.visible(p, c)
        },
        c.px == p.px && c.py == p.py ==> {
            &&& c.pz - p.pz == rd.z_max ==> rd.visible(p, c)
            &&& c.pz - p.pz == rd.z_max + 1 ==> !rd.visible(p, c)
            &&& p.pz - c.pz == rd.z_min ==> rd.visible(p, c)
            &&& p.pz - c.pz == rd.z_min + 1 ==> !rd.visible(p, c)
        },
{
}

} // verus!
