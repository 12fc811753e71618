use crate::coords::{chunk_of, lemma_local_index_bounds, local_index, BlockPos, ChunkPos, CHUNK_VOLUME};
use crate::render_distance::RenderDistance;
use vstd::prelude::*;

verus! {

/// Block ids of one chunk. Id 0 is air.
#[derive(Clone, Debug)]
pub struct Chunk {
    pub pos: ChunkPos,
    pub data: Vec<u16>,
}

/// Light levels of one chunk, laid out as the blocks of a [`Chunk`].
#[derive(Clone, Debug)]
pub struct LightChunk {
    pub pos: ChunkPos,
    pub light: Vec<u8>,
}

impl Chunk {
    pub open spec fn wf(&self) -> bool {
        self.data@.len() == CHUNK_VOLUME
    }

    /// A chunk of air at `pos`.
    pub fn new(pos: ChunkPos) -> (r: Chunk)
        ensures
            r.wf(),
            r.pos == pos,
            forall|i: int| 0 <= i < CHUNK_VOLUME ==> r.data@[i] == 0,
    {
        Chunk { pos, data: vec![0u16; CHUNK_VOLUME] }
    }

    /// The id of block `b`, which lies in this chunk.
    pub fn get_block(&self, b: BlockPos) -> (r: u16)
        requires
            self.wf(),
        ensures
            r == self.data@[local_index(b)],
    {
        self.data[b.local_index()]
    }

    /// Writes the id of block `b`, which lies in this chunk.
    pub fn set_block(&mut self, b: BlockPos, id: u16)
        requires
            old(self).wf(),
        ensures
            final(self).wf(),
            final(self).pos == old(self).pos,
            final(self).data@ == old(self).data@.update(local_index(b), id),
    {
        let i = b.local_index();
        self.data.set(i, id);
    }
}

impl LightChunk {
    pub open spec fn wf(&self) -> bool {
        self.light@.len() == CHUNK_VOLUME
    }

    /// A chunk of darkness at `pos`.
    pub fn new(pos: ChunkPos) -> (r: LightChunk)
        ensures
            r.wf(),
            r.pos == pos,
            forall|i: int| 0 <= i < CHUNK_VOLUME ==> r.light@[i] == 0,
    {
        LightChunk { pos, light: vec![0u8; CHUNK_VOLUME] }
    }

    /// Writes the light level of block `b`, which lies in this chunk.
    pub fn set_light(&mut self, b: BlockPos, level: u8)
        requires
            old(self).wf(),
        ensures
            final(self).wf(),
            final(self).pos == old(self).pos,
            final(self).light@ == old(self).light@.update(local_index(b), level),
    {
        let i = b.local_index();
        self.light.set(i, level);
    }
}

/// The positions are pairwise distinct.
pub open spec fn unique(s: Seq<ChunkPos>) -> bool {
    forall|i: int, j: int| 0 <= i < j < s.len() ==> s[i] != s[j]
}

/// Where `c` stands in `s`.
pub open spec fn index_in(s: Seq<ChunkPos>, c: ChunkPos) -> int {
    choose|i: int| 0 <= i < s.len() && s[i] == c
}

pub open spec fn chunk_positions(s: Seq<Chunk>) -> Seq<ChunkPos> {
    s.map_values(|ch: Chunk| ch.pos)
}

pub open spec fn light_positions(s: Seq<LightChunk>) -> Seq<ChunkPos> {
    s.map_values(|l: LightChunk| l.pos)
}

/// In a sequence without repetition, a position found at `i` is found at `i`
/// alone.
pub proof fn lemma_index_in(s: Seq<ChunkPos>, i: int)
    requires
        unique(s),
        0 <= i < s.len(),
    ensures
        s.contains(s[i]),
        index_in(s, s[i]) == i,
{
    assert(s[i] == s[i]);
    let j = index_in(s, s[i]);
    assert(0 <= j < s.len() && s[j] == s[i]);
}

/// The loaded part of a voxel world: block and light data per chunk. A chunk
/// is loaded with its light data, and both leave together.
pub struct World {
    chunks: Vec<Chunk>,
    light: Vec<LightChunk>,
}

impl World {
    pub closed spec fn wf(&self) -> bool {
        &&& self.chunks@.len() == self.light@.len()
        &&& forall|i: int| 0 <= i < self.chunks@.len() ==> self.chunks@[i].pos == self.light@[i].pos
        &&& forall|i: int| 0 <= i < self.chunks@.len() ==> self.chunks@[i].wf()
        &&& forall|i: int| 0 <= i < self.light@.len() ==> self.light@[i].wf()
        &&& unique(chunk_positions(self.chunks@))
    }

    /// Block ids of each loaded chunk.
    pub closed spec fn chunks_view(&self) -> Map<ChunkPos, Seq<u16>> {
        let ps = chunk_positions(self.chunks@);
        Map::new(|c: ChunkPos| ps.contains(c), |c: ChunkPos| self.chunks@[index_in(ps, c)].data@)
    }

    /// Light levels of each chunk that has light data.
    pub closed spec fn lights_view(&self) -> Map<ChunkPos, Seq<u8>> {
        let ps = light_positions(self.light@);
        Map::new(|c: ChunkPos| ps.contains(c), |c: ChunkPos| self.light@[index_in(ps, c)].light@)
    }

    /// The id of block `b`: 0 where its chunk is not loaded.
    pub open spec fn block_at(&self, b: BlockPos) -> u16 {
        if self.chunks_view().contains_key(chunk_of(b)) {
            self.chunks_view()[chunk_of(b)][local_index(b)]
        } else {
            0
        }
    }

    /// Light level of block `b`: 0 where its chunk is not loaded.
    pub open spec fn light_at(&self, b: BlockPos) -> u8 {
        if self.lights_view().contains_key(chunk_of(b)) {
            self.lights_view()[chunk_of(b)][local_index(b)]
        } else {
            0
        }
    }

    /// The entry at `i` is what both views hold for its position.
    proof fn lemma_entry(&self, i: int)
        requires
            self.wf(),
            0 <= i < self.chunks@.len(),
        ensures
            self.chunks_view().contains_key(self.chunks@[i].pos),
            self.chunks_view()[self.chunks@[i].pos] == self.chunks@[i].data@,
            self.lights_view().contains_key(self.chunks@[i].pos),
            self.lights_view()[self.chunks@[i].pos] == self.light@[i].light@,
    {
        let ps = chunk_positions(self.chunks@);
        let ls = light_positions(self.light@);
        assert(ps =~= ls);
        lemma_index_in(ps, i);
    }

    /// Every loaded position is held by one entry.
    proof fn lemma_dom(&self, c: ChunkPos)
        requires
            self.wf(),
        ensures
            self.chunks_view().contains_key(c) == exists|i: int|
                0 <= i < self.chunks@.len() && self.chunks@[i].pos == c,
            self.lights_view().contains_key(c) == self.chunks_view().contains_key(c),
    {
        let ps = chunk_positions(self.chunks@);
        let ls = light_positions(self.light@);
        assert(ps =~= ls);
        if ps.contains(c) {
            let i = choose|i: int| 0 <= i < ps.len() && ps[i] == c;
            assert(self.chunks@[i].pos == c);
        }
        if exists|i: int| 0 <= i < self.chunks@.len() && self.chunks@[i].pos == c {
            let i = choose|i: int| 0 <= i < self.chunks@.len() && self.chunks@[i].pos == c;
            assert(ps[i] == c);
        }
    }

    /// A world with nothing loaded.
    pub fn new() -> (r: World)
        ensures
            r.wf(),
            r.chunks_view() == Map::<ChunkPos, Seq<u16>>::empty(),
            r.lights_view() == Map::<ChunkPos, Seq<u8>>::empty(),
    {
        let r = World { chunks: Vec::new(), light: Vec::new() };
        assert(r.chunks_view() =~= Map::<ChunkPos, Seq<u16>>::empty());
        assert(r.lights_view() =~= Map::<ChunkPos, Seq<u8>>::empty());
        r
    }

    /// Where the chunk at `c` is stored.
    fn find(&self, c: ChunkPos) -> (r: Option<usize>)
        requires
            self.wf(),
        ensures
            match r {
                Some(i) => i < self.chunks@.len() && self.chunks@[i as int].pos == c,
                None => !self.chunks_view().contains_key(c),
            },
    {
        let mut i: usize = 0;
        while i < self.chunks.len()
            invariant
                self.wf(),
                i <= self.chunks@.len(),
                forall|j: int| 0 <= j < i ==> self.chunks@[j].pos != c,
            decreases self.chunks@.len() - i,
        {
            if self.chunks[i].pos == c {
                return Some(i);
            }
            i = i + 1;
        }
        proof {
            self.lemma_dom(c);
        }
        None
    }

    /// Whether block data for `c` is loaded.
    pub fn has_chunk(&self, c: ChunkPos) -> (r: bool)
        requires
            self.wf(),
        ensures
            r == self.chunks_view().contains_key(c),
    {
        match self.find(c) {
            Some(i) => {
                proof {
                    self.lemma_entry(i as int);
                }
                true
            },
            None => false,
        }
    }

    /// Whether light data for `c` is loaded.
    pub fn has_light_chunk(&self, c: ChunkPos) -> (r: bool)
        requires
            self.wf(),
        ensures
            r == self.lights_view().contains_key(c),
    {
        proof {
            self.lemma_dom(c);
        }
        self.has_chunk(c)
    }

    /// The id of block `b`, 0 where its chunk is not loaded.
    pub fn get_block(&self, b: BlockPos) -> (r: u16)
        requires
            self.wf(),
        ensures
            r == self.block_at(b),
    {
        match self.find(b.containing_chunk_pos()) {
            Some(i) => {
                proof {
                    self.lemma_entry(i as int);
                }
                self.chunks[i].get_block(b)
            },
            None => 0,
        }
    }

    /// The light level of block `b`, 0 where its chunk is not loaded.
    pub fn get_light(&self, b: BlockPos) -> (r: u8)
        requires
            self.wf(),
        ensures
            r == self.light_at(b),
    {
        match self.find(b.containing_chunk_pos()) {
            Some(i) => {
                proof {
                    self.lemma_entry(i as int);
                    lemma_local_index_bounds(b);
                }
                self.light[i].light[b.local_index()]
            },
            None => {
                proof {
                    self.lemma_dom(chunk_of(b));
                }
                0
            },
        }
    }

    /// `b` is `a` with the entry at `c` set to block data `d` and light data
    /// `l`, every other entry kept.
    proof fn lemma_set_entry(a: &World, b: &World, c: ChunkPos, d: Seq<u16>, l: Seq<u8>)
        requires
            a.wf(),
            b.wf(),
            exists|j: int| 0 <= j < b.chunks@.len() && b.chunks@[j].pos == c,
            forall|j: int|
                0 <= j < b.chunks@.len() && b.chunks@[j].pos == c ==> b.chunks@[j].data@ == d
                    && b.light@[j].light@ == l,
            forall|j: int|
                0 <= j < b.chunks@.len() && b.chunks@[j].pos != c ==> j < a.chunks@.len()
                    && b.chunks@[j] == a.chunks@[j] && b.light@[j] == a.light@[j],
            forall|j: int|
                0 <= j < a.chunks@.len() && a.chunks@[j].pos != c ==> j < b.chunks@.len()
                    && b.chunks@[j] == a.chunks@[j] && b.light@[j] == a.light@[j],
        ensures
            b.chunks_view() == a.chunks_view().insert(c, d),
            b.lights_view() == a.lights_view().insert(c, l),
    {
        assert forall|p: ChunkPos|
            #![trigger b.chunks_view().dom().contains(p)]
            #![trigger b.lights_view().dom().contains(p)]
            #![trigger a.chunks_view().insert(c, d).dom().contains(p)]
            #![trigger a.lights_view().insert(c, l).dom().contains(p)]
            (b.chunks_view().dom().contains(p) <==> a.chunks_view().insert(c, d).dom().contains(p))
            && (b.lights_view().dom().contains(p) <==> a.lights_view().insert(c, l).dom().contains(p))
            && (b.chunks_view().dom().contains(p) ==> b.chunks_view()[p] == a.chunks_view().insert(c, d)[p])
            && (b.lights_view().dom().contains(p) ==> b.lights_view()[p] == a.lights_view().insert(c, l)[p]) by {
            a.lemma_dom(p);
            b.lemma_dom(p);
            if p == c {
                let j = choose|j: int| 0 <= j < b.chunks@.len() && b.chunks@[j].pos == c;
                b.lemma_entry(j);
            } else {
                if b.chunks_view().contains_key(p) {
                    let j = choose|j: int| 0 <= j < b.chunks@.len() && b.chunks@[j].pos == p;
                    b.lemma_entry(j);
                    a.lemma_entry(j);
                }
                if a.chunks_view().contains_key(p) {
                    let j = choose|j: int| 0 <= j < a.chunks@.len() && a.chunks@[j].pos == p;
                    assert(b.chunks@[j].pos == p);
                }
            }
        }
        assert(b.chunks_view() =~= a.chunks_view().insert(c, d));
        assert(b.lights_view() =~= a.lights_view().insert(c, l));
    }

    /// Loads the chunk and its light data, replacing what was stored at that
    /// position. Nothing changes, and `false` comes back, where the two are
    /// not for the same position.
    pub fn set_chunk(&mut self, chunk: Chunk, light: LightChunk) -> (r: bool)
        requires
            old(self).wf(),
            chunk.wf(),
            light.wf(),
        ensures
            final(self).wf(),
            r == (chunk.pos == light.pos),
            r ==> final(self).chunks_view() == old(self).chunks_view().insert(chunk.pos, chunk.data@),
            r ==> final(self).lights_view() == old(self).lights_view().insert(chunk.pos, light.light@),
            !r ==> final(self).chunks_view() == old(self).chunks_view(),
            !r ==> final(self).lights_view() == old(self).lights_view(),
    {
        if chunk.pos != light.pos {
            return false;
        }
        let ghost a = *self;
        let ghost c = chunk.pos;
        let ghost d = chunk.data@;
        let ghost l = light.light@;
        match self.find(chunk.pos) {
            Some(i) => {
                self.chunks.set(i, chunk);
                self.light.set(i, light);
                proof {
                    assert(chunk_positions(self.chunks@) =~= chunk_positions(a.chunks@));
                    assert(self.chunks@[i as int].pos == c);
                    assert forall|j: int| 0 <= j < a.chunks@.len() && j != i implies a.chunks@[j].pos != c by {
                        assert(chunk_positions(a.chunks@)[j] == a.chunks@[j].pos);
                        assert(chunk_positions(a.chunks@)[i as int] == a.chunks@[i as int].pos);
                    }
                    World::lemma_set_entry(&a, self, c, d, l);
                }
            },
            None => {
                proof {
                    a.lemma_dom(c);
                }
                self.chunks.push(chunk);
                self.light.push(light);
                proof {
                    assert(self.chunks@[a.chunks@.len() as int].pos == c);
                    assert(chunk_positions(self.chunks@) =~= chunk_positions(a.chunks@).push(c));
                    World::lemma_set_entry(&a, self, c, d, l);
                }
            },
        }
        true
    }

    /// Replaces the light data of a loaded chunk. Nothing changes, and `false`
    /// comes back, where no block data is loaded at that position: light data
    /// never stands alone.
    pub fn set_light_chunk(&mut self, light: LightChunk) -> (r: bool)
        requires
            old(self).wf(),
            light.wf(),
        ensures
            final(self).wf(),
            r == old(self).chunks_view().contains_key(light.pos),
            final(self).chunks_view() == old(self).chunks_view(),
            r ==> final(self).lights_view() == old(self).lights_view().insert(light.pos, light.light@),
            !r ==> final(self).lights_view() == old(self).lights_view(),
    {
        let ghost a = *self;
        let ghost c = light.pos;
        let ghost l = light.light@;
        match self.find(light.pos) {
            Some(i) => {
                proof {
                    a.lemma_entry(i as int);
                }
                let ghost d = self.chunks@[i as int].data@;
                self.light.set(i, light);
                proof {
                    assert forall|j: int| 0 <= j < a.chunks@.len() && j != i implies a.chunks@[j].pos != c by {
                        assert(chunk_positions(a.chunks@)[j] == a.chunks@[j].pos);
                        assert(chunk_positions(a.chunks@)[i as int] == a.chunks@[i as int].pos);
                    }
                    assert(chunk_positions(self.chunks@) =~= chunk_positions(a.chunks@));
                    World::lemma_set_entry(&a, self, c, d, l);
                    assert(a.chunks_view().insert(c, d) =~= a.chunks_view());
                }
                true
            },
            None => false,
        }
    }

    /// Unloads every chunk for which `keep` answers `false`, block and light
    /// data together.
    pub fn retain<F: Fn(ChunkPos) -> bool>(&mut self, keep: F)
        requires
            old(self).wf(),
            forall|c: ChunkPos| keep.requires((c,)),
        ensures
            final(self).wf(),
            forall|c: ChunkPos|
                #[trigger] final(self).chunks_view().contains_key(c) ==> old(self).chunks_view().contains_key(c) && keep.ensures((c,), true)
                    && final(self).chunks_view()[c] == old(self).chunks_view()[c]
                    && final(self).lights_view()[c] == old(self).lights_view()[c],
            forall|c: ChunkPos|
                #[trigger] old(self).chunks_view().contains_key(c) && !final(self).chunks_view().contains_key(c) ==> keep.ensures((c,), false),
    {
        let ghost a = *self;
        let ghost oc = self.chunks@;
        let ghost ol = self.light@;
        let mut kept_c: Vec<Chunk> = Vec::new();
        let mut kept_l: Vec<LightChunk> = Vec::new();
        while self.chunks.len() > 0
            invariant
                a.wf(),
                oc == a.chunks@,
                ol == a.light@,
                self.chunks@.len() == self.light@.len(),
                self.chunks@.len() <= oc.len(),
                self.chunks@ == oc.subrange(0, self.chunks@.len() as int),
                self.light@ == ol.subrange(0, self.chunks@.len() as int),
                forall|c: ChunkPos| keep.requires((c,)),
                kept_c@.len() == kept_l@.len(),
                forall|k: int|
                    #![trigger kept_c@[k]]
                    0 <= k < kept_c@.len() ==> exists|j: int|
                        self.chunks@.len() <= j < oc.len() && kept_c@[k] == oc[j] && kept_l@[k]
                            == ol[j] && keep.ensures((oc[j].pos,), true),
                forall|j: int|
                    #![trigger oc[j]]
                    self.chunks@.len() <= j < oc.len() ==> keep.ensures((oc[j].pos,), false)
                        || exists|k: int| 0 <= k < kept_c@.len() && kept_c@[k].pos == oc[j].pos,
                unique(chunk_positions(kept_c@)),
            decreases self.chunks@.len(),
        {
            let ghost m = self.chunks@.len() - 1;
            let ch = match self.chunks.pop() {
                Some(ch) => ch,
                None => { return; },
            };
            let l = match self.light.pop() {
                Some(l) => l,
                None => { return; },
            };
            assert(ch == oc[m] && l == ol[m]);
            if keep(ch.pos) {
                proof {
                    assert forall|k: int| 0 <= k < kept_c@.len() implies kept_c@[k].pos != oc[m].pos by {
                        let j = choose|j: int|
                            self.chunks@.len() < j < oc.len() && kept_c@[k] == oc[j];
                        assert(chunk_positions(oc)[m] == oc[m].pos);
                        assert(chunk_positions(oc)[j] == oc[j].pos);
                    }
                }
                let ghost prev_c = kept_c@;
                let ghost prev_l = kept_l@;
                kept_c.push(ch);
                kept_l.push(l);
                proof {
                    assert(kept_c@ == prev_c.push(oc[m]));
                    assert(chunk_positions(kept_c@) =~= chunk_positions(prev_c).push(oc[m].pos));
                    assert(kept_l@ == prev_l.push(ol[m]));
                    assert forall|k: int| #![trigger kept_c@[k]] 0 <= k < kept_c@.len() implies exists|j: int|
                        m <= j < oc.len() && kept_c@[k] == oc[j] && kept_l@[k]
                            == ol[j] && keep.ensures((oc[j].pos,), true) by {
                        if k < prev_c.len() {
                            let j = choose|j: int| m < j < oc.len() && prev_c[k] == oc[j] && prev_l[k]
                                == ol[j] && keep.ensures((oc[j].pos,), true);
                            assert(kept_c@[k] == oc[j]);
                        } else {
                            assert(kept_c@[k] == oc[m]);
                        }
                    }
                    assert forall|j: int| #![trigger oc[j]] m <= j < oc.len() implies keep.ensures((oc[j].pos,), false)
                        || exists|k: int| 0 <= k < kept_c@.len() && kept_c@[k].pos == oc[j].pos by {
                        if j == m {
                            assert(kept_c@[prev_c.len() as int].pos == oc[j].pos);
                        } else if !keep.ensures((oc[j].pos,), false) {
                            let k = choose|k: int| 0 <= k < prev_c.len() && prev_c[k].pos == oc[j].pos;
                            assert(kept_c@[k].pos == oc[j].pos);
                        }
                    }
                }
            } else {
                proof {
                    assert forall|k: int| #![trigger kept_c@[k]] 0 <= k < kept_c@.len() implies exists|j: int|
                        m <= j < oc.len() && kept_c@[k] == oc[j] && kept_l@[k]
                            == ol[j] && keep.ensures((oc[j].pos,), true) by {
                        let j = choose|j: int| m < j < oc.len() && kept_c@[k] == oc[j] && kept_l@[k]
                            == ol[j] && keep.ensures((oc[j].pos,), true);
                    }
                }
            }

        }
        let ghost kc = kept_c@;
        let ghost kl = kept_l@;
        proof {
            assert forall|k: int| #![trigger kc[k]] 0 <= k < kc.len() implies exists|j: int|
                0 <= j < oc.len() && kc[k] == oc[j] && kl[k] == ol[j] && keep.ensures((oc[j].pos,), true) by {
                let j = choose|j: int| self.chunks@.len() <= j < oc.len() && kc[k] == oc[j] && kl[k] == ol[j]
                    && keep.ensures((oc[j].pos,), true);
            }
        }
        self.chunks = kept_c;
        self.light = kept_l;
        proof {
            assert forall|k: int| 0 <= k < self.chunks@.len() implies self.chunks@[k].pos == self.light@[k].pos
                && self.chunks@[k].wf() && self.light@[k].wf() by {
                let j = choose|j: int| 0 <= j < oc.len() && self.chunks@[k] == oc[j] && self.light@[k] == ol[j]
                    && keep.ensures((oc[j].pos,), true);
            }
            assert forall|c: ChunkPos| #[trigger] self.chunks_view().contains_key(c) implies a.chunks_view().contains_key(c)
                && keep.ensures((c,), true) && self.chunks_view()[c] == a.chunks_view()[c]
                && self.lights_view()[c] == a.lights_view()[c] by {
                self.lemma_dom(c);
                let k = choose|k: int| 0 <= k < self.chunks@.len() && self.chunks@[k].pos == c;
                let j = choose|j: int| 0 <= j < oc.len() && self.chunks@[k] == oc[j] && self.light@[k] == ol[j]
                    && keep.ensures((oc[j].pos,), true);
                self.lemma_entry(k);
                a.lemma_entry(j);
            }
            assert forall|c: ChunkPos| #[trigger] a.chunks_view().contains_key(c) && !self.chunks_view().contains_key(c)
                implies keep.ensures((c,), false) by {
                a.lemma_dom(c);
                self.lemma_dom(c);
                let j = choose|j: int| 0 <= j < oc.len() && oc[j].pos == c;
                if !keep.ensures((c,), false) {
                    let k = choose|k: int| 0 <= k < self.chunks@.len() && self.chunks@[k].pos == oc[j].pos;
                }
            }
        }
    }

    /// Unloads every chunk outside the render distance `rd` of a player in
    /// `player_chunk`, block and light data together.
    pub fn retain_visible(&mut self, rd: &RenderDistance, player_chunk: ChunkPos)
        requires
            old(self).wf(),
        ensures
            final(self).wf(),
            forall|c: ChunkPos|
                #[trigger] final(self).chunks_view().contains_key(c) == (old(self).chunks_view().contains_key(c)
                    && rd.visible(player_chunk, c)),
            forall|c: ChunkPos|
                #[trigger] final(self).chunks_view().contains_key(c) ==> final(self).chunks_view()[c]
                    == old(self).chunks_view()[c] && final(self).lights_view()[c] == old(self).lights_view()[c],
    {
        let rd = *rd;
        let keep = |c: ChunkPos| -> (b: bool)
            ensures
                b == rd.visible(player_chunk, c),
        {
            rd.is_chunk_visible(player_chunk, c)
        };
        self.retain(keep);
    }
}

/// Whatever sequence of loads and unloads made a world, a chunk has light
/// data exactly where it has block data.
pub proof fn lemma_chunk_light_pairing(w: &World, c: ChunkPos)
    requires
        w.wf(),
    ensures
        w.chunks_view().contains_key(c) == w.lights_view().contains_key(c),
{
    w.lemma_dom(c);
}

} // verus!
