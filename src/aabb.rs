use crate::arith::{
    ceil_div, ceil_div_spec, floor_div, floor_div_spec, lemma_ceil_div_bounds,
    lemma_floor_div_bounds,
};
use crate::coords::{BlockPos, UNITS_PER_BLOCK};
use crate::world::World;
use vstd::arithmetic::div_mod::lemma_div_is_ordered;
use vstd::prelude::*;

verus! {

/// Largest extent of a box along one axis, in units.
pub const MAX_EXTENT: i64 = 1073741824;

/// Largest distance of a box corner from the origin along one axis, in units.
pub const POS_LIMIT: i64 = 1099511627776;

/// Largest requested movement along one axis in one call, in units.
pub const MAX_MOVE: i64 = 2147483648;

/// Gap, in units, at which the search for the contact point stops.
pub const TOLERANCE: i64 = 10;

/// An axis-aligned box: its minimum corner and its extents, in units.
#[allow(non_camel_case_types)]
#[derive(Clone, Copy, Debug, PartialEq, Eq, Structural)]
pub struct AABB {
    pub x: i64,
    pub y: i64,
    pub z: i64,
    pub size_x: i64,
    pub size_y: i64,
    pub size_z: i64,
}

/// `t` lies between 0 and `a`, both included.
pub open spec fn between(t: int, a: int) -> bool {
    (0 <= t <= a) || (a <= t <= 0)
}

/// The sign of `d` as a step direction: -1 below zero, 1 otherwise.
pub open spec fn dir_of(d: int) -> int {
    if d < 0 {
        -1
    } else {
        1
    }
}

/// First block index covered by a span that starts at `p`.
pub open spec fn cell_lo(p: int) -> int {
    floor_div_spec(p, UNITS_PER_BLOCK as int)
}

/// One past the last block index covered by a span that ends at `p`.
pub open spec fn cell_hi(p: int) -> int {
    ceil_div_spec(p, UNITS_PER_BLOCK as int)
}

impl AABB {
    pub open spec fn wf(&self) -> bool {
        &&& 0 < self.size_x <= MAX_EXTENT
        &&& 0 < self.size_y <= MAX_EXTENT
        &&& 0 < self.size_z <= MAX_EXTENT
        &&& -POS_LIMIT <= self.x <= POS_LIMIT
        &&& -POS_LIMIT <= self.y <= POS_LIMIT
        &&& -POS_LIMIT <= self.z <= POS_LIMIT
    }

    /// The minimum corner along axis `axis` (0, 1 or 2 for x, y, z).
    pub open spec fn coord(&self, axis: int) -> int {
        if axis == 0 {
            self.x as int
        } else if axis == 1 {
            self.y as int
        } else {
            self.z as int
        }
    }

    /// The extent along axis `axis`.
    pub open spec fn size(&self, axis: int) -> int {
        if axis == 0 {
            self.size_x as int
        } else if axis == 1 {
            self.size_y as int
        } else {
            self.size_z as int
        }
    }

    /// The box with its minimum corner moved to `v` along axis `axis`.
    pub open spec fn with_coord(&self, axis: int, v: i64) -> AABB {
        if axis == 0 {
            AABB { x: v, ..*self }
        } else if axis == 1 {
            AABB { y: v, ..*self }
        } else {
            AABB { z: v, ..*self }
        }
    }

    /// The box translated by `t` units along axis `axis`.
    pub open spec fn shift(&self, axis: int, t: int) -> AABB {
        self.with_coord(axis, (self.coord(axis) + t) as i64)
    }

    /// What one axis of a swept move gives: moving by `r` of the requested
    /// `d` along `axis`, the box meets no block on its way; it goes the whole
    /// way when nothing stands in it; and where it stops short, a block lies
    /// within the search tolerance plus half its extent ahead.
    pub open spec fn resolved(&self, w: &World, axis: int, d: int, r: int) -> bool {
        &&& between(r, d)
        &&& forall|t: int| between(t, r) ==> !(#[trigger] self.shift(axis, t).collides(w))
        &&& (forall|t: int| between(t, d) ==> !(#[trigger] self.shift(axis, t).collides(w))) ==> r == d
        &&& r != d ==> exists|e: int|
            0 < e <= TOLERANCE + self.size(axis) / 2 && (#[trigger] self.shift(axis, r + dir_of(d) * e).collides(w))
    }

    /// What a swept move by `delta` gives: the box ends at `fin`, moved by
    /// `r`. A box that meets a block at the start moves by `delta` unchecked;
    /// otherwise x, y and z are resolved in turn, each from where the one
    /// before left the box.
    pub open spec fn moved(&self, w: &World, delta: (i64, i64, i64), r: (i64, i64, i64), fin: AABB) -> bool {
        &&& fin == self.shift(0, r.0 as int).shift(1, r.1 as int).shift(2, r.2 as int)
        &&& self.collides(w) ==> r == delta
        &&& !self.collides(w) ==> {
            let b1 = self.shift(0, r.0 as int);
            let b2 = b1.shift(1, r.1 as int);
            &&& self.resolved(w, 0, delta.0 as int, r.0 as int)
            &&& b1.resolved(w, 1, delta.1 as int, r.1 as int)
            &&& b2.resolved(w, 2, delta.2 as int, r.2 as int)
        }
    }

    /// Block index `c` lies in the cell span of the box along axis `axis`:
    /// minimum corner floored, maximum corner ceiled.
    pub open spec fn in_cells(&self, axis: int, c: int) -> bool {
        cell_lo(self.coord(axis)) <= c < cell_hi(self.coord(axis) + self.size(axis))
    }

    /// The two boxes share interior volume; boxes that only touch do not.
    pub open spec fn intersects(&self, o: AABB) -> bool {
        !(o.x >= self.x + self.size_x || o.x + o.size_x <= self.x || o.y >= self.y + self.size_y
            || o.y + o.size_y <= self.y || o.z >= self.z + self.size_z || o.z + o.size_z <= self.z)
    }

    /// The point lies in the box, faces included.
    pub open spec fn contains(&self, px: int, py: int, pz: int) -> bool {
        &&& self.x <= px <= self.x + self.size_x
        &&& self.y <= py <= self.y + self.size_y
        &&& self.z <= pz <= self.z + self.size_z
    }

    /// Some non-air block lies in the cell span of the box.
    pub open spec fn collides(&self, w: &World) -> bool {
        exists|i: int, j: int, k: int|
            #![trigger w.block_at(BlockPos { px: i as i64, py: j as i64, pz: k as i64 })]
            self.in_cells(0, i) && self.in_cells(1, j) && self.in_cells(2, k) && w.block_at(
                BlockPos { px: i as i64, py: j as i64, pz: k as i64 },
            ) != 0
    }

    /// A box with minimum corner `p` and extents `s`.
    pub fn new(p: (i64, i64, i64), s: (i64, i64, i64)) -> (r: AABB)
        ensures
            r == (AABB { x: p.0, y: p.1, z: p.2, size_x: s.0, size_y: s.1, size_z: s.2 }),
    {
        AABB { x: p.0, y: p.1, z: p.2, size_x: s.0, size_y: s.1, size_z: s.2 }
    }

    /// A cube with minimum corner `p` and edge `size`.
    pub fn new_cube(p: (i64, i64, i64), size: i64) -> (r: AABB)
        ensures
            r == (AABB { x: p.0, y: p.1, z: p.2, size_x: size, size_y: size, size_z: size }),
    {
        AABB { x: p.0, y: p.1, z: p.2, size_x: size, size_y: size, size_z: size }
    }

    /// Whether the two boxes share interior volume.
    pub fn intersect(&self, other: &AABB) -> (r: bool)
        requires
            self.wf(),
            other.wf(),
        ensures
            r == self.intersects(*other),
    {
        !(other.x >= self.x + self.size_x || other.x + other.size_x <= self.x || other.y >= self.y
            + self.size_y || other.y + other.size_y <= self.y || other.z >= self.z + self.size_z
            || other.z + other.size_z <= self.z)
    }

    /// Whether the point `p` lies in the box, faces included.
    pub fn intersect_point(&self, p: (i64, i64, i64)) -> (r: bool)
        requires
            self.wf(),
        ensures
            r == self.contains(p.0 as int, p.1 as int, p.2 as int),
    {
        p.0 >= self.x && p.0 <= self.x + self.size_x && p.1 >= self.y && p.1 <= self.y
            + self.size_y && p.2 >= self.z && p.2 <= self.z + self.size_z
    }

    /// Whether some non-air block lies in the cell span of the box.
    pub fn intersect_world(&self, world: &World) -> (r: bool)
        requires
            self.wf(),
            world.wf(),
        ensures
            r == self.collides(world),
    {
        let min_x = floor_div(self.x, UNITS_PER_BLOCK);
        let max_x = ceil_div(self.x + self.size_x, UNITS_PER_BLOCK);
        let min_y = floor_div(self.y, UNITS_PER_BLOCK);
        let max_y = ceil_div(self.y + self.size_y, UNITS_PER_BLOCK);
        let min_z = floor_div(self.z, UNITS_PER_BLOCK);
        let max_z = ceil_div(self.z + self.size_z, UNITS_PER_BLOCK);
        proof {
            lemma_ceil_div_bounds(self.x + self.size_x, UNITS_PER_BLOCK as int);
            lemma_ceil_div_bounds(self.y + self.size_y, UNITS_PER_BLOCK as int);
            lemma_ceil_div_bounds(self.z + self.size_z, UNITS_PER_BLOCK as int);
        }
        let mut i = min_x;
        while i < max_x
            invariant
                world.wf(),
                min_x <= i <= max_x || max_x <= min_x,
                max_x < i64::MAX,
                max_y < i64::MAX,
                max_z < i64::MAX,
                min_x == cell_lo(self.x as int),
                max_x == cell_hi(self.x + self.size_x),
                min_y == cell_lo(self.y as int),
                max_y == cell_hi(self.y + self.size_y),
                min_z == cell_lo(self.z as int),
                max_z == cell_hi(self.z + self.size_z),
                min_x <= i,
                forall|a: int, b: int, c: int|
                    min_x <= a < i && min_y <= b < max_y && min_z <= c < max_z ==> #[trigger] world.block_at(
                        BlockPos { px: a as i64, py: b as i64, pz: c as i64 },
                    ) == 0,
            decreases max_x - i,
        {
            let mut j = min_y;
            while j < max_y
                invariant
                    world.wf(),
                    min_x <= i < max_x,
                    min_x == cell_lo(self.x as int),
                    max_x == cell_hi(self.x + self.size_x),
                    min_y == cell_lo(self.y as int),
                    max_y == cell_hi(self.y + self.size_y),
                    min_z == cell_lo(self.z as int),
                    max_z == cell_hi(self.z + self.size_z),
                    max_x < i64::MAX,
                    max_y < i64::MAX,
                    max_z < i64::MAX,
                    min_y <= j,
                    j <= max_y || max_y <= min_y,
                    forall|a: int, b: int, c: int|
                        min_x <= a < i && min_y <= b < max_y && min_z <= c < max_z ==> #[trigger] world.block_at(
                            BlockPos { px: a as i64, py: b as i64, pz: c as i64 },
                        ) == 0,
                    forall|b: int, c: int|
                        min_y <= b < j && min_z <= c < max_z ==> #[trigger] world.block_at(
                            BlockPos { px: i, py: b as i64, pz: c as i64 },
                        ) == 0,
                decreases max_y - j,
            {
                let mut k = min_z;
                while k < max_z
                    invariant
                        world.wf(),
                        min_x <= i < max_x,
                        min_x == cell_lo(self.x as int),
                        max_x == cell_hi(self.x + self.size_x),
                        min_y == cell_lo(self.y as int),
                        max_y == cell_hi(self.y + self.size_y),
                        min_z == cell_lo(self.z as int),
                        max_z == cell_hi(self.z + self.size_z),
                        min_y <= j < max_y,
                        max_z < i64::MAX,
                        min_z <= k,
                        k <= max_z || max_z <= min_z,
                        forall|c: int|
                            min_z <= c < k ==> #[trigger] world.block_at(
                                BlockPos { px: i, py: j, pz: c as i64 },
                            ) == 0,
                    decreases max_z - k,
                {
                    if world.get_block(BlockPos { px: i, py: j, pz: k }) != 0 {
                        proof {
                            assert(self.in_cells(0, i as int) && self.in_cells(1, j as int)
                                && self.in_cells(2, k as int));
                            assert(world.block_at(
                                BlockPos { px: (i as int) as i64, py: (j as int) as i64, pz: (k as int) as i64 },
                            ) != 0);
                        }
                        return true;
                    }
                    k = k + 1;
                }
                proof {
                    assert forall|b: int, c: int|
                        min_y <= b < j + 1 && min_z <= c < max_z implies #[trigger] world.block_at(
                            BlockPos { px: i, py: b as i64, pz: c as i64 },
                        ) == 0 by {
                        if b == j {
                            assert(world.block_at(BlockPos { px: i, py: j, pz: c as i64 }) == 0);
                        }
                    }
                }
                j = j + 1;
            }
            proof {
                assert forall|a: int, b: int, c: int|
                    min_x <= a < i + 1 && min_y <= b < max_y && min_z <= c < max_z implies #[trigger] world.block_at(
                        BlockPos { px: a as i64, py: b as i64, pz: c as i64 },
                    ) == 0 by {
                    if a == i {
                        assert(world.block_at(BlockPos { px: i, py: b as i64, pz: c as i64 }) == 0);
                    }
                }
            }
            i = i + 1;
        }
        proof {
            assert forall|a: int, b: int, c: int|
                #![trigger world.block_at(BlockPos { px: a as i64, py: b as i64, pz: c as i64 })]
                self.in_cells(0, a) && self.in_cells(1, b) && self.in_cells(2, c) implies world.block_at(
                    BlockPos { px: a as i64, py: b as i64, pz: c as i64 },
                ) == 0 by {}
        }
        false
    }

    /// Moves the box by `delta` through `world`, x first, then y, then z,
    /// each axis starting where the previous one left the box, and returns
    /// the displacement achieved. A box that already meets a block moves by
    /// `delta` unchecked, so that it cannot stay stuck.
    pub fn move_check_collision(&mut self, world: &World, delta: (i64, i64, i64)) -> (r: (
        i64,
        i64,
        i64,
    ))
        requires
            old(self).wf(),
            world.wf(),
            -MAX_MOVE <= delta.0 <= MAX_MOVE,
            -MAX_MOVE <= delta.1 <= MAX_MOVE,
            -MAX_MOVE <= delta.2 <= MAX_MOVE,
            -POS_LIMIT <= old(self).x + delta.0 <= POS_LIMIT,
            -POS_LIMIT <= old(self).y + delta.1 <= POS_LIMIT,
            -POS_LIMIT <= old(self).z + delta.2 <= POS_LIMIT,
        ensures
            final(self).wf(),
            old(self).moved(world, delta, r, *final(self)),
    {
        if self.intersect_world(world) {
            self.x = self.x + delta.0;
            self.y = self.y + delta.1;
            self.z = self.z + delta.2;
            return delta;
        }
        let ghost b0 = *self;
        let rx = self.move_axis(world, 0, delta.0);
        proof {
            assert(between(rx as int, rx as int));
        }
        let ghost b1 = *self;
        let ry = self.move_axis(world, 1, delta.1);
        proof {
            assert(between(ry as int, ry as int));
        }
        let rz = self.move_axis(world, 2, delta.2);
        proof {
            assert(b1 == b0.shift(0, rx as int));
        }
        (rx, ry, rz)
    }

    fn coord_of(&self, axis: u8) -> (r: i64)
        requires
            axis < 3,
        ensures
            r == self.coord(axis as int),
    {
        if axis == 0 {
            self.x
        } else if axis == 1 {
            self.y
        } else {
            self.z
        }
    }

    fn size_of(&self, axis: u8) -> (r: i64)
        requires
            axis < 3,
        ensures
            r == self.size(axis as int),
    {
        if axis == 0 {
            self.size_x
        } else if axis == 1 {
            self.size_y
        } else {
            self.size_z
        }
    }

    fn set_coord(&mut self, axis: u8, v: i64)
        requires
            axis < 3,
        ensures
            *final(self) == old(self).with_coord(axis as int, v),
    {
        if axis == 0 {
            self.x = v;
        } else if axis == 1 {
            self.y = v;
        } else {
            self.z = v;
        }
    }

    /// Searches, by halving, how far the box can go along `axis` in direction
    /// `sgn` before it meets a block, knowing that it meets one after `len`.
    /// The box comes back where it was.
    fn search_contact(&mut self, world: &World, axis: u8, sgn: i64, len: i64) -> (lo: i64)
        requires
            old(self).wf(),
            world.wf(),
            axis < 3,
            sgn == 1 || sgn == -1,
            1 <= len <= MAX_MOVE,
            -POS_LIMIT <= old(self).coord(axis as int) + sgn * len <= POS_LIMIT,
            !old(self).collides(world),
            old(self).shift(axis as int, sgn * len).collides(world),
        ensures
            *final(self) == *old(self),
            0 <= lo <= len,
            !old(self).shift(axis as int, sgn * lo).collides(world),
            exists|hi: int|
                lo <= hi <= lo + TOLERANCE && hi <= len && (#[trigger] old(self).shift(axis as int, sgn * hi)).collides(world),
    {
        let ghost b0 = *self;
        let ghost ax = axis as int;
        let start = self.coord_of(axis);
        proof {
            assert(b0.shift(ax, 0) == b0);
        }
        let mut lo: i64 = 0;
        let mut hi: i64 = len;
        while hi - lo > TOLERANCE
            invariant
                b0.wf(),
                world.wf(),
                ax == axis as int,
                axis < 3,
                start == b0.coord(ax),
                sgn == 1 || sgn == -1,
                1 <= len <= MAX_MOVE,
                -POS_LIMIT <= b0.coord(ax) + sgn * len <= POS_LIMIT,
                0 <= lo <= hi <= len,
                !b0.shift(ax, sgn * lo).collides(world),
                b0.shift(ax, sgn * hi).collides(world),
                *self == b0,
            decreases hi - lo,
        {
            let med = lo + (hi - lo) / 2;
            proof {
                lemma_signed(sgn as int, med as int);
                lemma_signed(sgn as int, len as int);
            }
            self.set_coord(axis, start + sgn * med);
            proof {
                lemma_shift_wf(b0, ax, sgn * med);
                assert(*self == b0.shift(ax, sgn * med));
            }
            if self.intersect_world(world) {
                hi = med;
            } else {
                lo = med;
            }
            self.set_coord(axis, start);
            assert(*self == b0);
        }
        lo
    }

    /// Moves the box by up to `d` units along `axis`, in sub-steps no longer
    /// than its extent, and stops short of the first block met.
    #[verifier::rlimit(100)]
    #[verifier::spinoff_prover]
    fn move_axis(&mut self, world: &World, axis: u8, d: i64) -> (r: i64)
        requires
            old(self).wf(),
            world.wf(),
            axis < 3,
            -MAX_MOVE <= d <= MAX_MOVE,
            -POS_LIMIT <= old(self).coord(axis as int) + d <= POS_LIMIT,
            !old(self).collides(world),
        ensures
            final(self).wf(),
            *final(self) == old(self).shift(axis as int, r as int),
            old(self).resolved(world, axis as int, d as int, r as int),
    {
        let ghost b0 = *self;
        let ghost ax = axis as int;
        let start = self.coord_of(axis);
        let size = self.size_of(axis);
        let mag: i64 = if d < 0 {
            -d
        } else {
            d
        };
        let sgn: i64 = if d < 0 {
            -1
        } else {
            1
        };
        proof {
            assert(b0.shift(ax, 0) == b0);
        }
        if mag == 0 {
            return 0;
        }
        let steps = ceil_div(mag, size);
        proof {
            lemma_ceil_div_bounds(mag as int, size as int);
            assert(steps >= 1) by (nonlinear_arith)
                requires
                    steps * size >= mag,
                    mag > 0,
                    size > 0,
            ;
        }
        let step_len = ceil_div(mag, steps);
        proof {
            lemma_ceil_div_bounds(mag as int, steps as int);
            assert(1 <= step_len <= size) by (nonlinear_arith)
                requires
                    steps * size >= mag,
                    step_len * steps - steps < mag <= step_len * steps,
                    mag > 0,
                    steps >= 1,
            ;
        }
        let mut done: i64 = 0;
        let mut hit: i64 = 0;
        while done < mag && hit == 0
            invariant
                b0.wf(),
                world.wf(),
                ax == axis as int,
                axis < 3,
                start == b0.coord(ax),
                size == b0.size(ax),
                mag == (if d < 0 { -(d as int) } else { d as int }),
                sgn == dir_of(d as int),
                -MAX_MOVE <= d <= MAX_MOVE,
                -POS_LIMIT <= b0.coord(ax) + d <= POS_LIMIT,
                1 <= step_len <= size,
                0 <= done <= mag,
                0 <= hit <= step_len,
                hit > 0 ==> done + hit <= mag && b0.shift(ax, sgn * (done + hit)).collides(world),
                *self == b0.shift(ax, sgn * done),
                forall|t: int| between(t, sgn * done) ==> !(#[trigger] b0.shift(ax, t).collides(world)),
            decreases mag - done + (if hit == 0 { 1int } else { 0int }),
        {
            let next = if mag - done < step_len {
                mag
            } else {
                done + step_len
            };
            proof {
                lemma_signed(sgn as int, next as int);
                lemma_signed(sgn as int, done as int);
                lemma_signed(sgn as int, mag as int);
                lemma_shift_wf(b0, ax, sgn * next);
            }
            self.set_coord(axis, start + sgn * next);
            assert(*self == b0.shift(ax, sgn * next));
            if self.intersect_world(world) {
                self.set_coord(axis, start + sgn * done);
                hit = next - done;
            } else {
                proof {
                    assert forall|t: int| between(t, sgn * next) implies !(#[trigger] b0.shift(ax, t).collides(world)) by {
                        if !between(t, sgn * done) {
                            if sgn == 1 {
                                lemma_free_between(b0, world, ax, sgn * done, sgn * next, t);
                            } else {
                                lemma_free_between(b0, world, ax, sgn * next, sgn * done, t);
                            }
                        }
                    }
                }
                done = next;
            }
        }
        if hit == 0 {
            proof {
                lemma_signed(sgn as int, mag as int);
            }
            return d;
        }
        let ghost cur = *self;
        proof {
            lemma_signed(sgn as int, done as int);
            lemma_signed(sgn as int, hit as int);
            lemma_signed(sgn as int, done + hit);
            lemma_shift_wf(b0, ax, sgn * done);
            lemma_shift_shift(b0, ax, sgn * done, sgn * hit);
        }
        let lo = self.search_contact(world, axis, sgn, hit);
        let fin = done + lo / 2;
        proof {
            lemma_signed(sgn as int, fin as int);
            lemma_signed(sgn as int, lo as int);
            lemma_signed(sgn as int, done + lo);
            lemma_shift_wf(b0, ax, sgn * fin);
        }
        self.set_coord(axis, start + sgn * fin);
        proof {
            lemma_shift_shift(b0, ax, sgn * done, sgn * lo);
            assert(*self == b0.shift(ax, sgn * fin));
            assert forall|t: int| between(t, sgn * fin) implies !(#[trigger] b0.shift(ax, t).collides(world)) by {
                if !between(t, sgn * done) {
                    if sgn == 1 {
                        lemma_free_between(b0, world, ax, sgn * done, sgn * (done + lo), t);
                    } else {
                        lemma_free_between(b0, world, ax, sgn * (done + lo), sgn * done, t);
                    }
                }
            }
            let h = choose|h: int| lo <= h <= lo + TOLERANCE && h <= hit
                && (#[trigger] cur.shift(ax, sgn * h)).collides(world);
            lemma_shift_shift(b0, ax, sgn * done, sgn * h);
            lemma_signed(sgn as int, h);
            lemma_signed(sgn as int, h - lo / 2);
            assert(b0.shift(ax, sgn * fin + dir_of(d as int) * (h - lo / 2)).collides(world));
            assert(sgn * fin != d);
        }
        sgn * fin
    }
}

/// Boxes apart along some axis, or touching only at a face, do not
/// intersect; boxes that share an interior point do.
pub proof fn lemma_separation(a: AABB, b: AABB, px: int, py: int, pz: int)
    ensures
        a.x + a.size_x <= b.x ==> !a.intersects(b),
        b.x + b.size_x <= a.x ==> !a.intersects(b),
        a.y + a.size_y <= b.y ==> !a.intersects(b),
        b.y + b.size_y <= a.y ==> !a.intersects(b),
        a.z + a.size_z <= b.z ==> !a.intersects(b),
        b.z + b.size_z <= a.z ==> !a.intersects(b),
        a.x < px < a.x + a.size_x && a.y < py < a.y + a.size_y && a.z < pz < a.z + a.size_z && b.x
            < px < b.x + b.size_x && b.y < py < b.y + b.size_y && b.z < pz < b.z + b.size_z
            ==> a.intersects(b),
        a.intersects(b) == b.intersects(a),
{
}

/// Multiplying by a unit sign negates or keeps.
pub proof fn lemma_signed(sgn: int, v: int)
    requires
        sgn == 1 || sgn == -1,
    ensures
        sgn * v == (if sgn == 1 { v } else { -v }),
{
    if sgn == -1 {
        assert(sgn * v == -v) by (nonlinear_arith)
            requires
                sgn == -1,
        ;
    }
}

/// A translation that keeps the corner in bounds keeps the box well formed.
pub proof fn lemma_shift_wf(b: AABB, axis: int, t: int)
    requires
        b.wf(),
        0 <= axis < 3,
        -POS_LIMIT <= b.coord(axis) + t <= POS_LIMIT,
    ensures
        b.shift(axis, t).wf(),
        b.shift(axis, t).coord(axis) == b.coord(axis) + t,
        b.shift(axis, t).size(axis) == b.size(axis),
{
}

/// Two translations along one axis make one.
pub proof fn lemma_shift_shift(b: AABB, axis: int, t1: int, t2: int)
    requires
        b.wf(),
        0 <= axis < 3,
        -POS_LIMIT <= b.coord(axis) + t1 <= POS_LIMIT,
    ensures
        b.shift(axis, t1).shift(axis, t2) == b.shift(axis, t1 + t2),
{
}

/// Between two block-free placements no further apart than the box's
/// extent, every placement on that axis is block-free: the cell span of a
/// placement in between is covered by the spans of the two ends.
pub proof fn lemma_free_between(b: AABB, w: &World, axis: int, a: int, c: int, t: int)
    requires
        b.wf(),
        0 <= axis < 3,
        -2 * MAX_MOVE <= a <= t <= c <= a + b.size(axis),
        c <= 2 * MAX_MOVE,
        !b.shift(axis, a).collides(w),
        !b.shift(axis, c).collides(w),
    ensures
        !b.shift(axis, t).collides(w),
{
    if b.shift(axis, t).collides(w) {
        let bt = b.shift(axis, t);
        let (i, j, k) = choose|i: int, j: int, k: int|
            #![trigger w.block_at(BlockPos { px: i as i64, py: j as i64, pz: k as i64 })]
            bt.in_cells(0, i) && bt.in_cells(1, j) && bt.in_cells(2, k) && w.block_at(
                BlockPos { px: i as i64, py: j as i64, pz: k as i64 },
            ) != 0;
        let ci = if axis == 0 {
            i
        } else if axis == 1 {
            j
        } else {
            k
        };
        let x = b.coord(axis);
        let s = b.size(axis);
        lemma_span_between(x, s, a, t, c, ci);
        let ba = b.shift(axis, a);
        let bc = b.shift(axis, c);
        if cell_lo(x + a) <= ci < cell_hi(x + a + s) {
            assert(ba.in_cells(0, i) && ba.in_cells(1, j) && ba.in_cells(2, k));
        } else {
            assert(bc.in_cells(0, i) && bc.in_cells(1, j) && bc.in_cells(2, k));
        }
    }
}

/// One axis of [`lemma_free_between`]: the cells spanned from `x + t` to
/// `x + t + s` lie in those spanned from `x + a` or from `x + c`.
pub proof fn lemma_span_between(x: int, s: int, a: int, t: int, c: int, ci: int)
    requires
        s > 0,
        a <= t <= c <= a + s,
        cell_lo(x + t) <= ci < cell_hi(x + t + s),
    ensures
        (cell_lo(x + a) <= ci < cell_hi(x + a + s)) || (cell_lo(x + c) <= ci < cell_hi(x + c + s)),
{
    let u = UNITS_PER_BLOCK as int;
    lemma_div_is_ordered(x + a, x + t, u);
    lemma_div_is_ordered(-(x + c + s), -(x + t + s), u);
    lemma_div_is_ordered(x + c, x + a + s, u);
    lemma_floor_div_bounds(x + a + s, u);
    lemma_ceil_div_bounds(x + a + s, u);
    assert(floor_div_spec(x + a + s, u) <= ceil_div_spec(x + a + s, u)) by (nonlinear_arith)
        requires
            floor_div_spec(x + a + s, u) * u <= x + a + s,
            x + a + s <= ceil_div_spec(x + a + s, u) * u,
            u > 0,
    ;
}

} // verus!
