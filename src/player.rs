use crate::aabb::AABB;
use crate::arith::lemma_floor_div_bounds;
use crate::coords::{block_of_units, BlockPos, UNITS_PER_BLOCK};
use crate::world::World;
use vstd::prelude::*;

verus! {

/// How far a player reaches to point at a block, in units.
pub const PLAYER_REACH: i64 = 10000;

/// Width and depth of the player's box, in units.
pub const PLAYER_SIDE: i64 = 800;

/// Height of the player's box, in units.
pub const PLAYER_HEIGHT: i64 = 1800;

/// Position of the camera relative to the minimum corner of the box.
pub const CAMERA_OFFSET_X: i64 = 400;

pub const CAMERA_OFFSET_Y: i64 = 1600;

pub const CAMERA_OFFSET_Z: i64 = 400;

/// Largest speed along one axis, in units per tick.
pub const MAX_SPEED: i64 = 1000;

/// Largest component of a pointing direction.
pub const DIR_LIMIT: i64 = 65536;

/// Largest distance a ray may travel, in units.
pub const MAX_REACH: i64 = 16777216;

/// More cell boundaries than a ray within reach can cross.
pub const MAX_CROSSINGS: i64 = 50340;

/// The physical state of a player: its box and its velocity, in units per
/// tick.
#[derive(Clone, Copy, Debug)]
pub struct PhysicsPlayer {
    pub aabb: AABB,
    pub velocity: (i64, i64, i64),
}

/// Component `a` (0, 1 or 2) of a triple.
pub open spec fn comp(v: (i64, i64, i64), a: int) -> int {
    if a == 0 {
        v.0 as int
    } else if a == 1 {
        v.1 as int
    } else {
        v.2 as int
    }
}

/// Faces and directions are numbered -x, +x, -y, +y, -z, +z; face `f` lies
/// on axis `f / 2`, on the positive side when `f` is odd.
pub open spec fn face_axis(f: int) -> int {
    f / 2
}

/// The ray heads toward face `f` of a cell.
pub open spec fn heads_to(d: (i64, i64, i64), f: int) -> bool {
    if f % 2 == 1 {
        comp(d, face_axis(f)) > 0
    } else {
        comp(d, face_axis(f)) < 0
    }
}

/// Coordinate, in units, of the plane that holds face `f` of cell `c`.
pub open spec fn face_plane(c: BlockPos, f: int) -> int {
    let ci = if face_axis(f) == 0 {
        c.px as int
    } else if face_axis(f) == 1 {
        c.py as int
    } else {
        c.pz as int
    };
    if f % 2 == 1 {
        (ci + 1) * UNITS_PER_BLOCK
    } else {
        ci * UNITS_PER_BLOCK
    }
}

/// Numerator of the ray parameter at which the ray from `o` along `d` meets
/// the plane of face `f` of `c`; its denominator is `crossing_den(d, f)`.
pub open spec fn crossing_num(o: (i64, i64, i64), d: (i64, i64, i64), c: BlockPos, f: int) -> int {
    if f % 2 == 1 {
        face_plane(c, f) - comp(o, face_axis(f))
    } else {
        comp(o, face_axis(f)) - face_plane(c, f)
    }
}

pub open spec fn crossing_den(d: (i64, i64, i64), f: int) -> int {
    if f % 2 == 1 {
        comp(d, face_axis(f))
    } else {
        -comp(d, face_axis(f))
    }
}

/// Face `f` of cell `c` is the first one that the ray meets: it heads there,
/// no face meets it earlier, and faces before it in the numbering meet it
/// later.
pub open spec fn first_face(o: (i64, i64, i64), d: (i64, i64, i64), c: BlockPos, f: int) -> bool {
    &&& 0 <= f < 6
    &&& heads_to(d, f)
    &&& forall|j: int|
        0 <= j < 6 && heads_to(d, j) ==> crossing_num(o, d, c, f) * crossing_den(d, j)
            <= crossing_num(o, d, c, j) * crossing_den(d, f)
    &&& forall|j: int|
        0 <= j < f && heads_to(d, j) ==> crossing_num(o, d, c, f) * crossing_den(d, j)
            < crossing_num(o, d, c, j) * crossing_den(d, f)
}

/// The cell next to `c` across face `f`.
pub open spec fn neighbour(c: BlockPos, f: int) -> BlockPos {
    let s: int = if f % 2 == 1 {
        1
    } else {
        -1
    };
    if face_axis(f) == 0 {
        BlockPos { px: (c.px + s) as i64, ..c }
    } else if face_axis(f) == 1 {
        BlockPos { py: (c.py + s) as i64, ..c }
    } else {
        BlockPos { pz: (c.pz + s) as i64, ..c }
    }
}

/// The face paired with `f`: the same axis, the other side.
pub open spec fn opposite(f: int) -> int {
    if f % 2 == 0 {
        f + 1
    } else {
        f - 1
    }
}

/// Bound on the distance, in units, between a ray's origin and a face
/// plane of a cell that the ray visits.
pub const NUM_BOUND: i64 = 134217728;

/// The planes of all faces of `c` lie within `NUM_BOUND` of `o`.
pub open spec fn near(o: (i64, i64, i64), c: BlockPos) -> bool {
    &&& -NUM_BOUND + UNITS_PER_BLOCK <= c.px * UNITS_PER_BLOCK - o.0 <= NUM_BOUND - UNITS_PER_BLOCK
    &&& -NUM_BOUND + UNITS_PER_BLOCK <= c.py * UNITS_PER_BLOCK - o.1 <= NUM_BOUND - UNITS_PER_BLOCK
    &&& -NUM_BOUND + UNITS_PER_BLOCK <= c.pz * UNITS_PER_BLOCK - o.2 <= NUM_BOUND - UNITS_PER_BLOCK
}

pub open spec fn dir_ok(d: (i64, i64, i64)) -> bool {
    &&& -DIR_LIMIT <= d.0 <= DIR_LIMIT
    &&& -DIR_LIMIT <= d.1 <= DIR_LIMIT
    &&& -DIR_LIMIT <= d.2 <= DIR_LIMIT
    &&& (d.0 != 0 || d.1 != 0 || d.2 != 0)
}

/// The ray from `o` along `d` meets face `f` of `c` no further than `max`
/// from `o`.
pub open spec fn within_reach(o: (i64, i64, i64), d: (i64, i64, i64), c: BlockPos, f: int, max: int) -> bool {
    crossing_num(o, d, c, f) * crossing_num(o, d, c, f) * (d.0 * d.0 + d.1 * d.1 + d.2 * d.2)
        <= max * max * (crossing_den(d, f) * crossing_den(d, f))
}

/// The face by which the ray from `o` along `d` leaves cell `c`.
pub open spec fn exit_face(o: (i64, i64, i64), d: (i64, i64, i64), c: BlockPos) -> int {
    choose|f: int| first_face(o, d, c, f)
}

/// The `n`-th cell that the ray from `o` along `d` visits, starting in `s`.
pub open spec fn ray_cell(o: (i64, i64, i64), d: (i64, i64, i64), s: BlockPos, n: nat) -> BlockPos
    decreases n,
{
    if n == 0 {
        s
    } else {
        let c = ray_cell(o, d, s, (n - 1) as nat);
        neighbour(c, exit_face(o, d, c))
    }
}

/// The first `n + 1` cells that the ray visits are air, and it leaves each
/// of the first `n` within reach.
pub open spec fn clear_path(w: &World, o: (i64, i64, i64), d: (i64, i64, i64), s: BlockPos, max: int, n: nat) -> bool {
    &&& forall|k: nat| k <= n ==> w.block_at(#[trigger] ray_cell(o, d, s, k)) == 0
    &&& forall|k: nat|
        k < n ==> within_reach(o, d, #[trigger] ray_cell(o, d, s, k), exit_face(o, d, ray_cell(o, d, s, k)), max)
}

/// A cell has one first face.
pub proof fn lemma_first_face_unique(o: (i64, i64, i64), d: (i64, i64, i64), c: BlockPos, f: int)
    requires
        first_face(o, d, c, f),
    ensures
        exit_face(o, d, c) == f,
{
    let g = exit_face(o, d, c);
    assert(first_face(o, d, c, g));
}

/// Cell `c` lies on the side of `s` toward which the ray heads, along
/// every axis.
pub open spec fn on_course(d: (i64, i64, i64), s: BlockPos, c: BlockPos) -> bool {
    &&& (d.0 > 0 ==> c.px >= s.px) && (d.0 < 0 ==> c.px <= s.px) && (d.0 == 0 ==> c.px == s.px)
    &&& (d.1 > 0 ==> c.py >= s.py) && (d.1 < 0 ==> c.py <= s.py) && (d.1 == 0 ==> c.py == s.py)
    &&& (d.2 > 0 ==> c.pz >= s.pz) && (d.2 < 0 ==> c.pz <= s.pz) && (d.2 == 0 ==> c.pz == s.pz)
}

pub open spec fn abs(v: int) -> int {
    if v < 0 {
        -v
    } else {
        v
    }
}

/// Number of cell boundaries between `s` and `c`.
pub open spec fn cell_distance(s: BlockPos, c: BlockPos) -> int {
    abs(c.px - s.px) + abs(c.py - s.py) + abs(c.pz - s.pz)
}

/// Cell `c` is no further from `s`, along each axis, than `max` units and
/// one block.
pub open spec fn within_box(s: BlockPos, c: BlockPos, max: int) -> bool {
    &&& abs(c.px - s.px) * UNITS_PER_BLOCK <= max + UNITS_PER_BLOCK
    &&& abs(c.py - s.py) * UNITS_PER_BLOCK <= max + UNITS_PER_BLOCK
    &&& abs(c.pz - s.pz) * UNITS_PER_BLOCK <= max + UNITS_PER_BLOCK
}

/// A crossing within reach lies within reach along its own axis.
proof fn lemma_reach_bound(num: int, den: int, len2: int, max: int)
    requires
        den > 0,
        den * den <= len2,
        max >= 0,
        num * num * len2 <= max * max * (den * den),
    ensures
        -max <= num <= max,
{
    assert(den * den > 0) by (nonlinear_arith)
        requires
            den > 0,
    ;
    assert(max * max * (den * den) <= max * max * len2) by (nonlinear_arith)
        requires
            den * den <= len2,
    ;
    assert(num * num <= max * max) by (nonlinear_arith)
        requires
            num * num * len2 <= max * max * len2,
            len2 > 0,
    ;
    assert(-max <= num <= max) by (nonlinear_arith)
        requires
            num * num <= max * max,
            max >= 0,
    ;
}

/// Each crossing within reach moves the ray one cell further from its
/// start, toward where it heads, and keeps it within reach of the start.
proof fn lemma_step_on_course(o: (i64, i64, i64), d: (i64, i64, i64), s: BlockPos, c: BlockPos, f: int, max: int)
    requires
        dir_ok(d),
        0 <= f < 6,
        heads_to(d, f),
        max >= 0,
        s.px * UNITS_PER_BLOCK <= o.0 < s.px * UNITS_PER_BLOCK + UNITS_PER_BLOCK,
        s.py * UNITS_PER_BLOCK <= o.1 < s.py * UNITS_PER_BLOCK + UNITS_PER_BLOCK,
        s.pz * UNITS_PER_BLOCK <= o.2 < s.pz * UNITS_PER_BLOCK + UNITS_PER_BLOCK,
        on_course(d, s, c),
        within_reach(o, d, c, f, max),
        c.px > i64::MIN && c.px < i64::MAX,
        c.py > i64::MIN && c.py < i64::MAX,
        c.pz > i64::MIN && c.pz < i64::MAX,
    ensures
        on_course(d, s, neighbour(c, f)),
        cell_distance(s, neighbour(c, f)) == cell_distance(s, c) + 1,
        within_box(s, c, max) ==> within_box(s, neighbour(c, f), max),
{
    let num = crossing_num(o, d, c, f);
    let den = crossing_den(d, f);
    let len2 = d.0 * d.0 + d.1 * d.1 + d.2 * d.2;
    assert(den * den <= len2) by (nonlinear_arith)
        requires
            den == d.0 || den == -d.0 || den == d.1 || den == -d.1 || den == d.2 || den == -d.2,
            len2 == d.0 * d.0 + d.1 * d.1 + d.2 * d.2,
    ;
    lemma_reach_bound(num, den, len2, max);
}

/// The face paired with `f`.
fn opposite_face(f: usize) -> (r: usize)
    requires
        f < 6,
    ensures
        r == opposite(f as int),
        r < 6,
{
    if f % 2 == 0 {
        f + 1
    } else {
        f - 1
    }
}

/// The cell next to `c` across face `f`.
fn step_cell(c: BlockPos, f: usize) -> (r: BlockPos)
    requires
        f < 6,
        c.px > i64::MIN && c.px < i64::MAX,
        c.py > i64::MIN && c.py < i64::MAX,
        c.pz > i64::MIN && c.pz < i64::MAX,
    ensures
        r == neighbour(c, f as int),
{
    let s: i64 = if f % 2 == 1 {
        1
    } else {
        -1
    };
    let a = f / 2;
    if a == 0 {
        BlockPos { px: c.px + s, ..c }
    } else if a == 1 {
        BlockPos { py: c.py + s, ..c }
    } else {
        BlockPos { pz: c.pz + s, ..c }
    }
}

/// Where the ray from `o` along `d` meets face `f` of `c`, as a fraction.
fn crossing(o: (i64, i64, i64), d: (i64, i64, i64), c: BlockPos, f: usize) -> (r: (i128, i128))
    requires
        f < 6,
        near(o, c),
        dir_ok(d),
    ensures
        r.0 == crossing_num(o, d, c, f as int),
        r.1 == crossing_den(d, f as int),
        -NUM_BOUND <= r.0 <= NUM_BOUND,
        -DIR_LIMIT <= r.1 <= DIR_LIMIT,
        heads_to(d, f as int) == (r.1 > 0),
{
    let a = f / 2;
    let (ci, oi, di) = if a == 0 {
        (c.px as i128, o.0 as i128, d.0 as i128)
    } else if a == 1 {
        (c.py as i128, o.1 as i128, d.1 as i128)
    } else {
        (c.pz as i128, o.2 as i128, d.2 as i128)
    };
    let u = UNITS_PER_BLOCK as i128;
    if f % 2 == 1 {
        ((ci + 1) * u - oi, di)
    } else {
        (oi - ci * u, -di)
    }
}

/// `a / b < c / d <= e / g` for positive denominators gives `a / b < e / g`;
/// with `<=` in the first place it gives `<=`.
proof fn lemma_fraction_order(a: int, b: int, c: int, d: int, e: int, g: int)
    requires
        b > 0,
        d > 0,
        g > 0,
        a * d <= c * b,
        c * g <= e * d,
    ensures
        a * g <= e * b,
        a * d < c * b ==> a * g < e * b,
{
    assert(a * d * g <= c * b * g) by (nonlinear_arith)
        requires
            a * d <= c * b,
            g > 0,
    ;
    assert(c * g * b <= e * d * b) by (nonlinear_arith)
        requires
            c * g <= e * d,
            b > 0,
    ;
    assert(a * g * d <= e * b * d) by (nonlinear_arith)
        requires
            a * d * g <= c * b * g,
            c * g * b <= e * d * b,
    ;
    assert(a * g <= e * b) by (nonlinear_arith)
        requires
            a * g * d <= e * b * d,
            d > 0,
    ;
    if a * d < c * b {
        assert(a * d * g < c * b * g) by (nonlinear_arith)
            requires
                a * d < c * b,
                g > 0,
        ;
        assert(a * g * d < e * b * d) by (nonlinear_arith)
            requires
                a * d * g < c * b * g,
                c * g * b <= e * d * b,
        ;
        assert(a * g < e * b) by (nonlinear_arith)
            requires
                a * g * d < e * b * d,
                d > 0,
        ;
    }
}

/// The first face of `c` that the ray from `o` along `d` meets, with the
/// fraction at which it meets it.
fn first_face_of(o: (i64, i64, i64), d: (i64, i64, i64), c: BlockPos) -> (r: (usize, i128, i128))
    requires
        near(o, c),
        dir_ok(d),
    ensures
        first_face(o, d, c, r.0 as int),
        r.1 == crossing_num(o, d, c, r.0 as int),
        r.2 == crossing_den(d, r.0 as int),
        -NUM_BOUND <= r.1 <= NUM_BOUND,
        0 < r.2 <= DIR_LIMIT,
{
    let mut best: usize = 6;
    let mut bn: i128 = 0;
    let mut bd: i128 = 1;
    let mut j: usize = 0;
    while j < 6
        invariant
            near(o, c),
            dir_ok(d),
            j <= 6,
            best <= 6,
            best == 6 ==> forall|i: int| 0 <= i < j ==> !heads_to(d, i),
            best < 6 ==> best < j && heads_to(d, best as int) && bn == crossing_num(o, d, c, best as int)
                && bd == crossing_den(d, best as int),
            -NUM_BOUND <= bn <= NUM_BOUND,
            0 < bd <= DIR_LIMIT,
            best < 6 ==> forall|i: int|
                0 <= i < j && heads_to(d, i) ==> bn * crossing_den(d, i) <= crossing_num(o, d, c, i) * bd,
            best < 6 ==> forall|i: int|
                0 <= i < best && heads_to(d, i) ==> bn * crossing_den(d, i) < crossing_num(o, d, c, i) * bd,
        decreases 6 - j,
    {
        let (num, den) = crossing(o, d, c, j);
        proof {
            assert(-NUM_BOUND * DIR_LIMIT <= num * bd <= NUM_BOUND * DIR_LIMIT) by (nonlinear_arith)
                requires
                    -NUM_BOUND <= num <= NUM_BOUND,
                    0 < bd <= DIR_LIMIT,
            ;
            assert(-NUM_BOUND * DIR_LIMIT <= bn * den <= NUM_BOUND * DIR_LIMIT) by (nonlinear_arith)
                requires
                    -NUM_BOUND <= bn <= NUM_BOUND,
                    -DIR_LIMIT <= den <= DIR_LIMIT,
            ;
        }
        if den > 0 && (best == 6 || num * bd < bn * den) {
            proof {
                if best < 6 {
                    assert forall|i: int| 0 <= i < j && heads_to(d, i) implies num * crossing_den(d, i)
                        < crossing_num(o, d, c, i) * den by {
                        lemma_fraction_order(num as int, den as int, bn as int, bd as int,
                            crossing_num(o, d, c, i), crossing_den(d, i));
                    }
                }
            }
            best = j;
            bn = num;
            bd = den;
            proof {
                assert forall|i: int| 0 <= i < j + 1 && heads_to(d, i) implies bn * crossing_den(d, i)
                    <= crossing_num(o, d, c, i) * bd by {
                    if i == j {
                        assert(crossing_den(d, i) == bd && crossing_num(o, d, c, i) == bn);
                    }
                }
            }
        } else {
            proof {
                if best < 6 {
                    assert forall|i: int| 0 <= i < j + 1 && heads_to(d, i) implies bn * crossing_den(d, i)
                        <= crossing_num(o, d, c, i) * bd by {
                        if i == j {
                            assert(crossing_den(d, i) == den && crossing_num(o, d, c, i) == num);
                        }
                    }
                } else {
                    assert(!heads_to(d, j as int));
                }
            }
        }
        j = j + 1;
    }
    if best == 6 {
        proof {
            assert(heads_to(d, 0) || heads_to(d, 1) || heads_to(d, 2) || heads_to(d, 3) || heads_to(d, 4)
                || heads_to(d, 5));
        }
        return (0, 0, 1);
    }
    (best, bn, bd)
}

impl PhysicsPlayer {
    pub open spec fn wf(&self) -> bool {
        &&& self.aabb.wf()
        &&& self.aabb.size_x == PLAYER_SIDE
        &&& self.aabb.size_y == PLAYER_HEIGHT
        &&& self.aabb.size_z == PLAYER_SIDE
        &&& -MAX_SPEED <= self.velocity.0 <= MAX_SPEED
        &&& -MAX_SPEED <= self.velocity.1 <= MAX_SPEED
        &&& -MAX_SPEED <= self.velocity.2 <= MAX_SPEED
    }

    /// Where the camera of this player is.
    pub open spec fn camera(&self) -> (i64, i64, i64) {
        (
            (self.aabb.x + CAMERA_OFFSET_X) as i64,
            (self.aabb.y + CAMERA_OFFSET_Y) as i64,
            (self.aabb.z + CAMERA_OFFSET_Z) as i64,
        )
    }

    /// The position of the camera: the box's corner plus a fixed offset.
    pub fn get_camera_position(&self) -> (r: (i64, i64, i64))
        requires
            self.aabb.wf(),
        ensures
            r == self.camera(),
    {
        (self.aabb.x + CAMERA_OFFSET_X, self.aabb.y + CAMERA_OFFSET_Y, self.aabb.z + CAMERA_OFFSET_Z)
    }

    /// Casts a ray from the camera along `dir`, up to `max_dist` units, and
    /// returns the first non-air block that it enters, with the face through
    /// which it enters. A camera inside a non-air block points at that block,
    /// through the face opposite the one the ray would leave by.
    pub fn get_pointed_at(&self, dir: (i64, i64, i64), max_dist: i64, world: &World) -> (r: Option<
        (BlockPos, usize),
    >)
        requires
            self.aabb.wf(),
            world.wf(),
            dir_ok(dir),
            0 <= max_dist <= MAX_REACH,
        ensures
            match r {
                Some((b, f)) => world.block_at(b) != 0 && f < 6,
                None => true,
            },
            ({
                let o = self.camera();
                let s = block_of_units(o.0 as int, o.1 as int, o.2 as int);
                world.block_at(s) != 0 ==> exists|f: int|
                    first_face(o, dir, s, f) && r == Some((s, opposite(f) as usize))
            }),
            ({
                let o = self.camera();
                let s = block_of_units(o.0 as int, o.1 as int, o.2 as int);
                world.block_at(s) == 0 ==> match r {
                    Some((b, f)) => exists|n: nat|
                        #![trigger ray_cell(o, dir, s, n)]
                        clear_path(world, o, dir, s, max_dist as int, n) && {
                            let c = ray_cell(o, dir, s, n);
                            let e = exit_face(o, dir, c);
                            &&& within_reach(o, dir, c, e, max_dist as int)
                            &&& b == neighbour(c, e)
                            &&& f == opposite(e)
                        },
                    None => exists|n: nat|
                        #![trigger ray_cell(o, dir, s, n)]
                        clear_path(world, o, dir, s, max_dist as int, n) && !within_reach(
                            o,
                            dir,
                            ray_cell(o, dir, s, n),
                            exit_face(o, dir, ray_cell(o, dir, s, n)),
                            max_dist as int,
                        ),
                }
            }),
    {
        let o = self.get_camera_position();
        let start = BlockPos::from_units(o.0, o.1, o.2);
        proof {
            lemma_floor_div_bounds(o.0 as int, UNITS_PER_BLOCK as int);
            lemma_floor_div_bounds(o.1 as int, UNITS_PER_BLOCK as int);
            lemma_floor_div_bounds(o.2 as int, UNITS_PER_BLOCK as int);
        }
        if world.get_block(start) != 0 {
            let (f, _, _) = first_face_of(o, dir, start);
            return Some((start, opposite_face(f)));
        }
        let dx = dir.0 as i128;
        let dy = dir.1 as i128;
        let dz = dir.2 as i128;
        proof {
            assert(0 <= dx * dx && 0 <= dy * dy && 0 <= dz * dz && dx * dx <= DIR_LIMIT * DIR_LIMIT && dy * dy <= DIR_LIMIT * DIR_LIMIT && dz * dz
                <= DIR_LIMIT * DIR_LIMIT) by (nonlinear_arith)
                requires
                    -DIR_LIMIT <= dx <= DIR_LIMIT,
                    -DIR_LIMIT <= dy <= DIR_LIMIT,
                    -DIR_LIMIT <= dz <= DIR_LIMIT,
            ;
        }
        let len2: i128 = dx * dx + dy * dy + dz * dz;
        proof {
            assert(0 <= max_dist * max_dist <= MAX_REACH * MAX_REACH) by (nonlinear_arith)
                requires
                    0 <= max_dist <= MAX_REACH,
            ;
        }
        let max2: i128 = max_dist as i128 * max_dist as i128;
        proof {
            assert(0 <= len2 <= 12884901888) by (nonlinear_arith)
                requires
                    -65536 <= dir.0 <= 65536,
                    -65536 <= dir.1 <= 65536,
                    -65536 <= dir.2 <= 65536,
                    len2 == dir.0 * dir.0 + dir.1 * dir.1 + dir.2 * dir.2,
            ;
            assert(0 <= max2 <= 281474976710656) by (nonlinear_arith)
                requires
                    0 <= max_dist <= 16777216,
                    max2 == max_dist * max_dist,
            ;
        }
        let mut c = start;
        let mut steps: i64 = 0;
        loop
            invariant
                world.wf(),
                dir_ok(dir),
                o == self.camera(),
                start == block_of_units(o.0 as int, o.1 as int, o.2 as int),
                start.px * UNITS_PER_BLOCK <= o.0 < start.px * UNITS_PER_BLOCK + UNITS_PER_BLOCK,
                start.py * UNITS_PER_BLOCK <= o.1 < start.py * UNITS_PER_BLOCK + UNITS_PER_BLOCK,
                start.pz * UNITS_PER_BLOCK <= o.2 < start.pz * UNITS_PER_BLOCK + UNITS_PER_BLOCK,
                world.block_at(start) == 0,
                0 <= steps <= MAX_CROSSINGS,
                -steps <= c.px - start.px <= steps,
                -steps <= c.py - start.py <= steps,
                -steps <= c.pz - start.pz <= steps,
                0 <= len2 <= 12884901888,
                len2 == dir.0 * dir.0 + dir.1 * dir.1 + dir.2 * dir.2,
                max2 == max_dist * max_dist,
                0 <= max2 <= 281474976710656,
                c == ray_cell(o, dir, start, steps as nat),
                clear_path(world, o, dir, start, max_dist as int, steps as nat),
                0 <= max_dist <= MAX_REACH,
                on_course(dir, start, c),
                steps == cell_distance(start, c),
                within_box(start, c, max_dist as int),
            decreases MAX_CROSSINGS - steps,
        {
            proof {
                assert(steps * UNITS_PER_BLOCK <= 3 * (max_dist + UNITS_PER_BLOCK));
                assert(steps < MAX_CROSSINGS);
                assert(near(o, c));
            }
            let (f, num, den) = first_face_of(o, dir, c);
            proof {
                lemma_first_face_unique(o, dir, c, f as int);
                assert(0 <= num * num <= 18014398509481984) by (nonlinear_arith)
                    requires
                        -134217728 <= num <= 134217728,
                ;
                assert(0 <= num * num * len2 <= 232113757366008801543585792) by (nonlinear_arith)
                    requires
                        0 <= num * num <= 18014398509481984,
                        0 <= len2 <= 12884901888,
                ;
                assert(0 <= max2 * den <= 18446744073709551616) by (nonlinear_arith)
                    requires
                        0 < den <= 65536,
                        0 <= max2 <= 281474976710656,
                ;
                assert(0 <= max2 * den * den <= 1208925819614629174706176) by (nonlinear_arith)
                    requires
                        0 < den <= 65536,
                        0 <= max2 * den <= 18446744073709551616,
                ;
            }
            let nn: i128 = num * num;
            let far: i128 = nn * len2;
            let md: i128 = max2 * den;
            let reach: i128 = md * den;
            if far > reach {
                proof {
                    assert(!within_reach(o, dir, c, f as int, max_dist as int)) by (nonlinear_arith)
                        requires
                            num == crossing_num(o, dir, c, f as int),
                            den == crossing_den(dir, f as int),
                            len2 == dir.0 * dir.0 + dir.1 * dir.1 + dir.2 * dir.2,
                            max2 == max_dist * max_dist,
                            num * num * len2 > max2 * den * den,
                    ;
                    assert(ray_cell(o, dir, start, steps as nat) == c);
                }
                return None;
            }
            let ghost prev = c;
            proof {
                assert(within_reach(o, dir, prev, f as int, max_dist as int)) by (nonlinear_arith)
                    requires
                        num == crossing_num(o, dir, prev, f as int),
                        den == crossing_den(dir, f as int),
                        len2 == dir.0 * dir.0 + dir.1 * dir.1 + dir.2 * dir.2,
                        max2 == max_dist * max_dist,
                        num * num * len2 <= max2 * den * den,
                ;
            }
            proof {
                lemma_step_on_course(o, dir, start, c, f as int, max_dist as int);
            }
            c = step_cell(c, f);
            assert(c == ray_cell(o, dir, start, (steps + 1) as nat));
            let ghost n = steps as nat;
            steps = steps + 1;
            if world.get_block(c) != 0 {
                let g = opposite_face(f);
                proof {
                    assert(ray_cell(o, dir, start, n) == prev);
                }
                return Some((c, g));
            }
            proof {
                assert forall|k: nat| k <= n + 1 implies world.block_at(#[trigger] ray_cell(o, dir, start, k)) == 0 by {
                    if k == n + 1 {
                        assert(ray_cell(o, dir, start, k) == c);
                    }
                }
                assert forall|k: nat| k < n + 1 implies within_reach(o, dir, #[trigger] ray_cell(o, dir, start, k),
                    exit_face(o, dir, ray_cell(o, dir, start, k)), max_dist as int) by {
                    if k == n {
                        assert(ray_cell(o, dir, start, k) == prev);
                    }
                }
            }
        }
    }
}

impl Default for PhysicsPlayer {
    /// A player at the spawn point, at rest.
    fn default() -> (r: PhysicsPlayer)
        ensures
            r.wf(),
            r.aabb == (AABB { x: 1460, y: 52600, z: 1850, size_x: PLAYER_SIDE, size_y: PLAYER_HEIGHT, size_z: PLAYER_SIDE }),
            r.velocity == (0i64, 0i64, 0i64),
    {
        PhysicsPlayer {
            aabb: AABB::new((1460, 52600, 1850), (PLAYER_SIDE, PLAYER_HEIGHT, PLAYER_SIDE)),
            velocity: (0, 0, 0),
        }
    }
}

} // verus!
