use crate::aabb::{between, AABB, POS_LIMIT};
use crate::player::{PhysicsPlayer, MAX_SPEED};
use crate::world::World;
use vstd::prelude::*;

verus! {

/// Downward acceleration, in units per tick per tick.
pub const GRAVITY: i64 = 20;

/// Horizontal speed of a walking player, in units per tick.
pub const WALK_SPEED: i64 = 100;

/// Upward speed given by a jump, in units per tick.
pub const JUMP_SPEED: i64 = 200;

/// Identity of a player.
pub type PlayerId = u64;

/// What a player asks for during one tick: a direction to walk along x and
/// along z (only the sign counts) and whether to jump.
#[derive(Clone, Copy, Debug, PartialEq, Eq, Structural, Default)]
pub struct PlayerInput {
    pub move_x: i64,
    pub move_z: i64,
    pub jump: bool,
}

/// An authoritative snapshot: the physical state of the player at
/// `server_time`, and the input that led there.
#[derive(Clone, Copy, Debug)]
pub struct ServerState {
    pub physics_state: PhysicsPlayer,
    pub server_time: u64,
    pub input: PlayerInput,
}

/// The locally predicted state of one player, and the latest snapshot from
/// the server that it was reconciled with.
#[derive(Clone, Copy, Debug)]
pub struct ClientPhysicsSimulation {
    pub player: PhysicsPlayer,
    pub player_id: PlayerId,
    pub server_state: ServerState,
    pub last_tick: u64,
}

pub open spec fn sign(v: int) -> int {
    if v > 0 {
        1
    } else if v < 0 {
        -1
    } else {
        0
    }
}

/// The box rests on something: one unit lower it would meet a block.
pub open spec fn on_ground(w: &World, b: AABB) -> bool {
    b.y > -POS_LIMIT && b.shift(1, -1).collides(w)
}

/// The velocity asked for by `input` from a player moving at `v`.
pub open spec fn wanted_velocity(v: (i64, i64, i64), input: PlayerInput, grounded: bool) -> (int, int, int) {
    let vy = if input.jump && grounded {
        JUMP_SPEED as int
    } else if v.1 - GRAVITY < -MAX_SPEED {
        -MAX_SPEED as int
    } else {
        v.1 - GRAVITY
    };
    (sign(input.move_x as int) * WALK_SPEED, vy, sign(input.move_z as int) * WALK_SPEED)
}

/// `d`, cut so that `p + d` stays within the world's bounds.
pub open spec fn keep_inside(p: int, d: int) -> int {
    if p + d > POS_LIMIT {
        POS_LIMIT - p
    } else if p + d < -POS_LIMIT {
        -POS_LIMIT - p
    } else {
        d
    }
}

/// The displacement that one tick asks of the player's box.
pub open spec fn requested(w: &World, p: PhysicsPlayer, input: PlayerInput) -> (i64, i64, i64) {
    let v = wanted_velocity(p.velocity, input, on_ground(w, p.aabb));
    (
        keep_inside(p.aabb.x as int, v.0) as i64,
        keep_inside(p.aabb.y as int, v.1) as i64,
        keep_inside(p.aabb.z as int, v.2) as i64,
    )
}

fn sign_of(v: i64) -> (r: i64)
    ensures
        r == sign(v as int),
{
    if v > 0 {
        1
    } else if v < 0 {
        -1
    } else {
        0
    }
}

fn keep_inside_of(p: i64, d: i64) -> (r: i64)
    requires
        -POS_LIMIT <= p <= POS_LIMIT,
        -MAX_SPEED <= d <= MAX_SPEED,
    ensures
        r == keep_inside(p as int, d as int),
        -MAX_SPEED <= r <= MAX_SPEED,
{
    if p + d > POS_LIMIT {
        POS_LIMIT - p
    } else if p + d < -POS_LIMIT {
        -POS_LIMIT - p
    } else {
        d
    }
}

/// Whether the box rests on something.
fn is_on_ground(b: &AABB, world: &World) -> (r: bool)
    requires
        b.wf(),
        world.wf(),
    ensures
        r == on_ground(world, *b),
{
    if b.y > -POS_LIMIT {
        let mut t = *b;
        t.y = b.y - 1;
        assert(t == b.shift(1, -1));
        t.intersect_world(world)
    } else {
        false
    }
}

impl ServerState {
    pub open spec fn wf(&self) -> bool {
        self.physics_state.wf()
    }
}

impl ClientPhysicsSimulation {
    pub open spec fn wf(&self) -> bool {
        self.player.wf() && self.server_state.wf()
    }

    /// The simulation after snapshot `s` arrives: a snapshot older than the
    /// baseline is ignored; any other becomes the baseline, and the player
    /// is put where it says.
    pub open spec fn after_update(self, s: ServerState) -> ClientPhysicsSimulation {
        if s.server_time < self.server_state.server_time {
            self
        } else {
            ClientPhysicsSimulation { player: s.physics_state, server_state: s, ..self }
        }
    }

    /// A simulation that starts from the snapshot `server_state`.
    pub fn new(server_state: ServerState, player_id: PlayerId) -> (r: ClientPhysicsSimulation)
        requires
            server_state.wf(),
        ensures
            r.wf(),
            r.player == server_state.physics_state,
            r.player_id == player_id,
            r.server_state == server_state,
            r.last_tick == server_state.server_time,
    {
        ClientPhysicsSimulation {
            player: server_state.physics_state,
            player_id,
            server_state,
            last_tick: server_state.server_time,
        }
    }

    /// Takes in an authoritative snapshot, unless a newer one is already the
    /// baseline.
    pub fn receive_server_update(&mut self, server_state: ServerState)
        requires
            old(self).wf(),
            server_state.wf(),
        ensures
            final(self).wf(),
            *final(self) == old(self).after_update(server_state),
            final(self).server_state.server_time >= old(self).server_state.server_time,
    {
        if server_state.server_time >= self.server_state.server_time {
            self.player = server_state.physics_state;
            self.server_state = server_state;
        }
    }

    /// Advances the predicted player by one tick of `input` at time `now`:
    /// walking sets the horizontal velocity, a jump from the ground or
    /// gravity the vertical one, and the box then moves through `world` by
    /// that velocity, cut at the world's bounds. The velocity kept is the
    /// displacement achieved.
    pub fn step_simulation(&mut self, input: PlayerInput, now: u64, world: &World)
        requires
            old(self).wf(),
            world.wf(),
        ensures
            final(self).wf(),
            final(self).player_id == old(self).player_id,
            final(self).server_state == old(self).server_state,
            final(self).last_tick == now,
            old(self).player.aabb.moved(
                world,
                requested(world, old(self).player, input),
                final(self).player.velocity,
                final(self).player.aabb,
            ),
    {
        let grounded = is_on_ground(&self.player.aabb, world);
        let v = self.player.velocity;
        let vy = if input.jump && grounded {
            JUMP_SPEED
        } else if v.1 - GRAVITY < -MAX_SPEED {
            -MAX_SPEED
        } else {
            v.1 - GRAVITY
        };
        let vx = sign_of(input.move_x) * WALK_SPEED;
        let vz = sign_of(input.move_z) * WALK_SPEED;
        let b = self.player.aabb;
        let delta = (keep_inside_of(b.x, vx), keep_inside_of(b.y, vy), keep_inside_of(b.z, vz));
        assert(delta == requested(world, self.player, input));
        let r = self.player.aabb.move_check_collision(world, delta);
        proof {
            if !b.collides(world) {
                let b1 = b.shift(0, r.0 as int);
                let b2 = b1.shift(1, r.1 as int);
                assert(between(r.0 as int, delta.0 as int));
                assert(between(r.1 as int, delta.1 as int));
                assert(between(r.2 as int, delta.2 as int));
            }
        }
        self.player.velocity = r;
        self.last_tick = now;
    }

    /// The position of the predicted player's camera.
    pub fn get_camera_position(&self) -> (r: (i64, i64, i64))
        requires
            self.wf(),
        ensures
            r == self.player.camera(),
    {
        self.player.get_camera_position()
    }

    /// The predicted player.
    pub fn get_player(&self) -> (r: PhysicsPlayer)
        ensures
            r == self.player,
    {
        self.player
    }
}

/// A player resting on the ground and not rising, clear of blocks, with no
/// input, stays exactly where it is and comes to rest: gravity neither sinks
/// it into the ground nor makes it bounce.
pub proof fn lemma_rest_on_ground(w: &World, p: PhysicsPlayer, r: (i64, i64, i64), fin: AABB)
    requires
        p.wf(),
        !p.aabb.collides(w),
        on_ground(w, p.aabb),
        p.velocity.1 <= 0,
        p.aabb.moved(w, requested(w, p, PlayerInput { move_x: 0, move_z: 0, jump: false }), r, fin),
    ensures
        r == (0i64, 0i64, 0i64),
        fin == p.aabb,
{
    let b = p.aabb;
    let d = requested(w, p, PlayerInput { move_x: 0, move_z: 0, jump: false });
    assert(d.0 == 0 && d.2 == 0 && d.1 <= 0);
    assert(between(r.0 as int, 0));
    assert(between(r.2 as int, 0));
    assert(b.shift(0, 0) == b);
    let b1 = b.shift(0, r.0 as int);
    assert(b1 == b);
    if r.1 < 0 {
        assert(between(-1, r.1 as int));
        assert(!b1.shift(1, -1).collides(w));
    }
    assert(r.1 == 0);
    assert(b1.shift(1, 0) == b);
    assert(b.shift(2, 0) == b);
}

/// Once a snapshot has been taken in, one older than it changes nothing:
/// reconciliation never goes back in time.
pub proof fn lemma_reconciliation_non_regression(
    sim: ClientPhysicsSimulation,
    s1: ServerState,
    s2: ServerState,
)
    requires
        s2.server_time < s1.server_time,
    ensures
        sim.after_update(s1).after_update(s2) == sim.after_update(s1),
{
}

} // verus!
