use crate::coords::{block_of_units, chunk_of, BlockPos, ChunkPos, CHUNK_VOLUME};
use crate::render_distance::RenderDistance;
use crate::simulation::{ClientPhysicsSimulation, PlayerId, PlayerInput, ServerState};
use crate::world::{Chunk, LightChunk, World};
use vstd::prelude::*;

verus! {

/// A message sent to the server by the client.
#[derive(Clone, Debug)]
pub enum ToServer {
    /// Update the player's render distance.
    SetRenderDistance(RenderDistance),
    /// Update the player's input.
    UpdateInput(PlayerInput),
    /// Break the block pointed at from a camera position (units), with yaw and
    /// pitch in thousandths of a degree.
    BreakBlock { x: i64, y: i64, z: i64, yaw: i64, pitch: i64 },
}

/// A message sent to the client by the server, as far as the physics core
/// reads it.
#[derive(Clone, Debug)]
pub enum ToClient {
    /// A chunk and its light data.
    Chunk(Chunk, LightChunk),
    /// A new authoritative snapshot of the player.
    UpdatePhysics(ServerState),
    /// The identity of the player.
    CurrentId(PlayerId),
}

/// Applies one message from the server between two ticks: a chunk message
/// loads the chunk with its light data (and names the chunk, whose
/// neighbourhood needs redrawing), a snapshot goes to the reconciliation.
/// A chunk whose two parts disagree on position or size is dropped.
pub fn handle_message(world: &mut World, sim: &mut ClientPhysicsSimulation, msg: ToClient) -> (r: Option<ChunkPos>)
    requires
        old(world).wf(),
        old(sim).wf(),
    ensures
        final(world).wf(),
        final(sim).wf(),
        match msg {
            ToClient::Chunk(chunk, light) => {
                let ok = chunk.wf() && light.wf() && chunk.pos == light.pos;
                &&& *final(sim) == *old(sim)
                &&& ok ==> r == Some(chunk.pos)
                    && final(world).chunks_view() == old(world).chunks_view().insert(chunk.pos, chunk.data@)
                    && final(world).lights_view() == old(world).lights_view().insert(chunk.pos, light.light@)
                &&& !ok ==> r.is_none() && final(world).chunks_view() == old(world).chunks_view()
                    && final(world).lights_view() == old(world).lights_view()
            },
            ToClient::UpdatePhysics(s) => {
                &&& r.is_none()
                &&& *final(world) == *old(world)
                &&& s.wf() ==> *final(sim) == old(sim).after_update(s)
                &&& !s.wf() ==> *final(sim) == *old(sim)
            },
            ToClient::CurrentId(_) => r.is_none() && *final(world) == *old(world) && *final(sim) == *old(sim),
        },
{
    match msg {
        ToClient::Chunk(chunk, light) => {
            if chunk.data.len() != CHUNK_VOLUME || light.light.len() != CHUNK_VOLUME {
                return None;
            }
            let pos = chunk.pos;
            if world.set_chunk(chunk, light) {
                Some(pos)
            } else {
                None
            }
        },
        ToClient::UpdatePhysics(s) => {
            if s.physics_state.aabb.size_x == crate::player::PLAYER_SIDE
                && s.physics_state.aabb.size_y == crate::player::PLAYER_HEIGHT
                && s.physics_state.aabb.size_z == crate::player::PLAYER_SIDE
                && within(s.physics_state.aabb.x, crate::aabb::POS_LIMIT)
                && within(s.physics_state.aabb.y, crate::aabb::POS_LIMIT)
                && within(s.physics_state.aabb.z, crate::aabb::POS_LIMIT)
                && within(s.physics_state.velocity.0, crate::player::MAX_SPEED)
                && within(s.physics_state.velocity.1, crate::player::MAX_SPEED)
                && within(s.physics_state.velocity.2, crate::player::MAX_SPEED) {
                sim.receive_server_update(s);
            }
            None
        },
        ToClient::CurrentId(_) => None,
    }
}

fn within(v: i64, bound: i64) -> (r: bool)
    requires
        bound >= 0,
    ensures
        r == (-bound <= v <= bound),
{
    -bound <= v && v <= bound
}

/// The chunk that holds the camera of the predicted player.
pub open spec fn player_chunk(sim: ClientPhysicsSimulation) -> ChunkPos {
    let c = sim.player.camera();
    chunk_of(block_of_units(c.0 as int, c.1 as int, c.2 as int))
}

/// One tick of the client: the predicted player steps with `input`, then
/// every chunk outside the render distance of the player's new chunk is
/// unloaded. Returns that chunk.
pub fn update_tick(
    world: &mut World,
    sim: &mut ClientPhysicsSimulation,
    rd: &RenderDistance,
    input: PlayerInput,
    now: u64,
) -> (r: ChunkPos)
    requires
        old(world).wf(),
        old(sim).wf(),
    ensures
        final(world).wf(),
        final(sim).wf(),
        final(sim).server_state == old(sim).server_state,
        final(sim).last_tick == now,
        old(sim).player.aabb.moved(
            &*old(world),
            crate::simulation::requested(&*old(world), old(sim).player, input),
            final(sim).player.velocity,
            final(sim).player.aabb,
        ),
        r == player_chunk(*final(sim)),
        forall|c: ChunkPos|
            #[trigger] final(world).chunks_view().contains_key(c) == (old(world).chunks_view().contains_key(c)
                && rd.visible(r, c)),
        forall|c: ChunkPos|
            #[trigger] final(world).chunks_view().contains_key(c) ==> final(world).chunks_view()[c]
                == old(world).chunks_view()[c] && final(world).lights_view()[c] == old(world).lights_view()[c],
{
    sim.step_simulation(input, now, world);
    let cam = sim.get_camera_position();
    let pc = BlockPos::from_units(cam.0, cam.1, cam.2).containing_chunk_pos();
    world.retain_visible(rd, pc);
    pc
}

} // verus!
