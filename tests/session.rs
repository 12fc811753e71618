use voxel_physics::aabb::AABB;
use voxel_physics::coords::{BlockPos, ChunkPos};
use voxel_physics::messages::{handle_message, update_tick, ToClient, ToServer};
use voxel_physics::player::PhysicsPlayer;
use voxel_physics::render_distance::RenderDistance;
use voxel_physics::simulation::{ClientPhysicsSimulation, PlayerInput, ServerState};
use voxel_physics::world::{Chunk, LightChunk, World};

fn sim_at(x: i64, y: i64, z: i64, time: u64) -> ClientPhysicsSimulation {
    let p = PhysicsPlayer { aabb: AABB::new((x, y, z), (800, 1800, 800)), velocity: (0, 0, 0) };
    ClientPhysicsSimulation::new(
        ServerState { physics_state: p, server_time: time, input: PlayerInput::default() },
        3,
    )
}

#[test]
fn chunk_message_loads_chunk_and_light() {
    let mut world = World::new();
    let mut sim = sim_at(0, 0, 0, 0);
    let pos = ChunkPos::new(1, -1, 0);
    let mut chunk = Chunk::new(pos);
    chunk.set_block(BlockPos::new(33, -1, 0), 5);
    let r = handle_message(&mut world, &mut sim, ToClient::Chunk(chunk, LightChunk::new(pos)));
    assert_eq!(r, Some(pos));
    assert!(world.has_chunk(pos) && world.has_light_chunk(pos));
    assert_eq!(world.get_block(BlockPos::new(33, -1, 0)), 5);
}

#[test]
fn malformed_chunk_message_is_dropped() {
    let mut world = World::new();
    let mut sim = sim_at(0, 0, 0, 0);
    let pos = ChunkPos::new(0, 0, 0);
    let short = Chunk { pos, data: vec![1; 10] };
    assert_eq!(handle_message(&mut world, &mut sim, ToClient::Chunk(short, LightChunk::new(pos))), None);
    let other = LightChunk::new(ChunkPos::new(0, 0, 1));
    assert_eq!(handle_message(&mut world, &mut sim, ToClient::Chunk(Chunk::new(pos), other)), None);
    assert!(!world.has_chunk(pos));
    assert!(!world.has_light_chunk(ChunkPos::new(0, 0, 1)));
}

#[test]
fn snapshot_message_reconciles() {
    let mut world = World::new();
    let mut sim = sim_at(0, 0, 0, 5);
    let p = PhysicsPlayer { aabb: AABB::new((7000, 0, 0), (800, 1800, 800)), velocity: (0, 0, 0) };
    let stale = ServerState { physics_state: p, server_time: 4, input: PlayerInput::default() };
    assert_eq!(handle_message(&mut world, &mut sim, ToClient::UpdatePhysics(stale)), None);
    assert_eq!(sim.get_player().aabb.x, 0);
    let fresh = ServerState { physics_state: p, server_time: 6, input: PlayerInput::default() };
    assert_eq!(handle_message(&mut world, &mut sim, ToClient::UpdatePhysics(fresh)), None);
    assert_eq!(sim.get_player().aabb.x, 7000);
    assert_eq!(handle_message(&mut world, &mut sim, ToClient::CurrentId(9)), None);
    assert_eq!(sim.player_id, 3);
}

#[test]
fn tick_steps_and_evicts_far_chunks() {
    let mut world = World::new();
    let mut sim = sim_at(0, 0, 0, 0);
    for i in -3..4 {
        let pos = ChunkPos::new(i, 0, 0);
        assert!(world.set_chunk(Chunk::new(pos), LightChunk::new(pos)));
    }
    let rd = RenderDistance { x_max: 1, x_min: 1, y_max: 1, y_min: 1, z_max: 1, z_min: 1 };
    let pc = update_tick(&mut world, &mut sim, &rd, PlayerInput::default(), 1);
    assert_eq!(pc, ChunkPos::new(0, 0, 0));
    assert_eq!(sim.get_player().aabb.y, -20);
    for i in -3..4 {
        let c = ChunkPos::new(i, 0, 0);
        assert_eq!(world.has_chunk(c), (-1..=1).contains(&i));
        assert_eq!(world.has_light_chunk(c), world.has_chunk(c));
    }
}

#[test]
fn outgoing_messages_carry_their_values() {
    let rd = RenderDistance { x_max: 1, x_min: 2, y_max: 3, y_min: 4, z_max: 5, z_min: 6 };
    match ToServer::SetRenderDistance(rd) {
        ToServer::SetRenderDistance(r) => assert_eq!(r, rd),
        _ => panic!("wrong variant"),
    }
    let m = ToServer::BreakBlock { x: 1, y: 2, z: 3, yaw: 4, pitch: 5 };
    assert!(matches!(m, ToServer::BreakBlock { x: 1, y: 2, z: 3, yaw: 4, pitch: 5 }));
}
