use voxel_physics::aabb::AABB;
use voxel_physics::coords::{BlockPos, ChunkPos};
use voxel_physics::player::PhysicsPlayer;
use voxel_physics::simulation::{ClientPhysicsSimulation, PlayerInput, ServerState};
use voxel_physics::world::{Chunk, LightChunk, World};

fn floor_world() -> World {
    let mut world = World::new();
    let pos = ChunkPos::new(0, 0, 0);
    let mut chunk = Chunk::new(pos);
    for x in 0..8 {
        for z in 0..8 {
            chunk.set_block(BlockPos::new(x, 0, z), 1);
        }
    }
    assert!(world.set_chunk(chunk, LightChunk::new(pos)));
    world
}

fn player_at(x: i64, y: i64, z: i64) -> PhysicsPlayer {
    PhysicsPlayer { aabb: AABB::new((x, y, z), (800, 1800, 800)), velocity: (0, 0, 0) }
}

fn snapshot(p: PhysicsPlayer, time: u64) -> ServerState {
    ServerState { physics_state: p, server_time: time, input: PlayerInput::default() }
}

#[test]
fn older_snapshot_is_ignored() {
    let mut sim = ClientPhysicsSimulation::new(snapshot(player_at(0, 0, 0), 0), 7);
    sim.receive_server_update(snapshot(player_at(1000, 2000, 3000), 20));
    assert_eq!(sim.server_state.server_time, 20);
    assert_eq!(sim.get_player().aabb.x, 1000);
    sim.receive_server_update(snapshot(player_at(5, 5, 5), 10));
    assert_eq!(sim.server_state.server_time, 20);
    assert_eq!(sim.get_player().aabb.x, 1000);
    assert_eq!(sim.get_camera_position(), (1400, 3600, 3400));
    assert_eq!(sim.player_id, 7);
}

#[test]
fn newer_snapshot_replaces_prediction() {
    let world = floor_world();
    let mut sim = ClientPhysicsSimulation::new(snapshot(player_at(1000, 1000, 1000), 0), 1);
    let walk = PlayerInput { move_x: 1, move_z: 0, jump: false };
    sim.step_simulation(walk, 1, &world);
    assert_eq!(sim.get_player().aabb.x, 1100);
    sim.receive_server_update(snapshot(player_at(2000, 1000, 2000), 1));
    assert_eq!(sim.get_player().aabb.x, 2000);
    assert_eq!(sim.server_state.server_time, 1);
}

#[test]
fn resting_player_stays_on_floor() {
    let world = floor_world();
    let mut sim = ClientPhysicsSimulation::new(snapshot(player_at(3000, 1000, 3000), 0), 1);
    for t in 1..=100 {
        sim.step_simulation(PlayerInput::default(), t, &world);
        let b = sim.get_player().aabb;
        assert_eq!(b.y, 1000);
        assert_eq!((b.x, b.z), (3000, 3000));
    }
    assert_eq!(sim.last_tick, 100);
}

#[test]
fn falling_player_settles_on_floor() {
    let world = floor_world();
    let mut sim = ClientPhysicsSimulation::new(snapshot(player_at(3000, 4000, 3000), 0), 1);
    let mut ys = Vec::new();
    for t in 1..=100 {
        sim.step_simulation(PlayerInput::default(), t, &world);
        ys.push(sim.get_player().aabb.y);
    }
    let last = ys[99];
    assert!(last >= 1000 && last <= 1010);
    for y in &ys[50..] {
        assert_eq!(*y, last);
        assert!(*y >= 1000);
    }
}

#[test]
fn jump_from_ground_rises() {
    let world = floor_world();
    let mut sim = ClientPhysicsSimulation::new(snapshot(player_at(3000, 1000, 3000), 0), 1);
    let jump = PlayerInput { move_x: 0, move_z: -5, jump: true };
    sim.step_simulation(jump, 1, &world);
    assert_eq!(sim.get_player().aabb.y, 1200);
    assert_eq!(sim.get_player().velocity, (0, 200, -100));
    sim.step_simulation(jump, 2, &world);
    assert_eq!(sim.get_player().aabb.y, 1380);
}

#[test]
fn missing_chunks_are_empty_air() {
    let world = World::new();
    let mut sim = ClientPhysicsSimulation::new(snapshot(player_at(0, 0, 0), 0), 1);
    sim.step_simulation(PlayerInput::default(), 1, &world);
    assert_eq!(sim.get_player().aabb.y, -20);
    assert_eq!(sim.get_player().velocity, (0, -20, 0));
}
