use voxel_physics::aabb::AABB;
use voxel_physics::coords::{BlockPos, ChunkPos};
use voxel_physics::player::{PhysicsPlayer, PLAYER_REACH};
use voxel_physics::world::{Chunk, LightChunk, World};

fn single_block_world() -> World {
    let mut world = World::new();
    let pos = ChunkPos::new(0, 0, 0);
    let mut chunk = Chunk::new(pos);
    chunk.set_block(BlockPos::new(0, 0, 0), 1);
    assert!(world.set_chunk(chunk, LightChunk::new(pos)));
    world
}

fn player_with_camera_at(x: i64, y: i64, z: i64) -> PhysicsPlayer {
    let mut p = PhysicsPlayer::default();
    p.aabb.x = x - 400;
    p.aabb.y = y - 1600;
    p.aabb.z = z - 400;
    assert_eq!(p.get_camera_position(), (x, y, z));
    p
}

#[test]
fn default_player_is_at_spawn_and_at_rest() {
    let p = PhysicsPlayer::default();
    assert_eq!((p.aabb.x, p.aabb.y, p.aabb.z), (1460, 52600, 1850));
    assert_eq!((p.aabb.size_x, p.aabb.size_y, p.aabb.size_z), (800, 1800, 800));
    assert_eq!(p.velocity, (0, 0, 0));
    assert_eq!(p.get_camera_position(), (1860, 54200, 2250));
}

#[test]
fn ray_hits_top_face_of_block_below() {
    let world = single_block_world();
    let p = player_with_camera_at(500, 500, 5000);
    assert_eq!(p.get_pointed_at((0, 0, -1), 10000, &world), Some((BlockPos::new(0, 0, 0), 5)));
}

#[test]
fn camera_inside_block_points_at_it() {
    let world = single_block_world();
    let p = player_with_camera_at(500, 500, 500);
    assert_eq!(p.get_pointed_at((0, 0, -1), 10000, &world), Some((BlockPos::new(0, 0, 0), 5)));
    assert_eq!(p.get_pointed_at((1, 0, 0), 10000, &world), Some((BlockPos::new(0, 0, 0), 0)));
    let q = player_with_camera_at(500, 900, 500);
    assert_eq!(q.get_pointed_at((0, -1, 0), 10000, &world), Some((BlockPos::new(0, 0, 0), 3)));
}

#[test]
fn ray_away_from_block_finds_nothing() {
    let world = single_block_world();
    let p = player_with_camera_at(500, 500, 5000);
    assert_eq!(p.get_pointed_at((0, 0, 1), 10000, &world), None);
    assert_eq!(p.get_pointed_at((1, 1, 0), 10000, &world), None);
}

#[test]
fn ray_beyond_reach_finds_nothing() {
    let world = single_block_world();
    let p = player_with_camera_at(500, 500, 20500);
    assert_eq!(p.get_pointed_at((0, 0, -1), PLAYER_REACH, &world), None);
    let q = player_with_camera_at(500, 500, 10500);
    assert_eq!(q.get_pointed_at((0, 0, -1), PLAYER_REACH, &world), Some((BlockPos::new(0, 0, 0), 5)));
}

#[test]
fn diagonal_ray_enters_through_side() {
    let world = single_block_world();
    let p = player_with_camera_at(-2500, 500, 500);
    assert_eq!(p.get_pointed_at((1, 0, 0), 10000, &world), Some((BlockPos::new(0, 0, 0), 0)));
    let q = player_with_camera_at(-1500, 2500, 500);
    assert_eq!(q.get_pointed_at((1000, -1000, 0), 10000, &world), Some((BlockPos::new(0, 0, 0), 3)));
    let box_only = AABB::new_cube((0, 0, 0), 1);
    assert_eq!(box_only.size_x, 1);
}
