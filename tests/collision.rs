use voxel_physics::aabb::AABB;
use voxel_physics::coords::{BlockPos, ChunkPos};
use voxel_physics::world::{Chunk, LightChunk, World};

fn world_of(blocks: &[(i64, i64, i64)]) -> World {
    let mut world = World::new();
    let pos = ChunkPos::new(0, 0, 0);
    let mut chunk = Chunk::new(pos);
    let mut other = Chunk::new(ChunkPos::new(-1, 0, 0));
    for &(x, y, z) in blocks {
        if x < 0 {
            other.set_block(BlockPos::new(x, y, z), 1);
        } else {
            chunk.set_block(BlockPos::new(x, y, z), 1);
        }
    }
    assert!(world.set_chunk(chunk, LightChunk::new(pos)));
    assert!(world.set_chunk(other, LightChunk::new(ChunkPos::new(-1, 0, 0))));
    world
}

#[test]
fn separated_boxes_do_not_intersect() {
    let a = AABB::new_cube((0, 0, 0), 1000);
    let far = AABB::new_cube((3000, 0, 0), 1000);
    let above = AABB::new((0, 1500, 0), (1000, 1000, 1000));
    assert!(!a.intersect(&far));
    assert!(!far.intersect(&a));
    assert!(!a.intersect(&above));
}

#[test]
fn overlapping_boxes_intersect() {
    let a = AABB::new_cube((0, 0, 0), 1000);
    let b = AABB::new((500, 500, 500), (1000, 200, 1000));
    let inner = AABB::new_cube((100, 100, 100), 10);
    assert!(a.intersect(&b));
    assert!(b.intersect(&a));
    assert!(a.intersect(&inner));
    assert!(inner.intersect(&a));
}

#[test]
fn touching_boxes_do_not_intersect() {
    let a = AABB::new_cube((0, 0, 0), 1000);
    let right = AABB::new_cube((1000, 0, 0), 1000);
    let below = AABB::new_cube((0, -1000, 0), 1000);
    assert!(!a.intersect(&right));
    assert!(!right.intersect(&a));
    assert!(!a.intersect(&below));
    assert!(!below.intersect(&a));
}

#[test]
fn point_test_includes_faces() {
    let a = AABB::new((0, 0, 0), (1000, 2000, 500));
    assert!(a.intersect_point((0, 0, 0)));
    assert!(a.intersect_point((1000, 2000, 500)));
    assert!(a.intersect_point((500, 1000, 250)));
    assert!(!a.intersect_point((1001, 0, 0)));
    assert!(!a.intersect_point((0, -1, 0)));
}

#[test]
fn world_intersection_uses_floor_and_ceil() {
    let world = world_of(&[(2, 0, 0)]);
    assert!(!AABB::new_cube((1000, 0, 0), 1000).intersect_world(&world));
    assert!(AABB::new_cube((1001, 0, 0), 1000).intersect_world(&world));
    assert!(AABB::new_cube((2999, 999, 999), 1).intersect_world(&world));
    assert!(!AABB::new_cube((3000, 0, 0), 1000).intersect_world(&world));
}

#[test]
fn sweep_stops_at_wall_without_tunnelling() {
    let world = world_of(&[(2, 0, 0)]);
    let mut b = AABB::new_cube((0, 0, 0), 1000);
    let r = b.move_check_collision(&world, (5000, 0, 0));
    assert!(r.0 >= 990 && r.0 <= 1000);
    assert_eq!(b.x, r.0);
    assert!(b.x + b.size_x <= 2000);
    assert_eq!((r.1, r.2), (0, 0));
    assert!(!b.intersect_world(&world));
}

#[test]
fn sweep_stops_at_wall_in_negative_direction() {
    let world = world_of(&[(-3, 0, 0)]);
    let mut b = AABB::new_cube((0, 0, 0), 1000);
    let r = b.move_check_collision(&world, (-5000, 0, 0));
    assert!(r.0 <= -1990 && r.0 >= -2000);
    assert!(b.x >= -2000);
    assert!(!b.intersect_world(&world));
}

#[test]
fn free_sweep_goes_the_whole_way() {
    let world = world_of(&[]);
    let mut b = AABB::new((0, 0, 0), (800, 1800, 800));
    let r = b.move_check_collision(&world, (1234, -5678, 90));
    assert_eq!(r, (1234, -5678, 90));
    assert_eq!((b.x, b.y, b.z), (1234, -5678, 90));
}

#[test]
fn axes_resolve_in_order() {
    let world = world_of(&[(1, 1, 0)]);
    let mut b = AABB::new_cube((0, 0, 0), 1000);
    let r = b.move_check_collision(&world, (1000, 1000, 0));
    assert_eq!(r.0, 1000);
    assert_eq!(r.1, 0);
    assert!(!b.intersect_world(&world));
}

#[test]
fn embedded_box_moves_unchecked() {
    let world = world_of(&[(0, 0, 0), (1, 0, 0), (2, 0, 0)]);
    let mut b = AABB::new_cube((0, 0, 0), 1000);
    assert!(b.intersect_world(&world));
    let r = b.move_check_collision(&world, (5000, 300, -200));
    assert_eq!(r, (5000, 300, -200));
    assert_eq!((b.x, b.y, b.z), (5000, 300, -200));
    assert!(!b.intersect_world(&world));
}
