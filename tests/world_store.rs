use voxel_physics::coords::{BlockPos, ChunkPos};
use voxel_physics::render_distance::RenderDistance;
use voxel_physics::world::{Chunk, LightChunk, World};

fn world_with(blocks: &[(i64, i64, i64, u16)]) -> World {
    let mut world = World::new();
    for &(x, y, z, id) in blocks {
        let b = BlockPos::new(x, y, z);
        let pos = b.containing_chunk_pos();
        let mut chunk = Chunk::new(pos);
        if world.has_chunk(pos) {
            for lx in 0..32 {
                for ly in 0..32 {
                    for lz in 0..32 {
                        let c = BlockPos::new(pos.px * 32 + lx, pos.py * 32 + ly, pos.pz * 32 + lz);
                        chunk.set_block(c, world.get_block(c));
                    }
                }
            }
        }
        chunk.set_block(b, id);
        assert!(world.set_chunk(chunk, LightChunk::new(pos)));
    }
    world
}

#[test]
fn absent_chunk_reads_as_air() {
    let world = World::new();
    assert_eq!(world.get_block(BlockPos::new(5, -7, 100)), 0);
    assert!(!world.has_chunk(ChunkPos::new(0, 0, 0)));
    assert!(!world.has_light_chunk(ChunkPos::new(0, 0, 0)));
    assert_eq!(world.get_light(BlockPos::new(1, 2, 3)), 0);
}

#[test]
fn chunk_position_floors_negative_coordinates() {
    assert_eq!(BlockPos::new(-1, 0, 31).containing_chunk_pos(), ChunkPos::new(-1, 0, 0));
    assert_eq!(BlockPos::new(-32, -33, 32).containing_chunk_pos(), ChunkPos::new(-1, -2, 1));
    assert_eq!(BlockPos::new(-1, -1, -1).local_index(), 32767);
    assert_eq!(BlockPos::new(0, 0, 1).local_index(), 1);
    assert_eq!(BlockPos::from_units(-1, 999, 1000), BlockPos::new(-1, 0, 1));
    assert_eq!(ChunkPos::new(1, 2, 3).offset(-1, 0, 1), ChunkPos::new(0, 2, 4));
}

#[test]
fn stored_blocks_read_back() {
    let world = world_with(&[(0, 0, 0, 3), (-1, -40, 7, 9), (1, 0, 0, 4)]);
    assert_eq!(world.get_block(BlockPos::new(0, 0, 0)), 3);
    assert_eq!(world.get_block(BlockPos::new(1, 0, 0)), 4);
    assert_eq!(world.get_block(BlockPos::new(-1, -40, 7)), 9);
    assert_eq!(world.get_block(BlockPos::new(-1, -40, 8)), 0);
    assert!(world.has_chunk(ChunkPos::new(-1, -2, 0)));
    assert!(world.has_light_chunk(ChunkPos::new(-1, -2, 0)));
}

#[test]
fn mismatched_chunk_and_light_are_refused() {
    let mut world = World::new();
    let ok = world.set_chunk(Chunk::new(ChunkPos::new(0, 0, 0)), LightChunk::new(ChunkPos::new(1, 0, 0)));
    assert!(!ok);
    assert!(!world.has_chunk(ChunkPos::new(0, 0, 0)));
    assert!(!world.has_light_chunk(ChunkPos::new(1, 0, 0)));
}

#[test]
fn light_without_chunk_is_refused() {
    let mut world = World::new();
    assert!(!world.set_light_chunk(LightChunk::new(ChunkPos::new(2, 2, 2))));
    assert!(!world.has_light_chunk(ChunkPos::new(2, 2, 2)));
    let pos = ChunkPos::new(2, 2, 2);
    assert!(world.set_chunk(Chunk::new(pos), LightChunk::new(pos)));
    let mut light = LightChunk::new(pos);
    light.set_light(BlockPos::new(64, 65, 66), 12);
    assert!(world.set_light_chunk(light));
    assert_eq!(world.get_light(BlockPos::new(64, 65, 66)), 12);
    assert_eq!(world.get_light(BlockPos::new(64, 65, 67)), 0);
}

#[test]
fn set_chunk_replaces_existing() {
    let mut world = world_with(&[(0, 0, 0, 3)]);
    let pos = ChunkPos::new(0, 0, 0);
    assert!(world.set_chunk(Chunk::new(pos), LightChunk::new(pos)));
    assert_eq!(world.get_block(BlockPos::new(0, 0, 0)), 0);
    assert!(world.has_chunk(pos));
}

#[test]
fn chunk_and_light_stay_paired() {
    let mut world = World::new();
    for i in -3..4 {
        let pos = ChunkPos::new(i, 0, -i);
        assert!(world.set_chunk(Chunk::new(pos), LightChunk::new(pos)));
    }
    assert!(!world.set_light_chunk(LightChunk::new(ChunkPos::new(9, 9, 9))));
    world.retain(|c: ChunkPos| c.px % 2 == 0);
    for i in -5..6 {
        for k in -5..6 {
            let c = ChunkPos::new(i, 0, k);
            assert_eq!(world.has_chunk(c), world.has_light_chunk(c));
        }
    }
    assert!(world.has_chunk(ChunkPos::new(2, 0, -2)));
    assert!(!world.has_chunk(ChunkPos::new(1, 0, -1)));
    assert!(!world.has_light_chunk(ChunkPos::new(-3, 0, 3)));
}

#[test]
fn retain_visible_evicts_far_chunks() {
    let mut world = World::new();
    for i in -4..5 {
        let pos = ChunkPos::new(i, 0, 0);
        assert!(world.set_chunk(Chunk::new(pos), LightChunk::new(pos)));
    }
    let rd = RenderDistance { x_max: 2, x_min: 1, y_max: 0, y_min: 0, z_max: 0, z_min: 0 };
    world.retain_visible(&rd, ChunkPos::new(0, 0, 0));
    for i in -4..5 {
        let c = ChunkPos::new(i, 0, 0);
        assert_eq!(world.has_chunk(c), (-1..=2).contains(&i));
        assert_eq!(world.has_light_chunk(c), (-1..=2).contains(&i));
    }
}
