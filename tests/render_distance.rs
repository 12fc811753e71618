use voxel_physics::coords::ChunkPos;
use voxel_physics::render_distance::RenderDistance;

fn rd() -> RenderDistance {
    RenderDistance { x_max: 3, x_min: 1, y_max: 4, y_min: 2, z_max: 0, z_min: 5 }
}

#[test]
fn bound_is_included_and_one_beyond_is_not() {
    let p = ChunkPos::new(10, -10, 7);
    let r = rd();
    assert!(r.is_chunk_visible(p, ChunkPos::new(13, -10, 7)));
    assert!(!r.is_chunk_visible(p, ChunkPos::new(14, -10, 7)));
    assert!(r.is_chunk_visible(p, ChunkPos::new(9, -10, 7)));
    assert!(!r.is_chunk_visible(p, ChunkPos::new(8, -10, 7)));
    assert!(r.is_chunk_visible(p, ChunkPos::new(10, -6, 7)));
    assert!(!r.is_chunk_visible(p, ChunkPos::new(10, -5, 7)));
    assert!(r.is_chunk_visible(p, ChunkPos::new(10, -12, 7)));
    assert!(!r.is_chunk_visible(p, ChunkPos::new(10, -13, 7)));
    assert!(r.is_chunk_visible(p, ChunkPos::new(10, -10, 2)));
    assert!(!r.is_chunk_visible(p, ChunkPos::new(10, -10, 8)));
}

#[test]
fn visibility_is_repeatable() {
    let p = ChunkPos::new(0, 0, 0);
    let c = ChunkPos::new(2, 3, -4);
    let r = rd();
    let first = r.is_chunk_visible(p, c);
    for _ in 0..10 {
        assert_eq!(r.is_chunk_visible(p, c), first);
    }
    assert!(first);
}

#[test]
fn extreme_coordinates_do_not_overflow() {
    let r = RenderDistance { x_max: u64::MAX, x_min: u64::MAX, y_max: 0, y_min: 0, z_max: 0, z_min: 0 };
    assert!(r.is_chunk_visible(ChunkPos::new(i64::MIN, 0, 0), ChunkPos::new(i64::MAX, 0, 0)));
    assert!(!rd().is_chunk_visible(ChunkPos::new(i64::MIN, 0, 0), ChunkPos::new(i64::MAX, 0, 0)));
}
