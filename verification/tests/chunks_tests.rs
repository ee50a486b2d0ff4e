use blocks::chunks::render_chunk::{chunk_faces, draw_vertices, mesh_update, MeshUpdate};
use blocks::chunks::{Block, Chunk, Chunks, Direction, GENERATED_CHUNKS_LIMIT};
use blocks::vector::Vector3;

const ALL_DIRECTIONS: [Direction; 6] = [
    Direction::PositiveX,
    Direction::NegativeX,
    Direction::PositiveY,
    Direction::NegativeY,
    Direction::PositiveZ,
    Direction::NegativeZ,
];

fn v(x: i64, y: i64, z: i64) -> Vector3<i64> {
    Vector3 { x, y, z }
}

fn u(x: u64, y: u64, z: u64) -> Vector3<u64> {
    Vector3 { x, y, z }
}

fn pattern(p: Vector3<u64>) -> Block {
    match (p.x + p.y + p.z) % 4 {
        0 => Block::Air,
        1 => Block::Red,
        2 => Block::Green,
        _ => Block::Blue,
    }
}

/// Loads the chunk at `position` by scheduling it from a camera inside it and handing
/// back `chunk`, as the game does once generation finishes.
fn load(chunks: &mut Chunks, position: Vector3<i64>, chunk: Chunk) {
    chunks.load_unload_chunks(v(position.x * 16, position.y * 16, position.z * 16));
    assert!(chunks.insert_loaded_chunk(position, chunk));
}

#[test]
fn solid_blocks_are_solid_in_every_direction() {
    for direction in ALL_DIRECTIONS {
        assert!(!Block::Air.soild_in_direction(direction));
        assert!(Block::Red.soild_in_direction(direction));
        assert!(Block::Green.soild_in_direction(direction));
        assert!(Block::Blue.soild_in_direction(direction));
    }
}

#[test]
fn chunk_with_reads_back_the_generator() {
    let chunk = Chunk::with(pattern);
    for z in 0..16 {
        for y in 0..16 {
            for x in 0..16 {
                assert_eq!(chunk.get_block(u(x, y, z)), Some(&pattern(u(x, y, z))));
            }
        }
    }
}

#[test]
fn filled_chunk_is_uniform() {
    let chunk = Chunk::filled(Block::Green);
    assert_eq!(chunk.get_block(u(0, 0, 0)), Some(&Block::Green));
    assert_eq!(chunk.get_block(u(15, 15, 15)), Some(&Block::Green));
    assert_eq!(chunk.get_block(u(7, 3, 12)), Some(&Block::Green));
}

#[test]
fn chunk_out_of_range_reads_nothing() {
    let mut chunk = Chunk::filled(Block::Red);
    assert_eq!(chunk.get_block(u(16, 0, 0)), None);
    assert_eq!(chunk.get_block(u(0, 16, 0)), None);
    assert_eq!(chunk.get_block(u(0, 0, u64::MAX)), None);
    assert!(chunk.get_block_mut(u(0, 0, 16)).is_none());
}

#[test]
fn chunk_write_then_read() {
    let mut chunk = Chunk::filled(Block::Air);
    *chunk.get_block_mut(u(1, 2, 3)).unwrap() = Block::Blue;
    assert_eq!(chunk.get_block(u(1, 2, 3)), Some(&Block::Blue));
    assert_eq!(chunk.get_block(u(2, 2, 3)), Some(&Block::Air));
    assert_eq!(chunk.get_block(u(1, 3, 3)), Some(&Block::Air));
    assert_eq!(chunk.get_block(u(1, 2, 4)), Some(&Block::Air));
}

#[test]
fn empty_world_has_no_blocks() {
    let mut chunks = Chunks::new();
    assert_eq!(chunks.get_block(v(0, 0, 0)), None);
    assert_eq!(chunks.get_block(v(-1, 5, 1000)), None);
    assert!(chunks.get_block_mut(v(3, 3, 3)).is_none());
    assert!(chunks.take_chunks_to_rebuild().is_empty());
}

#[test]
fn first_update_schedules_the_nearest_chunks() {
    let mut chunks = Chunks::new();
    let changes = chunks.load_unload_chunks(v(5, 5, 5));
    assert!(changes.unloaded.is_empty());
    assert_eq!(changes.scheduled.len(), GENERATED_CHUNKS_LIMIT);
    // The chunk the camera is in and its six neighbours are the seven nearest.
    assert!(changes.scheduled.contains(&v(0, 0, 0)));
    for p in [v(1, 0, 0), v(-1, 0, 0), v(0, 1, 0), v(0, -1, 0), v(0, 0, 1), v(0, 0, -1)] {
        assert!(changes.scheduled.contains(&p));
    }
    for p in &changes.scheduled {
        assert!(p.x.abs() + p.y.abs() + p.z.abs() <= 2);
    }
    // Nothing more is scheduled while the limit is reached.
    let again = chunks.load_unload_chunks(v(5, 5, 5));
    assert!(again.scheduled.is_empty());
    assert!(again.unloaded.is_empty());
}

#[test]
fn only_scheduled_chunks_are_accepted() {
    let mut chunks = Chunks::new();
    let changes = chunks.load_unload_chunks(v(0, 0, 0));
    assert!(!chunks.insert_loaded_chunk(v(50, 0, 0), Chunk::filled(Block::Red)));
    assert!(!chunks.contains_chunk(v(50, 0, 0)));
    let first = changes.scheduled[0];
    assert!(chunks.insert_loaded_chunk(first, Chunk::filled(Block::Red)));
    assert!(chunks.contains_chunk(first));
    // A second delivery of the same chunk is refused.
    assert!(!chunks.insert_loaded_chunk(first, Chunk::filled(Block::Blue)));
}

#[test]
fn world_positions_split_into_chunk_and_offset() {
    let mut chunks = Chunks::new();
    load(&mut chunks, v(-1, 0, 2), Chunk::with(pattern));
    // x = -1 lies in chunk -1 at offset 15; z = 40 lies in chunk 2 at offset 8.
    assert_eq!(chunks.get_block(v(-1, 3, 40)), Some(&pattern(u(15, 3, 8))));
    assert_eq!(chunks.get_block(v(-16, 0, 32)), Some(&pattern(u(0, 0, 0))));
    assert_eq!(chunks.get_block(v(-17, 0, 32)), None);
    assert_eq!(chunks.get_block(v(0, 0, 32)), None);
}

#[test]
fn world_write_then_read_marks_the_chunk() {
    let mut chunks = Chunks::new();
    load(&mut chunks, v(0, 0, 0), Chunk::filled(Block::Air));
    chunks.take_chunks_to_rebuild();
    *chunks.get_block_mut(v(4, 5, 6)).unwrap() = Block::Red;
    assert_eq!(chunks.get_block(v(4, 5, 6)), Some(&Block::Red));
    assert_eq!(chunks.get_block(v(5, 5, 6)), Some(&Block::Air));
    let rebuild = chunks.take_chunks_to_rebuild();
    assert_eq!(rebuild.len(), 7);
    for p in [v(0, 0, 0), v(1, 0, 0), v(-1, 0, 0), v(0, 1, 0), v(0, -1, 0), v(0, 0, 1), v(0, 0, -1)] {
        assert!(rebuild.contains(&p));
    }
    assert!(chunks.take_chunks_to_rebuild().is_empty());
}

#[test]
fn neighbourhoods_of_changed_chunks_are_merged() {
    let mut chunks = Chunks::new();
    load(&mut chunks, v(0, 0, 0), Chunk::filled(Block::Air));
    load(&mut chunks, v(1, 0, 0), Chunk::filled(Block::Air));
    let rebuild = chunks.take_chunks_to_rebuild();
    // Two neighbouring chunks share two positions of their neighbourhoods.
    assert_eq!(rebuild.len(), 12);
    for i in 0..rebuild.len() {
        for j in i + 1..rebuild.len() {
            assert_ne!(rebuild[i], rebuild[j]);
        }
    }
}

#[test]
fn far_chunks_are_unloaded_farthest_first() {
    let mut chunks = Chunks::new();
    let near = chunks.load_unload_chunks(v(0, 0, 0));
    for p in &near.scheduled {
        assert!(chunks.insert_loaded_chunk(*p, Chunk::filled(Block::Air)));
    }
    // Moving far away unloads every loaded chunk, since at most 20 are loaded.
    let away = chunks.load_unload_chunks(v(16 * 100, 0, 0));
    assert_eq!(away.unloaded.len(), near.scheduled.len());
    for p in &near.scheduled {
        assert!(away.unloaded.contains(p));
        assert!(!chunks.contains_chunk(*p));
    }
    // Chunks out of range leave room for new generations around the new position.
    assert!(away.scheduled.contains(&v(100, 0, 0)));
}

#[test]
fn unloading_is_limited_and_keeps_the_nearest() {
    let mut chunks = Chunks::new();
    let mut loaded = Vec::new();
    for camera_chunk in [0i64, 4, 8] {
        let changes = chunks.load_unload_chunks(v(camera_chunk * 16, 0, 0));
        assert!(changes.unloaded.is_empty());
        for p in changes.scheduled {
            assert!(chunks.insert_loaded_chunk(p, Chunk::filled(Block::Air)));
            loaded.push(p);
        }
    }
    assert_eq!(loaded.len(), 60);
    let away = chunks.load_unload_chunks(v(-16 * 1000, 0, 0));
    assert_eq!(away.unloaded.len(), 20);
    let distance = |p: &Vector3<i64>| (p.x + 1000).abs() + p.y.abs() + p.z.abs();
    let kept: Vec<Vector3<i64>> = loaded.iter().copied().filter(|p| chunks.contains_chunk(*p)).collect();
    assert_eq!(kept.len(), 40);
    for p in &away.unloaded {
        assert!(!chunks.contains_chunk(*p));
        for q in &kept {
            assert!(distance(p) >= distance(q));
        }
    }
}

#[test]
fn a_lone_filled_chunk_shows_its_outer_faces() {
    let mut chunks = Chunks::new();
    load(&mut chunks, v(0, 0, 0), Chunk::filled(Block::Green));
    let faces = chunk_faces(&chunks, v(0, 0, 0));
    for direction in ALL_DIRECTIONS {
        assert_eq!(faces.faces(direction).len(), 256);
    }
    assert_eq!(faces.positive_x[0].position, u(15, 0, 0));
    assert_eq!(faces.negative_x[0].position, u(0, 0, 0));
    assert_eq!(faces.positive_x[0].block, Block::Green);
    assert!(!faces.is_empty());
}

#[test]
fn faces_between_loaded_chunks_are_hidden() {
    let mut chunks = Chunks::new();
    load(&mut chunks, v(0, 0, 0), Chunk::filled(Block::Red));
    load(&mut chunks, v(1, 0, 0), Chunk::filled(Block::Blue));
    let faces = chunk_faces(&chunks, v(0, 0, 0));
    assert_eq!(faces.positive_x.len(), 0);
    assert_eq!(faces.negative_x.len(), 256);
    let other = chunk_faces(&chunks, v(1, 0, 0));
    assert_eq!(other.negative_x.len(), 0);
    assert_eq!(other.positive_x.len(), 256);
}

#[test]
fn an_air_chunk_has_an_empty_mesh() {
    let mut chunks = Chunks::new();
    load(&mut chunks, v(0, 0, 0), Chunk::filled(Block::Air));
    assert!(chunk_faces(&chunks, v(0, 0, 0)).is_empty());
}

#[test]
fn draw_ranges_use_eight_vertex_slots_per_direction() {
    assert_eq!(draw_vertices(Direction::PositiveX), (0, 4));
    assert_eq!(draw_vertices(Direction::NegativeX), (8, 12));
    assert_eq!(draw_vertices(Direction::PositiveY), (16, 20));
    assert_eq!(draw_vertices(Direction::NegativeY), (24, 28));
    assert_eq!(draw_vertices(Direction::PositiveZ), (32, 36));
    assert_eq!(draw_vertices(Direction::NegativeZ), (40, 44));
}

#[test]
fn an_unloaded_chunk_loses_its_mesh() {
    let chunks = Chunks::new();
    assert!(matches!(mesh_update(&chunks, v(3, -2, 7)), MeshUpdate::Remove));
}

#[test]
fn a_chunk_without_faces_loses_its_mesh() {
    let mut chunks = Chunks::new();
    load(&mut chunks, v(0, 0, 0), Chunk::filled(Block::Air));
    assert!(matches!(mesh_update(&chunks, v(0, 0, 0)), MeshUpdate::Remove));
}

#[test]
fn a_chunk_with_faces_is_rebuilt_from_them() {
    let mut chunks = Chunks::new();
    load(&mut chunks, v(0, 0, 0), Chunk::filled(Block::Red));
    load(&mut chunks, v(1, 0, 0), Chunk::filled(Block::Blue));
    match mesh_update(&chunks, v(0, 0, 0)) {
        MeshUpdate::Rebuild(faces) => {
            assert_eq!(faces.positive_x.len(), 0);
            assert_eq!(faces.negative_x.len(), 256);
            assert_eq!(faces.negative_x[0].block, Block::Red);
            assert_eq!(faces.negative_x[0].position, u(0, 0, 0));
        }
        MeshUpdate::Remove => panic!("a solid chunk should keep a mesh"),
    }
}
