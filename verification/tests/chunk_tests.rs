use blocks::chunk::{Block, Chunk, Direction};
use blocks::vector::Vector3;

const ALL_DIRECTIONS: [Direction; 6] = [
    Direction::PositiveX,
    Direction::NegativeX,
    Direction::PositiveY,
    Direction::NegativeY,
    Direction::PositiveZ,
    Direction::NegativeZ,
];

#[test]
fn new_chunk_is_air() {
    let chunk = Chunk::new();
    for z in 0..16 {
        for y in 0..16 {
            for x in 0..16 {
                assert_eq!(chunk.get_block(x, y, z), Some(&Block::Air));
            }
        }
    }
}

#[test]
fn single_chunk_out_of_range_reads_nothing() {
    let mut chunk = Chunk::new();
    assert_eq!(chunk.get_block(16, 0, 0), None);
    assert_eq!(chunk.get_block(0, 16, 0), None);
    assert_eq!(chunk.get_block(0, 0, usize::MAX), None);
    assert!(chunk.get_block_mut(0, 99, 0).is_none());
}

#[test]
fn single_chunk_write_then_read() {
    let mut chunk = Chunk::new();
    *chunk.get_block_mut(3, 4, 5).unwrap() = Block::Solid;
    assert_eq!(chunk.get_block(3, 4, 5), Some(&Block::Solid));
    assert_eq!(chunk.get_block(4, 4, 5), Some(&Block::Air));
    assert_eq!(chunk.get_block(3, 5, 5), Some(&Block::Air));
}

#[test]
fn empty_chunk_has_no_faces_and_rebuilds_once() {
    let mut chunk = Chunk::new();
    let faces = chunk.pre_render().expect("a new chunk must be meshed");
    for direction in ALL_DIRECTIONS {
        assert!(faces.faces(direction).is_empty());
    }
    assert!(chunk.pre_render().is_none());
}

#[test]
fn single_block_shows_six_faces() {
    let mut chunk = Chunk::new();
    chunk.pre_render();
    *chunk.get_block_mut(7, 8, 9).unwrap() = Block::Solid;
    let faces = chunk.pre_render().expect("a write marks the chunk for rebuilding");
    for direction in ALL_DIRECTIONS {
        let list = faces.faces(direction);
        assert_eq!(list.len(), 1);
        assert_eq!(list[0].position, Vector3 { x: 7, y: 8, z: 9 });
        assert_eq!(list[0].block, Block::Solid);
    }
}

#[test]
fn touching_blocks_hide_their_shared_faces() {
    let mut chunk = Chunk::new();
    *chunk.get_block_mut(2, 2, 2).unwrap() = Block::Solid;
    *chunk.get_block_mut(3, 2, 2).unwrap() = Block::Solid;
    let faces = chunk.pre_render().unwrap();
    assert_eq!(faces.positive_x.len(), 1);
    assert_eq!(faces.positive_x[0].position, Vector3 { x: 3, y: 2, z: 2 });
    assert_eq!(faces.negative_x.len(), 1);
    assert_eq!(faces.negative_x[0].position, Vector3 { x: 2, y: 2, z: 2 });
    assert_eq!(faces.positive_y.len(), 2);
    assert_eq!(faces.negative_z.len(), 2);
}

#[test]
fn faces_on_the_chunk_border_are_drawn() {
    let mut chunk = Chunk::new();
    *chunk.get_block_mut(0, 0, 0).unwrap() = Block::Solid;
    *chunk.get_block_mut(15, 15, 15).unwrap() = Block::Solid;
    let faces = chunk.pre_render().unwrap();
    for direction in ALL_DIRECTIONS {
        let list = faces.faces(direction);
        assert_eq!(list.len(), 2);
        assert_eq!(list[0].position, Vector3 { x: 0, y: 0, z: 0 });
        assert_eq!(list[1].position, Vector3 { x: 15, y: 15, z: 15 });
    }
}
