use blocks::blocks::{Block, Direction};

const ALL_DIRECTIONS: [Direction; 6] = [
    Direction::PositiveX,
    Direction::NegativeX,
    Direction::PositiveY,
    Direction::NegativeY,
    Direction::PositiveZ,
    Direction::NegativeZ,
];

#[test]
fn air_does_not_stop_rays() {
    assert!(!Block::Air.raycast_solid());
}

#[test]
fn terrain_blocks_stop_rays() {
    assert!(Block::Grass.raycast_solid());
    assert!(Block::Dirt.raycast_solid());
    assert!(Block::Stone.raycast_solid());
}

#[test]
fn terrain_blocks_are_solid_in_every_direction() {
    for direction in ALL_DIRECTIONS {
        assert!(!Block::Air.soild_in_direction(direction));
        assert!(Block::Grass.soild_in_direction(direction));
        assert!(Block::Dirt.soild_in_direction(direction));
        assert!(Block::Stone.soild_in_direction(direction));
    }
}
