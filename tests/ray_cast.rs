use blockworld::block::{Block, DIRT, STONE};
use blockworld::ray::{ray_cast, Point, UNITS_PER_BLOCK};
use blockworld::world::World;
use blockworld::world_size::WorldSize;

const HALF: i64 = UNITS_PER_BLOCK / 2;

fn p(x: i64, y: i64, z: i64) -> Point {
    Point { x, y, z }
}

#[test]
fn straight_ray_through_empty_world_visits_six_cells() {
    let path = ray_cast(p(HALF, HALF, HALF), p(0, 0, 5 * UNITS_PER_BLOCK));
    assert_eq!(path, vec![(0, 0, 0), (0, 0, 1), (0, 0, 2), (0, 0, 3), (0, 0, 4), (0, 0, 5)]);
    let mut w = World::new(WorldSize::new(1, 1));
    assert_eq!(w.first_hit(&path), None);
    assert_eq!(w.ray_cast_remove_block(p(HALF, HALF, HALF), p(0, 0, 5 * UNITS_PER_BLOCK)), None);
}

#[test]
fn remove_hits_the_solid_block_after_four_visits() {
    let mut w = World::new(WorldSize::new(1, 1));
    w.place_block(0, 0, 3, Block::new(STONE));
    let path = ray_cast(p(HALF, HALF, HALF), p(0, 0, 5 * UNITS_PER_BLOCK));
    // the visit stops at the fourth cell, counting the first one
    assert_eq!(w.first_hit(&path), Some(3));
    assert_eq!(w.ray_cast_remove_block(p(HALF, HALF, HALF), p(0, 0, 5 * UNITS_PER_BLOCK)), Some((0, 0, 3)));
    assert!(w.get_block(0, 0, 3).is_air());
    assert_eq!(w.chunk(0).len_opaque(), 0);
}

#[test]
fn place_puts_the_block_just_before_the_hit() {
    let mut w = World::new(WorldSize::new(1, 1));
    w.place_block(0, 0, 3, Block::new(STONE));
    let placed = w.ray_cast_place_block(p(HALF, HALF, HALF), p(0, 0, 5 * UNITS_PER_BLOCK), Block::new(DIRT));
    assert_eq!(placed, Some((0, 0, 2)));
    assert_eq!(*w.get_block(0, 0, 2), Block::new(DIRT));
    assert_eq!(*w.get_block(0, 0, 3), Block::new(STONE));
}

#[test]
fn place_does_nothing_when_starting_inside_a_block() {
    let mut w = World::new(WorldSize::new(1, 1));
    w.place_block(0, 0, 0, Block::new(STONE));
    let placed = w.ray_cast_place_block(p(HALF, HALF, HALF), p(0, 0, 5 * UNITS_PER_BLOCK), Block::new(DIRT));
    assert_eq!(placed, None);
    assert!(w.get_block(0, 0, 1).is_air());
}

#[test]
fn negative_direction_steps_down() {
    let path = ray_cast(p(3 * UNITS_PER_BLOCK + HALF, HALF, HALF), p(-2 * UNITS_PER_BLOCK, 0, 0));
    assert_eq!(path, vec![(3, 0, 0), (2, 0, 0), (1, 0, 0)]);
}

#[test]
fn diagonal_ray_steps_one_axis_at_a_time() {
    // from (0.25, 0.5, 0.5) along (2, 1, 0): crosses x = 1 at t = 0.375, y = 1 at t = 0.5,
    // then x = 2 at t = 0.875
    let q = UNITS_PER_BLOCK / 4;
    let path = ray_cast(p(q, HALF, HALF), p(2 * UNITS_PER_BLOCK, UNITS_PER_BLOCK, 0));
    assert_eq!(path, vec![(0, 0, 0), (1, 0, 0), (1, 1, 0), (2, 1, 0)]);
    for w in path.windows(2) {
        let d = (w[1].0 - w[0].0).abs() + (w[1].1 - w[0].1).abs() + (w[1].2 - w[0].2).abs();
        assert_eq!(d, 1);
    }
}

#[test]
fn tie_between_x_and_z_steps_z_first() {
    // through the corner of cells: x and z are crossed at the same moment
    let path = ray_cast(p(HALF, HALF, HALF), p(UNITS_PER_BLOCK, 0, UNITS_PER_BLOCK));
    assert_eq!(path, vec![(0, 0, 0), (0, 0, 1), (1, 0, 1)]);
}

#[test]
fn zero_length_ray_visits_only_its_cell() {
    let path = ray_cast(p(-HALF, 5 * UNITS_PER_BLOCK, HALF), p(0, 0, 0));
    assert_eq!(path, vec![(-1, 5, 0)]);
}
