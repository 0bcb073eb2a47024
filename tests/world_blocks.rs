use blockworld::block::{Block, DIRT, GLASS, PLANK, STONE};
use blockworld::world_blocks::WorldBlocks;
use blockworld::world_size::WorldSize;

fn count(blocks: &WorldBlocks, b: Block) -> usize {
    let s = *blocks.size();
    let mut n = 0;
    for x in 0..s.world_width() {
        for z in 0..s.world_depth() {
            for y in 0..256 {
                if *blocks.get_block(x, y, z) == b {
                    n += 1;
                }
            }
        }
    }
    n
}

#[test]
fn new_world_is_air() {
    let blocks = WorldBlocks::new(WorldSize::new(1, 1));
    assert!(blocks.get_block(0, 0, 0).is_air());
    assert!(blocks.get_block(15, 255, 15).is_air());
}

#[test]
fn set_and_remove_single_blocks() {
    let mut blocks = WorldBlocks::new(WorldSize::new(1, 2));
    blocks.no_update_set_block(3, 4, 20, Block::new(STONE));
    assert_eq!(*blocks.get_block(3, 4, 20), Block::new(STONE));
    assert!(blocks.get_block(3, 4, 4).is_air());
    *blocks.get_block_mut(1, 1, 1) = Block::new(DIRT);
    assert_eq!(*blocks.get_block(1, 1, 1), Block::new(DIRT));
    blocks.no_update_remove_block(3, 4, 20);
    assert!(blocks.get_block(3, 4, 20).is_air());
}

#[test]
fn fill_covers_exactly_the_box() {
    let mut blocks = WorldBlocks::new(WorldSize::new(1, 1));
    blocks.no_update_fill(2, 3, 4, 3, 2, 5, Block::new(STONE));
    assert_eq!(count(&blocks, Block::new(STONE)), 3 * 2 * 5);
    assert_eq!(*blocks.get_block(2, 3, 4), Block::new(STONE));
    assert_eq!(*blocks.get_block(4, 4, 8), Block::new(STONE));
    assert!(blocks.get_block(5, 4, 8).is_air());
    assert!(blocks.get_block(4, 5, 8).is_air());
}

#[test]
fn fill_level_covers_whole_layers() {
    let mut blocks = WorldBlocks::new(WorldSize::new(2, 1));
    blocks.no_update_fill_level(1, 2, Block::new(DIRT));
    assert_eq!(count(&blocks, Block::new(DIRT)), 32 * 16 * 2);
    assert!(blocks.get_block(31, 0, 15).is_air());
    assert_eq!(*blocks.get_block(31, 2, 15), Block::new(DIRT));
}

#[test]
fn outline_of_a_five_cube_is_hollow() {
    let mut blocks = WorldBlocks::new(WorldSize::new(1, 1));
    blocks.no_update_outline(5, 2, 5, 5, 5, 5, Block::new(PLANK));
    // two full layers and a ring of 16 on each of the three layers between
    assert_eq!(count(&blocks, Block::new(PLANK)), 2 * 25 + 3 * 16);
    assert!(blocks.get_block(7, 4, 7).is_air());
    assert_eq!(*blocks.get_block(5, 4, 7), Block::new(PLANK));
    assert_eq!(*blocks.get_block(7, 4, 5), Block::new(PLANK));
}

#[test]
fn outline_of_zero_height_still_draws_the_bottom() {
    let mut blocks = WorldBlocks::new(WorldSize::new(1, 1));
    blocks.no_update_outline(0, 0, 0, 2, 0, 2, Block::new(PLANK));
    assert_eq!(count(&blocks, Block::new(PLANK)), 4);
}

#[test]
fn replace_only_touches_matching_blocks() {
    let mut blocks = WorldBlocks::new(WorldSize::new(1, 1));
    blocks.no_update_fill(0, 0, 0, 4, 1, 4, Block::new(STONE));
    blocks.no_update_set_block(1, 0, 1, Block::new(DIRT));
    blocks.no_update_replace(0, 0, 0, 3, 1, 3, Block::new(STONE), Block::new(GLASS));
    assert_eq!(count(&blocks, Block::new(GLASS)), 8);
    assert_eq!(*blocks.get_block(1, 0, 1), Block::new(DIRT));
    assert_eq!(*blocks.get_block(3, 0, 3), Block::new(STONE));
}

#[test]
fn heightmap_fills_columns_to_their_height() {
    let mut blocks = WorldBlocks::new(WorldSize::new(1, 1));
    blocks.no_update_heightmap(Block::new(DIRT), |x, z| (x + z) % 4);
    assert_eq!(*blocks.get_block(3, 2, 0), Block::new(DIRT));
    assert!(blocks.get_block(3, 3, 0).is_air());
    assert!(blocks.get_block(0, 0, 0).is_air());
    let expected: usize = (0..16).flat_map(|x| (0..16).map(move |z| (x + z) % 4)).sum();
    assert_eq!(count(&blocks, Block::new(DIRT)), expected);
}
