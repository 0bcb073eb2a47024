use blockworld::block::{Block, BEDROCK, DIRT, GLASS, GRASS, PLANK, STONE};
use blockworld::face::Face;
use blockworld::world::World;
use blockworld::world_blocks::WorldBlocks;
use blockworld::world_size::WorldSize;

fn sorted_faces(faces: &[Face]) -> Vec<(u32, u32)> {
    let mut v: Vec<(u32, u32)> = faces.iter().map(|f| (f.coords_and_ort(), f.texture_id())).collect();
    v.sort();
    v
}

fn no_duplicate_keys(faces: &[Face]) -> bool {
    let mut keys: Vec<u32> = faces.iter().map(|f| f.coords_and_ort()).collect();
    keys.sort();
    keys.windows(2).all(|w| w[0] != w[1])
}

/// Each chunk's (opaque, transparent) face sets.
fn face_sets(w: &World) -> Vec<(Vec<(u32, u32)>, Vec<(u32, u32)>)> {
    (0..w.chunk_count())
        .map(|i| {
            let c = w.chunk(i);
            (sorted_faces(c.opaque_as_slice()), sorted_faces(c.transparent_as_slice()))
        })
        .collect()
}

fn rebuilt(w: &World) -> World {
    let size = *w.size();
    let mut blocks = WorldBlocks::new(size);
    for x in 0..size.world_width() {
        for z in 0..size.world_depth() {
            for y in 0..256 {
                let b = *w.get_block(x, y, z);
                if !b.is_air() {
                    blocks.no_update_set_block(x, y, z, b);
                }
            }
        }
    }
    World::from_blocks(blocks)
}

fn small_world() -> World {
    World::new(WorldSize::new(1, 1))
}

#[test]
fn single_solid_corner_block_has_no_outward_faces() {
    let mut blocks = WorldBlocks::new(WorldSize::new(1, 1));
    blocks.no_update_set_block(0, 0, 0, Block::new(STONE));
    let mut w = World::from_blocks(blocks);
    w.compute_faces();
    let c = w.chunk(0);
    assert_eq!(c.len_transparent(), 0);
    assert_eq!(c.len_opaque(), 3);
    let mut orts: Vec<u8> = c.opaque_as_slice().iter().map(|f| f.orientation()).collect();
    orts.sort();
    assert_eq!(orts, vec![0, 2, 4]);
    for f in c.opaque_as_slice() {
        assert!(f.matches_coords(0, 0, 0));
    }
}

#[test]
fn block_at_far_corner_faces_only_inward() {
    let mut w = small_world();
    assert!(w.place_block(15, 255, 15, Block::new(DIRT)));
    let c = w.chunk(0);
    let mut orts: Vec<u8> = c.opaque_as_slice().iter().map(|f| f.orientation()).collect();
    orts.sort();
    assert_eq!(orts, vec![1, 3, 5]);
}

#[test]
fn placing_a_block_in_open_space_shows_six_faces() {
    let mut w = small_world();
    assert!(w.place_block(5, 5, 5, Block::new(STONE)));
    assert_eq!(w.chunk(0).len_opaque(), 6);
    assert!(w.chunk(0).is_dirty(false));
    assert!(!w.chunk(0).is_dirty(true));
    assert_eq!(face_sets(&w), face_sets(&rebuilt(&w)));
}

#[test]
fn neighbouring_solid_blocks_hide_shared_faces() {
    let mut w = small_world();
    w.place_block(5, 5, 5, Block::new(STONE));
    w.place_block(6, 5, 5, Block::new(STONE));
    assert_eq!(w.chunk(0).len_opaque(), 10);
    assert!(w.chunk(0).find_opaque_by_coords_and_ort(Face::encode_coords_and_ort(5, 5, 5, blockworld::orientation::FaceOrientation::XPlus)).is_none());
    assert_eq!(face_sets(&w), face_sets(&rebuilt(&w)));
}

#[test]
fn glass_keeps_faces_of_both_sides() {
    let mut w = small_world();
    w.place_block(5, 5, 5, Block::new(STONE));
    w.place_block(6, 5, 5, Block::new(GLASS));
    // the stone shows all six sides; the glass hides its side toward the stone
    assert_eq!(w.chunk(0).len_opaque(), 6);
    assert_eq!(w.chunk(0).len_transparent(), 5);
    assert!(w.chunk(0).find_transparent(6, 5, 5).is_some());
    assert!(w.chunk(0).find_opaque(5, 5, 5).is_some());
    assert_eq!(face_sets(&w), face_sets(&rebuilt(&w)));
}

#[test]
fn unchanged_update_is_a_no_op() {
    let mut w = small_world();
    w.place_block(3, 3, 3, Block::new(GRASS));
    let c = w.chunk(0);
    let before_opaque: Vec<Face> = c.opaque_as_slice().to_vec();
    let before_transparent: Vec<Face> = c.transparent_as_slice().to_vec();
    let dirty = (c.is_dirty(false), c.is_dirty(true));
    assert!(!w.update_block(3, 3, 3, |_b| (Block::new(STONE), false)));
    assert!(!w.update_block(4, 3, 3, |b| (b, false)));
    let c = w.chunk(0);
    assert_eq!(c.opaque_as_slice(), &before_opaque[..]);
    assert_eq!(c.transparent_as_slice(), &before_transparent[..]);
    assert_eq!((c.is_dirty(false), c.is_dirty(true)), dirty);
    assert_eq!(*w.get_block(3, 3, 3), Block::new(GRASS));
    assert!(w.get_block(4, 3, 3).is_air());
}

#[test]
fn place_then_remove_restores_faces() {
    let mut w = small_world();
    w.place_block(5, 5, 5, Block::new(STONE));
    w.place_block(5, 6, 5, Block::new(GLASS));
    w.place_block(7, 5, 5, Block::new(PLANK));
    let before = face_sets(&w);
    assert!(w.place_block(6, 5, 5, Block::new(DIRT)));
    assert_ne!(face_sets(&w), before);
    assert!(w.remove_block(6, 5, 5));
    assert_eq!(face_sets(&w), before);
}

#[test]
fn place_on_occupied_cell_and_remove_from_air_do_nothing() {
    let mut w = small_world();
    w.place_block(1, 1, 1, Block::new(STONE));
    let before = face_sets(&w);
    assert!(!w.place_block(1, 1, 1, Block::new(GLASS)));
    assert!(!w.remove_block(2, 2, 2));
    assert_eq!(face_sets(&w), before);
    assert_eq!(*w.get_block(1, 1, 1), Block::new(STONE));
}

#[test]
fn transparency_flip_moves_own_faces_and_toggles_neighbour_faces() {
    let mut w = small_world();
    // a stone at (5,5,5) with three solid neighbours and three open sides
    w.set_block(5, 5, 5, Block::new(STONE));
    w.set_block(4, 5, 5, Block::new(DIRT));
    w.set_block(5, 4, 5, Block::new(DIRT));
    w.set_block(5, 5, 4, Block::new(GLASS));
    let c = w.chunk(0);
    let own_before = c.opaque_as_slice().iter().filter(|f| f.matches_coords(5, 5, 5)).count();
    // open toward +x, +y, +z and toward the glass at -z
    assert_eq!(own_before, 4);
    let dirt_opaque = |w: &World| w.chunk(0).opaque_as_slice().iter().filter(|f| !f.matches_coords(5, 5, 5)).count();
    let before_neighbours = dirt_opaque(&w);

    assert!(w.set_block(5, 5, 5, Block::new(GLASS)));
    let c = w.chunk(0);
    assert!(c.find_opaque(5, 5, 5).is_none());
    let own: Vec<&Face> = c.transparent_as_slice().iter().filter(|f| f.matches_coords(5, 5, 5)).collect();
    // the same four sides show, now in the transparent list with the glass texture
    assert_eq!(own.len(), 4);
    for f in &own {
        assert_eq!(f.texture_id(), 28);
    }
    // the two dirt neighbours now each show a face toward the glass
    assert_eq!(dirt_opaque(&w), before_neighbours + 2);
    assert_eq!(face_sets(&w), face_sets(&rebuilt(&w)));

    assert!(w.set_block(5, 5, 5, Block::new(STONE)));
    assert_eq!(dirt_opaque(&w), before_neighbours);
    assert_eq!(w.chunk(0).opaque_as_slice().iter().filter(|f| f.matches_coords(5, 5, 5)).count(), 4);
    assert_eq!(face_sets(&w), face_sets(&rebuilt(&w)));
}

#[test]
fn same_class_change_retextures_in_place() {
    let mut w = small_world();
    w.place_block(2, 2, 2, Block::new(DIRT));
    assert!(w.set_block(2, 2, 2, Block::new(GRASS)));
    let c = w.chunk(0);
    let top = c
        .find_opaque_by_coords_and_ort(Face::encode_coords_and_ort(2, 2, 2, blockworld::orientation::FaceOrientation::YPlus))
        .unwrap();
    assert_eq!(top.texture_id(), 0);
    let side = c
        .find_opaque_by_coords_and_ort(Face::encode_coords_and_ort(2, 2, 2, blockworld::orientation::FaceOrientation::XPlus))
        .unwrap();
    assert_eq!(side.texture_id(), 3);
    assert_eq!(c.len_opaque(), 6);
}

#[test]
fn incremental_updates_match_full_rebuild() {
    let mut w = World::new(WorldSize::new(2, 1));
    let kinds = [0u32, 1, 2, 3, 4, 6, 8, 11];
    let mut seed: u64 = 12345;
    for step in 0..600 {
        seed = seed.wrapping_mul(6364136223846793005).wrapping_add(1442695040888963407);
        let x = ((seed >> 33) % 6) as usize + 13;
        let y = ((seed >> 40) % 4) as usize;
        let z = ((seed >> 50) % 4) as usize;
        let k = kinds[((seed >> 20) % kinds.len() as u64) as usize];
        match step % 3 {
            0 => {
                w.set_block(x, y, z, Block::new(k));
            }
            1 => {
                w.place_block(x, y, z, Block::new(k));
            }
            _ => {
                w.remove_block(x, y, z);
            }
        }
        if step % 50 == 0 {
            assert_eq!(face_sets(&w), face_sets(&rebuilt(&w)));
        }
        for i in 0..w.chunk_count() {
            assert!(no_duplicate_keys(w.chunk(i).opaque_as_slice()));
            assert!(no_duplicate_keys(w.chunk(i).transparent_as_slice()));
        }
    }
    assert_eq!(face_sets(&w), face_sets(&rebuilt(&w)));
}

#[test]
fn faces_cross_chunk_borders() {
    let mut w = World::new(WorldSize::new(2, 2));
    w.place_block(15, 0, 15, Block::new(STONE));
    w.place_block(16, 0, 15, Block::new(STONE));
    w.place_block(15, 0, 16, Block::new(GLASS));
    assert_eq!(face_sets(&w), face_sets(&rebuilt(&w)));
    // the stone in chunk 0 shows no face toward the stone in chunk 1
    assert!(w.chunk(0).find_opaque_by_coords_and_ort(Face::encode_coords_and_ort(15, 0, 15, blockworld::orientation::FaceOrientation::XPlus)).is_none());
    // but it shows one toward the glass in chunk 2
    assert!(w.chunk(0).find_opaque_by_coords_and_ort(Face::encode_coords_and_ort(15, 0, 15, blockworld::orientation::FaceOrientation::ZPlus)).is_some());
    assert!(w.get_chunk(16, 15).find_opaque(0, 0, 15).is_some());
    assert!(w.get_chunk(15, 16).find_transparent(15, 0, 0).is_some());
    w.remove_block(16, 0, 15);
    assert!(w.chunk(0).find_opaque_by_coords_and_ort(Face::encode_coords_and_ort(15, 0, 15, blockworld::orientation::FaceOrientation::XPlus)).is_some());
    assert_eq!(w.chunk(1).len_opaque(), 0);
}

#[test]
fn taking_updates_clears_dirty_flags() {
    let mut w = small_world();
    w.place_block(1, 1, 1, Block::new(GLASS));
    assert!(w.chunk(0).is_dirty(true));
    assert_eq!(w.gl_update_all_chunks(), vec![(0, true)]);
    assert!(!w.chunk(0).is_dirty(true));
    assert!(!w.chunk(0).is_dirty(false));
    assert_eq!(w.gl_update_all_chunks(), vec![]);
}

#[test]
fn demo_world_builds_consistent_faces() {
    let mut blocks = WorldBlocks::new(WorldSize::new(2, 2));
    blocks.no_update_fill_level(0, 1, Block::new(BEDROCK));
    blocks.no_update_fill_level(1, 1, Block::new(DIRT));
    blocks.no_update_fill_level(2, 1, Block::new(GRASS));
    blocks.no_update_outline(5, 2, 5, 5, 5, 5, Block::new(PLANK));
    let mut w = World::from_blocks(blocks);
    // the top of the grass layer is visible except under the plank box's bottom layer
    let tops: usize = (0..w.chunk_count())
        .map(|i| w.chunk(i).opaque_as_slice().iter().filter(|f| f.y() == 2 && f.orientation() == 0).count())
        .sum();
    assert_eq!(tops, 32 * 32 - 25 + 9);
    w.remove_block(7, 2, 7);
    assert_eq!(face_sets(&w), face_sets(&rebuilt(&w)));
}
