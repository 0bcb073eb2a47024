use blockworld::block::{Block, BlockProp, BLOCK_KINDS, GLASS, GRASS, SAND, STONE, TNT};
use blockworld::face::Face;
use blockworld::orientation::FaceOrientation;
use blockworld::packed::u8_u8_u8_u8;
use blockworld::world_size::WorldSize;

#[test]
fn air_is_transparent_and_shows_no_faces() {
    let air = Block::air();
    assert!(air.is_air());
    assert!(air.is_transparent());
    assert!(air.show_neighboring_faces());
    assert!(!air.show_my_faces());
    assert!(!air.is_solid());
}

#[test]
fn glass_is_transparent_stone_is_not() {
    let glass = Block::new(GLASS);
    assert!(glass.is_transparent());
    assert!(glass.show_my_faces());
    let stone = Block::new(STONE);
    assert!(!stone.is_transparent());
    assert!(!stone.show_neighboring_faces());
    assert!(stone.is_solid());
}

#[test]
fn registry_names_and_textures() {
    assert_eq!(Block::new(0).name(), "air");
    assert_eq!(Block::new(GLASS).name(), "glass");
    assert_eq!(Block::new(SAND).name(), "sand");
    assert_eq!(Block::new(GLASS).texture_id(FaceOrientation::XPlus), 28);
    let grass = Block::new(GRASS);
    assert_eq!(grass.texture_id(FaceOrientation::YPlus), 0);
    assert_eq!(grass.texture_id(FaceOrientation::YMinus), 2);
    assert_eq!(grass.texture_id(FaceOrientation::ZMinus), 3);
    let tnt = Block::new(TNT);
    assert_eq!(tnt.texture_id(FaceOrientation::YPlus), 9);
    assert_eq!(tnt.texture_id(FaceOrientation::XMinus), 8);
    assert_eq!(tnt.texture_id(FaceOrientation::YMinus), 10);
    let prop = BlockProp::of(BLOCK_KINDS - 1);
    assert_eq!(prop.name(), "sand");
    assert_eq!(prop.get_texture_id(FaceOrientation::ZPlus), 13);
}

#[test]
fn weight_counts_above_ten() {
    assert_eq!(Block::new(11).weight(), 1);
    assert_eq!(Block::new(10).weight(), 0);
    assert_eq!(Block::new(3).weight(), 0);
}

#[test]
fn orientation_codes_and_opposites() {
    let all = [
        FaceOrientation::YPlus,
        FaceOrientation::YMinus,
        FaceOrientation::XPlus,
        FaceOrientation::XMinus,
        FaceOrientation::ZPlus,
        FaceOrientation::ZMinus,
    ];
    for (i, o) in all.iter().enumerate() {
        assert_eq!(o.code() as usize, i);
        assert_eq!(FaceOrientation::from_u8(i as u8), Some(*o));
        assert_eq!(o.opposite().opposite(), *o);
        assert_ne!(o.opposite(), *o);
        assert_eq!(o.is_side(), i > 1);
    }
    assert_eq!(FaceOrientation::XPlus.opposite(), FaceOrientation::XMinus);
    assert_eq!(FaceOrientation::from_u8(6), None);
}

#[test]
fn packed_bytes_read_little_endian() {
    let p = u8_u8_u8_u8::new(1, 2, 3, 4);
    assert_eq!(p.as_u32(), 0x04030201);
}

#[test]
fn face_accessors_and_key() {
    let f = Face::from_coords_and_ort(3, 200, 15, FaceOrientation::ZPlus, 77);
    assert_eq!(f.x(), 3);
    assert_eq!(f.y(), 200);
    assert_eq!(f.z(), 15);
    assert_eq!(f.orientation(), 4);
    assert_eq!(f.texture_id(), 77);
    assert_eq!(f.block_x(), 3);
    assert_eq!(f.block_y(), 200);
    assert_eq!(f.block_z(), 15);
    assert!(f.matches_coords(3, 200, 15));
    assert!(!f.matches_coords(3, 201, 15));
    assert!(f.matches_block_coords(3, 200, 15));
    assert_eq!(f.block_orientation(), FaceOrientation::ZPlus);
    assert_eq!(f.coords_and_ort(), 3 + 200 * 256 + 15 * 65536 + 4 * 16777216);
    assert_eq!(
        Face::encode_coords_and_ort(3, 200, 15, FaceOrientation::ZPlus),
        f.coords_and_ort()
    );
}

#[test]
fn face_update_texture_uses_its_side() {
    let mut f = Face::from_coords_and_ort(0, 0, 0, FaceOrientation::YPlus, 1);
    f.update_texture(Block::new(GRASS));
    assert_eq!(f.texture_id(), 0);
    let mut g = Face::from_coords_and_ort(0, 0, 0, FaceOrientation::XMinus, 1);
    g.update_texture(Block::new(GRASS));
    assert_eq!(g.texture_id(), 3);
}

#[test]
fn world_size_addressing() {
    let s = WorldSize::new(2, 3);
    assert_eq!(s.width(), 2);
    assert_eq!(s.depth(), 3);
    assert_eq!(s.world_width(), 32);
    assert_eq!(s.world_depth(), 48);
    assert_eq!(s.world_volume(), 6 * 65536);
    assert!(s.is_position_in_bounds(31, 255, 47));
    assert!(!s.is_position_in_bounds(32, 0, 0));
    assert!(!s.is_position_in_bounds(0, 256, 0));
    assert_eq!(s.block_pos_into_chunk_idx(17, 33), 2 * 2 + 1);
    assert_eq!(s.block_pos_into_world_idx(17, 5, 33), 5 * 65536 + 5 * 256 + 1 * 16 + 1);
    assert_eq!(WorldSize::absolute_block_to_chunk_block_position(17, 5, 33), (1, 5, 1));
}
