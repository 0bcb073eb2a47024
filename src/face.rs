use crate::block::Block;
use crate::orientation::{orientation_code, orientation_of_code, FaceOrientation};
use crate::packed::{lemma_pack_injective, pack_bytes, u8_u8_u8_u8};
use crate::world_size::{CHUNK_DEPTH, CHUNK_HEIGHT, CHUNK_WIDTH};
use vstd::prelude::*;

verus! {

/// One visible quad: the position of its block inside the chunk, the direction it
/// faces (as a code) and the texture it shows.
#[derive(Copy, Clone, Debug, PartialEq, Eq, Structural)]
pub struct Face {
    /// x, y, z inside the chunk, then the orientation code.
    pub coords: u8_u8_u8_u8,
    pub tex_id: u32,
}

/// What identifies a face: its block's local coordinates and its orientation code.
pub type FaceKey = (u8, u8, u8, u8);

impl Face {
    pub open spec fn key(&self) -> FaceKey {
        (self.coords.d0, self.coords.d1, self.coords.d2, self.coords.d3)
    }

    /// The face lies inside a chunk and names an orientation.
    pub open spec fn wf(&self) -> bool {
        self.coords.d0 < 16 && self.coords.d2 < 16 && self.coords.d3 < 6
    }

    pub open spec fn spec_orientation(&self) -> FaceOrientation {
        orientation_of_code(self.coords.d3).unwrap()
    }

    pub open spec fn at_coords(&self, x: u8, y: u8, z: u8) -> bool {
        self.coords.d0 == x && self.coords.d1 == y && self.coords.d2 == z
    }

    /// The same face showing another texture.
    pub open spec fn with_tex(&self, t: u32) -> Face {
        Face { coords: self.coords, tex_id: t }
    }

    /// The face of the block at local (x, y, z) facing o and showing texture t.
    pub open spec fn spec_new(x: u8, y: u8, z: u8, o: FaceOrientation, t: u32) -> Face {
        Face {
            coords: u8_u8_u8_u8 { d0: x, d1: y, d2: z, d3: orientation_code(o) },
            tex_id: t,
        }
    }

    pub open spec fn spec_coords_and_ort(&self) -> int {
        pack_bytes(self.coords.d0, self.coords.d1, self.coords.d2, self.coords.d3)
    }

    /// Faces with the same packed position and orientation have the same key.
    pub proof fn lemma_packed_key(a: Face, b: Face)
        ensures
            a.spec_coords_and_ort() == b.spec_coords_and_ort() <==> a.key() == b.key(),
    {
        if a.spec_coords_and_ort() == b.spec_coords_and_ort() {
            lemma_pack_injective(a.coords, b.coords);
        }
    }

    /// Shows the texture that the given block has on this face's side.
    pub fn update_texture(&mut self, new_block: Block)
        requires
            old(self).wf(),
            new_block.is_known(),
        ensures
            *final(self) == old(self).with_tex(new_block.spec_texture(old(self).spec_orientation())),
    {
        let ort = self.block_orientation();
        self.tex_id = new_block.texture_id(ort);
    }

    /// Position and orientation packed into one integer, the key under which faces are found.
    pub fn coords_and_ort(&self) -> (r: u32)
        ensures
            r == self.spec_coords_and_ort(),
    {
        self.coords.as_u32()
    }

    pub fn x(&self) -> (r: u8)
        ensures
            r == self.coords.d0,
    {
        self.coords.d0
    }

    pub fn y(&self) -> (r: u8)
        ensures
            r == self.coords.d1,
    {
        self.coords.d1
    }

    pub fn z(&self) -> (r: u8)
        ensures
            r == self.coords.d2,
    {
        self.coords.d2
    }

    /// The orientation code.
    pub fn orientation(&self) -> (r: u8)
        ensures
            r == self.coords.d3,
    {
        self.coords.d3
    }

    pub fn texture_id(&self) -> (r: u32)
        ensures
            r == self.tex_id,
    {
        self.tex_id
    }

    pub fn matches_coords(&self, x: u8, y: u8, z: u8) -> (r: bool)
        ensures
            r == self.at_coords(x, y, z),
    {
        self.x() == x && self.y() == y && self.z() == z
    }

    pub fn matches_block_coords(&self, x: usize, y: usize, z: usize) -> (r: bool)
        ensures
            r == (self.coords.d0 == x && self.coords.d1 == y && self.coords.d2 == z),
    {
        self.block_x() == x && self.block_y() == y && self.block_z() == z
    }

    pub fn block_x(&self) -> (r: usize)
        ensures
            r == self.coords.d0,
    {
        self.coords.d0 as usize
    }

    pub fn block_y(&self) -> (r: usize)
        ensures
            r == self.coords.d1,
    {
        self.coords.d1 as usize
    }

    pub fn block_z(&self) -> (r: usize)
        ensures
            r == self.coords.d2,
    {
        self.coords.d2 as usize
    }

    /// The direction this face points to.
    pub fn block_orientation(&self) -> (r: FaceOrientation)
        requires
            self.wf(),
        ensures
            r == self.spec_orientation(),
            orientation_code(r) == self.coords.d3,
    {
        match FaceOrientation::from_u8(self.coords.d3) {
            Some(o) => o,
            None => FaceOrientation::YPlus,
        }
    }

    /// The packed key of the face at local (x, y, z) facing the given way.
    pub fn encode_coords_and_ort(x: u8, y: u8, z: u8, orientation: FaceOrientation) -> (r: u32)
        requires
            (x as usize) < CHUNK_WIDTH,
            (y as usize) < CHUNK_HEIGHT,
            (z as usize) < CHUNK_DEPTH,
        ensures
            r == Face::spec_new(x, y, z, orientation, 0).spec_coords_and_ort(),
    {
        u8_u8_u8_u8::new(x, y, z, orientation.code()).as_u32()
    }

    /// The face at local (x, y, z) facing the given way and showing the given texture.
    pub fn from_coords_and_ort(x: u8, y: u8, z: u8, orientation: FaceOrientation, texture_id: u32) -> (r: Self)
        requires
            (x as usize) < CHUNK_WIDTH,
            (y as usize) < CHUNK_HEIGHT,
            (z as usize) < CHUNK_DEPTH,
        ensures
            r == Face::spec_new(x, y, z, orientation, texture_id),
            r.wf(),
            r.spec_orientation() == orientation,
    {
        Face { coords: u8_u8_u8_u8::new(x, y, z, orientation.code()), tex_id: texture_id }
    }
}

} // verus!
