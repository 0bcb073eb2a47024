use crate::orientation::{orientation_code, FaceOrientation};
use vstd::prelude::*;

verus! {

/// Number of block kinds in the registry; ids from 0 up to this bound are known.
pub const BLOCK_KINDS: u32 = 12;

/// Ids below this one are transparent; this is the id of stone.
pub const OPAQUE_THRESHOLD: u32 = 2;

pub const AIR: u32 = 0;
pub const GLASS: u32 = 1;
pub const STONE: u32 = 2;
pub const DIRT: u32 = 3;
pub const GRASS: u32 = 4;
pub const PLANK: u32 = 5;
pub const SLAB: u32 = 6;
pub const BRICK: u32 = 7;
pub const TNT: u32 = 8;
pub const COBBLESTONE: u32 = 9;
pub const BEDROCK: u32 = 10;
pub const SAND: u32 = 11;

/// The display name of each registered kind.
pub open spec fn block_name(id: u32) -> Seq<char> {
    if id == 0 {
        "air"@
    } else if id == 1 {
        "glass"@
    } else if id == 2 {
        "stone"@
    } else if id == 3 {
        "dirt"@
    } else if id == 4 {
        "grass"@
    } else if id == 5 {
        "plank"@
    } else if id == 6 {
        "slab"@
    } else if id == 7 {
        "brick"@
    } else if id == 8 {
        "tnt"@
    } else if id == 9 {
        "cobblestone"@
    } else if id == 10 {
        "bedrock"@
    } else {
        "sand"@
    }
}

/// The texture ids of a kind whose top, sides and bottom may differ.
pub open spec fn top_sides_bottom_texture(top: u32, side: u32, bottom: u32, o: FaceOrientation) -> u32 {
    match o {
        FaceOrientation::YPlus => top,
        FaceOrientation::YMinus => bottom,
        _ => side,
    }
}

/// The texture shown by a face of a registered kind in each orientation.
pub open spec fn block_texture(id: u32, o: FaceOrientation) -> u32 {
    if id == 0 {
        256
    } else if id == 1 {
        28
    } else if id == 2 {
        1
    } else if id == 3 {
        2
    } else if id == 4 {
        top_sides_bottom_texture(0, 3, 2, o)
    } else if id == 5 {
        4
    } else if id == 6 {
        top_sides_bottom_texture(6, 5, 6, o)
    } else if id == 7 {
        7
    } else if id == 8 {
        top_sides_bottom_texture(9, 8, 10, o)
    } else if id == 9 {
        11
    } else if id == 10 {
        12
    } else {
        13
    }
}

/// The registry entry of one kind of block: its name and one texture per orientation.
pub struct BlockProp {
    name: &'static str,
    texture_ids: [u32; 6],
}

impl BlockProp {
    pub closed spec fn spec_texture(&self, o: FaceOrientation) -> u32 {
        self.texture_ids@[orientation_code(o) as int]
    }

    pub closed spec fn spec_name(&self) -> Seq<char> {
        self.name@
    }

    /// A kind that shows the same texture on all six sides.
    fn regular(name: &'static str, texture_id: u32) -> (r: Self)
        ensures
            r.spec_name() == name@,
            forall|o: FaceOrientation| #[trigger] r.spec_texture(o) == texture_id,
    {
        let r = BlockProp {
            name,
            texture_ids: [texture_id, texture_id, texture_id, texture_id, texture_id, texture_id],
        };
        assert forall|o: FaceOrientation| #[trigger] r.spec_texture(o) == texture_id by {
            assert(orientation_code(o) < 6);
        }
        r
    }

    /// A kind with one texture on top, one on the bottom and one on the four sides.
    fn top_sides_bottom(
        name: &'static str,
        texture_id_top: u32,
        texture_id_side: u32,
        texture_id_bottom: u32,
    ) -> (r: Self)
        ensures
            r.spec_name() == name@,
            forall|o: FaceOrientation| #[trigger]
                r.spec_texture(o) == top_sides_bottom_texture(
                    texture_id_top,
                    texture_id_side,
                    texture_id_bottom,
                    o,
                ),
    {
        BlockProp {
            name,
            texture_ids: [
                texture_id_top,
                texture_id_bottom,
                texture_id_side,
                texture_id_side,
                texture_id_side,
                texture_id_side,
            ],
        }
    }

    /// The registry entry of a known kind.
    pub fn of(id: u32) -> (r: Self)
        requires
            id < BLOCK_KINDS,
        ensures
            r.spec_name() == block_name(id),
            forall|o: FaceOrientation| #[trigger] r.spec_texture(o) == block_texture(id, o),
    {
        if id == 0 {
            BlockProp::regular("air", 256)
        } else if id == 1 {
            BlockProp::regular("glass", 28)
        } else if id == 2 {
            BlockProp::regular("stone", 1)
        } else if id == 3 {
            BlockProp::regular("dirt", 2)
        } else if id == 4 {
            BlockProp::top_sides_bottom("grass", 0, 3, 2)
        } else if id == 5 {
            BlockProp::regular("plank", 4)
        } else if id == 6 {
            BlockProp::top_sides_bottom("slab", 6, 5, 6)
        } else if id == 7 {
            BlockProp::regular("brick", 7)
        } else if id == 8 {
            BlockProp::top_sides_bottom("tnt", 9, 8, 10)
        } else if id == 9 {
            BlockProp::regular("cobblestone", 11)
        } else if id == 10 {
            BlockProp::regular("bedrock", 12)
        } else {
            BlockProp::regular("sand", 13)
        }
    }

    /// The texture this kind shows on a face with the given orientation.
    pub fn get_texture_id(&self, ort: FaceOrientation) -> (r: u32)
        ensures
            r == self.spec_texture(ort),
    {
        self.texture_ids[ort.code() as usize]
    }

    /// The display name of this kind.
    pub fn name(&self) -> (r: &'static str)
        ensures
            r@ == self.spec_name(),
    {
        self.name
    }
}

/// What occupies one cell of the world: the id of a kind of block.
#[derive(Copy, Clone, Debug, PartialEq, Eq, Structural)]
pub struct Block {
    idx: u32,
}

impl Block {
    /// The kind id of this block.
    pub closed spec fn id(&self) -> u32 {
        self.idx
    }

    /// The block is of a kind that the registry knows.
    pub open spec fn is_known(&self) -> bool {
        self.id() < BLOCK_KINDS
    }

    pub open spec fn spec_is_air(&self) -> bool {
        self.id() == 0
    }

    pub open spec fn spec_is_transparent(&self) -> bool {
        self.id() < OPAQUE_THRESHOLD
    }

    /// The block owns faces that may be visible.
    pub open spec fn spec_show_my_faces(&self) -> bool {
        !self.spec_is_air()
    }

    /// The block lets the faces of its neighbours that point toward it be seen.
    pub open spec fn spec_show_neighboring_faces(&self) -> bool {
        self.spec_is_transparent()
    }

    pub open spec fn spec_texture(&self, o: FaceOrientation) -> u32 {
        block_texture(self.id(), o)
    }

    /// The empty cell, as a value of specifications.
    pub closed spec fn air_spec() -> Block {
        Block { idx: AIR }
    }

    /// The empty cell.
    pub fn air() -> (r: Self)
        ensures
            r.id() == AIR,
            r == Block::air_spec(),
    {
        Block::new(AIR)
    }

    /// The block of the given kind.
    pub fn new(idx: u32) -> (r: Self)
        ensures
            r.id() == idx,
            idx == AIR ==> r == Block::air_spec(),
    {
        Block { idx }
    }

    /// How far the id lies above ten, and zero for the lower ids.
    pub fn weight(&self) -> (r: u32)
        ensures
            r == (if self.id() >= 10 { self.id() - 10 } else { 0 }),
    {
        self.idx.saturating_sub(10)
    }

    /// Anything but air.
    pub fn is_solid(&self) -> (r: bool)
        ensures
            r == !self.spec_is_air(),
    {
        self.idx > 0
    }

    pub fn is_transparent(&self) -> (r: bool)
        ensures
            r == self.spec_is_transparent(),
    {
        self.idx < OPAQUE_THRESHOLD
    }

    pub fn is_air(&self) -> (r: bool)
        ensures
            r == self.spec_is_air(),
    {
        self.idx == AIR
    }

    /// The texture this block shows on a face with the given orientation.
    pub fn texture_id(&self, ort: FaceOrientation) -> (r: u32)
        requires
            self.is_known(),
        ensures
            r == self.spec_texture(ort),
    {
        BlockProp::of(self.idx).get_texture_id(ort)
    }

    /// The display name of this block's kind.
    pub fn name(&self) -> (r: &'static str)
        requires
            self.is_known(),
        ensures
            r@ == block_name(self.id()),
    {
        BlockProp::of(self.idx).name()
    }

    pub fn show_neighboring_faces(&self) -> (r: bool)
        ensures
            r == self.spec_show_neighboring_faces(),
    {
        self.is_transparent()
    }

    pub fn show_my_faces(&self) -> (r: bool)
        ensures
            r == self.spec_show_my_faces(),
    {
        !self.is_air()
    }
}

/// Blocks are told apart by their ids alone.
pub proof fn lemma_block_ext(a: Block, b: Block)
    ensures
        a.id() == b.id() <==> a == b,
        Block::air_spec().id() == AIR,
{
}

/// Air is transparent and shows no faces of its own.
pub proof fn lemma_air_is_see_through(b: Block)
    requires
        b.spec_is_air(),
    ensures
        b.spec_is_transparent(),
        !b.spec_show_my_faces(),
        b.spec_show_neighboring_faces(),
{
}

} // verus!
