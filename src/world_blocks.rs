use crate::block::Block;
use crate::world_size::{WorldSize, CHUNK_HEIGHT};
use vstd::prelude::*;

verus! {

/// The blocks of a whole world, stored densely chunk after chunk.
pub struct WorldBlocks {
    blocks: Vec<Block>,
    size: WorldSize,
}

impl WorldBlocks {
    /// The stored blocks, in storage order.
    pub closed spec fn cells(&self) -> Seq<Block> {
        self.blocks@
    }

    pub closed spec fn spec_size(&self) -> WorldSize {
        self.size
    }

    pub open spec fn wf(&self) -> bool {
        &&& self.spec_size().wf()
        &&& self.cells().len() == self.spec_size().volume()
        &&& forall|i: int| 0 <= i < self.cells().len() ==> (#[trigger] self.cells()[i]).is_known()
    }

    /// The block at (x, y, z).
    pub open spec fn block_at(&self, x: int, y: int, z: int) -> Block {
        self.cells()[self.spec_size().block_index(x, y, z)]
    }

    pub open spec fn in_bounds(&self, x: int, y: int, z: int) -> bool {
        self.spec_size().in_bounds(x, y, z)
    }

    /// Two block stores of one size that agree on every position.
    pub open spec fn same_blocks(&self, other: &WorldBlocks) -> bool {
        &&& self.spec_size() == other.spec_size()
        &&& self.cells() == other.cells()
    }

    /// Setting the block stored at index i changes only the block at the one position stored there.
    pub proof fn lemma_update_cell(&self, x: int, y: int, z: int, b: Block, other: WorldBlocks)
        requires
            self.wf(),
            self.in_bounds(x, y, z),
            other.spec_size() == self.spec_size(),
            other.cells() == self.cells().update(self.spec_size().block_index(x, y, z), b),
        ensures
            forall|px: int, py: int, pz: int| #[trigger]
                self.in_bounds(px, py, pz) ==> other.block_at(px, py, pz) == (if px == x && py == y
                    && pz == z {
                    b
                } else {
                    self.block_at(px, py, pz)
                }),
    {
        let s = self.spec_size();
        s.lemma_position(x, y, z);
        assert forall|px: int, py: int, pz: int| #[trigger]
            self.in_bounds(px, py, pz) implies other.block_at(px, py, pz) == (if px == x && py == y
                && pz == z {
                b
            } else {
                self.block_at(px, py, pz)
            }) by {
            s.lemma_position(px, py, pz);
            if s.block_index(px, py, pz) == s.block_index(x, y, z) {
                s.lemma_index_injective(px, py, pz, x, y, z);
            }
        }
    }

    pub fn size(&self) -> (r: &WorldSize)
        ensures
            *r == self.spec_size(),
    {
        &self.size
    }

    pub fn get_block(&self, x: usize, y: usize, z: usize) -> (r: &Block)
        requires
            self.wf(),
            self.in_bounds(x as int, y as int, z as int),
        ensures
            *r == self.block_at(x as int, y as int, z as int),
            r.is_known(),
    {
        let idx = self.size.block_pos_into_world_idx(x, y, z);
        &self.blocks[idx]
    }

    /// Direct access to one block. Faces kept elsewhere are not told of a write through it.
    pub fn get_block_mut(&mut self, x: usize, y: usize, z: usize) -> (r: &mut Block)
        requires
            old(self).wf(),
            old(self).in_bounds(x as int, y as int, z as int),
        ensures
            *r == old(self).block_at(x as int, y as int, z as int),
            final(self).spec_size() == old(self).spec_size(),
            final(self).cells() == old(self).cells().update(
                old(self).spec_size().block_index(x as int, y as int, z as int),
                *final(r),
            ),
    {
        let idx = self.size.block_pos_into_world_idx(x, y, z);
        &mut self.blocks[idx]
    }

    /// A world of the given size filled with air.
    pub fn new(size: WorldSize) -> (r: Self)
        requires
            size.wf(),
        ensures
            r.wf(),
            r.spec_size() == size,
            forall|x: int, y: int, z: int| #[trigger]
                r.in_bounds(x, y, z) ==> r.block_at(x, y, z).spec_is_air(),
    {
        let n = size.world_volume();
        let mut blocks: Vec<Block> = Vec::new();
        let mut i: usize = 0;
        while i < n
            invariant
                i <= n,
                n == size.volume(),
                blocks@.len() == i,
                forall|j: int| 0 <= j < i ==> (#[trigger] blocks@[j]).spec_is_air(),
            decreases n - i,
        {
            blocks.push(Block::air());
            i += 1;
        }
        let r = WorldBlocks { blocks, size };
        assert forall|x: int, y: int, z: int| #[trigger]
            r.in_bounds(x, y, z) implies r.block_at(x, y, z).spec_is_air() by {
            size.lemma_position(x, y, z);
        }
        r
    }

    /// Puts a block at (x, y, z) without any face bookkeeping.
    pub fn no_update_set_block(&mut self, x: usize, y: usize, z: usize, block: Block)
        requires
            old(self).wf(),
            old(self).in_bounds(x as int, y as int, z as int),
            block.is_known(),
        ensures
            final(self).wf(),
            final(self).spec_size() == old(self).spec_size(),
            final(self).cells() == old(self).cells().update(
                old(self).spec_size().block_index(x as int, y as int, z as int),
                block,
            ),
            forall|px: int, py: int, pz: int| #[trigger]
                old(self).in_bounds(px, py, pz) ==> final(self).block_at(px, py, pz) == (if px
                    == x && py == y && pz == z {
                    block
                } else {
                    old(self).block_at(px, py, pz)
                }),
    {
        let idx = self.size.block_pos_into_world_idx(x, y, z);
        self.blocks.set(idx, block);
        proof {
            old(self).lemma_update_cell(x as int, y as int, z as int, block, *self);
        }
    }

    /// Puts air at (x, y, z) without any face bookkeeping.
    pub fn no_update_remove_block(&mut self, x: usize, y: usize, z: usize)
        requires
            old(self).wf(),
            old(self).in_bounds(x as int, y as int, z as int),
        ensures
            final(self).wf(),
            final(self).spec_size() == old(self).spec_size(),
            forall|px: int, py: int, pz: int| #[trigger]
                old(self).in_bounds(px, py, pz) ==> final(self).block_at(px, py, pz) == (if px
                    == x && py == y && pz == z {
                    Block::air_spec()
                } else {
                    old(self).block_at(px, py, pz)
                }),
    {
        self.no_update_set_block(x, y, z, Block::air())
    }

    /// Puts `block` on every position of the box without any face bookkeeping.
    pub fn no_update_fill(
        &mut self,
        from_x: usize,
        from_y: usize,
        from_z: usize,
        width: usize,
        height: usize,
        depth: usize,
        block: Block,
    )
        requires
            old(self).wf(),
            block.is_known(),
            old(self).box_fits(
                (from_x as int, from_y as int, from_z as int),
                (width as int, height as int, depth as int),
                height as int,
            ),
        ensures
            final(self).wf(),
            final(self).spec_size() == old(self).spec_size(),
            forall|x: int, y: int, z: int| #[trigger]
                old(self).in_bounds(x, y, z) ==> final(self).block_at(x, y, z) == (if from_x <= x < from_x
                    + width && from_y <= y < from_y + height && from_z <= z < from_z + depth {
                    block
                } else {
                    old(self).block_at(x, y, z)
                }),
    {
        self.paint(from_x, from_y, from_z, width, height, depth, Brush::Fill, block)
    }

    /// Puts `block` on the outline of the box (see `Brush::Outline`) without any face
    /// bookkeeping. The bottom layer is drawn even for a height of zero.
    pub fn no_update_outline(
        &mut self,
        from_x: usize,
        from_y: usize,
        from_z: usize,
        width: usize,
        height: usize,
        depth: usize,
        block: Block,
    )
        requires
            old(self).wf(),
            block.is_known(),
            old(self).box_fits(
                (from_x as int, from_y as int, from_z as int),
                (width as int, height as int, depth as int),
                WorldBlocks::brush_height(Brush::Outline, height as int),
            ),
        ensures
            final(self).wf(),
            final(self).spec_size() == old(self).spec_size(),
            forall|x: int, y: int, z: int| #[trigger]
                old(self).in_bounds(x, y, z) ==> final(self).block_at(x, y, z) == (if WorldBlocks::paints(
                    Brush::Outline,
                    (from_x as int, from_y as int, from_z as int),
                    (width as int, height as int, depth as int),
                    (x, y, z),
                    old(self).block_at(x, y, z),
                ) {
                    block
                } else {
                    old(self).block_at(x, y, z)
                }),
    {
        self.paint(from_x, from_y, from_z, width, height, depth, Brush::Outline, block)
    }

    /// Puts `block` on the whole layers from_y up to from_y + height without any face bookkeeping.
    pub fn no_update_fill_level(&mut self, from_y: usize, height: usize, block: Block)
        requires
            old(self).wf(),
            block.is_known(),
            from_y + height <= CHUNK_HEIGHT,
        ensures
            final(self).wf(),
            final(self).spec_size() == old(self).spec_size(),
            forall|x: int, y: int, z: int| #[trigger]
                old(self).in_bounds(x, y, z) ==> final(self).block_at(x, y, z) == (if from_y <= y < from_y
                    + height {
                    block
                } else {
                    old(self).block_at(x, y, z)
                }),
    {
        let w = self.size.world_width();
        let d = self.size.world_depth();
        self.no_update_fill(0, from_y, 0, w, height, d, block)
    }

    /// Puts `new_block` on every position of the box that holds `old_block`, without any face
    /// bookkeeping.
    pub fn no_update_replace(
        &mut self,
        from_x: usize,
        from_y: usize,
        from_z: usize,
        width: usize,
        height: usize,
        depth: usize,
        old_block: Block,
        new_block: Block,
    )
        requires
            old(self).wf(),
            new_block.is_known(),
            old(self).box_fits(
                (from_x as int, from_y as int, from_z as int),
                (width as int, height as int, depth as int),
                height as int,
            ),
        ensures
            final(self).wf(),
            final(self).spec_size() == old(self).spec_size(),
            forall|x: int, y: int, z: int| #[trigger]
                old(self).in_bounds(x, y, z) ==> final(self).block_at(x, y, z) == (if from_x <= x < from_x
                    + width && from_y <= y < from_y + height && from_z <= z < from_z + depth
                    && old(self).block_at(x, y, z) == old_block {
                    new_block
                } else {
                    old(self).block_at(x, y, z)
                }),
    {
        self.paint(from_x, from_y, from_z, width, height, depth, Brush::Replace(old_block), new_block)
    }

    /// Fills every column (x, z) from the ground up to the height that `height_at` gives for
    /// it with `filler_block`, without any face bookkeeping.
    pub fn no_update_heightmap<F: Fn(usize, usize) -> usize>(&mut self, filler_block: Block, height_at: F)
        requires
            old(self).wf(),
            filler_block.is_known(),
            forall|x: usize, z: usize| height_at.requires((x, z)),
            forall|x: usize, z: usize, h: usize| #[trigger] height_at.ensures((x, z), h) ==> h <= CHUNK_HEIGHT,
        ensures
            final(self).wf(),
            final(self).spec_size() == old(self).spec_size(),
            forall|x: int, z: int|
                #![trigger old(self).in_bounds(x, 0, z)]
                old(self).in_bounds(x, 0, z) ==> exists|h: usize|
                    #![trigger height_at.ensures((x as usize, z as usize), h)]
                    height_at.ensures((x as usize, z as usize), h) && forall|y: int|
                        #![trigger final(self).block_at(x, y, z)]
                        0 <= y < 256 ==> final(self).block_at(x, y, z) == (if y < h {
                            filler_block
                        } else {
                            old(self).block_at(x, y, z)
                        }),
    {
        let ghost start = *self;
        let w = self.size.world_width();
        let d = self.size.world_depth();
        let ghost mut hs: Map<(int, int), usize> = Map::empty();
        let mut x: usize = 0;
        while x < w
            invariant
                x <= w,
                w == start.spec_size().block_width(),
                d == start.spec_size().block_depth(),
                self.wf(),
                start.wf(),
                filler_block.is_known(),
                self.spec_size() == start.spec_size(),
                forall|x: usize, z: usize| height_at.requires((x, z)),
                forall|x: usize, z: usize, h: usize| #[trigger] height_at.ensures((x, z), h) ==> h <= CHUNK_HEIGHT,
                forall|qx: int, qy: int, qz: int| #[trigger]
                    start.in_bounds(qx, qy, qz) ==> if qx < x {
                        &&& hs.contains_key((qx, qz))
                        &&& height_at.ensures((qx as usize, qz as usize), hs[(qx, qz)])
                        &&& self.block_at(qx, qy, qz) == (if qy < hs[(qx, qz)] {
                            filler_block
                        } else {
                            start.block_at(qx, qy, qz)
                        })
                    } else {
                        self.block_at(qx, qy, qz) == start.block_at(qx, qy, qz)
                    },
            decreases w - x,
        {
            let mut z: usize = 0;
            while z < d
                invariant
                    x < w,
                    z <= d,
                    w == start.spec_size().block_width(),
                    d == start.spec_size().block_depth(),
                    self.wf(),
                    start.wf(),
                    filler_block.is_known(),
                    self.spec_size() == start.spec_size(),
                    forall|x: usize, z: usize| height_at.requires((x, z)),
                    forall|x: usize, z: usize, h: usize| #[trigger] height_at.ensures((x, z), h) ==> h <= CHUNK_HEIGHT,
                    forall|qx: int, qy: int, qz: int| #[trigger]
                        start.in_bounds(qx, qy, qz) ==> if qx < x || (qx == x && qz < z) {
                            &&& hs.contains_key((qx, qz))
                            &&& height_at.ensures((qx as usize, qz as usize), hs[(qx, qz)])
                            &&& self.block_at(qx, qy, qz) == (if qy < hs[(qx, qz)] {
                                filler_block
                            } else {
                                start.block_at(qx, qy, qz)
                            })
                        } else {
                            self.block_at(qx, qy, qz) == start.block_at(qx, qy, qz)
                        },
                decreases d - z,
            {
                let h = height_at(x, z);
                let ghost before = *self;
                self.no_update_fill(x, 0, z, 1, h, 1, filler_block);
                proof {
                    hs = hs.insert((x as int, z as int), h);
                    assert forall|qx: int, qy: int, qz: int| #[trigger]
                        start.in_bounds(qx, qy, qz) implies if qx < x || (qx == x && qz < z + 1) {
                            &&& hs.contains_key((qx, qz))
                            &&& height_at.ensures((qx as usize, qz as usize), hs[(qx, qz)])
                            &&& self.block_at(qx, qy, qz) == (if qy < hs[(qx, qz)] {
                                filler_block
                            } else {
                                start.block_at(qx, qy, qz)
                            })
                        } else {
                            self.block_at(qx, qy, qz) == start.block_at(qx, qy, qz)
                        } by {
                        assert(before.in_bounds(qx, qy, qz));
                    }
                }
                z += 1;
            }
            x += 1;
        }
        proof {
            assert forall|qx: int, qz: int| #![trigger start.in_bounds(qx, 0, qz)]
                start.in_bounds(qx, 0, qz) implies exists|h: usize|
                    #![trigger height_at.ensures((qx as usize, qz as usize), h)]
                    height_at.ensures((qx as usize, qz as usize), h) && forall|y: int|
                        #![trigger self.block_at(qx, y, qz)]
                        0 <= y < 256 ==> self.block_at(qx, y, qz) == (if y < h {
                            filler_block
                        } else {
                            start.block_at(qx, y, qz)
                        }) by {
                assert(start.in_bounds(qx, 0, qz));
                let h = hs[(qx, qz)];
                assert forall|y: int| #![trigger self.block_at(qx, y, qz)]
                    0 <= y < 256 implies self.block_at(qx, y, qz) == (if y < h {
                        filler_block
                    } else {
                        start.block_at(qx, y, qz)
                    }) by {
                    assert(start.in_bounds(qx, y, qz));
                }
            }
        }
    }

    /// The brush puts `block` on q, given what q holds now.
    pub open spec fn paints(
        brush: Brush,
        from: (int, int, int),
        dims: (int, int, int),
        q: (int, int, int),
        cur: Block,
    ) -> bool {
        let (fx, fy, fz) = from;
        let (w, h, d) = dims;
        let in_columns = fx <= q.0 < fx + w && fz <= q.2 < fz + d;
        match brush {
            Brush::Fill => in_columns && fy <= q.1 < fy + h,
            Brush::Replace(old_block) => in_columns && fy <= q.1 < fy + h && cur == old_block,
            Brush::Outline => in_columns && {
                ||| q.1 == fy
                ||| (h > 1 && q.1 == fy + h - 1)
                ||| (h > 2 && fy < q.1 < fy + h - 1 && (q.0 == fx || q.0 == fx + w - 1 || (d > 2 && (
                q.2 == fz || q.2 == fz + d - 1))))
            },
        }
    }

    /// The layers a brush may touch: at least the first one, for an outline.
    pub open spec fn brush_height(brush: Brush, h: int) -> int {
        match brush {
            Brush::Outline => if h < 1 {
                1
            } else {
                h
            },
            _ => h,
        }
    }

    /// The box reaches no further than the world.
    pub open spec fn box_fits(&self, from: (int, int, int), dims: (int, int, int), layers: int) -> bool {
        &&& from.0 + dims.0 <= self.spec_size().block_width()
        &&& from.2 + dims.2 <= self.spec_size().block_depth()
        &&& from.1 + layers <= 256
    }

    /// Every block of the box that the brush paints becomes `block`; all others stay.
    fn paint(
        &mut self,
        from_x: usize,
        from_y: usize,
        from_z: usize,
        width: usize,
        height: usize,
        depth: usize,
        brush: Brush,
        block: Block,
    )
        requires
            old(self).wf(),
            block.is_known(),
            old(self).box_fits(
                (from_x as int, from_y as int, from_z as int),
                (width as int, height as int, depth as int),
                WorldBlocks::brush_height(brush, height as int),
            ),
        ensures
            final(self).wf(),
            final(self).spec_size() == old(self).spec_size(),
            forall|x: int, y: int, z: int| #[trigger]
                old(self).in_bounds(x, y, z) ==> final(self).block_at(x, y, z) == (if WorldBlocks::paints(
                    brush,
                    (from_x as int, from_y as int, from_z as int),
                    (width as int, height as int, depth as int),
                    (x, y, z),
                    old(self).block_at(x, y, z),
                ) {
                    block
                } else {
                    old(self).block_at(x, y, z)
                }),
    {
        let ghost from = (from_x as int, from_y as int, from_z as int);
        let ghost dims = (width as int, height as int, depth as int);
        let ghost start = *self;
        let layers = match brush {
            Brush::Outline => if height < 1 {
                1
            } else {
                height
            },
            _ => height,
        };
        let mut x = from_x;
        while x < from_x + width
            invariant
                from_x <= x <= from_x + width,
                self.wf(),
                self.spec_size() == start.spec_size(),
                start.wf(),
                block.is_known(),
                layers == WorldBlocks::brush_height(brush, height as int),
                start.box_fits(from, dims, layers as int),
                from == (from_x as int, from_y as int, from_z as int),
                dims == (width as int, height as int, depth as int),
                forall|qx: int, qy: int, qz: int| #[trigger]
                    start.in_bounds(qx, qy, qz) ==> self.block_at(qx, qy, qz) == (if qx < x
                        && WorldBlocks::paints(brush, from, dims, (qx, qy, qz), start.block_at(qx, qy, qz)) {
                        block
                    } else {
                        start.block_at(qx, qy, qz)
                    }),
            decreases from_x + width - x,
        {
            let mut z = from_z;
            while z < from_z + depth
                invariant
                    from_x <= x < from_x + width,
                    from_z <= z <= from_z + depth,
                    self.wf(),
                    self.spec_size() == start.spec_size(),
                    start.wf(),
                    block.is_known(),
                    layers == WorldBlocks::brush_height(brush, height as int),
                    start.box_fits(from, dims, layers as int),
                    from == (from_x as int, from_y as int, from_z as int),
                    dims == (width as int, height as int, depth as int),
                    forall|qx: int, qy: int, qz: int| #[trigger]
                        start.in_bounds(qx, qy, qz) ==> self.block_at(qx, qy, qz) == (if (qx < x || (qx
                            == x && qz < z)) && WorldBlocks::paints(
                            brush,
                            from,
                            dims,
                            (qx, qy, qz),
                            start.block_at(qx, qy, qz),
                        ) {
                            block
                        } else {
                            start.block_at(qx, qy, qz)
                        }),
                decreases from_z + depth - z,
            {
                let mut y = from_y;
                while y < from_y + layers
                    invariant
                        from_x <= x < from_x + width,
                        from_z <= z < from_z + depth,
                        from_y <= y <= from_y + layers,
                        self.wf(),
                        self.spec_size() == start.spec_size(),
                        start.wf(),
                        block.is_known(),
                        layers == WorldBlocks::brush_height(brush, height as int),
                        start.box_fits(from, dims, layers as int),
                        from == (from_x as int, from_y as int, from_z as int),
                        dims == (width as int, height as int, depth as int),
                        forall|qx: int, qy: int, qz: int| #[trigger]
                            start.in_bounds(qx, qy, qz) ==> self.block_at(qx, qy, qz) == (if (qx < x || (
                            qx == x && qz < z) || (qx == x && qz == z && qy < y)) && WorldBlocks::paints(
                                brush,
                                from,
                                dims,
                                (qx, qy, qz),
                                start.block_at(qx, qy, qz),
                            ) {
                                block
                            } else {
                                start.block_at(qx, qy, qz)
                            }),
                    decreases from_y + layers - y,
                {
                    let cur = *self.get_block(x, y, z);
                    let hit = match brush {
                        Brush::Fill => y < from_y + height,
                        Brush::Replace(old_block) => y < from_y + height && cur == old_block,
                        Brush::Outline => {
                            y == from_y || (height > 1 && y == from_y + height - 1) || (height > 2 && from_y
                                < y && y < from_y + height - 1 && (x == from_x || x == from_x + width - 1 || (
                            depth > 2 && (z == from_z || z == from_z + depth - 1))))
                        },
                    };
                    proof {
                        assert(start.in_bounds(x as int, y as int, z as int));
                        assert(cur == start.block_at(x as int, y as int, z as int));
                        assert(hit == WorldBlocks::paints(brush, from, dims, (x as int, y as int, z as int), cur));
                    }
                    if hit {
                        let ghost before = *self;
                        self.no_update_set_block(x, y, z, block);
                        proof {
                            assert forall|qx: int, qy: int, qz: int| #[trigger]
                                start.in_bounds(qx, qy, qz) implies self.block_at(qx, qy, qz) == (if (qx < x || (
                                qx == x && qz < z) || (qx == x && qz == z && qy < y + 1))
                                && WorldBlocks::paints(
                                    brush,
                                    from,
                                    dims,
                                    (qx, qy, qz),
                                    start.block_at(qx, qy, qz),
                                ) {
                                block
                            } else {
                                start.block_at(qx, qy, qz)
                            }) by {
                                assert(before.in_bounds(qx, qy, qz));
                            }
                        }
                    } else {
                        proof {
                            assert forall|qx: int, qy: int, qz: int| #[trigger]
                                start.in_bounds(qx, qy, qz) implies self.block_at(qx, qy, qz) == (if (qx < x || (
                                qx == x && qz < z) || (qx == x && qz == z && qy < y + 1))
                                && WorldBlocks::paints(
                                    brush,
                                    from,
                                    dims,
                                    (qx, qy, qz),
                                    start.block_at(qx, qy, qz),
                                ) {
                                block
                            } else {
                                start.block_at(qx, qy, qz)
                            }) by {
                                if qx == x && qz == z && qy == y {
                                    assert(start.in_bounds(qx, qy, qz));
                                }
                            }
                        }
                    }
                    y += 1;
                }
                proof {
                    assert forall|qx: int, qy: int, qz: int| #[trigger]
                        start.in_bounds(qx, qy, qz) implies self.block_at(qx, qy, qz) == (if (qx < x || (qx
                        == x && qz < z + 1)) && WorldBlocks::paints(
                        brush,
                        from,
                        dims,
                        (qx, qy, qz),
                        start.block_at(qx, qy, qz),
                    ) {
                        block
                    } else {
                        start.block_at(qx, qy, qz)
                    }) by {
                        assert(start.in_bounds(qx, qy, qz));
                    }
                }
                z += 1;
            }
            proof {
                assert forall|qx: int, qy: int, qz: int| #[trigger]
                    start.in_bounds(qx, qy, qz) implies self.block_at(qx, qy, qz) == (if qx < x + 1
                    && WorldBlocks::paints(brush, from, dims, (qx, qy, qz), start.block_at(qx, qy, qz)) {
                    block
                } else {
                    start.block_at(qx, qy, qz)
                }) by {
                    assert(start.in_bounds(qx, qy, qz));
                }
            }
            x += 1;
        }
        proof {
            assert forall|qx: int, qy: int, qz: int| #[trigger]
                start.in_bounds(qx, qy, qz) implies self.block_at(qx, qy, qz) == (if WorldBlocks::paints(
                brush,
                from,
                dims,
                (qx, qy, qz),
                start.block_at(qx, qy, qz),
            ) {
                block
            } else {
                start.block_at(qx, qy, qz)
            }) by {
                assert(start.in_bounds(qx, qy, qz));
            }
        }
    }
}

/// What a bulk edit of a box does to each of its blocks.
#[derive(Copy, Clone, Debug, PartialEq, Eq, Structural)]
pub enum Brush {
    /// Every block of the box.
    Fill,
    /// The bottom and top layers of the box, and on the layers between them the blocks on its
    /// x-most walls, plus those on its z-most walls when it is deeper than two.
    Outline,
    /// The blocks of the box that equal the given one.
    Replace(Block),
}

} // verus!
