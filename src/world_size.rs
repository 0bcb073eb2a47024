use vstd::arithmetic::div_mod::{lemma_fundamental_div_mod, lemma_fundamental_div_mod_converse};
use vstd::prelude::*;

verus! {

/// Width of a chunk along x, in blocks.
pub const CHUNK_WIDTH: usize = 16;

/// Depth of a chunk along z, in blocks.
pub const CHUNK_DEPTH: usize = 16;

/// Height of a chunk (and of the world) along y, in blocks.
pub const CHUNK_HEIGHT: usize = 256;

/// Number of blocks in one chunk.
pub const CHUNK_VOLUME: usize = 65536;

/// The extent of a world, counted in chunks along x and along z.
#[derive(Copy, Clone, Debug, PartialEq, Eq, Structural)]
pub struct WorldSize {
    width: usize,
    depth: usize,
}

impl WorldSize {
    /// Chunks along x.
    pub closed spec fn chunks_x(&self) -> int {
        self.width as int
    }

    /// Chunks along z.
    pub closed spec fn chunks_z(&self) -> int {
        self.depth as int
    }

    /// The number of blocks fits in memory addresses.
    pub open spec fn wf(&self) -> bool {
        &&& self.chunks_x() * self.chunks_z() * 65536 <= usize::MAX
        &&& self.chunks_x() * 16 <= usize::MAX
        &&& self.chunks_z() * 16 <= usize::MAX
    }

    pub open spec fn chunk_count(&self) -> int {
        self.chunks_x() * self.chunks_z()
    }

    pub open spec fn volume(&self) -> int {
        self.chunk_count() * 65536
    }

    pub open spec fn block_width(&self) -> int {
        self.chunks_x() * 16
    }

    pub open spec fn block_depth(&self) -> int {
        self.chunks_z() * 16
    }

    pub open spec fn in_bounds(&self, x: int, y: int, z: int) -> bool {
        0 <= x < self.block_width() && 0 <= y < 256 && 0 <= z < self.block_depth()
    }

    /// The index of the chunk holding column (x, z); chunks are laid out row by row along x.
    pub open spec fn chunk_of(&self, x: int, z: int) -> int {
        (z / 16) * self.chunks_x() + x / 16
    }

    /// The smallest x of the blocks in chunk c.
    pub open spec fn origin_x(&self, c: int) -> int {
        (c % self.chunks_x()) * 16
    }

    /// The smallest z of the blocks in chunk c.
    pub open spec fn origin_z(&self, c: int) -> int {
        (c / self.chunks_x()) * 16
    }

    /// Where block (x, y, z) is stored: chunk after chunk, each one layer of y after another.
    pub open spec fn block_index(&self, x: int, y: int, z: int) -> int {
        self.chunk_of(x, z) * 65536 + y * 256 + (z % 16) * 16 + x % 16
    }

    pub proof fn lemma_counts_nonneg(&self)
        ensures
            self.chunks_x() >= 0,
            self.chunks_z() >= 0,
            self.chunk_count() >= 0,
    {
        assert(self.chunks_x() * self.chunks_z() >= 0) by (nonlinear_arith)
            requires
                self.chunks_x() >= 0,
                self.chunks_z() >= 0,
        ;
    }

    /// A block in bounds lies in a chunk of the world, at its local offset.
    pub proof fn lemma_position(&self, x: int, y: int, z: int)
        requires
            self.in_bounds(x, y, z),
        ensures
            0 <= self.chunk_of(x, z) < self.chunk_count(),
            self.origin_x(self.chunk_of(x, z)) + x % 16 == x,
            self.origin_z(self.chunk_of(x, z)) + z % 16 == z,
            0 <= self.block_index(x, y, z),
            self.block_index(x, y, z) + 1 <= self.chunk_count() * 65536,
    {
        let w = self.chunks_x();
        let d = self.chunks_z();
        let cx = x / 16;
        let cz = z / 16;
        assert(0 <= cx < w);
        assert(0 <= cz < d);
        let c = cz * w + cx;
        assert(0 <= c < w * d) by (nonlinear_arith)
            requires
                0 <= cx < w,
                0 <= cz < d,
                c == cz * w + cx,
        ;
        lemma_fundamental_div_mod_converse(c, w, cz, cx);
        assert(c % w == cx && c / w == cz);
        assert(self.chunk_of(x, z) == c);
    }

    /// Each chunk of the world covers the 16 by 16 columns at its origin.
    pub proof fn lemma_chunk_cell(&self, c: int, lx: int, y: int, lz: int)
        requires
            0 <= c < self.chunk_count(),
            0 <= lx < 16,
            0 <= lz < 16,
            0 <= y < 256,
        ensures
            self.in_bounds(self.origin_x(c) + lx, y, self.origin_z(c) + lz),
            self.chunk_of(self.origin_x(c) + lx, self.origin_z(c) + lz) == c,
            (self.origin_x(c) + lx) % 16 == lx,
            (self.origin_z(c) + lz) % 16 == lz,
    {
        let w = self.chunks_x();
        let d = self.chunks_z();
        self.lemma_counts_nonneg();
        assert(w > 0) by (nonlinear_arith)
            requires
                0 <= c < w * d,
                w >= 0,
                d >= 0,
        ;
        lemma_fundamental_div_mod(c, w);
        let cx = c % w;
        let cz = c / w;
        assert(0 <= cx < w);
        assert(0 <= cz < d) by (nonlinear_arith)
            requires
                c == w * cz + cx,
                0 <= cx < w,
                0 <= c < w * d,
        ;
        let x = cx * 16 + lx;
        let z = cz * 16 + lz;
        assert(x / 16 == cx && x % 16 == lx);
        assert(z / 16 == cz && z % 16 == lz);
        assert(c == cz * w + cx) by (nonlinear_arith)
            requires
                c == w * cz + cx,
        ;
    }

    /// Distinct blocks in bounds are stored at distinct places.
    pub proof fn lemma_index_injective(&self, x1: int, y1: int, z1: int, x2: int, y2: int, z2: int)
        requires
            self.in_bounds(x1, y1, z1),
            self.in_bounds(x2, y2, z2),
            self.block_index(x1, y1, z1) == self.block_index(x2, y2, z2),
        ensures
            x1 == x2 && y1 == y2 && z1 == z2,
    {
        self.lemma_position(x1, y1, z1);
        self.lemma_position(x2, y2, z2);
        let c1 = self.chunk_of(x1, z1);
        let c2 = self.chunk_of(x2, z2);
        let l1 = y1 * 256 + (z1 % 16) * 16 + x1 % 16;
        let l2 = y2 * 256 + (z2 % 16) * 16 + x2 % 16;
        assert(c1 == c2 && l1 == l2);
        assert(x1 % 16 == x2 % 16);
        assert(z1 % 16 == z2 % 16);
        assert(y1 == y2);
    }

    /// A world of the given number of chunks along x and z.
    pub fn new(width: usize, depth: usize) -> (r: Self)
        requires
            width * depth * CHUNK_VOLUME <= usize::MAX,
            width * CHUNK_WIDTH <= usize::MAX,
            depth * CHUNK_DEPTH <= usize::MAX,
        ensures
            r.chunks_x() == width,
            r.chunks_z() == depth,
            r.wf(),
    {
        WorldSize { width, depth }
    }

    /// Chunks along x.
    pub fn width(&self) -> (r: usize)
        ensures
            r == self.chunks_x(),
    {
        self.width
    }

    /// Chunks along z.
    pub fn depth(&self) -> (r: usize)
        ensures
            r == self.chunks_z(),
    {
        self.depth
    }

    /// Blocks along x.
    pub fn world_width(&self) -> (r: usize)
        requires
            self.wf(),
        ensures
            r == self.block_width(),
    {
        self.width * CHUNK_WIDTH
    }

    /// Blocks along z.
    pub fn world_depth(&self) -> (r: usize)
        requires
            self.wf(),
        ensures
            r == self.block_depth(),
    {
        self.depth * CHUNK_DEPTH
    }

    /// Number of chunks.
    pub fn chunk_count_exec(&self) -> (r: usize)
        requires
            self.wf(),
        ensures
            r == self.chunk_count(),
    {
        proof {
            self.lemma_counts_nonneg();
        }
        self.width * self.depth
    }

    /// Number of blocks.
    pub fn world_volume(&self) -> (r: usize)
        requires
            self.wf(),
        ensures
            r == self.volume(),
    {
        proof {
            self.lemma_counts_nonneg();
        }
        self.width * self.depth * CHUNK_VOLUME
    }

    pub fn is_position_in_bounds(&self, x: usize, y: usize, z: usize) -> (r: bool)
        requires
            self.wf(),
        ensures
            r == self.in_bounds(x as int, y as int, z as int),
    {
        y < CHUNK_HEIGHT && x < self.world_width() && z < self.world_depth()
    }

    /// The index of the chunk that holds column (x, z).
    pub fn block_pos_into_chunk_idx(&self, x: usize, z: usize) -> (r: usize)
        requires
            self.wf(),
            self.in_bounds(x as int, 0, z as int),
        ensures
            r == self.chunk_of(x as int, z as int),
            r < self.chunk_count(),
    {
        proof {
            self.lemma_position(x as int, 0, z as int);
        }
        (z / CHUNK_DEPTH) * self.width + x / CHUNK_WIDTH
    }

    /// Where block (x, y, z) is stored.
    pub fn block_pos_into_world_idx(&self, x: usize, y: usize, z: usize) -> (r: usize)
        requires
            self.wf(),
            self.in_bounds(x as int, y as int, z as int),
        ensures
            r == self.block_index(x as int, y as int, z as int),
            r < self.volume(),
    {
        proof {
            self.lemma_position(x as int, y as int, z as int);
        }
        let c = self.block_pos_into_chunk_idx(x, z);
        c * CHUNK_VOLUME + y * 256 + (z % CHUNK_DEPTH) * 16 + x % CHUNK_WIDTH
    }

    /// The coordinates of block (x, y, z) inside its chunk.
    pub fn absolute_block_to_chunk_block_position(x: usize, y: usize, z: usize) -> (r: (u8, u8, u8))
        requires
            y < CHUNK_HEIGHT,
        ensures
            r.0 == x as int % 16,
            r.1 == y,
            r.2 == z as int % 16,
    {
        ((x % CHUNK_WIDTH) as u8, y as u8, (z % CHUNK_DEPTH) as u8)
    }
}

} // verus!
