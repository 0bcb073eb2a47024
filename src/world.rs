use crate::block::Block;
use crate::chunk_faces::{
    lemma_sift_contains, retextured, retextured_all, retextured_at, sift, ChunkFaces,
};
use crate::face::Face;
use crate::ray::{ray_cast, ray_path, voxel_int, within_ray_limits, Point, Voxel};
use crate::orientation::{opposite_of, orientation_code, step_toward, FaceOrientation};
use crate::world_blocks::WorldBlocks;
use crate::world_size::{WorldSize, CHUNK_HEIGHT};
use vstd::prelude::*;

verus! {

/// The absolute position of the block that owns face f of chunk c.
pub open spec fn face_pos(s: WorldSize, c: int, f: Face) -> (int, int, int) {
    (s.origin_x(c) + f.coords.d0, f.coords.d1 as int, s.origin_z(c) + f.coords.d2)
}

/// The block at (x, y, z) shows a face toward o: it is not air, and the cell next to it
/// that way lies inside the world and lets faces be seen. No face ever points out of the world.
pub open spec fn face_visible(wb: WorldBlocks, x: int, y: int, z: int, o: FaceOrientation) -> bool {
    let n = step_toward(x, y, z, o);
    &&& wb.in_bounds(x, y, z)
    &&& wb.in_bounds(n.0, n.1, n.2)
    &&& wb.block_at(x, y, z).spec_show_my_faces()
    &&& wb.block_at(n.0, n.1, n.2).spec_show_neighboring_faces()
}

/// Face f belongs in list t (transparent or opaque) of chunk c: its block shows a face that
/// way, the block's class is t, and f carries the block's texture for that side.
pub open spec fn expected_face(wb: WorldBlocks, c: int, t: bool, f: Face) -> bool {
    let q = face_pos(wb.spec_size(), c, f);
    let b = wb.block_at(q.0, q.1, q.2);
    &&& f.wf()
    &&& face_visible(wb, q.0, q.1, q.2, f.spec_orientation())
    &&& b.spec_is_transparent() == t
    &&& f.tex_id == b.spec_texture(f.spec_orientation())
}

/// Every list of every chunk holds exactly the faces that the blocks call for.
pub open spec fn chunks_match(chunks: Seq<ChunkFaces>, wb: WorldBlocks) -> bool {
    forall|c: int, t: bool, f: Face|
        0 <= c < chunks.len() ==> (#[trigger] chunks[c].faces(t).contains(f) <==> expected_face(
            wb,
            c,
            t,
            f,
        ))
}

/// A well-formed face of chunk c belongs to a block in bounds, inside chunk c, at the face's local offset.
pub proof fn lemma_face_pos(s: WorldSize, c: int, f: Face)
    requires
        s.wf(),
        0 <= c < s.chunk_count(),
        f.wf(),
    ensures
        s.in_bounds(face_pos(s, c, f).0, face_pos(s, c, f).1, face_pos(s, c, f).2),
        s.chunk_of(face_pos(s, c, f).0, face_pos(s, c, f).2) == c,
        face_pos(s, c, f).0 % 16 == f.coords.d0,
        face_pos(s, c, f).2 % 16 == f.coords.d2,
{
    s.lemma_chunk_cell(c, f.coords.d0 as int, f.coords.d1 as int, f.coords.d2 as int);
}

/// A face of the chunk holding q sits at q exactly when its local coordinates are q's.
pub proof fn lemma_local_coords(s: WorldSize, f: Face, x: int, y: int, z: int)
    requires
        s.wf(),
        s.in_bounds(x, y, z),
        f.wf(),
    ensures
        f.at_coords((x % 16) as u8, y as u8, (z % 16) as u8) <==> face_pos(s, s.chunk_of(x, z), f)
            == (x, y, z),
{
    s.lemma_position(x, y, z);
    lemma_face_pos(s, s.chunk_of(x, z), f);
}

/// The world: its blocks, and for each chunk the faces that can be seen.
pub struct World {
    blocks: WorldBlocks,
    chunks: Vec<ChunkFaces>,
}

impl World {
    pub closed spec fn blocks_view(&self) -> WorldBlocks {
        self.blocks
    }

    pub closed spec fn chunks_view(&self) -> Seq<ChunkFaces> {
        self.chunks@
    }

    pub open spec fn size_view(&self) -> WorldSize {
        self.blocks_view().spec_size()
    }

    /// The blocks and chunks are well formed, whatever the face lists hold.
    pub open spec fn structure_wf(&self) -> bool {
        &&& self.blocks_view().wf()
        &&& self.chunks_view().len() == self.size_view().chunk_count()
        &&& forall|c: int| 0 <= c < self.chunks_view().len() ==> (#[trigger] self.chunks_view()[c]).wf()
    }

    /// The face lists hold exactly the faces that the blocks call for, no key twice.
    pub open spec fn wf(&self) -> bool {
        &&& self.structure_wf()
        &&& chunks_match(self.chunks_view(), self.blocks_view())
    }

    /// The set of faces in list t of chunk c.
    pub open spec fn face_set(&self, c: int, t: bool) -> Set<Face> {
        self.chunks_view()[c].faces(t).to_set()
    }

    /// Blocks as in `old`, with b at (x, y, z).
    pub open spec fn blocks_after_set(old: WorldBlocks, x: int, y: int, z: int, b: Block) -> Seq<Block> {
        old.cells().update(old.spec_size().block_index(x, y, z), b)
    }
}

/// Face lists that meet the invariant are fixed by the blocks: the faces kept up to date
/// by any sequence of block updates are, as sets, the faces a full rebuild computes.
pub proof fn lemma_faces_determined_by_blocks(w1: World, w2: World)
    requires
        w1.wf(),
        w2.wf(),
        w1.blocks_view().same_blocks(&w2.blocks_view()),
    ensures
        w1.chunks_view().len() == w2.chunks_view().len(),
        forall|c: int, t: bool|
            0 <= c < w1.chunks_view().len() ==> #[trigger] w1.face_set(c, t) == w2.face_set(c, t),
{
    assert forall|c: int, t: bool| 0 <= c < w1.chunks_view().len() implies #[trigger] w1.face_set(
        c,
        t,
    ) == w2.face_set(c, t) by {
        assert forall|f: Face| w1.face_set(c, t).contains(f) <==> w2.face_set(c, t).contains(f) by {
            assert(w1.chunks_view()[c].faces(t).contains(f) <==> expected_face(
                w1.blocks_view(),
                c,
                t,
                f,
            ));
            assert(w2.chunks_view()[c].faces(t).contains(f) <==> expected_face(
                w2.blocks_view(),
                c,
                t,
                f,
            ));
        }
        assert(w1.face_set(c, t) =~= w2.face_set(c, t));
    }
}

/// In a well-formed world no key appears twice among the faces of a chunk: not within one
/// list, and not in both lists.
pub proof fn lemma_keys_unique_in_chunk(w: World, c: int)
    requires
        w.wf(),
        0 <= c < w.chunks_view().len(),
    ensures
        crate::chunk_faces::keys_unique(w.chunks_view()[c].faces(true)),
        crate::chunk_faces::keys_unique(w.chunks_view()[c].faces(false)),
        forall|i: int, j: int|
            0 <= i < w.chunks_view()[c].faces(true).len() && 0 <= j < w.chunks_view()[c].faces(
                false,
            ).len() ==> #[trigger] w.chunks_view()[c].faces(true)[i].key()
                != #[trigger] w.chunks_view()[c].faces(false)[j].key(),
{
    let ch = w.chunks_view()[c];
    assert forall|i: int, j: int|
        0 <= i < ch.faces(true).len() && 0 <= j < ch.faces(false).len() implies #[trigger] ch.faces(
        true,
    )[i].key() != #[trigger] ch.faces(false)[j].key() by {
        let a = ch.faces(true)[i];
        let b = ch.faces(false)[j];
        assert(ch.faces(true).contains(a));
        assert(ch.faces(false).contains(b));
    }
}

/// No face of a well-formed world points out of the world, whatever its block.
pub proof fn lemma_no_face_toward_outside(w: World, c: int, t: bool, f: Face)
    requires
        w.wf(),
        0 <= c < w.chunks_view().len(),
        w.chunks_view()[c].faces(t).contains(f),
    ensures
        ({
            let q = face_pos(w.size_view(), c, f);
            let n = step_toward(q.0, q.1, q.2, f.spec_orientation());
            w.size_view().in_bounds(n.0, n.1, n.2)
        }),
{
}

/// wb1 differs from wb0 at most in the block at p.
pub open spec fn block_changed_at(wb0: WorldBlocks, wb1: WorldBlocks, p: (int, int, int)) -> bool {
    &&& wb0.wf()
    &&& wb1.wf()
    &&& wb0.spec_size() == wb1.spec_size()
    &&& wb0.in_bounds(p.0, p.1, p.2)
    &&& forall|x: int, y: int, z: int|
        wb0.in_bounds(x, y, z) && (x, y, z) != p ==> #[trigger] wb1.block_at(x, y, z) == wb0.block_at(
            x,
            y,
            z,
        )
}

/// Where the face lists stand while the faces around p are patched after the block at p
/// changed from its state in wb0 to its state in wb1: the neighbours' faces toward p are
/// done for the directions with codes below kn, p's own new faces for codes below ks.
pub open spec fn patched_face(
    wb0: WorldBlocks,
    wb1: WorldBlocks,
    p: (int, int, int),
    kn: int,
    ks: int,
    c: int,
    t: bool,
    f: Face,
) -> bool {
    let q = face_pos(wb1.spec_size(), c, f);
    let o = f.spec_orientation();
    let was_my = wb0.block_at(p.0, p.1, p.2).spec_show_my_faces();
    let is_my = wb1.block_at(p.0, p.1, p.2).spec_show_my_faces();
    if q == p && !was_my && is_my && orientation_code(o) >= ks {
        false
    } else if step_toward(q.0, q.1, q.2, o) == p && orientation_code(opposite_of(o)) >= kn {
        expected_face(wb0, c, t, f)
    } else {
        expected_face(wb1, c, t, f)
    }
}

pub open spec fn chunks_patched(
    chunks: Seq<ChunkFaces>,
    wb0: WorldBlocks,
    wb1: WorldBlocks,
    p: (int, int, int),
    kn: int,
    ks: int,
) -> bool {
    forall|c: int, t: bool, f: Face|
        0 <= c < chunks.len() ==> (#[trigger] chunks[c].faces(t).contains(f) <==> patched_face(
            wb0,
            wb1,
            p,
            kn,
            ks,
            c,
            t,
            f,
        ))
}

/// A face whose block and whose neighbour are not at p is called for alike before and after.
proof fn lemma_expected_unchanged(
    wb0: WorldBlocks,
    wb1: WorldBlocks,
    p: (int, int, int),
    c: int,
    t: bool,
    f: Face,
)
    requires
        block_changed_at(wb0, wb1, p),
        0 <= c < wb0.spec_size().chunk_count(),
        f.wf() ==> face_pos(wb0.spec_size(), c, f) != p,
        f.wf() ==> ({
            let q = face_pos(wb0.spec_size(), c, f);
            step_toward(q.0, q.1, q.2, f.spec_orientation()) != p
        }),
    ensures
        expected_face(wb0, c, t, f) == expected_face(wb1, c, t, f),
{
    if f.wf() {
        let q = face_pos(wb0.spec_size(), c, f);
        let n = step_toward(q.0, q.1, q.2, f.spec_orientation());
        lemma_face_pos(wb0.spec_size(), c, f);
        assert(wb1.block_at(q.0, q.1, q.2) == wb0.block_at(q.0, q.1, q.2));
        if wb0.in_bounds(n.0, n.1, n.2) {
            assert(wb1.block_at(n.0, n.1, n.2) == wb0.block_at(n.0, n.1, n.2));
        }
    }
}

/// Facts about the faces of a chunk once the faces of the block at p were brought up to date:
/// the lists are as patched with no direction done yet.
proof fn lemma_own_faces_patched(
    old_chunks: Seq<ChunkFaces>,
    new_chunks: Seq<ChunkFaces>,
    wb0: WorldBlocks,
    wb1: WorldBlocks,
    p: (int, int, int),
)
    requires
        block_changed_at(wb0, wb1, p),
        chunks_match(old_chunks, wb0),
        old_chunks.len() == wb0.spec_size().chunk_count(),
        new_chunks.len() == old_chunks.len(),
        forall|c: int, t: bool|
            0 <= c < old_chunks.len() && c != wb0.spec_size().chunk_of(p.0, p.2) ==> #[trigger] new_chunks[c].faces(t)
                == old_chunks[c].faces(t),
        forall|t: bool, f: Face|
            !f.at_coords((p.0 % 16) as u8, p.1 as u8, (p.2 % 16) as u8) ==> (
            #[trigger] new_chunks[wb0.spec_size().chunk_of(p.0, p.2)].faces(t).contains(f)
                <==> old_chunks[wb0.spec_size().chunk_of(p.0, p.2)].faces(t).contains(f)),
        forall|t: bool, f: Face|
            f.at_coords((p.0 % 16) as u8, p.1 as u8, (p.2 % 16) as u8) ==> (
            #[trigger] new_chunks[wb0.spec_size().chunk_of(p.0, p.2)].faces(t).contains(f)
                <==> (wb0.block_at(p.0, p.1, p.2).spec_show_my_faces() && wb1.block_at(
                p.0,
                p.1,
                p.2,
            ).spec_show_my_faces() && expected_face(
                wb1,
                wb0.spec_size().chunk_of(p.0, p.2),
                t,
                f,
            ))),
    ensures
        chunks_patched(new_chunks, wb0, wb1, p, 0, 0),
{
    let s = wb0.spec_size();
    let cp = s.chunk_of(p.0, p.2);
    s.lemma_position(p.0, p.1, p.2);
    assert forall|c: int, t: bool, f: Face| 0 <= c < new_chunks.len() implies (
    #[trigger] new_chunks[c].faces(t).contains(f) <==> patched_face(wb0, wb1, p, 0, 0, c, t, f)) by {
        assert(old_chunks[c].faces(t).contains(f) <==> expected_face(wb0, c, t, f));
        if f.wf() {
            lemma_face_pos(s, c, f);
            lemma_local_coords(s, f, p.0, p.1, p.2);
            let q = face_pos(s, c, f);
            if q == p {
                assert(c == cp);
            } else {
                let o = f.spec_orientation();
                if step_toward(q.0, q.1, q.2, o) != p {
                    lemma_expected_unchanged(wb0, wb1, p, c, t, f);
                }
                if c == cp {
                    assert(!f.at_coords((p.0 % 16) as u8, p.1 as u8, (p.2 % 16) as u8));
                }
            }
        } else if c == cp {
            if f.at_coords((p.0 % 16) as u8, p.1 as u8, (p.2 % 16) as u8) {
            }
        }
    }
}

impl World {
    /// A world of the given size, all air, with no faces.
    pub fn new(size: WorldSize) -> (r: Self)
        requires
            size.wf(),
        ensures
            r.wf(),
            r.size_view() == size,
            forall|x: int, y: int, z: int| #[trigger]
                size.in_bounds(x, y, z) ==> r.blocks_view().block_at(x, y, z).spec_is_air(),
    {
        let blocks = WorldBlocks::new(size);
        let n = size.chunk_count_exec();
        let mut chunks: Vec<ChunkFaces> = Vec::new();
        let mut i: usize = 0;
        while i < n
            invariant
                i <= n,
                n == size.chunk_count(),
                chunks@.len() == i,
                forall|c: int| 0 <= c < i ==> (#[trigger] chunks@[c]).wf() && chunks@[c].faces(true)
                    == Seq::<Face>::empty() && chunks@[c].faces(false) == Seq::<Face>::empty(),
            decreases n - i,
        {
            chunks.push(ChunkFaces::new());
            i += 1;
        }
        let r = World { blocks, chunks };
        assert forall|c: int, t: bool, f: Face| 0 <= c < r.chunks_view().len() implies (
        #[trigger] r.chunks_view()[c].faces(t).contains(f) <==> expected_face(
            r.blocks_view(),
            c,
            t,
            f,
        )) by {
            if f.wf() {
                lemma_face_pos(size, c, f);
            }
        }
        assert forall|x: int, y: int, z: int| #[trigger]
            size.in_bounds(x, y, z) implies r.blocks_view().block_at(x, y, z).spec_is_air() by {
            assert(r.blocks_view().in_bounds(x, y, z));
        }
        r
    }

    pub fn blocks(&self) -> (r: &WorldBlocks)
        ensures
            *r == self.blocks_view(),
    {
        &self.blocks
    }

    pub fn size(&self) -> (r: &WorldSize)
        ensures
            *r == self.size_view(),
    {
        self.blocks.size()
    }

    pub fn get_block(&self, x: usize, y: usize, z: usize) -> (r: &Block)
        requires
            self.structure_wf(),
            self.size_view().in_bounds(x as int, y as int, z as int),
        ensures
            *r == self.blocks_view().block_at(x as int, y as int, z as int),
    {
        self.blocks.get_block(x, y, z)
    }

    pub fn is_position_in_bounds(&self, x: usize, y: usize, z: usize) -> (r: bool)
        requires
            self.structure_wf(),
        ensures
            r == self.size_view().in_bounds(x as int, y as int, z as int),
    {
        self.blocks.size().is_position_in_bounds(x, y, z)
    }

    /// The chunk with the given index.
    pub fn chunk(&self, chunk_idx: usize) -> (r: &ChunkFaces)
        requires
            chunk_idx < self.chunks_view().len(),
        ensures
            *r == self.chunks_view()[chunk_idx as int],
    {
        &self.chunks[chunk_idx]
    }

    pub fn chunk_count(&self) -> (r: usize)
        ensures
            r == self.chunks_view().len(),
    {
        self.chunks.len()
    }

    /// The chunk holding column (x, z).
    pub fn get_chunk(&self, x: usize, z: usize) -> (r: &ChunkFaces)
        requires
            self.structure_wf(),
            self.size_view().in_bounds(x as int, 0, z as int),
        ensures
            *r == self.chunks_view()[self.size_view().chunk_of(x as int, z as int)],
    {
        let i = self.block_pos_into_chunk_idx(x, z);
        &self.chunks[i]
    }

    /// The chunk coordinates (along x, along z) of the chunk with the given index.
    pub fn chunk_idx_into_chunk_pos(&self, chunk_idx: usize) -> (r: (usize, usize))
        requires
            self.structure_wf(),
            chunk_idx < self.chunks_view().len(),
        ensures
            r.0 * 16 == self.size_view().origin_x(chunk_idx as int),
            r.1 * 16 == self.size_view().origin_z(chunk_idx as int),
            r.0 < self.size_view().chunks_x(),
    {
        let w = self.blocks.size().width();
        proof {
            self.size_view().lemma_chunk_cell(chunk_idx as int, 0, 0, 0);
            assert(w > 0) by (nonlinear_arith)
                requires
                    chunk_idx < w * self.size_view().chunks_z(),
                    w >= 0,
                    self.size_view().chunks_z() >= 0,
            ;
        }
        (chunk_idx % w, chunk_idx / w)
    }

    /// The index of the chunk at chunk coordinates (x, z).
    pub fn chunk_pos_into_chunk_idx(&self, x: usize, z: usize) -> (r: usize)
        requires
            self.structure_wf(),
            x < self.size_view().chunks_x(),
            z < self.size_view().chunks_z(),
        ensures
            r == self.size_view().chunk_of(x * 16, z * 16),
            r < self.chunks_view().len(),
    {
        proof {
            self.size_view().lemma_position(x * 16, 0, z * 16);
        }
        z * self.blocks.size().width() + x
    }

    /// The index of the chunk holding column (x, z).
    pub fn block_pos_into_chunk_idx(&self, x: usize, z: usize) -> (r: usize)
        requires
            self.structure_wf(),
            self.size_view().in_bounds(x as int, 0, z as int),
        ensures
            r == self.size_view().chunk_of(x as int, z as int),
            r < self.chunks_view().len(),
    {
        self.blocks.size().block_pos_into_chunk_idx(x, z)
    }
}

/// While the block at p shows faces before and after a change, each of its faces is visible
/// before exactly when it is visible after.
proof fn lemma_own_visibility(wb0: WorldBlocks, wb1: WorldBlocks, p: (int, int, int), o: FaceOrientation)
    requires
        block_changed_at(wb0, wb1, p),
        wb0.block_at(p.0, p.1, p.2).spec_show_my_faces(),
        wb1.block_at(p.0, p.1, p.2).spec_show_my_faces(),
    ensures
        face_visible(wb0, p.0, p.1, p.2, o) == face_visible(wb1, p.0, p.1, p.2, o),
{
    let n = step_toward(p.0, p.1, p.2, o);
    if wb0.in_bounds(n.0, n.1, n.2) {
        assert(n != p);
        assert(wb1.block_at(n.0, n.1, n.2) == wb0.block_at(n.0, n.1, n.2));
    }
}

/// The faces of the block at p, retextured in place or moved to the other list with new
/// textures, are those that the new block calls for.
proof fn lemma_retextured_own_faces(
    old_list: Seq<Face>,
    moved: Seq<Face>,
    wb0: WorldBlocks,
    wb1: WorldBlocks,
    p: (int, int, int),
    t: bool,
    f: Face,
)
    requires
        block_changed_at(wb0, wb1, p),
        wb0.block_at(p.0, p.1, p.2).spec_show_my_faces(),
        wb1.block_at(p.0, p.1, p.2).spec_show_my_faces(),
        t == wb1.block_at(p.0, p.1, p.2).spec_is_transparent(),
        f.at_coords((p.0 % 16) as u8, p.1 as u8, (p.2 % 16) as u8),
        forall|g: Face| #[trigger]
            old_list.contains(g) <==> expected_face(
                wb0,
                wb0.spec_size().chunk_of(p.0, p.2),
                wb0.block_at(p.0, p.1, p.2).spec_is_transparent(),
                g,
            ),
        moved =~= retextured_at(old_list, (p.0 % 16) as u8, p.1 as u8, (p.2 % 16) as u8, wb1.block_at(p.0, p.1, p.2))
            || moved =~= retextured_all(
            sift(old_list, (p.0 % 16) as u8, p.1 as u8, (p.2 % 16) as u8, None, true),
            wb1.block_at(p.0, p.1, p.2),
        ),
    ensures
        moved.contains(f) <==> expected_face(wb1, wb0.spec_size().chunk_of(p.0, p.2), t, f),
{
    let s = wb0.spec_size();
    let cp = s.chunk_of(p.0, p.2);
    let (lx, ly, lz) = ((p.0 % 16) as u8, p.1 as u8, (p.2 % 16) as u8);
    let was = wb0.block_at(p.0, p.1, p.2);
    let now = wb1.block_at(p.0, p.1, p.2);
    let o = f.spec_orientation();
    let is_map = moved =~= retextured_at(old_list, lx, ly, lz, now);
    let picked = sift(old_list, lx, ly, lz, None, true);
    lemma_sift_contains(old_list, lx, ly, lz, None, true);
    s.lemma_position(p.0, p.1, p.2);
    if moved.contains(f) {
        let i = choose|i: int| 0 <= i < moved.len() && moved[i] == f;
        let g = if is_map {
            old_list[i]
        } else {
            picked[i]
        };
        if !is_map {
            assert(picked.contains(g));
        }
        assert(old_list.contains(g));
        assert(g.at_coords(lx, ly, lz));
        assert(f == retextured(g, now));
        assert(g.wf());
        lemma_local_coords(s, g, p.0, p.1, p.2);
        lemma_own_visibility(wb0, wb1, p, g.spec_orientation());
        lemma_local_coords(s, f, p.0, p.1, p.2);
    }
    if expected_face(wb1, cp, t, f) {
        let g = f.with_tex(was.spec_texture(o));
        lemma_local_coords(s, f, p.0, p.1, p.2);
        lemma_local_coords(s, g, p.0, p.1, p.2);
        lemma_own_visibility(wb0, wb1, p, o);
        assert(expected_face(wb0, cp, was.spec_is_transparent(), g));
        assert(old_list.contains(g));
        let i = choose|i: int| 0 <= i < old_list.len() && old_list[i] == g;
        if is_map {
            assert(moved[i] == f);
        } else {
            assert(picked.contains(g));
            let j = choose|j: int| 0 <= j < picked.len() && picked[j] == g;
            assert(moved[j] == f);
        }
    }
}

impl World {
    /// Brings the faces of the block at p itself up to date after it changed from `was`
    /// (its state in wb0) to `now`: they are retextured, moved to the other list, or removed.
    fn patch_own_faces(
        &mut self,
        x: usize,
        y: usize,
        z: usize,
        was: Block,
        now: Block,
        Ghost(wb0): Ghost<WorldBlocks>,
    )
        requires
            old(self).structure_wf(),
            block_changed_at(wb0, old(self).blocks_view(), (x as int, y as int, z as int)),
            chunks_match(old(self).chunks_view(), wb0),
            was == wb0.block_at(x as int, y as int, z as int),
            now == old(self).blocks_view().block_at(x as int, y as int, z as int),
        ensures
            final(self).structure_wf(),
            final(self).blocks_view() == old(self).blocks_view(),
            chunks_patched(
                final(self).chunks_view(),
                wb0,
                old(self).blocks_view(),
                (x as int, y as int, z as int),
                0,
                0,
            ),
    {
        let ghost p = (x as int, y as int, z as int);
        let ghost wb1 = self.blocks_view();
        let ghost old_chunks = self.chunks_view();
        let ghost s = wb1.spec_size();
        let cp = self.block_pos_into_chunk_idx(x, z);
        let (lx, ly, lz) = WorldSize::absolute_block_to_chunk_block_position(x, y, z);
        proof {
            s.lemma_position(p.0, p.1, p.2);
            assert(was.is_known() && now.is_known());
        }
        let ghost c0 = old_chunks[cp as int];
        if was.show_my_faces() {
            if now.show_my_faces() {
                if was.is_transparent() == now.is_transparent() {
                    self.chunks[cp].update_textures(lx, ly, lz, now);
                } else {
                    proof {
                        assert forall|i: int|
                            0 <= i < c0.faces(now.spec_is_transparent()).len() implies !(
                            #[trigger] c0.faces(now.spec_is_transparent())[i]).at_coords(lx, ly, lz) by {
                            let g = c0.faces(now.spec_is_transparent())[i];
                            assert(c0.faces(now.spec_is_transparent()).contains(g));
                            lemma_local_coords(s, g, p.0, p.1, p.2);
                        }
                    }
                    self.chunks[cp].change_textures(lx, ly, lz, now);
                }
            } else if was.is_transparent() {
                self.chunks[cp].remove_transparent(lx, ly, lz);
            } else {
                self.chunks[cp].remove_opaque(lx, ly, lz);
            }
        }
        proof {
            let c1 = self.chunks_view()[cp as int];
            let tw = was.spec_is_transparent();
            let tn = now.spec_is_transparent();
            assert forall|g: Face| #[trigger] c0.faces(tw).contains(g) <==> expected_face(wb0, cp as int, tw, g) by {}
            assert forall|t: bool, f: Face|
                !f.at_coords(lx, ly, lz) implies (#[trigger] self.chunks_view()[cp as int].faces(
                t,
            ).contains(f) <==> old_chunks[cp as int].faces(t).contains(f)) by {
                lemma_sift_contains(c0.faces(t), lx, ly, lz, None, false);
                lemma_sift_contains(c0.faces(!t), lx, ly, lz, None, true);
                if was.spec_show_my_faces() && now.spec_show_my_faces() && tw == tn && t == tn {
                    let m = retextured_at(c0.faces(t), lx, ly, lz, now);
                    if m.contains(f) {
                        let i = choose|i: int| 0 <= i < m.len() && m[i] == f;
                        assert(c0.faces(t)[i] == f);
                    }
                    if c0.faces(t).contains(f) {
                        let i = choose|i: int| 0 <= i < c0.faces(t).len() && c0.faces(t)[i] == f;
                        assert(m[i] == f);
                    }
                }
                if was.spec_show_my_faces() && now.spec_show_my_faces() && tw != tn && t == tn {
                    let old_t = c0.faces(t);
                    let m = retextured_all(sift(c0.faces(!t), lx, ly, lz, None, true), now);
                    let picked = sift(c0.faces(!t), lx, ly, lz, None, true);
                    if (old_t + m).contains(f) {
                        let i = choose|i: int| 0 <= i < (old_t + m).len() && (old_t + m)[i] == f;
                        if i >= old_t.len() {
                            assert(picked.contains(picked[i - old_t.len()]));
                            assert(false);
                        }
                        assert(old_t[i] == f);
                    }
                    if old_t.contains(f) {
                        let i = choose|i: int| 0 <= i < old_t.len() && old_t[i] == f;
                        assert((old_t + m)[i] == f);
                    }
                }
            }
            assert forall|t: bool, f: Face|
                f.at_coords(lx, ly, lz) implies (#[trigger] self.chunks_view()[cp as int].faces(
                t,
            ).contains(f) <==> (was.spec_show_my_faces() && now.spec_show_my_faces() && expected_face(
                wb1,
                cp as int,
                t,
                f,
            ))) by {
                lemma_sift_contains(c0.faces(t), lx, ly, lz, None, false);
                assert(c0.faces(t).contains(f) <==> expected_face(wb0, cp as int, t, f));
                if f.wf() {
                    lemma_local_coords(s, f, p.0, p.1, p.2);
                }
                if was.spec_show_my_faces() && now.spec_show_my_faces() && t == tn {
                    let m = self.chunks_view()[cp as int].faces(t);
                    if tw == tn {
                        lemma_retextured_own_faces(c0.faces(tw), m, wb0, wb1, p, t, f);
                    } else {
                        let old_t = c0.faces(t);
                        let r = retextured_all(sift(c0.faces(!t), lx, ly, lz, None, true), now);
                        lemma_retextured_own_faces(c0.faces(tw), r, wb0, wb1, p, t, f);
                        if old_t.contains(f) {
                            assert(false);
                        }
                        if m.contains(f) {
                            let i = choose|i: int| 0 <= i < m.len() && m[i] == f;
                            if i < old_t.len() {
                                assert(old_t[i] == f);
                            } else {
                                assert(r[i - old_t.len()] == f);
                            }
                        }
                        if r.contains(f) {
                            let i = choose|i: int| 0 <= i < r.len() && r[i] == f;
                            assert(m[i + old_t.len()] == f);
                        }
                    }
                }
            }
            lemma_own_faces_patched(old_chunks, self.chunks_view(), wb0, wb1, p);
        }
    }
}

/// Two faces with one key and one texture are one face.
proof fn lemma_face_ext(f: Face, g: Face)
    requires
        f.key() == g.key(),
        f.tex_id == g.tex_id,
    ensures
        f == g,
{
}

/// Moving one step along o and one step back returns to the start, and the only direction
/// that leads from step_toward(p, o) back to p is the opposite of o.
proof fn lemma_step_back(q: (int, int, int), p: (int, int, int), o: FaceOrientation, of: FaceOrientation)
    ensures
        step_toward(p.0, p.1, p.2, o) != p,
        ({
            let n = step_toward(p.0, p.1, p.2, o);
            step_toward(n.0, n.1, n.2, opposite_of(o)) == p
        }),
        step_toward(q.0, q.1, q.2, of) == p && orientation_code(opposite_of(of)) == orientation_code(o)
            ==> of == opposite_of(o) && q == step_toward(p.0, p.1, p.2, o),
{
}

/// Once the faces toward p of the neighbour in direction o are settled, that direction is done
/// for neighbours.
proof fn lemma_neighbour_patched(
    old_chunks: Seq<ChunkFaces>,
    new_chunks: Seq<ChunkFaces>,
    wb0: WorldBlocks,
    wb1: WorldBlocks,
    p: (int, int, int),
    o: FaceOrientation,
    ks: int,
)
    requires
        block_changed_at(wb0, wb1, p),
        old_chunks.len() == wb0.spec_size().chunk_count(),
        new_chunks.len() == old_chunks.len(),
        chunks_patched(old_chunks, wb0, wb1, p, orientation_code(o) as int, ks),
        ({
            let n = step_toward(p.0, p.1, p.2, o);
            !wb0.in_bounds(n.0, n.1, n.2) ==> forall|c: int, t: bool|
                0 <= c < old_chunks.len() ==> #[trigger] new_chunks[c].faces(t) == old_chunks[c].faces(t)
        }),
        ({
            let n = step_toward(p.0, p.1, p.2, o);
            let cn = wb0.spec_size().chunk_of(n.0, n.2);
            let key = ((n.0 % 16) as u8, n.1 as u8, (n.2 % 16) as u8, orientation_code(opposite_of(o)));
            wb0.in_bounds(n.0, n.1, n.2) ==> {
                &&& forall|c: int, t: bool, f: Face|
                    0 <= c < old_chunks.len() && !(c == cn && f.key() == key) ==> (
                    #[trigger] new_chunks[c].faces(t).contains(f) <==> old_chunks[c].faces(t).contains(f))
                &&& forall|t: bool, f: Face|
                    f.key() == key ==> (#[trigger] new_chunks[cn].faces(t).contains(f) <==> expected_face(
                        wb1,
                        cn,
                        t,
                        f,
                    ))
            }
        }),
    ensures
        chunks_patched(new_chunks, wb0, wb1, p, orientation_code(o) + 1, ks),
{
    let s = wb0.spec_size();
    let n = step_toward(p.0, p.1, p.2, o);
    let cn = s.chunk_of(n.0, n.2);
    let key = ((n.0 % 16) as u8, n.1 as u8, (n.2 % 16) as u8, orientation_code(opposite_of(o)));
    let k = orientation_code(o) as int;
    assert forall|c: int, t: bool, f: Face| 0 <= c < new_chunks.len() implies (
    #[trigger] new_chunks[c].faces(t).contains(f) <==> patched_face(wb0, wb1, p, k + 1, ks, c, t, f)) by {
        assert(old_chunks[c].faces(t).contains(f) <==> patched_face(wb0, wb1, p, k, ks, c, t, f));
        if f.wf() {
            let q = face_pos(s, c, f);
            lemma_face_pos(s, c, f);
            lemma_step_back(q, p, o, f.spec_orientation());
            crate::orientation::lemma_code_round_trip(f.spec_orientation());
            if s.in_bounds(n.0, n.1, n.2) {
                lemma_local_coords(s, f, n.0, n.1, n.2);
                if c == cn && f.key() == key {
                    crate::orientation::lemma_code_round_trip(opposite_of(o));
                    assert(f.spec_orientation() == opposite_of(o));
                    assert(q == n);
                }
            }
        } else {
            if s.in_bounds(n.0, n.1, n.2) && c == cn && f.key() == key {
                crate::orientation::lemma_code_round_trip(opposite_of(o));
                s.lemma_position(n.0, n.1, n.2);
            }
        }
    }
}

/// Once the face of p itself toward o is settled, that direction is done for p.
proof fn lemma_own_direction_patched(
    old_chunks: Seq<ChunkFaces>,
    new_chunks: Seq<ChunkFaces>,
    wb0: WorldBlocks,
    wb1: WorldBlocks,
    p: (int, int, int),
    o: FaceOrientation,
)
    requires
        block_changed_at(wb0, wb1, p),
        old_chunks.len() == wb0.spec_size().chunk_count(),
        new_chunks.len() == old_chunks.len(),
        chunks_patched(old_chunks, wb0, wb1, p, orientation_code(o) + 1, orientation_code(o) as int),
        ({
            let cp = wb0.spec_size().chunk_of(p.0, p.2);
            let key = ((p.0 % 16) as u8, p.1 as u8, (p.2 % 16) as u8, orientation_code(o));
            &&& forall|c: int, t: bool, f: Face|
                0 <= c < old_chunks.len() && !(c == cp && f.key() == key) ==> (
                #[trigger] new_chunks[c].faces(t).contains(f) <==> old_chunks[c].faces(t).contains(f))
            &&& forall|t: bool, f: Face|
                f.key() == key ==> (#[trigger] new_chunks[cp].faces(t).contains(f) <==> expected_face(
                    wb1,
                    cp,
                    t,
                    f,
                ))
        }),
    ensures
        chunks_patched(new_chunks, wb0, wb1, p, orientation_code(o) + 1, orientation_code(o) + 1),
{
    let s = wb0.spec_size();
    let cp = s.chunk_of(p.0, p.2);
    let key = ((p.0 % 16) as u8, p.1 as u8, (p.2 % 16) as u8, orientation_code(o));
    let k = orientation_code(o) as int;
    s.lemma_position(p.0, p.1, p.2);
    assert forall|c: int, t: bool, f: Face| 0 <= c < new_chunks.len() implies (
    #[trigger] new_chunks[c].faces(t).contains(f) <==> patched_face(wb0, wb1, p, k + 1, k + 1, c, t, f)) by {
        assert(old_chunks[c].faces(t).contains(f) <==> patched_face(wb0, wb1, p, k + 1, k, c, t, f));
        if f.wf() {
            let q = face_pos(s, c, f);
            lemma_face_pos(s, c, f);
            lemma_local_coords(s, f, p.0, p.1, p.2);
            lemma_step_back(q, p, f.spec_orientation(), f.spec_orientation());
            crate::orientation::lemma_code_round_trip(f.spec_orientation());
            crate::orientation::lemma_code_round_trip(o);
        } else if c == cp && f.key() == key {
            crate::orientation::lemma_code_round_trip(o);
        }
    }
}

impl World {
    /// The cell next to (x, y, z) in direction o, if it lies in the world.
    fn neighbour(&self, x: usize, y: usize, z: usize, o: FaceOrientation) -> (r: Option<(usize, usize, usize)>)
        requires
            self.structure_wf(),
            self.size_view().in_bounds(x as int, y as int, z as int),
        ensures
            match r {
                Some(n) => (n.0 as int, n.1 as int, n.2 as int) == step_toward(x as int, y as int, z as int, o)
                    && self.size_view().in_bounds(n.0 as int, n.1 as int, n.2 as int),
                None => {
                    let n = step_toward(x as int, y as int, z as int, o);
                    !self.size_view().in_bounds(n.0, n.1, n.2)
                },
            },
    {
        let s = self.blocks.size();
        match o {
            FaceOrientation::YPlus => if y + 1 < CHUNK_HEIGHT {
                Some((x, y + 1, z))
            } else {
                None
            },
            FaceOrientation::YMinus => if y >= 1 {
                Some((x, y - 1, z))
            } else {
                None
            },
            FaceOrientation::XPlus => if x + 1 < s.world_width() {
                Some((x + 1, y, z))
            } else {
                None
            },
            FaceOrientation::XMinus => if x >= 1 {
                Some((x - 1, y, z))
            } else {
                None
            },
            FaceOrientation::ZPlus => if z + 1 < s.world_depth() {
                Some((x, y, z + 1))
            } else {
                None
            },
            FaceOrientation::ZMinus => if z >= 1 {
                Some((x, y, z - 1))
            } else {
                None
            },
        }
    }
}

impl World {
    /// Settles direction o around p after the block at p changed from `was` (its state in
    /// wb0) to `now`: the neighbour's face toward p is hidden or revealed, and p's own face
    /// toward o is created if p just became visible.
    fn patch_direction(
        &mut self,
        x: usize,
        y: usize,
        z: usize,
        o: FaceOrientation,
        was: Block,
        now: Block,
        Ghost(wb0): Ghost<WorldBlocks>,
    )
        requires
            old(self).structure_wf(),
            block_changed_at(wb0, old(self).blocks_view(), (x as int, y as int, z as int)),
            was == wb0.block_at(x as int, y as int, z as int),
            now == old(self).blocks_view().block_at(x as int, y as int, z as int),
            chunks_patched(
                old(self).chunks_view(),
                wb0,
                old(self).blocks_view(),
                (x as int, y as int, z as int),
                orientation_code(o) as int,
                orientation_code(o) as int,
            ),
        ensures
            final(self).structure_wf(),
            final(self).blocks_view() == old(self).blocks_view(),
            chunks_patched(
                final(self).chunks_view(),
                wb0,
                old(self).blocks_view(),
                (x as int, y as int, z as int),
                orientation_code(o) + 1,
                orientation_code(o) + 1,
            ),
    {
        let ghost p = (x as int, y as int, z as int);
        let ghost wb1 = self.blocks_view();
        let ghost s = wb1.spec_size();
        let ghost k = orientation_code(o) as int;
        let ghost chunks0 = self.chunks_view();
        proof {
            s.lemma_position(p.0, p.1, p.2);
            assert(was.is_known() && now.is_known());
            lemma_step_back(p, p, o, o);
        }
        let nbr = self.neighbour(x, y, z, o);
        if let Some((nx, ny, nz)) = nbr {
            let nb = *self.get_block(nx, ny, nz);
            let back = o.opposite();
            let cn = self.block_pos_into_chunk_idx(nx, nz);
            let (lnx, lny, lnz) = WorldSize::absolute_block_to_chunk_block_position(nx, ny, nz);
            let ghost n = (nx as int, ny as int, nz as int);
            let ghost key = (lnx, lny, lnz, orientation_code(back));
            let ghost tn = nb.spec_is_transparent();
            proof {
                s.lemma_position(n.0, n.1, n.2);
                assert(nb == wb0.block_at(n.0, n.1, n.2));
                assert(nb.is_known());
                crate::orientation::lemma_code_round_trip(back);
            }
            let ghost c0 = chunks0[cn as int];
            if was.show_neighboring_faces() && !now.show_neighboring_faces() && nb.show_my_faces() {
                if nb.is_transparent() {
                    self.chunks[cn].remove_transparent_face(lnx, lny, lnz, back);
                } else {
                    self.chunks[cn].remove_opaque_face(lnx, lny, lnz, back);
                }
            } else if !was.show_neighboring_faces() && now.show_neighboring_faces() && nb.show_my_faces() {
                proof {
                    assert forall|i: int| 0 <= i < c0.faces(tn).len() implies (#[trigger] c0.faces(
                        tn,
                    )[i]).key() != key by {
                        let g = c0.faces(tn)[i];
                        assert(c0.faces(tn).contains(g));
                        if g.key() == key {
                            lemma_local_coords(s, g, n.0, n.1, n.2);
                            lemma_face_pos(s, cn as int, g);
                            assert(patched_face(wb0, wb1, p, k, k, cn as int, tn, g));
                        }
                    }
                }
                self.chunks[cn].push(lnx, lny, lnz, back, nb);
            }
            proof {
                let chunks1 = self.chunks_view();
                let face = Face::spec_new(lnx, lny, lnz, back, nb.spec_texture(back));
                assert forall|c: int, t: bool, f: Face|
                    0 <= c < chunks0.len() && !(c == cn && f.key() == key) implies (
                    #[trigger] chunks1[c].faces(t).contains(f) <==> chunks0[c].faces(t).contains(f)) by {
                    if c == cn {
                        lemma_sift_contains(c0.faces(t), lnx, lny, lnz, Some(orientation_code(back)), false);
                        if chunks1[c].faces(t).contains(f) && !c0.faces(t).contains(f) {
                            let i = choose|i: int| 0 <= i < chunks1[c].faces(t).len() && chunks1[c].faces(t)[i] == f;
                            if i < c0.faces(t).len() {
                                assert(c0.faces(t)[i] == f);
                            }
                        }
                        if c0.faces(t).contains(f) {
                            let i = choose|i: int| 0 <= i < c0.faces(t).len() && c0.faces(t)[i] == f;
                            assert(c0.faces(t).push(face)[i] == f);
                        }
                    }
                }
                assert forall|t: bool, f: Face|
                    f.key() == key implies (#[trigger] chunks1[cn as int].faces(t).contains(f)
                    <==> expected_face(wb1, cn as int, t, f)) by {
                    lemma_sift_contains(c0.faces(t), lnx, lny, lnz, Some(orientation_code(back)), false);
                    assert(f.wf());
                    lemma_local_coords(s, f, n.0, n.1, n.2);
                    lemma_face_pos(s, cn as int, f);
                    assert(c0.faces(t).contains(f) <==> patched_face(wb0, wb1, p, k, k, cn as int, t, f));
                    assert(f.spec_orientation() == back);
                    if chunks1[cn as int].faces(t).contains(f) && !c0.faces(t).contains(f) {
                        let i = choose|i: int|
                            0 <= i < chunks1[cn as int].faces(t).len() && chunks1[cn as int].faces(t)[i]
                                == f;
                        if i < c0.faces(t).len() {
                            assert(c0.faces(t)[i] == f);
                        }
                        assert(f == face);
                    }
                    if expected_face(wb1, cn as int, t, f) && t == tn
                        && !was.spec_show_neighboring_faces() && now.spec_show_neighboring_faces() {
                        lemma_face_ext(f, face);
                        assert(c0.faces(t).push(face)[c0.faces(t).len() as int] == face);
                    }
                }
                lemma_neighbour_patched(chunks0, chunks1, wb0, wb1, p, o, k);
            }
        } else {
            proof {
                lemma_neighbour_patched(chunks0, self.chunks_view(), wb0, wb1, p, o, k);
            }
        }
        let ghost chunks2 = self.chunks_view();
        let cp = self.block_pos_into_chunk_idx(x, z);
        let (lx, ly, lz) = WorldSize::absolute_block_to_chunk_block_position(x, y, z);
        let ghost keyp = (lx, ly, lz, orientation_code(o));
        let ghost tp = now.spec_is_transparent();
        let ghost c2 = chunks2[cp as int];
        let mut pushed = false;
        if let Some((nx, ny, nz)) = nbr {
            let nb = *self.get_block(nx, ny, nz);
            if !was.show_my_faces() && now.show_my_faces() && nb.show_neighboring_faces() {
                proof {
                    crate::orientation::lemma_code_round_trip(o);
                    assert forall|i: int| 0 <= i < c2.faces(tp).len() implies (#[trigger] c2.faces(
                        tp,
                    )[i]).key() != keyp by {
                        let g = c2.faces(tp)[i];
                        assert(c2.faces(tp).contains(g));
                        if g.key() == keyp {
                            lemma_local_coords(s, g, p.0, p.1, p.2);
                            assert(patched_face(wb0, wb1, p, k + 1, k, cp as int, tp, g));
                        }
                    }
                }
                self.chunks[cp].push(lx, ly, lz, o, now);
                pushed = true;
            }
        }
        proof {
            let chunks3 = self.chunks_view();
            let face = Face::spec_new(lx, ly, lz, o, now.spec_texture(o));
            crate::orientation::lemma_code_round_trip(o);
            assert forall|c: int, t: bool, f: Face|
                0 <= c < chunks2.len() && !(c == cp && f.key() == keyp) implies (
                #[trigger] chunks3[c].faces(t).contains(f) <==> chunks2[c].faces(t).contains(f)) by {
                if c == cp && pushed {
                    if chunks3[c].faces(t).contains(f) && !c2.faces(t).contains(f) {
                        let i = choose|i: int| 0 <= i < chunks3[c].faces(t).len() && chunks3[c].faces(t)[i] == f;
                        if i < c2.faces(t).len() {
                            assert(c2.faces(t)[i] == f);
                        }
                    }
                    if c2.faces(t).contains(f) {
                        let i = choose|i: int| 0 <= i < c2.faces(t).len() && c2.faces(t)[i] == f;
                        assert(c2.faces(t).push(face)[i] == f);
                    }
                }
            }
            assert forall|t: bool, f: Face|
                f.key() == keyp implies (#[trigger] chunks3[cp as int].faces(t).contains(f)
                <==> expected_face(wb1, cp as int, t, f)) by {
                assert(f.wf());
                lemma_local_coords(s, f, p.0, p.1, p.2);
                lemma_face_pos(s, cp as int, f);
                assert(c2.faces(t).contains(f) <==> patched_face(wb0, wb1, p, k + 1, k, cp as int, t, f));
                assert(f.spec_orientation() == o);
                if pushed {
                    if chunks3[cp as int].faces(t).contains(f) && !c2.faces(t).contains(f) {
                        let i = choose|i: int|
                            0 <= i < chunks3[cp as int].faces(t).len() && chunks3[cp as int].faces(t)[i]
                                == f;
                        if i < c2.faces(t).len() {
                            assert(c2.faces(t)[i] == f);
                        }
                        assert(f == face);
                    }
                    if expected_face(wb1, cp as int, t, f) && t == tp {
                        lemma_face_ext(f, face);
                        assert(c2.faces(t).push(face)[c2.faces(t).len() as int] == face);
                    }
                }
            }
            lemma_own_direction_patched(chunks2, chunks3, wb0, wb1, p, o);
        }
    }
}

impl World {
    /// Puts `now` at (x, y, z) and brings the faces of it and of its six neighbours up to date.
    fn commit_block(&mut self, x: usize, y: usize, z: usize, now: Block)
        requires
            old(self).wf(),
            old(self).size_view().in_bounds(x as int, y as int, z as int),
            now.is_known(),
        ensures
            final(self).wf(),
            final(self).size_view() == old(self).size_view(),
            final(self).blocks_view().cells() == World::blocks_after_set(
                old(self).blocks_view(),
                x as int,
                y as int,
                z as int,
                now,
            ),
    {
        let ghost p = (x as int, y as int, z as int);
        let was = *self.blocks.get_block(x, y, z);
        let ghost wb0 = self.blocks_view();
        self.blocks.no_update_set_block(x, y, z, now);
        let ghost wb1 = self.blocks_view();
        proof {
            assert forall|qx: int, qy: int, qz: int|
                wb0.in_bounds(qx, qy, qz) && (qx, qy, qz) != p implies #[trigger] wb1.block_at(qx, qy, qz)
                == wb0.block_at(qx, qy, qz) by {
                assert(wb0.in_bounds(qx, qy, qz));
            }
            assert(wb0.in_bounds(p.0, p.1, p.2));
            assert(block_changed_at(wb0, wb1, p));
        }
        self.patch_own_faces(x, y, z, was, now, Ghost(wb0));
        let mut k: u8 = 0;
        while k < 6
            invariant
                k <= 6,
                self.structure_wf(),
                self.blocks_view() == wb1,
                block_changed_at(wb0, wb1, p),
                was == wb0.block_at(p.0, p.1, p.2),
                now == wb1.block_at(p.0, p.1, p.2),
                p == (x as int, y as int, z as int),
                chunks_patched(self.chunks_view(), wb0, wb1, p, k as int, k as int),
            decreases 6 - k,
        {
            let o = match FaceOrientation::from_u8(k) {
                Some(o) => o,
                None => FaceOrientation::YPlus,
            };
            self.patch_direction(x, y, z, o, was, now, Ghost(wb0));
            k += 1;
        }
        proof {
            let chunks = self.chunks_view();
            assert forall|c: int, t: bool, f: Face| 0 <= c < chunks.len() implies (
            #[trigger] chunks[c].faces(t).contains(f) <==> expected_face(wb1, c, t, f)) by {
                assert(chunks[c].faces(t).contains(f) <==> patched_face(wb0, wb1, p, 6, 6, c, t, f));
                crate::orientation::lemma_code_round_trip(f.spec_orientation());
                crate::orientation::lemma_code_round_trip(opposite_of(f.spec_orientation()));
            }
        }
    }

    /// Changes the block at (x, y, z) as `f` says: `f` is given the current block and returns
    /// a replacement and whether to commit it. When it commits, the faces of the block and of
    /// its six neighbours are brought up to date and the result is true; otherwise nothing
    /// changes at all and the result is false.
    pub fn update_block<F: Fn(Block) -> (Block, bool)>(&mut self, x: usize, y: usize, z: usize, f: F) -> (r: bool)
        requires
            old(self).wf(),
            old(self).size_view().in_bounds(x as int, y as int, z as int),
            f.requires((old(self).blocks_view().block_at(x as int, y as int, z as int),)),
            forall|res: (Block, bool)|
                f.ensures((old(self).blocks_view().block_at(x as int, y as int, z as int),), res)
                    ==> #[trigger] res.0.is_known(),
        ensures
            final(self).wf(),
            final(self).size_view() == old(self).size_view(),
            r ==> exists|nb: Block|
                f.ensures((old(self).blocks_view().block_at(x as int, y as int, z as int),), (nb, true))
                    && #[trigger] final(self).blocks_view().cells() == World::blocks_after_set(
                    old(self).blocks_view(),
                    x as int,
                    y as int,
                    z as int,
                    nb,
                ),
            !r ==> *final(self) == *old(self),
            !r ==> exists|nb: Block|
                f.ensures((old(self).blocks_view().block_at(x as int, y as int, z as int),), (nb, false)),
    {
        let b = *self.blocks.get_block(x, y, z);
        let (nb, changed) = f(b);
        if changed {
            self.commit_block(x, y, z, nb);
            true
        } else {
            false
        }
    }

    /// Puts `block` at (x, y, z) and brings the faces up to date; always true.
    pub fn set_block(&mut self, x: usize, y: usize, z: usize, block: Block) -> (r: bool)
        requires
            old(self).wf(),
            old(self).size_view().in_bounds(x as int, y as int, z as int),
            block.is_known(),
        ensures
            r,
            final(self).wf(),
            final(self).size_view() == old(self).size_view(),
            final(self).blocks_view().cells() == World::blocks_after_set(
                old(self).blocks_view(),
                x as int,
                y as int,
                z as int,
                block,
            ),
    {
        self.commit_block(x, y, z, block);
        true
    }

    /// Puts `block` at (x, y, z) if that cell holds air, bringing the faces up to date.
    /// Returns whether it did; if not, nothing changes.
    pub fn place_block(&mut self, x: usize, y: usize, z: usize, block: Block) -> (r: bool)
        requires
            old(self).wf(),
            old(self).size_view().in_bounds(x as int, y as int, z as int),
            block.is_known(),
        ensures
            r == old(self).blocks_view().block_at(x as int, y as int, z as int).spec_is_air(),
            final(self).wf(),
            final(self).size_view() == old(self).size_view(),
            r ==> final(self).blocks_view().cells() == World::blocks_after_set(
                old(self).blocks_view(),
                x as int,
                y as int,
                z as int,
                block,
            ),
            !r ==> *final(self) == *old(self),
    {
        if self.blocks.get_block(x, y, z).is_air() {
            self.commit_block(x, y, z, block);
            true
        } else {
            false
        }
    }

    /// Puts air at (x, y, z) if that cell holds something else, bringing the faces up to date.
    /// Returns whether it did; if not, nothing changes.
    pub fn remove_block(&mut self, x: usize, y: usize, z: usize) -> (r: bool)
        requires
            old(self).wf(),
            old(self).size_view().in_bounds(x as int, y as int, z as int),
        ensures
            r == !old(self).blocks_view().block_at(x as int, y as int, z as int).spec_is_air(),
            final(self).wf(),
            final(self).size_view() == old(self).size_view(),
            r ==> final(self).blocks_view().cells() == World::blocks_after_set(
                old(self).blocks_view(),
                x as int,
                y as int,
                z as int,
                Block::air_spec(),
            ),
            !r ==> *final(self) == *old(self),
    {
        if !self.blocks.get_block(x, y, z).is_air() {
            self.commit_block(x, y, z, Block::air());
            true
        } else {
            false
        }
    }
}

/// Position q and direction code come before the scan point (cx, cz, cy, k): the scan runs
/// along x, then z, then y, then the six directions in code order.
pub open spec fn scanned_before(q: (int, int, int), code: int, cx: int, cz: int, cy: int, k: int) -> bool {
    ||| q.0 < cx
    ||| (q.0 == cx && q.2 < cz)
    ||| (q.0 == cx && q.2 == cz && q.1 < cy)
    ||| (q.0 == cx && q.2 == cz && q.1 == cy && code < k)
}

/// The lists hold exactly the faces called for whose owner and direction were scanned.
pub open spec fn chunks_built(
    chunks: Seq<ChunkFaces>,
    wb: WorldBlocks,
    cx: int,
    cz: int,
    cy: int,
    k: int,
) -> bool {
    forall|c: int, t: bool, f: Face|
        0 <= c < chunks.len() ==> (#[trigger] chunks[c].faces(t).contains(f) <==> (expected_face(
            wb,
            c,
            t,
            f,
        ) && scanned_before(
            face_pos(wb.spec_size(), c, f),
            orientation_code(f.spec_orientation()) as int,
            cx,
            cz,
            cy,
            k,
        )))
}

/// Two scan points that no face lies between give the same lists.
proof fn lemma_built_same(
    chunks: Seq<ChunkFaces>,
    wb: WorldBlocks,
    a: (int, int, int, int),
    b: (int, int, int, int),
)
    requires
        wb.wf(),
        chunks.len() == wb.spec_size().chunk_count(),
        chunks_built(chunks, wb, a.0, a.1, a.2, a.3),
        forall|q: (int, int, int), code: int|
            wb.in_bounds(q.0, q.1, q.2) && 0 <= code < 6 ==> (#[trigger] scanned_before(
                q,
                code,
                a.0,
                a.1,
                a.2,
                a.3,
            ) <==> scanned_before(q, code, b.0, b.1, b.2, b.3)),
    ensures
        chunks_built(chunks, wb, b.0, b.1, b.2, b.3),
{
    assert forall|c: int, t: bool, f: Face| 0 <= c < chunks.len() implies (
    #[trigger] chunks[c].faces(t).contains(f) <==> (expected_face(wb, c, t, f) && scanned_before(
        face_pos(wb.spec_size(), c, f),
        orientation_code(f.spec_orientation()) as int,
        b.0,
        b.1,
        b.2,
        b.3,
    ))) by {
        if f.wf() {
            lemma_face_pos(wb.spec_size(), c, f);
            crate::orientation::lemma_code_round_trip(f.spec_orientation());
            let q = face_pos(wb.spec_size(), c, f);
            let code = orientation_code(f.spec_orientation()) as int;
            assert(scanned_before(q, code, a.0, a.1, a.2, a.3) <==> scanned_before(
                q,
                code,
                b.0,
                b.1,
                b.2,
                b.3,
            ));
        }
    }
}

impl World {
    /// Adds the faces of the block at (x, y, z), one per direction in which the neighbour
    /// lies in the world and lets faces be seen.
    fn push_visible_faces(&mut self, x: usize, y: usize, z: usize)
        requires
            old(self).structure_wf(),
            old(self).size_view().in_bounds(x as int, y as int, z as int),
            chunks_built(old(self).chunks_view(), old(self).blocks_view(), x as int, z as int, y as int, 0),
        ensures
            final(self).structure_wf(),
            final(self).blocks_view() == old(self).blocks_view(),
            chunks_built(final(self).chunks_view(), old(self).blocks_view(), x as int, z as int, y as int, 6),
    {
        let ghost wb = self.blocks_view();
        let ghost s = wb.spec_size();
        let ghost p = (x as int, y as int, z as int);
        let block = *self.get_block(x, y, z);
        let cp = self.block_pos_into_chunk_idx(x, z);
        let (lx, ly, lz) = WorldSize::absolute_block_to_chunk_block_position(x, y, z);
        proof {
            s.lemma_position(p.0, p.1, p.2);
            assert(block.is_known());
        }
        let mut k: u8 = 0;
        while k < 6
            invariant
                k <= 6,
                self.structure_wf(),
                self.blocks_view() == wb,
                s == wb.spec_size(),
                p == (x as int, y as int, z as int),
                s.in_bounds(p.0, p.1, p.2),
                cp == s.chunk_of(p.0, p.2),
                cp < self.chunks_view().len(),
                (lx, ly, lz) == ((p.0 % 16) as u8, p.1 as u8, (p.2 % 16) as u8),
                block == wb.block_at(p.0, p.1, p.2),
                block.is_known(),
                chunks_built(self.chunks_view(), wb, p.0, p.2, p.1, k as int),
            decreases 6 - k,
        {
            let o = match FaceOrientation::from_u8(k) {
                Some(o) => o,
                None => FaceOrientation::YPlus,
            };
            let ghost chunks0 = self.chunks_view();
            let ghost c0 = chunks0[cp as int];
            let ghost t0 = block.spec_is_transparent();
            let ghost key = (lx, ly, lz, k);
            let mut pushed = false;
            if block.show_my_faces() {
                if let Some((nx, ny, nz)) = self.neighbour(x, y, z, o) {
                    if self.get_block(nx, ny, nz).show_neighboring_faces() {
                        proof {
                            assert forall|i: int| 0 <= i < c0.faces(t0).len() implies (#[trigger] c0.faces(
                                t0,
                            )[i]).key() != key by {
                                let g = c0.faces(t0)[i];
                                assert(c0.faces(t0).contains(g));
                                if g.key() == key {
                                    lemma_local_coords(s, g, p.0, p.1, p.2);
                                }
                            }
                        }
                        self.chunks[cp].push(lx, ly, lz, o, block);
                        pushed = true;
                    }
                }
            }
            proof {
                let chunks1 = self.chunks_view();
                let face = Face::spec_new(lx, ly, lz, o, block.spec_texture(o));
                crate::orientation::lemma_code_round_trip(o);
                assert forall|c: int, t: bool, f: Face| 0 <= c < chunks1.len() implies (
                #[trigger] chunks1[c].faces(t).contains(f) <==> (expected_face(wb, c, t, f)
                    && scanned_before(
                    face_pos(s, c, f),
                    orientation_code(f.spec_orientation()) as int,
                    p.0,
                    p.2,
                    p.1,
                    k + 1,
                ))) by {
                    assert(chunks0[c].faces(t).contains(f) <==> (expected_face(wb, c, t, f) && scanned_before(
                        face_pos(s, c, f),
                        orientation_code(f.spec_orientation()) as int,
                        p.0,
                        p.2,
                        p.1,
                        k as int,
                    )));
                    if f.wf() {
                        lemma_face_pos(s, c, f);
                        lemma_local_coords(s, f, p.0, p.1, p.2);
                        crate::orientation::lemma_code_round_trip(f.spec_orientation());
                    }
                    if pushed && c == cp {
                        if chunks1[c].faces(t).contains(f) && !chunks0[c].faces(t).contains(f) {
                            let i = choose|i: int| 0 <= i < chunks1[c].faces(t).len() && chunks1[c].faces(t)[i] == f;
                            if i < c0.faces(t).len() {
                                assert(c0.faces(t)[i] == f);
                            }
                            assert(f == face);
                        }
                        if chunks0[c].faces(t).contains(f) {
                            let i = choose|i: int| 0 <= i < c0.faces(t).len() && c0.faces(t)[i] == f;
                            assert(c0.faces(t).push(face)[i] == f);
                        }
                        if f.wf() && face_pos(s, c, f) == p && orientation_code(f.spec_orientation()) == k
                            && expected_face(wb, c, t, f) {
                            assert(f.spec_orientation() == o);
                            lemma_face_ext(f, face);
                            assert(c0.faces(t).push(face)[c0.faces(t).len() as int] == face);
                        }
                    }
                }
            }
            k += 1;
        }
    }

    /// Rebuilds every face list from the blocks alone: each list is emptied, then every block
    /// that shows faces gets one per direction whose neighbour lies in the world and lets
    /// faces be seen. The blocks do not change.
    pub fn compute_faces(&mut self)
        requires
            old(self).structure_wf(),
        ensures
            final(self).wf(),
            final(self).blocks_view() == old(self).blocks_view(),
    {
        let ghost wb = self.blocks_view();
        let ghost s = wb.spec_size();
        let n = self.chunks.len();
        let mut i: usize = 0;
        while i < n
            invariant
                i <= n,
                n == self.chunks_view().len(),
                self.structure_wf(),
                self.blocks_view() == wb,
                forall|c: int| 0 <= c < i ==> #[trigger] self.chunks_view()[c].faces(true) == Seq::<Face>::empty()
                    && self.chunks_view()[c].faces(false) == Seq::<Face>::empty(),
            decreases n - i,
        {
            self.chunks.set(i, ChunkFaces::new());
            i += 1;
        }
        let width = self.blocks.size().world_width();
        let depth = self.blocks.size().world_depth();
        proof {
            assert forall|c: int, t: bool, f: Face| 0 <= c < self.chunks_view().len() implies (
            #[trigger] self.chunks_view()[c].faces(t).contains(f) <==> (expected_face(wb, c, t, f)
                && scanned_before(
                face_pos(s, c, f),
                orientation_code(f.spec_orientation()) as int,
                0,
                0,
                0,
                0,
            ))) by {
                if f.wf() {
                    lemma_face_pos(s, c, f);
                }
            }
        }
        let mut x: usize = 0;
        while x < width
            invariant
                x <= width,
                width == s.block_width(),
                depth == s.block_depth(),
                s == wb.spec_size(),
                self.structure_wf(),
                self.blocks_view() == wb,
                chunks_built(self.chunks_view(), wb, x as int, 0, 0, 0),
            decreases width - x,
        {
            let mut z: usize = 0;
            while z < depth
                invariant
                    x < width,
                    z <= depth,
                    width == s.block_width(),
                    depth == s.block_depth(),
                    s == wb.spec_size(),
                    self.structure_wf(),
                    self.blocks_view() == wb,
                    chunks_built(self.chunks_view(), wb, x as int, z as int, 0, 0),
                decreases depth - z,
            {
                let mut y: usize = 0;
                while y < CHUNK_HEIGHT
                    invariant
                        x < width,
                        z < depth,
                        y <= CHUNK_HEIGHT,
                        width == s.block_width(),
                        depth == s.block_depth(),
                        s == wb.spec_size(),
                        self.structure_wf(),
                        self.blocks_view() == wb,
                        chunks_built(self.chunks_view(), wb, x as int, z as int, y as int, 0),
                    decreases CHUNK_HEIGHT - y,
                {
                    self.push_visible_faces(x, y, z);
                    proof {
                        lemma_built_same(
                            self.chunks_view(),
                            wb,
                            (x as int, z as int, y as int, 6),
                            (x as int, z as int, y + 1, 0),
                        );
                    }
                    y += 1;
                }
                proof {
                    lemma_built_same(
                        self.chunks_view(),
                        wb,
                        (x as int, z as int, 256, 0),
                        (x as int, z + 1, 0, 0),
                    );
                }
                z += 1;
            }
            proof {
                lemma_built_same(self.chunks_view(), wb, (x as int, depth as int, 0, 0), (x + 1, 0, 0, 0));
            }
            x += 1;
        }
        proof {
            assert forall|c: int, t: bool, f: Face| 0 <= c < self.chunks_view().len() implies (
            #[trigger] self.chunks_view()[c].faces(t).contains(f) <==> expected_face(wb, c, t, f)) by {
                assert(self.chunks_view()[c].faces(t).contains(f) <==> (expected_face(wb, c, t, f)
                    && scanned_before(
                    face_pos(s, c, f),
                    orientation_code(f.spec_orientation()) as int,
                    width as int,
                    0,
                    0,
                    0,
                )));
                if f.wf() {
                    lemma_face_pos(s, c, f);
                }
            }
        }
    }

    /// A world holding the given blocks, with its faces computed.
    pub fn from_blocks(blocks: WorldBlocks) -> (r: Self)
        requires
            blocks.wf(),
        ensures
            r.wf(),
            r.blocks_view() == blocks,
    {
        let n = blocks.size().chunk_count_exec();
        let mut chunks: Vec<ChunkFaces> = Vec::new();
        let mut i: usize = 0;
        while i < n
            invariant
                i <= n,
                n == blocks.spec_size().chunk_count(),
                chunks@.len() == i,
                forall|c: int| 0 <= c < i ==> (#[trigger] chunks@[c]).wf(),
            decreases n - i,
        {
            chunks.push(ChunkFaces::new());
            i += 1;
        }
        let mut w = World { blocks, chunks };
        w.compute_faces();
        w
    }
}

/// Cell v lies in the world and holds something other than air.
pub open spec fn is_hit(wb: WorldBlocks, v: (int, int, int)) -> bool {
    wb.in_bounds(v.0, v.1, v.2) && !wb.block_at(v.0, v.1, v.2).spec_is_air()
}

/// The index of the first cell of path, from i on, that is a hit.
pub open spec fn first_hit_from(wb: WorldBlocks, path: Seq<(int, int, int)>, i: int) -> Option<int>
    decreases path.len() - i,
{
    if i < 0 || i >= path.len() {
        None
    } else if is_hit(wb, path[i]) {
        Some(i)
    } else {
        first_hit_from(wb, path, i + 1)
    }
}

pub open spec fn first_hit(wb: WorldBlocks, path: Seq<(int, int, int)>) -> Option<int> {
    first_hit_from(wb, path, 0)
}

/// The first hit from i on is a hit, lies in the path, and every cell before it from i on is not.
pub proof fn lemma_first_hit_from(wb: WorldBlocks, path: Seq<(int, int, int)>, i: int)
    requires
        0 <= i,
    ensures
        match first_hit_from(wb, path, i) {
            Some(h) => i <= h < path.len() && is_hit(wb, path[h]) && forall|j: int|
                i <= j < h ==> !#[trigger] is_hit(wb, path[j]),
            None => forall|j: int| i <= j < path.len() ==> !#[trigger] is_hit(wb, path[j]),
        },
    decreases path.len() - i,
{
    if i < path.len() && !is_hit(wb, path[i]) {
        lemma_first_hit_from(wb, path, i + 1);
    }
}

impl World {
    /// The position of cell v if it lies in the world.
    fn voxel_position(&self, v: Voxel) -> (r: Option<(usize, usize, usize)>)
        requires
            self.structure_wf(),
        ensures
            match r {
                Some(p) => (p.0 as int, p.1 as int, p.2 as int) == voxel_int(v) && self.size_view().in_bounds(
                    p.0 as int,
                    p.1 as int,
                    p.2 as int,
                ),
                None => !self.size_view().in_bounds(v.0 as int, v.1 as int, v.2 as int),
            },
    {
        let (vx, vy, vz) = v;
        if vx < 0 || vy < 0 || vz < 0 {
            return None;
        }
        if vx as u64 > usize::MAX as u64 || vy as u64 > usize::MAX as u64 || vz as u64 > usize::MAX as u64 {
            return None;
        }
        let (x, y, z) = (vx as usize, vy as usize, vz as usize);
        if self.is_position_in_bounds(x, y, z) {
            Some((x, y, z))
        } else {
            None
        }
    }

    /// The index of the first cell of `path` that lies in the world and is not air: a visit
    /// of the path cell by cell stops there, after that many cells plus one.
    pub fn first_hit(&self, path: &Vec<Voxel>) -> (r: Option<usize>)
        requires
            self.structure_wf(),
        ensures
            match r {
                Some(i) => first_hit(self.blocks_view(), path@.map_values(|v: Voxel| voxel_int(v)))
                    == Some(i as int),
                None => first_hit(self.blocks_view(), path@.map_values(|v: Voxel| voxel_int(v)))
                    == None::<int>,
            },
    {
        let ghost ps = path@.map_values(|v: Voxel| voxel_int(v));
        let mut i: usize = 0;
        while i < path.len()
            invariant
                i <= path.len(),
                self.structure_wf(),
                ps == path@.map_values(|v: Voxel| voxel_int(v)),
                first_hit_from(self.blocks_view(), ps, 0) == first_hit_from(self.blocks_view(), ps, i as int),
            decreases path.len() - i,
        {
            if let Some((x, y, z)) = self.voxel_position(path[i]) {
                if !self.get_block(x, y, z).is_air() {
                    return Some(i);
                }
            }
            i += 1;
        }
        None
    }

    /// Digs along the segment from `start` to `start + delta`: the first cell of its path
    /// that lies in the world and is not air becomes air, with the faces kept up to date.
    /// Returns that cell, or nothing when the path hits nothing (the world is then unchanged).
    pub fn ray_cast_remove_block(&mut self, start: Point, delta: Point) -> (r: Option<(usize, usize, usize)>)
        requires
            old(self).wf(),
            within_ray_limits(start),
            within_ray_limits(delta),
        ensures
            final(self).wf(),
            final(self).size_view() == old(self).size_view(),
            match first_hit(old(self).blocks_view(), ray_path(start, delta)) {
                Some(i) => {
                    let v = ray_path(start, delta)[i];
                    &&& r == Some((v.0 as usize, v.1 as usize, v.2 as usize))
                    &&& final(self).blocks_view().cells() == World::blocks_after_set(
                        old(self).blocks_view(),
                        v.0,
                        v.1,
                        v.2,
                        Block::air_spec(),
                    )
                },
                None => r == None::<(usize, usize, usize)> && *final(self) == *old(self),
            },
    {
        let path = ray_cast(start, delta);
        match self.first_hit(&path) {
            Some(i) => {
                proof {
                    lemma_first_hit_from(self.blocks_view(), path@.map_values(|v: Voxel| voxel_int(v)), 0);
                }
                let pos = self.voxel_position(path[i]);
                match pos {
                    Some((x, y, z)) => {
                        self.remove_block(x, y, z);
                        Some((x, y, z))
                    },
                    None => None,
                }
            },
            None => None,
        }
    }

    /// Places `block` along the segment from `start` to `start + delta`: in the cell just before
    /// the first cell of its path that lies in the world and is not air, provided the hit is
    /// not the first cell and that cell lies in the world and holds air. Returns where it
    /// placed the block; otherwise the world is unchanged.
    pub fn ray_cast_place_block(&mut self, start: Point, delta: Point, block: Block) -> (r: Option<(usize, usize, usize)>)
        requires
            old(self).wf(),
            within_ray_limits(start),
            within_ray_limits(delta),
            block.is_known(),
        ensures
            final(self).wf(),
            final(self).size_view() == old(self).size_view(),
            ({
                let path = ray_path(start, delta);
                let hit = first_hit(old(self).blocks_view(), path);
                if hit is Some && hit->0 > 0 && old(self).size_view().in_bounds(
                    path[hit->0 - 1].0,
                    path[hit->0 - 1].1,
                    path[hit->0 - 1].2,
                ) && old(self).blocks_view().block_at(
                    path[hit->0 - 1].0,
                    path[hit->0 - 1].1,
                    path[hit->0 - 1].2,
                ).spec_is_air() {
                    let v = path[hit->0 - 1];
                    &&& r == Some((v.0 as usize, v.1 as usize, v.2 as usize))
                    &&& final(self).blocks_view().cells() == World::blocks_after_set(
                        old(self).blocks_view(),
                        v.0,
                        v.1,
                        v.2,
                        block,
                    )
                } else {
                    r == None::<(usize, usize, usize)> && *final(self) == *old(self)
                }
            }),
    {
        let path = ray_cast(start, delta);
        let ghost ps = path@.map_values(|v: Voxel| voxel_int(v));
        match self.first_hit(&path) {
            Some(i) => {
                if i == 0 {
                    return None;
                }
                proof {
                    lemma_first_hit_from(self.blocks_view(), ps, 0);
                    assert(ps[i - 1] == voxel_int(path@[i - 1]));
                }
                match self.voxel_position(path[i - 1]) {
                    Some((x, y, z)) => {
                        if self.place_block(x, y, z, block) {
                            Some((x, y, z))
                        } else {
                            None
                        }
                    },
                    None => None,
                }
            },
            None => None,
        }
    }
}

/// Placing a block into an air cell and then removing it again gives back the face sets
/// that the world had before the placement.
pub proof fn lemma_place_then_remove(w0: World, w1: World, w2: World, x: int, y: int, z: int, b: Block)
    requires
        w0.wf(),
        w1.wf(),
        w2.wf(),
        w0.size_view().in_bounds(x, y, z),
        w0.blocks_view().block_at(x, y, z).spec_is_air(),
        w1.size_view() == w0.size_view(),
        w1.blocks_view().cells() == World::blocks_after_set(w0.blocks_view(), x, y, z, b),
        w2.size_view() == w1.size_view(),
        w2.blocks_view().cells() == World::blocks_after_set(w1.blocks_view(), x, y, z, Block::air_spec()),
    ensures
        w2.chunks_view().len() == w0.chunks_view().len(),
        forall|c: int, t: bool|
            0 <= c < w0.chunks_view().len() ==> #[trigger] w2.face_set(c, t) == w0.face_set(c, t),
{
    let s = w0.size_view();
    s.lemma_position(x, y, z);
    let i = s.block_index(x, y, z);
    crate::block::lemma_block_ext(w0.blocks_view().cells()[i], Block::air_spec());
    assert(w2.blocks_view().cells() =~= w0.blocks_view().cells());
    lemma_faces_determined_by_blocks(w2, w0);
}

/// The face of the block at absolute p facing o, with texture tex, as its chunk stores it.
pub open spec fn own_face(p: (int, int, int), o: FaceOrientation, tex: u32) -> Face {
    Face::spec_new((p.0 % 16) as u8, p.1 as u8, (p.2 % 16) as u8, o, tex)
}

/// When a visible block at p turns from opaque to transparent or back (w0 before, w1 after):
/// its own faces move from the list of its old class to the list of its new class, with the
/// new textures, and no other face of it appears or goes; the face toward p of each visible
/// neighbour is there afterwards exactly when the new block is transparent (and was there
/// before exactly when the old one was); and every other face stays as it was.
pub proof fn lemma_transparency_flip(w0: World, w1: World, x: int, y: int, z: int)
    requires
        w0.wf(),
        w1.wf(),
        w0.size_view().in_bounds(x, y, z),
        w1.size_view() == w0.size_view(),
        w1.blocks_view().cells() == World::blocks_after_set(
            w0.blocks_view(),
            x,
            y,
            z,
            w1.blocks_view().block_at(x, y, z),
        ),
        w0.blocks_view().block_at(x, y, z).spec_show_my_faces(),
        w1.blocks_view().block_at(x, y, z).spec_show_my_faces(),
        w0.blocks_view().block_at(x, y, z).spec_is_transparent() != w1.blocks_view().block_at(
            x,
            y,
            z,
        ).spec_is_transparent(),
    ensures
        ({
            let s = w0.size_view();
            let p = (x, y, z);
            let cp = s.chunk_of(x, z);
            let b0 = w0.blocks_view().block_at(x, y, z);
            let b1 = w1.blocks_view().block_at(x, y, z);
            &&& forall|o: FaceOrientation|
                #![trigger own_face(p, o, b1.spec_texture(o))]
                w1.chunks_view()[cp].faces(b1.spec_is_transparent()).contains(
                    own_face(p, o, b1.spec_texture(o)),
                ) <==> w0.chunks_view()[cp].faces(b0.spec_is_transparent()).contains(
                    own_face(p, o, b0.spec_texture(o)),
                )
            &&& forall|f: Face|
                #![trigger w1.chunks_view()[cp].faces(b0.spec_is_transparent()).contains(f)]
                f.at_coords((x % 16) as u8, y as u8, (z % 16) as u8) ==> !w1.chunks_view()[cp].faces(
                    b0.spec_is_transparent(),
                ).contains(f)
            &&& forall|f: Face|
                #![trigger w0.chunks_view()[cp].faces(b1.spec_is_transparent()).contains(f)]
                f.at_coords((x % 16) as u8, y as u8, (z % 16) as u8) ==> !w0.chunks_view()[cp].faces(
                    b1.spec_is_transparent(),
                ).contains(f)
            &&& forall|o: FaceOrientation|
                #![trigger step_toward(x, y, z, o)]
                {
                    let n = step_toward(x, y, z, o);
                    let nb = w0.blocks_view().block_at(n.0, n.1, n.2);
                    let back = opposite_of(o);
                    let f = own_face(n, back, nb.spec_texture(back));
                    let cn = s.chunk_of(n.0, n.2);
                    s.in_bounds(n.0, n.1, n.2) && nb.spec_show_my_faces() ==> {
                        &&& w1.chunks_view()[cn].faces(nb.spec_is_transparent()).contains(f)
                            == b1.spec_is_transparent()
                        &&& w0.chunks_view()[cn].faces(nb.spec_is_transparent()).contains(f)
                            == b0.spec_is_transparent()
                    }
                }
            &&& forall|c: int, t: bool, f: Face|
                #![trigger w1.chunks_view()[c].faces(t).contains(f)]
                0 <= c < w0.chunks_view().len() && face_pos(s, c, f) != p && ({
                    let q = face_pos(s, c, f);
                    step_toward(q.0, q.1, q.2, f.spec_orientation()) != p
                }) ==> (w1.chunks_view()[c].faces(t).contains(f) <==> w0.chunks_view()[c].faces(
                    t,
                ).contains(f))
        }),
{
    let s = w0.size_view();
    let p = (x, y, z);
    let wb0 = w0.blocks_view();
    let wb1 = w1.blocks_view();
    let cp = s.chunk_of(x, z);
    let b0 = wb0.block_at(x, y, z);
    let b1 = wb1.block_at(x, y, z);
    s.lemma_position(x, y, z);
    wb0.lemma_update_cell(x, y, z, b1, wb1);
    assert forall|qx: int, qy: int, qz: int|
        wb0.in_bounds(qx, qy, qz) && (qx, qy, qz) != p implies #[trigger] wb1.block_at(qx, qy, qz)
        == wb0.block_at(qx, qy, qz) by {
        assert(wb0.in_bounds(qx, qy, qz));
    }
    assert(block_changed_at(wb0, wb1, p));
    assert forall|o: FaceOrientation| #![trigger own_face(p, o, b1.spec_texture(o))]
        w1.chunks_view()[cp].faces(b1.spec_is_transparent()).contains(own_face(p, o, b1.spec_texture(o)))
            <==> w0.chunks_view()[cp].faces(b0.spec_is_transparent()).contains(
            own_face(p, o, b0.spec_texture(o)),
        ) by {
        let f1 = own_face(p, o, b1.spec_texture(o));
        let f0 = own_face(p, o, b0.spec_texture(o));
        lemma_local_coords(s, f1, x, y, z);
        lemma_local_coords(s, f0, x, y, z);
        lemma_own_visibility(wb0, wb1, p, o);
    }
    assert forall|f: Face| #![trigger w1.chunks_view()[cp].faces(b0.spec_is_transparent()).contains(f)]
        f.at_coords((x % 16) as u8, y as u8, (z % 16) as u8) implies !w1.chunks_view()[cp].faces(
        b0.spec_is_transparent(),
    ).contains(f) by {
        if f.wf() {
            lemma_local_coords(s, f, x, y, z);
        }
    }
    assert forall|f: Face| #![trigger w0.chunks_view()[cp].faces(b1.spec_is_transparent()).contains(f)]
        f.at_coords((x % 16) as u8, y as u8, (z % 16) as u8) implies !w0.chunks_view()[cp].faces(
        b1.spec_is_transparent(),
    ).contains(f) by {
        if f.wf() {
            lemma_local_coords(s, f, x, y, z);
        }
    }
    assert forall|o: FaceOrientation| #![trigger step_toward(x, y, z, o)]
        {
            let n = step_toward(x, y, z, o);
            let nb = w0.blocks_view().block_at(n.0, n.1, n.2);
            let back = opposite_of(o);
            let f = own_face(n, back, nb.spec_texture(back));
            let cn = s.chunk_of(n.0, n.2);
            s.in_bounds(n.0, n.1, n.2) && nb.spec_show_my_faces() ==> {
                &&& w1.chunks_view()[cn].faces(nb.spec_is_transparent()).contains(f)
                    == b1.spec_is_transparent()
                &&& w0.chunks_view()[cn].faces(nb.spec_is_transparent()).contains(f)
                    == b0.spec_is_transparent()
            }
        } by {
        let n = step_toward(x, y, z, o);
        if s.in_bounds(n.0, n.1, n.2) {
            let nb = wb0.block_at(n.0, n.1, n.2);
            let back = opposite_of(o);
            let f = own_face(n, back, nb.spec_texture(back));
            let cn = s.chunk_of(n.0, n.2);
            s.lemma_position(n.0, n.1, n.2);
            crate::orientation::lemma_code_round_trip(back);
            lemma_local_coords(s, f, n.0, n.1, n.2);
            lemma_step_back(p, p, o, o);
            assert(wb1.block_at(n.0, n.1, n.2) == nb);
        }
    }
    assert forall|c: int, t: bool, f: Face| #![trigger w1.chunks_view()[c].faces(t).contains(f)]
        0 <= c < w0.chunks_view().len() && face_pos(s, c, f) != p && ({
            let q = face_pos(s, c, f);
            step_toward(q.0, q.1, q.2, f.spec_orientation()) != p
        }) implies (w1.chunks_view()[c].faces(t).contains(f) <==> w0.chunks_view()[c].faces(
        t,
    ).contains(f)) by {
        lemma_expected_unchanged(wb0, wb1, p, c, t, f);
    }
}

impl World {
    /// Clears the changed flag of every face list and returns the lists that had it set, as
    /// (chunk index, transparent), opaque before transparent within a chunk: these are the
    /// lists the renderer has to take again.
    pub fn gl_update_all_chunks(&mut self) -> (r: Vec<(usize, bool)>)
        requires
            old(self).wf(),
        ensures
            final(self).wf(),
            final(self).blocks_view() == old(self).blocks_view(),
            final(self).chunks_view().len() == old(self).chunks_view().len(),
            forall|c: int, t: bool|
                0 <= c < old(self).chunks_view().len() ==> #[trigger] final(self).chunks_view()[c].faces(t)
                    == old(self).chunks_view()[c].faces(t) && !final(self).chunks_view()[c].dirty(t),
            forall|i: usize, t: bool|
                #[trigger] r@.contains((i, t)) <==> (i < old(self).chunks_view().len()
                    && old(self).chunks_view()[i as int].dirty(t)),
    {
        let ghost old_chunks = self.chunks_view();
        let mut out: Vec<(usize, bool)> = Vec::new();
        let n = self.chunks.len();
        let mut i: usize = 0;
        while i < n
            invariant
                i <= n,
                n == old_chunks.len(),
                self.chunks_view().len() == n,
                self.blocks_view() == old(self).blocks_view(),
                old_chunks == old(self).chunks_view(),
                old(self).wf(),
                forall|c: int, t: bool|
                    0 <= c < n ==> #[trigger] self.chunks_view()[c].faces(t) == old_chunks[c].faces(t),
                forall|c: int, t: bool|
                    0 <= c < i ==> !#[trigger] self.chunks_view()[c].dirty(t),
                forall|c: int, t: bool|
                    i <= c < n ==> #[trigger] self.chunks_view()[c].dirty(t) == old_chunks[c].dirty(t),
                forall|j: usize, t: bool|
                    #[trigger] out@.contains((j, t)) <==> (j < i && old_chunks[j as int].dirty(t)),
            decreases n - i,
        {
            let ghost before = out@;
            if self.chunks[i].gl_update_opaque() {
                out.push((i, false));
            }
            let ghost mid = out@;
            if self.chunks[i].gl_update_transparent() {
                out.push((i, true));
            }
            proof {
                assert forall|j: usize, t: bool|
                    #[trigger] out@.contains((j, t)) <==> (j < i + 1 && old_chunks[j as int].dirty(t)) by {
                    if out@.contains((j, t)) && !before.contains((j, t)) {
                        let m = choose|m: int| 0 <= m < out@.len() && out@[m] == (j, t);
                        if m < before.len() {
                            assert(before[m] == (j, t));
                        }
                        if mid.len() > before.len() && m < mid.len() && m >= before.len() {
                        }
                    }
                    if before.contains((j, t)) {
                        let m = choose|m: int| 0 <= m < before.len() && before[m] == (j, t);
                        assert(out@[m] == (j, t));
                    }
                    if j == i && old_chunks[j as int].dirty(t) {
                        if t {
                            assert(out@[out@.len() - 1] == (j, t));
                        } else {
                            assert(mid[mid.len() - 1] == (j, t));
                            assert(out@[mid.len() - 1] == (j, t));
                        }
                    }
                }
            }
            i += 1;
        }
        proof {
            assert forall|c: int| 0 <= c < self.chunks_view().len() implies (#[trigger] self.chunks_view()[c]).wf() by {
                assert(self.chunks_view()[c].faces(true) == old_chunks[c].faces(true));
                assert(self.chunks_view()[c].faces(false) == old_chunks[c].faces(false));
            }
            assert forall|c: int, t: bool, f: Face| 0 <= c < self.chunks_view().len() implies (
            #[trigger] self.chunks_view()[c].faces(t).contains(f) <==> expected_face(
                self.blocks_view(),
                c,
                t,
                f,
            )) by {
                assert(self.chunks_view()[c].faces(t) == old_chunks[c].faces(t));
            }
        }
        out
    }
}

} // verus!
