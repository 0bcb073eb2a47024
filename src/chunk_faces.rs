use crate::block::Block;
use crate::face::{Face, FaceKey};
use crate::orientation::{orientation_code, FaceOrientation};
use vstd::prelude::*;

verus! {

/// No two faces of the sequence share a key.
pub open spec fn keys_unique(s: Seq<Face>) -> bool {
    forall|i: int, j: int|
        0 <= i < s.len() && 0 <= j < s.len() && i != j ==> #[trigger] s[i].key() != #[trigger] s[j].key()
}

/// Every face of the sequence lies inside a chunk and names an orientation.
pub open spec fn all_wf(s: Seq<Face>) -> bool {
    forall|i: int| 0 <= i < s.len() ==> (#[trigger] s[i]).wf()
}

/// Some face of the sequence has the key.
pub open spec fn has_key(s: Seq<Face>, k: FaceKey) -> bool {
    exists|i: int| 0 <= i < s.len() && (#[trigger] s[i]).key() == k
}

/// The face belongs to the block at local (x, y, z), and faces the way the code says if one is given.
pub open spec fn selected(f: Face, x: u8, y: u8, z: u8, code: Option<u8>) -> bool {
    &&& f.at_coords(x, y, z)
    &&& match code {
        Some(c) => f.coords.d3 == c,
        None => true,
    }
}

/// The faces of s, in order, that are selected (want) or not selected (!want).
pub open spec fn sift(s: Seq<Face>, x: u8, y: u8, z: u8, code: Option<u8>, want: bool) -> Seq<Face>
    decreases s.len(),
{
    if s.len() == 0 {
        s
    } else {
        let r = sift(s.drop_last(), x, y, z, code, want);
        if selected(s.last(), x, y, z, code) == want {
            r.push(s.last())
        } else {
            r
        }
    }
}

/// The face showing the texture that block b has on that face's side.
pub open spec fn retextured(f: Face, b: Block) -> Face {
    f.with_tex(b.spec_texture(f.spec_orientation()))
}

pub proof fn lemma_sift_push(s: Seq<Face>, f: Face, x: u8, y: u8, z: u8, code: Option<u8>, want: bool)
    ensures
        sift(s.push(f), x, y, z, code, want) == if selected(f, x, y, z, code) == want {
            sift(s, x, y, z, code, want).push(f)
        } else {
            sift(s, x, y, z, code, want)
        },
{
    assert(s.push(f).drop_last() =~= s);
}

pub proof fn lemma_sift_contains(s: Seq<Face>, x: u8, y: u8, z: u8, code: Option<u8>, want: bool)
    ensures
        forall|f: Face| #[trigger]
            sift(s, x, y, z, code, want).contains(f) <==> s.contains(f) && selected(f, x, y, z, code)
                == want,
        all_wf(s) ==> all_wf(sift(s, x, y, z, code, want)),
        keys_unique(s) ==> keys_unique(sift(s, x, y, z, code, want)),
    decreases s.len(),
{
    if s.len() > 0 {
        let d = s.drop_last();
        lemma_sift_contains(d, x, y, z, code, want);
        let r = sift(d, x, y, z, code, want);
        assert(s =~= d.push(s.last()));
        assert forall|f: Face| #[trigger]
            sift(s, x, y, z, code, want).contains(f) <==> s.contains(f) && selected(f, x, y, z, code)
                == want by {
            if s.contains(f) && f != s.last() {
                let i = choose|i: int| 0 <= i < s.len() && s[i] == f;
                assert(d[i] == f);
            }
            if r.contains(f) {
                assert(d.contains(f));
                let i = choose|i: int| 0 <= i < d.len() && d[i] == f;
                assert(s[i] == f);
            }
            if selected(s.last(), x, y, z, code) == want {
                assert(r.push(s.last())[r.len() as int] == s.last());
                if r.contains(f) {
                    let i = choose|i: int| 0 <= i < r.len() && r[i] == f;
                    assert(r.push(s.last())[i] == f);
                }
                if r.push(s.last()).contains(f) && f != s.last() {
                    let i = choose|i: int| 0 <= i < r.len() + 1 && r.push(s.last())[i] == f;
                    assert(r[i] == f);
                }
            }
        }
        if all_wf(s) {
            assert forall|i: int| 0 <= i < d.len() implies (#[trigger] d[i]).wf() by {
                assert(d[i] == s[i]);
            }
            let out = sift(s, x, y, z, code, want);
            assert forall|i: int| 0 <= i < out.len() implies (#[trigger] out[i]).wf() by {
                if i < r.len() {
                    assert(out[i] == r[i]);
                }
            }
        }
        if keys_unique(s) {
            assert forall|i: int, j: int|
                0 <= i < d.len() && 0 <= j < d.len() && i != j implies #[trigger] d[i].key()
                != #[trigger] d[j].key() by {
                assert(d[i] == s[i] && d[j] == s[j]);
            }
            let out = sift(s, x, y, z, code, want);
            if selected(s.last(), x, y, z, code) == want {
                assert forall|i: int| 0 <= i < r.len() implies #[trigger] r[i].key() != s.last().key() by {
                    assert(r.contains(r[i]));
                    assert(d.contains(r[i]));
                    let k = choose|k: int| 0 <= k < d.len() && d[k] == r[i];
                    assert(s[k] == r[i]);
                    assert(s[s.len() - 1] == s.last());
                }
                assert forall|i: int, j: int|
                    0 <= i < out.len() && 0 <= j < out.len() && i != j implies #[trigger] out[i].key()
                    != #[trigger] out[j].key() by {
                    if i < r.len() && j < r.len() {
                        assert(out[i] == r[i] && out[j] == r[j]);
                    } else if i < r.len() {
                        assert(out[i] == r[i] && out[j] == s.last());
                    } else {
                        assert(out[j] == r[j] && out[i] == s.last());
                    }
                }
            }
        }
    }
}

/// Splits v into the faces not selected and the faces selected, each keeping the order of v.
fn split_selected(v: Vec<Face>, x: u8, y: u8, z: u8, code: Option<u8>) -> (r: (Vec<Face>, Vec<Face>))
    ensures
        r.0@ == sift(v@, x, y, z, code, false),
        r.1@ == sift(v@, x, y, z, code, true),
{
    let mut kept: Vec<Face> = Vec::new();
    let mut taken: Vec<Face> = Vec::new();
    let mut i: usize = 0;
    while i < v.len()
        invariant
            i <= v.len(),
            kept@ == sift(v@.subrange(0, i as int), x, y, z, code, false),
            taken@ == sift(v@.subrange(0, i as int), x, y, z, code, true),
        decreases v.len() - i,
    {
        let f = v[i];
        proof {
            assert(v@.subrange(0, i + 1) =~= v@.subrange(0, i as int).push(f));
            lemma_sift_push(v@.subrange(0, i as int), f, x, y, z, code, false);
            lemma_sift_push(v@.subrange(0, i as int), f, x, y, z, code, true);
        }
        let sel = match code {
            Some(c) => f.matches_coords(x, y, z) && f.orientation() == c,
            None => f.matches_coords(x, y, z),
        };
        if sel {
            taken.push(f);
        } else {
            kept.push(f);
        }
        i += 1;
    }
    assert(v@.subrange(0, v@.len() as int) =~= v@);
    (kept, taken)
}

/// Each face showing the texture that block b has on its side.
pub open spec fn retextured_all(s: Seq<Face>, b: Block) -> Seq<Face> {
    s.map_values(|f: Face| retextured(f, b))
}

/// Every face of s that belongs to the block at local (x, y, z) shows b's texture instead.
pub open spec fn retextured_at(s: Seq<Face>, x: u8, y: u8, z: u8, b: Block) -> Seq<Face> {
    s.map_values(|f: Face| if f.at_coords(x, y, z) { retextured(f, b) } else { f })
}

/// The faces of one chunk, split by whether their block is transparent, each list with a
/// flag telling that it changed since the renderer last took it.
pub struct ChunkFaces {
    opaque_faces: Vec<Face>,
    transparent_faces: Vec<Face>,
    has_opaque_faces_to_update: bool,
    has_transparent_faces_to_update: bool,
}

impl ChunkFaces {
    /// The faces of transparent blocks (true) or of opaque blocks (false).
    pub closed spec fn faces(&self, transparent: bool) -> Seq<Face> {
        if transparent {
            self.transparent_faces@
        } else {
            self.opaque_faces@
        }
    }

    /// The list changed since the renderer last took it.
    pub closed spec fn dirty(&self, transparent: bool) -> bool {
        if transparent {
            self.has_transparent_faces_to_update
        } else {
            self.has_opaque_faces_to_update
        }
    }

    pub open spec fn wf(&self) -> bool {
        &&& keys_unique(self.faces(true))
        &&& keys_unique(self.faces(false))
        &&& all_wf(self.faces(true))
        &&& all_wf(self.faces(false))
    }

    /// Only list t changed, to s, and it is marked as changed.
    pub open spec fn only_list_changed(&self, old: &ChunkFaces, t: bool, s: Seq<Face>) -> bool {
        &&& self.faces(t) == s
        &&& self.faces(!t) == old.faces(!t)
        &&& self.dirty(t)
        &&& self.dirty(!t) == old.dirty(!t)
    }

    /// A chunk without faces.
    pub fn new() -> (r: Self)
        ensures
            r.wf(),
            r.faces(true) == Seq::<Face>::empty(),
            r.faces(false) == Seq::<Face>::empty(),
            !r.dirty(true),
            !r.dirty(false),
    {
        ChunkFaces {
            opaque_faces: Vec::new(),
            transparent_faces: Vec::new(),
            has_opaque_faces_to_update: false,
            has_transparent_faces_to_update: false,
        }
    }

    /// If the opaque list changed since the last call, clears its flag and returns true;
    /// the caller then hands the list to the renderer.
    pub fn gl_update_opaque(&mut self) -> (r: bool)
        ensures
            r == old(self).dirty(false),
            !final(self).dirty(false),
            final(self).dirty(true) == old(self).dirty(true),
            final(self).faces(true) == old(self).faces(true),
            final(self).faces(false) == old(self).faces(false),
    {
        let r = self.has_opaque_faces_to_update;
        self.has_opaque_faces_to_update = false;
        r
    }

    /// If the transparent list changed since the last call, clears its flag and returns true;
    /// the caller then hands the list to the renderer.
    pub fn gl_update_transparent(&mut self) -> (r: bool)
        ensures
            r == old(self).dirty(true),
            !final(self).dirty(true),
            final(self).dirty(false) == old(self).dirty(false),
            final(self).faces(true) == old(self).faces(true),
            final(self).faces(false) == old(self).faces(false),
    {
        let r = self.has_transparent_faces_to_update;
        self.has_transparent_faces_to_update = false;
        r
    }

    pub fn opaque_as_slice(&self) -> (r: &[Face])
        ensures
            r@ == self.faces(false),
    {
        self.opaque_faces.as_slice()
    }

    pub fn transparent_as_slice(&self) -> (r: &[Face])
        ensures
            r@ == self.faces(true),
    {
        self.transparent_faces.as_slice()
    }

    pub fn len_opaque(&self) -> (r: usize)
        ensures
            r == self.faces(false).len(),
    {
        self.opaque_faces.len()
    }

    pub fn len_transparent(&self) -> (r: usize)
        ensures
            r == self.faces(true).len(),
    {
        self.transparent_faces.len()
    }

    /// Whether this chunk has a face that the face updates of the world have not been told of.
    pub fn is_dirty(&self, transparent: bool) -> (r: bool)
        ensures
            r == self.dirty(transparent),
    {
        if transparent {
            self.has_transparent_faces_to_update
        } else {
            self.has_opaque_faces_to_update
        }
    }

    /// The position of the first face in list t whose packed key is the given one.
    fn position_by_key(&self, transparent: bool, coords: u32) -> (r: Option<usize>)
        ensures
            match r {
                Some(i) => i < self.faces(transparent).len() && self.faces(
                    transparent,
                )[i as int].spec_coords_and_ort() == coords && forall|j: int|
                    0 <= j < i ==> #[trigger] self.faces(transparent)[j].spec_coords_and_ort() != coords,
                None => forall|i: int|
                    0 <= i < self.faces(transparent).len() ==> #[trigger] self.faces(
                        transparent,
                    )[i].spec_coords_and_ort() != coords,
            },
    {
        let v = if transparent {
            &self.transparent_faces
        } else {
            &self.opaque_faces
        };
        let mut i: usize = 0;
        while i < v.len()
            invariant
                i <= v.len(),
                v@ == self.faces(transparent),
                forall|j: int| 0 <= j < i ==> #[trigger] v@[j].spec_coords_and_ort() != coords,
            decreases v.len() - i,
        {
            if v[i].coords_and_ort() == coords {
                return Some(i);
            }
            i += 1;
        }
        None
    }

    /// The position of the first face in list t of the block at local (x, y, z).
    fn position_at(&self, transparent: bool, x: u8, y: u8, z: u8) -> (r: Option<usize>)
        ensures
            match r {
                Some(i) => i < self.faces(transparent).len() && self.faces(
                    transparent,
                )[i as int].at_coords(x, y, z) && forall|j: int|
                    0 <= j < i ==> !(#[trigger] self.faces(transparent)[j]).at_coords(x, y, z),
                None => forall|i: int|
                    0 <= i < self.faces(transparent).len() ==> !(#[trigger] self.faces(
                        transparent,
                    )[i]).at_coords(x, y, z),
            },
    {
        let v = if transparent {
            &self.transparent_faces
        } else {
            &self.opaque_faces
        };
        let mut i: usize = 0;
        while i < v.len()
            invariant
                i <= v.len(),
                v@ == self.faces(transparent),
                forall|j: int| 0 <= j < i ==> !(#[trigger] v@[j]).at_coords(x, y, z),
            decreases v.len() - i,
        {
            if v[i].matches_coords(x, y, z) {
                return Some(i);
            }
            i += 1;
        }
        None
    }

    pub fn position_transparent_by_coords_and_ort(&self, coords: u32) -> (r: Option<usize>)
        ensures
            match r {
                Some(i) => i < self.faces(true).len() && self.faces(true)[i as int].spec_coords_and_ort()
                    == coords && forall|j: int|
                    0 <= j < i ==> #[trigger] self.faces(true)[j].spec_coords_and_ort() != coords,
                None => forall|i: int|
                    0 <= i < self.faces(true).len() ==> #[trigger] self.faces(
                        true,
                    )[i].spec_coords_and_ort() != coords,
            },
    {
        self.position_by_key(true, coords)
    }

    pub fn position_opaque_by_coords_and_ort(&self, coords: u32) -> (r: Option<usize>)
        ensures
            match r {
                Some(i) => i < self.faces(false).len() && self.faces(false)[i as int].spec_coords_and_ort()
                    == coords && forall|j: int|
                    0 <= j < i ==> #[trigger] self.faces(false)[j].spec_coords_and_ort() != coords,
                None => forall|i: int|
                    0 <= i < self.faces(false).len() ==> #[trigger] self.faces(
                        false,
                    )[i].spec_coords_and_ort() != coords,
            },
    {
        self.position_by_key(false, coords)
    }

    pub fn find_transparent_by_coords_and_ort(&self, coords: u32) -> (r: Option<&Face>)
        ensures
            match r {
                Some(f) => self.faces(true).contains(*f) && f.spec_coords_and_ort() == coords,
                None => forall|i: int|
                    0 <= i < self.faces(true).len() ==> #[trigger] self.faces(
                        true,
                    )[i].spec_coords_and_ort() != coords,
            },
    {
        match self.position_by_key(true, coords) {
            Some(i) => Some(&self.transparent_faces[i]),
            None => None,
        }
    }

    pub fn find_opaque_by_coords_and_ort(&self, coords: u32) -> (r: Option<&Face>)
        ensures
            match r {
                Some(f) => self.faces(false).contains(*f) && f.spec_coords_and_ort() == coords,
                None => forall|i: int|
                    0 <= i < self.faces(false).len() ==> #[trigger] self.faces(
                        false,
                    )[i].spec_coords_and_ort() != coords,
            },
    {
        match self.position_by_key(false, coords) {
            Some(i) => Some(&self.opaque_faces[i]),
            None => None,
        }
    }

    /// A face of a transparent block at local (x, y, z), if there is one.
    pub fn find_transparent(&self, x: u8, y: u8, z: u8) -> (r: Option<&Face>)
        ensures
            match r {
                Some(f) => self.faces(true).contains(*f) && f.at_coords(x, y, z),
                None => forall|i: int|
                    0 <= i < self.faces(true).len() ==> !(#[trigger] self.faces(true)[i]).at_coords(
                        x,
                        y,
                        z,
                    ),
            },
    {
        match self.position_at(true, x, y, z) {
            Some(i) => Some(&self.transparent_faces[i]),
            None => None,
        }
    }

    /// A face of an opaque block at local (x, y, z), if there is one.
    pub fn find_opaque(&self, x: u8, y: u8, z: u8) -> (r: Option<&Face>)
        ensures
            match r {
                Some(f) => self.faces(false).contains(*f) && f.at_coords(x, y, z),
                None => forall|i: int|
                    0 <= i < self.faces(false).len() ==> !(#[trigger] self.faces(false)[i]).at_coords(
                        x,
                        y,
                        z,
                    ),
            },
    {
        match self.position_at(false, x, y, z) {
            Some(i) => Some(&self.opaque_faces[i]),
            None => None,
        }
    }

    /// Takes list t out, leaving it empty.
    fn take_faces(&mut self, transparent: bool) -> (r: Vec<Face>)
        ensures
            r@ == old(self).faces(transparent),
            final(self).faces(transparent) == Seq::<Face>::empty(),
            final(self).faces(!transparent) == old(self).faces(!transparent),
            final(self).dirty(true) == old(self).dirty(true),
            final(self).dirty(false) == old(self).dirty(false),
    {
        let mut v: Vec<Face> = Vec::new();
        if transparent {
            core::mem::swap(&mut self.transparent_faces, &mut v);
        } else {
            core::mem::swap(&mut self.opaque_faces, &mut v);
        }
        v
    }

    /// Puts v in as list t and marks that list as changed.
    fn put_faces(&mut self, transparent: bool, v: Vec<Face>)
        ensures
            final(self).only_list_changed(old(self), transparent, v@),
    {
        if transparent {
            self.transparent_faces = v;
            self.has_transparent_faces_to_update = true;
        } else {
            self.opaque_faces = v;
            self.has_opaque_faces_to_update = true;
        }
    }

    /// Adds the face of `block` at local (x, y, z) facing `ort` to the list of its block's class.
    pub(crate) fn push(&mut self, x: u8, y: u8, z: u8, ort: FaceOrientation, block: Block)
        requires
            old(self).wf(),
            x < 16,
            z < 16,
            block.is_known(),
            !has_key(old(self).faces(block.spec_is_transparent()), (x, y, z, orientation_code(ort))),
        ensures
            final(self).wf(),
            final(self).only_list_changed(
                old(self),
                block.spec_is_transparent(),
                old(self).faces(block.spec_is_transparent()).push(
                    Face::spec_new(x, y, z, ort, block.spec_texture(ort)),
                ),
            ),
    {
        let face = Face::from_coords_and_ort(x, y, z, ort, block.texture_id(ort));
        let t = block.is_transparent();
        let mut v = self.take_faces(t);
        proof {
            let s = v@;
            assert forall|i: int, j: int|
                0 <= i < s.len() + 1 && 0 <= j < s.len() + 1 && i != j implies #[trigger] s.push(
                face,
            )[i].key() != #[trigger] s.push(face)[j].key() by {
                if i == s.len() {
                    assert(s[j].key() != face.key());
                } else if j == s.len() {
                    assert(s[i].key() != face.key());
                } else {
                    assert(s.push(face)[i] == s[i] && s.push(face)[j] == s[j]);
                }
            }
            assert forall|i: int| 0 <= i < s.len() + 1 implies (#[trigger] s.push(face)[i]).wf() by {
                if i < s.len() {
                    assert(s.push(face)[i] == s[i]);
                }
            }
        }
        v.push(face);
        self.put_faces(t, v);
    }

    /// Removes from list t the faces of the block at local (x, y, z); with a code, only the
    /// one facing that way.
    fn remove_selected(&mut self, transparent: bool, x: u8, y: u8, z: u8, code: Option<u8>)
        requires
            old(self).wf(),
        ensures
            final(self).wf(),
            final(self).only_list_changed(
                old(self),
                transparent,
                sift(old(self).faces(transparent), x, y, z, code, false),
            ),
    {
        let v = self.take_faces(transparent);
        proof {
            lemma_sift_contains(v@, x, y, z, code, false);
        }
        let (kept, _taken) = split_selected(v, x, y, z, code);
        self.put_faces(transparent, kept);
    }

    /// Removes every face of the transparent block at local (x, y, z).
    pub(crate) fn remove_transparent(&mut self, x: u8, y: u8, z: u8)
        requires
            old(self).wf(),
        ensures
            final(self).wf(),
            final(self).only_list_changed(old(self), true, sift(old(self).faces(true), x, y, z, None, false)),
    {
        self.remove_selected(true, x, y, z, None)
    }

    /// Removes every face of the opaque block at local (x, y, z).
    pub(crate) fn remove_opaque(&mut self, x: u8, y: u8, z: u8)
        requires
            old(self).wf(),
        ensures
            final(self).wf(),
            final(self).only_list_changed(old(self), false, sift(old(self).faces(false), x, y, z, None, false)),
    {
        self.remove_selected(false, x, y, z, None)
    }

    /// Removes the face of the transparent block at local (x, y, z) that faces `ort`.
    pub(crate) fn remove_transparent_face(&mut self, x: u8, y: u8, z: u8, ort: FaceOrientation)
        requires
            old(self).wf(),
        ensures
            final(self).wf(),
            final(self).only_list_changed(
                old(self),
                true,
                sift(old(self).faces(true), x, y, z, Some(orientation_code(ort)), false),
            ),
    {
        self.remove_selected(true, x, y, z, Some(ort.code()))
    }

    /// Removes the face of the opaque block at local (x, y, z) that faces `ort`.
    pub(crate) fn remove_opaque_face(&mut self, x: u8, y: u8, z: u8, ort: FaceOrientation)
        requires
            old(self).wf(),
        ensures
            final(self).wf(),
            final(self).only_list_changed(
                old(self),
                false,
                sift(old(self).faces(false), x, y, z, Some(orientation_code(ort)), false),
            ),
    {
        self.remove_selected(false, x, y, z, Some(ort.code()))
    }

    /// The block at local (x, y, z) became `new_block`, of the same class as before: its faces
    /// show the new textures.
    pub(crate) fn update_textures(&mut self, x: u8, y: u8, z: u8, new_block: Block)
        requires
            old(self).wf(),
            new_block.is_known(),
        ensures
            final(self).wf(),
            final(self).only_list_changed(
                old(self),
                new_block.spec_is_transparent(),
                retextured_at(old(self).faces(new_block.spec_is_transparent()), x, y, z, new_block),
            ),
    {
        let t = new_block.is_transparent();
        let mut v = self.take_faces(t);
        let ghost v0 = v@;
        let mut i: usize = 0;
        while i < v.len()
            invariant
                i <= v.len(),
                v0.len() == v@.len(),
                all_wf(v0),
                new_block.is_known(),
                forall|j: int| 0 <= j < i ==> #[trigger] v@[j] == (if v0[j].at_coords(x, y, z) {
                    retextured(v0[j], new_block)
                } else {
                    v0[j]
                }),
                forall|j: int| i <= j < v@.len() ==> #[trigger] v@[j] == v0[j],
            decreases v.len() - i,
        {
            let mut f = v[i];
            if f.matches_coords(x, y, z) {
                f.update_texture(new_block);
            }
            v.set(i, f);
            i += 1;
        }
        proof {
            assert(v@ =~= retextured_at(v0, x, y, z, new_block));
            assert forall|i: int, j: int|
                0 <= i < v@.len() && 0 <= j < v@.len() && i != j implies #[trigger] v@[i].key()
                != #[trigger] v@[j].key() by {
                assert(v@[i].key() == v0[i].key() && v@[j].key() == v0[j].key());
            }
            assert forall|i: int| 0 <= i < v@.len() implies (#[trigger] v@[i]).wf() by {
                assert(v@[i].coords == v0[i].coords);
            }
        }
        self.put_faces(t, v);
    }

    /// The block at local (x, y, z) became `new_block`, of the other class than before: its
    /// faces move to the list of the new class and show the new textures.
    pub(crate) fn change_textures(&mut self, x: u8, y: u8, z: u8, new_block: Block)
        requires
            old(self).wf(),
            new_block.is_known(),
            forall|i: int|
                0 <= i < old(self).faces(new_block.spec_is_transparent()).len() ==> !(#[trigger] old(
                    self,
                ).faces(new_block.spec_is_transparent())[i]).at_coords(x, y, z),
        ensures
            final(self).wf(),
            final(self).faces(!new_block.spec_is_transparent()) == sift(
                old(self).faces(!new_block.spec_is_transparent()),
                x,
                y,
                z,
                None,
                false,
            ),
            final(self).faces(new_block.spec_is_transparent()) == old(self).faces(
                new_block.spec_is_transparent(),
            ) + retextured_all(
                sift(old(self).faces(!new_block.spec_is_transparent()), x, y, z, None, true),
                new_block,
            ),
            final(self).dirty(true),
            final(self).dirty(false),
    {
        let t = new_block.is_transparent();
        let from = self.take_faces(!t);
        proof {
            lemma_sift_contains(from@, x, y, z, None, false);
            lemma_sift_contains(from@, x, y, z, None, true);
        }
        let (kept, moved) = split_selected(from, x, y, z, None);
        proof {
            assert forall|j: int| 0 <= j < moved@.len() implies (#[trigger] moved@[j]).at_coords(
                x,
                y,
                z,
            ) by {
                assert(moved@.contains(moved@[j]));
            }
        }
        self.put_faces(!t, kept);
        let mut to = self.take_faces(t);
        let ghost to0 = to@;
        let mut i: usize = 0;
        while i < moved.len()
            invariant
                i <= moved.len(),
                new_block.is_known(),
                all_wf(moved@),
                forall|j: int| 0 <= j < moved@.len() ==> (#[trigger] moved@[j]).at_coords(x, y, z),
                to@ == to0 + retextured_all(moved@.subrange(0, i as int), new_block),
            decreases moved.len() - i,
        {
            let mut f = moved[i];
            f.update_texture(new_block);
            proof {
                assert(retextured_all(moved@.subrange(0, i + 1), new_block) =~= retextured_all(
                    moved@.subrange(0, i as int),
                    new_block,
                ).push(f));
            }
            to.push(f);
            i += 1;
        }
        proof {
            assert(moved@.subrange(0, moved@.len() as int) =~= moved@);
            let r = retextured_all(moved@, new_block);
            let s = to@;
            assert forall|j: int| 0 <= j < r.len() implies #[trigger] r[j].key() == moved@[j].key()
                && r[j].wf() && r[j].at_coords(x, y, z) by {}
            assert forall|i: int, j: int|
                0 <= i < s.len() && 0 <= j < s.len() && i != j implies #[trigger] s[i].key()
                != #[trigger] s[j].key() by {
                if i < to0.len() && j < to0.len() {
                } else if i < to0.len() {
                    assert(!to0[i].at_coords(x, y, z));
                    assert(s[j] == r[j - to0.len()]);
                } else if j < to0.len() {
                    assert(!to0[j].at_coords(x, y, z));
                    assert(s[i] == r[i - to0.len()]);
                } else {
                    assert(s[i] == r[i - to0.len()] && s[j] == r[j - to0.len()]);
                }
            }
            assert forall|i: int| 0 <= i < s.len() implies (#[trigger] s[i]).wf() by {
                if i >= to0.len() {
                    assert(s[i] == r[i - to0.len()]);
                }
            }
        }
        self.put_faces(t, to);
    }
}

} // verus!
