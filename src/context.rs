//! The font cache: face bytes, face handles and per-size instance handles.
//!
//! Loading a file and registering handles with the rendering backend happen outside the
//! library; the cache records their results and decides, for each request, what is still
//! missing.
use vstd::prelude::*;
use webrender_api::{FontInstanceKey, FontKey};

use crate::inline::FaceInfo;

verus! {

#[verifier::external_type_specification]
#[verifier::external_body]
pub struct ExFontKey(webrender_api::FontKey);

#[verifier::external_type_specification]
#[verifier::external_body]
pub struct ExFontInstanceKey(webrender_api::FontInstanceKey);

/// A face as a cache key: its path and index.
pub type FaceId = (Seq<char>, u32);

/// A loaded face: its bytes and the handle it was registered under.
#[derive(Debug)]
pub struct LoadedFace {
    pub face: FaceInfo,
    pub bytes: Vec<u8>,
    pub key: FontKey,
}

/// A registered instance of a face at one pixel size.
#[derive(Debug)]
pub struct FaceInstance {
    pub face: FaceInfo,
    pub size_px: u8,
    pub key: FontInstanceKey,
}

/// Faces loaded so far and instances registered so far. Entries are only ever added.
#[derive(Debug)]
pub struct FontCache {
    fonts: Vec<LoadedFace>,
    font_instance_keys: Vec<FaceInstance>,
}

/// What a request for a font instance still needs.
#[derive(Clone, Copy, Debug)]
pub enum InstanceStep {
    /// The instance is registered under this handle.
    Ready(FontInstanceKey),
    /// The face must be loaded and registered first.
    LoadFace,
    /// The face is registered under this handle; an instance of it must be registered.
    Register(FontKey),
}

impl FontCache {
    pub closed spec fn faces(&self) -> Seq<LoadedFace> {
        self.fonts@
    }

    pub closed spec fn instances(&self) -> Seq<FaceInstance> {
        self.font_instance_keys@
    }

    /// Whether `face` is loaded.
    pub open spec fn has_face(&self, face: FaceId) -> bool {
        exists|k: int| 0 <= k < self.faces().len() && #[trigger] self.faces()[k].face@ == face
    }

    /// The entry of a loaded `face`.
    pub open spec fn face_entry(&self, face: FaceId) -> LoadedFace
        recommends
            self.has_face(face),
    {
        self.faces()[choose|k: int| 0 <= k < self.faces().len() && #[trigger] self.faces()[k].face@ == face]
    }

    /// The bytes of `face`, if it is loaded.
    pub open spec fn font_of(&self, face: FaceId) -> Option<Seq<u8>> {
        if self.has_face(face) {
            Some(self.face_entry(face).bytes@)
        } else {
            None
        }
    }

    /// The handle `face` was registered under, if it is loaded.
    pub open spec fn key_of(&self, face: FaceId) -> Option<FontKey> {
        if self.has_face(face) {
            Some(self.face_entry(face).key)
        } else {
            None
        }
    }

    /// Whether an instance of `face` at `size_px` is registered.
    pub open spec fn has_instance(&self, face: FaceId, size_px: u8) -> bool {
        exists|k: int|
            0 <= k < self.instances().len() && #[trigger] self.instances()[k].face@ == face
                && self.instances()[k].size_px == size_px
    }

    /// The instance handle of `face` at `size_px`, if one is registered.
    pub open spec fn instance_of(&self, face: FaceId, size_px: u8) -> Option<FontInstanceKey> {
        if self.has_instance(face, size_px) {
            Some(
                self.instances()[choose|k: int|
                    0 <= k < self.instances().len() && #[trigger] self.instances()[k].face@ == face
                        && self.instances()[k].size_px == size_px].key,
            )
        } else {
            None
        }
    }

    /// No face and no instance is recorded twice, and every instance's face is loaded.
    pub open spec fn wf(&self) -> bool {
        &&& forall|j: int, k: int|
            0 <= j < k < self.faces().len() ==> #[trigger] self.faces()[j].face@ != #[trigger] self.faces()[k].face@
        &&& forall|j: int, k: int|
            0 <= j < k < self.instances().len() ==> (#[trigger] self.instances()[j].face@, self.instances()[j].size_px)
                != (#[trigger] self.instances()[k].face@, self.instances()[k].size_px)
        &&& forall|k: int| 0 <= k < self.instances().len() ==> self.has_face(#[trigger] self.instances()[k].face@)
    }

    /// What a request for `face` at `size_px` still needs.
    pub open spec fn instance_step_of(&self, face: FaceId, size_px: u8) -> InstanceStep {
        match self.instance_of(face, size_px) {
            Some(k) => InstanceStep::Ready(k),
            None => match self.key_of(face) {
                Some(fk) => InstanceStep::Register(fk),
                None => InstanceStep::LoadFace,
            },
        }
    }

    /// An empty cache.
    pub fn new() -> (r: FontCache)
        ensures
            r.wf(),
            forall|f: FaceId| #[trigger] r.font_of(f) == None::<Seq<u8>>,
            forall|f: FaceId, s: u8| #[trigger] r.instance_of(f, s) == None::<FontInstanceKey>,
    {
        FontCache { fonts: Vec::new(), font_instance_keys: Vec::new() }
    }

    fn find_face(&self, face_info: &FaceInfo) -> (r: Option<usize>)
        requires
            self.wf(),
        ensures
            match r {
                Some(k) => k < self.faces().len() && self.has_face(face_info@) && self.face_entry(face_info@)
                    == self.faces()[k as int],
                None => !self.has_face(face_info@),
            },
    {
        let mut k: usize = 0;
        while k < self.fonts.len()
            invariant
                self.wf(),
                k <= self.fonts@.len(),
                forall|j: int| 0 <= j < k ==> self.fonts@[j].face@ != face_info@,
            decreases self.fonts@.len() - k,
        {
            if self.fonts[k].face == *face_info {
                proof {
                    assert(self.faces()[k as int].face@ == face_info@);
                    let c = choose|j: int| 0 <= j < self.faces().len() && #[trigger] self.faces()[j].face@ == face_info@;
                    if c < k {
                        assert(self.faces()[c].face@ != self.faces()[k as int].face@);
                    } else if c > k {
                        assert(self.faces()[k as int].face@ != self.faces()[c].face@);
                    }
                }
                return Some(k);
            }
            k = k + 1;
        }
        None
    }

    fn find_instance(&self, face_info: &FaceInfo, size_px: u8) -> (r: Option<usize>)
        requires
            self.wf(),
        ensures
            match r {
                Some(k) => k < self.instances().len() && self.instance_of(face_info@, size_px) == Some(
                    self.instances()[k as int].key,
                ),
                None => self.instance_of(face_info@, size_px).is_none(),
            },
    {
        let mut k: usize = 0;
        while k < self.font_instance_keys.len()
            invariant
                self.wf(),
                k <= self.font_instance_keys@.len(),
                forall|j: int|
                    0 <= j < k ==> !(self.font_instance_keys@[j].face@ == face_info@
                        && self.font_instance_keys@[j].size_px == size_px),
            decreases self.font_instance_keys@.len() - k,
        {
            let e = &self.font_instance_keys[k];
            if e.size_px == size_px && e.face == *face_info {
                proof {
                    assert(self.instances()[k as int].face@ == face_info@);
                    let c = choose|j: int|
                        0 <= j < self.instances().len() && #[trigger] self.instances()[j].face@ == face_info@
                            && self.instances()[j].size_px == size_px;
                    if c < k {
                        assert((self.instances()[c].face@, self.instances()[c].size_px) != (
                            self.instances()[k as int].face@,
                            self.instances()[k as int].size_px,
                        ));
                    } else if c > k {
                        assert((self.instances()[k as int].face@, self.instances()[k as int].size_px) != (
                            self.instances()[c].face@,
                            self.instances()[c].size_px,
                        ));
                    }
                }
                return Some(k);
            }
            k = k + 1;
        }
        None
    }

    /// The bytes of `face_info`, if it is loaded.
    pub fn get_font(&self, face_info: &FaceInfo) -> (r: Option<&Vec<u8>>)
        requires
            self.wf(),
        ensures
            match r {
                Some(b) => self.font_of(face_info@) == Some(b@),
                None => self.font_of(face_info@).is_none(),
            },
    {
        match self.find_face(face_info) {
            Some(k) => Some(&self.fonts[k].bytes),
            None => None,
        }
    }

    /// The handle `face_info` was registered under, if it is loaded.
    pub fn get_font_key(&self, face_info: &FaceInfo) -> (r: Option<FontKey>)
        requires
            self.wf(),
        ensures
            r == self.key_of(face_info@),
    {
        match self.find_face(face_info) {
            Some(k) => Some(self.fonts[k].key),
            None => None,
        }
    }

    /// The instance handle of `face_info` at `font_size`, if one is registered.
    pub fn get_font_instance_key(&self, face_info: &FaceInfo, font_size: u8) -> (r: Option<FontInstanceKey>)
        requires
            self.wf(),
        ensures
            r == self.instance_of(face_info@, font_size),
    {
        match self.find_instance(face_info, font_size) {
            Some(k) => Some(self.font_instance_keys[k].key),
            None => None,
        }
    }

    /// What a request for `face_info` at `size_px` still needs: nothing when the instance is
    /// registered, else the face's registration, else the instance's.
    pub fn instance_step(&self, face_info: &FaceInfo, size_px: u8) -> (r: InstanceStep)
        requires
            self.wf(),
        ensures
            r == self.instance_step_of(face_info@, size_px),
    {
        match self.get_font_instance_key(face_info, size_px) {
            Some(k) => InstanceStep::Ready(k),
            None => match self.get_font_key(face_info) {
                Some(fk) => InstanceStep::Register(fk),
                None => InstanceStep::LoadFace,
            },
        }
    }

    /// Records `face` as loaded, with its bytes and the handle it was registered under.
    pub fn add_font(&mut self, face: FaceInfo, bytes: Vec<u8>, key: FontKey)
        requires
            old(self).wf(),
            !old(self).has_face(face@),
        ensures
            final(self).wf(),
            final(self).font_of(face@) == Some(bytes@),
            final(self).key_of(face@) == Some(key),
            forall|f: FaceId| f != face@ ==> #[trigger] final(self).font_of(f) == old(self).font_of(f),
            forall|f: FaceId| f != face@ ==> #[trigger] final(self).key_of(f) == old(self).key_of(f),
            forall|f: FaceId, s: u8| #[trigger] final(self).instance_of(f, s) == old(self).instance_of(f, s),
    {
        let ghost old_self = *self;
        let ghost fid = face@;
        let ghost b = bytes@;
        self.fonts.push(LoadedFace { face, bytes, key });
        proof {
            let n = old_self.faces().len() as int;
            assert(self.faces()[n].face@ == fid);
            assert forall|j: int, k: int| 0 <= j < k < self.faces().len() implies #[trigger] self.faces()[j].face@
                != #[trigger] self.faces()[k].face@ by {
                assert(self.faces()[j] == old_self.faces()[j]);
                if k < n {
                    assert(self.faces()[k] == old_self.faces()[k]);
                } else {
                    assert(old_self.faces()[j].face@ != fid);
                }
            }
            assert(self.instances() == old_self.instances());
            assert forall|k: int| 0 <= k < self.instances().len() implies self.has_face(#[trigger] self.instances()[k].face@) by {
                let f = self.instances()[k].face@;
                assert(old_self.has_face(f));
                let j = choose|j: int| 0 <= j < old_self.faces().len() && #[trigger] old_self.faces()[j].face@ == f;
                assert(self.faces()[j] == old_self.faces()[j]);
            }
            lemma_face_entry_at(*self, n);
            assert forall|f: FaceId| f != fid implies #[trigger] self.font_of(f) == old_self.font_of(f)
                && self.key_of(f) == old_self.key_of(f) by {
                if old_self.has_face(f) {
                    let k = choose|k: int| 0 <= k < old_self.faces().len() && #[trigger] old_self.faces()[k].face@ == f;
                    lemma_face_entry_at(old_self, k);
                    assert(self.faces()[k] == old_self.faces()[k]);
                    lemma_face_entry_at(*self, k);
                } else {
                    if self.has_face(f) {
                        let k = choose|k: int| 0 <= k < self.faces().len() && #[trigger] self.faces()[k].face@ == f;
                        assert(k < n ==> old_self.faces()[k] == self.faces()[k]);
                    }
                }
            }
            assert forall|f: FaceId| f != fid implies #[trigger] self.key_of(f) == old_self.key_of(f) by {
                assert(self.font_of(f) == old_self.font_of(f));
            }
        }
    }

    /// Records an instance of a loaded `face` at `size_px`, registered under `key`.
    pub fn add_font_instance(&mut self, face: FaceInfo, size_px: u8, key: FontInstanceKey)
        requires
            old(self).wf(),
            old(self).has_face(face@),
            !old(self).has_instance(face@, size_px),
        ensures
            final(self).wf(),
            final(self).instance_of(face@, size_px) == Some(key),
            forall|f: FaceId, s: u8|
                (f, s) != (face@, size_px) ==> #[trigger] final(self).instance_of(f, s) == old(self).instance_of(f, s),
            forall|f: FaceId| #[trigger] final(self).font_of(f) == old(self).font_of(f),
            forall|f: FaceId| #[trigger] final(self).key_of(f) == old(self).key_of(f),
    {
        let ghost old_self = *self;
        let ghost fid = face@;
        self.font_instance_keys.push(FaceInstance { face, size_px, key });
        proof {
            let n = old_self.instances().len() as int;
            assert(self.faces() == old_self.faces());
            assert(self.instances()[n].face@ == fid);
            assert forall|j: int, k: int| 0 <= j < k < self.instances().len() implies (
                #[trigger] self.instances()[j].face@,
                self.instances()[j].size_px,
            ) != (#[trigger] self.instances()[k].face@, self.instances()[k].size_px) by {
                assert(self.instances()[j] == old_self.instances()[j]);
                if k < n {
                    assert(self.instances()[k] == old_self.instances()[k]);
                } else {
                    assert(!(old_self.instances()[j].face@ == fid && old_self.instances()[j].size_px == size_px));
                }
            }
            assert forall|k: int| 0 <= k < self.instances().len() implies self.has_face(
                #[trigger] self.instances()[k].face@,
            ) by {
                if k < n {
                    assert(self.instances()[k] == old_self.instances()[k]);
                }
            }
            lemma_instance_at(*self, n);
            assert forall|f: FaceId, s: u8| (f, s) != (fid, size_px) implies #[trigger] self.instance_of(f, s)
                == old_self.instance_of(f, s) by {
                if old_self.has_instance(f, s) {
                    let k = choose|k: int|
                        0 <= k < old_self.instances().len() && #[trigger] old_self.instances()[k].face@ == f
                            && old_self.instances()[k].size_px == s;
                    lemma_instance_at(old_self, k);
                    assert(self.instances()[k] == old_self.instances()[k]);
                    lemma_instance_at(*self, k);
                } else {
                    if self.has_instance(f, s) {
                        let k = choose|k: int|
                            0 <= k < self.instances().len() && #[trigger] self.instances()[k].face@ == f
                                && self.instances()[k].size_px == s;
                        assert(k < n ==> old_self.instances()[k] == self.instances()[k]);
                    }
                }
            }
        }
    }
}

/// A request for an instance that is registered is answered from the cache with that
/// handle: it needs no file read and no registration, however often it is made.
pub proof fn lemma_registered_instance_reused(c: FontCache, face: FaceId, size_px: u8)
    requires
        c.wf(),
        c.instance_of(face, size_px) is Some,
    ensures
        c.instance_step_of(face, size_px) == InstanceStep::Ready(c.instance_of(face, size_px)->Some_0),
        c.font_of(face) is Some,
{
    let k = choose|k: int|
        0 <= k < c.instances().len() && #[trigger] c.instances()[k].face@ == face && c.instances()[k].size_px == size_px;
    assert(c.has_face(c.instances()[k].face@));
}

/// A request for a face that is loaded is answered from the cache with the handle it was
/// registered under: no file read and no second registration.
pub proof fn lemma_loaded_face_reused(c: FontCache, face: FaceId, size_px: u8)
    requires
        c.wf(),
        c.font_of(face) is Some,
    ensures
        c.key_of(face) is Some,
        c.instance_step_of(face, size_px) != InstanceStep::LoadFace,
{
}

proof fn lemma_face_entry_at(c: FontCache, k: int)
    requires
        c.wf(),
        0 <= k < c.faces().len(),
    ensures
        c.has_face(c.faces()[k].face@),
        c.face_entry(c.faces()[k].face@) == c.faces()[k],
{
    let f = c.faces()[k].face@;
    assert(c.faces()[k].face@ == f);
    let j = choose|j: int| 0 <= j < c.faces().len() && #[trigger] c.faces()[j].face@ == f;
    if j < k {
        assert(c.faces()[j].face@ != c.faces()[k].face@);
    } else if j > k {
        assert(c.faces()[k].face@ != c.faces()[j].face@);
    }
}

proof fn lemma_instance_at(c: FontCache, k: int)
    requires
        c.wf(),
        0 <= k < c.instances().len(),
    ensures
        c.instance_of(c.instances()[k].face@, c.instances()[k].size_px) == Some(c.instances()[k].key),
{
    let f = c.instances()[k].face@;
    let s = c.instances()[k].size_px;
    assert(c.instances()[k].face@ == f);
    let j = choose|j: int| 0 <= j < c.instances().len() && #[trigger] c.instances()[j].face@ == f && c.instances()[j].size_px == s;
    if j < k {
        assert((c.instances()[j].face@, c.instances()[j].size_px) != (c.instances()[k].face@, c.instances()[k].size_px));
    } else if j > k {
        assert((c.instances()[k].face@, c.instances()[k].size_px) != (c.instances()[j].face@, c.instances()[j].size_px));
    }
}

} // verus!
