//! Mesh identity and loaded models.
use std::collections::HashMap;
use std::hash::BuildHasher;

use vstd::prelude::*;

verus! {

/// A mesh in the engine's mesh store.
#[derive(Clone, Copy, Debug, PartialEq, Eq, Hash, Structural)]
pub struct MeshHandle(pub u64);

/// A material in the engine's material store.
#[derive(Clone, Copy, Debug, PartialEq, Eq, Hash, Structural)]
pub struct MaterialHandle(pub u64);

/// An instance controller in the engine's store.
#[derive(Clone, Copy, Debug, PartialEq, Eq, Hash, Structural)]
pub struct InstanceControllerHandle(pub u64);

/// A loaded model: its meshes (each with an optional texture), the instances it is drawn
/// with, and the material of each mesh.
pub struct Model {
    pub meshes: Vec<(MeshHandle, Option<crate::render::TextureHandle>)>,
    pub instance: InstanceControllerHandle,
    pub materials: HashMap<MeshHandle, MaterialHandle>,
}

impl Model {
    /// The material of each mesh.
    pub fn materials(&self) -> (r: &HashMap<MeshHandle, MaterialHandle>)
        ensures
            *r == self.materials,
    {
        &self.materials
    }
}

/// The hash that `std`'s `DefaultHasher` gives a byte slice, through `Hash for [u8]`.
pub uninterp spec fn byte_slice_hash(bytes: Seq<u8>) -> u64;

/// `BuildHasher::hash_one` of a default `BuildHasherDefault<DefaultHasher>` on the slice:
/// a fresh `DefaultHasher`, the slice hashed into it, then `finish`. `DefaultHasher::new`
/// is documented to give the same hasher every time, so the hash is named as a function
/// of the bytes alone.
#[verifier::external_body]
fn hash_bytes(bytes: &[u8]) -> (r: u64)
    ensures
        r == byte_slice_hash(bytes@),
{
    std::hash::BuildHasherDefault::<std::hash::DefaultHasher>::default().hash_one(bytes)
}

/// What identifies the contents of a mesh: hashes of its vertex and index bytes, its
/// vertex stride, and its vertex and index counts.
#[derive(Clone, Copy, Debug, PartialEq, Eq, Hash, Structural)]
pub struct MeshKey {
    vertex_hash: u64,
    index_hash: u64,
    vertex_stride: usize,
    vertex_count: u32,
    index_count: u32,
}

impl MeshKey {
    pub closed spec fn view(&self) -> (u64, u64, usize, u32, u32) {
        (self.vertex_hash, self.index_hash, self.vertex_stride, self.vertex_count, self.index_count)
    }

    pub fn from_bytes(
        vertices: &[u8],
        indices: &[u8],
        vertex_stride: usize,
        vertex_count: u32,
        index_count: u32,
    ) -> (r: MeshKey)
        ensures
            r@ == (byte_slice_hash(vertices@), byte_slice_hash(indices@), vertex_stride, vertex_count, index_count),
    {
        MeshKey {
            vertex_hash: hash_bytes(vertices),
            index_hash: hash_bytes(indices),
            vertex_stride,
            vertex_count,
            index_count,
        }
    }
}

/// Meshes with the same bytes, stride and counts get the same key, so a mesh uploaded
/// once is found again.
pub proof fn same_contents_same_key(a: MeshKey, b: MeshKey, vertices: Seq<u8>, indices: Seq<u8>, stride: usize, vertex_count: u32, index_count: u32)
    requires
        a@ == (byte_slice_hash(vertices), byte_slice_hash(indices), stride, vertex_count, index_count),
        b@ == (byte_slice_hash(vertices), byte_slice_hash(indices), stride, vertex_count, index_count),
    ensures
        a == b,
{
}

/// The meshes already uploaded, by their contents' key, so that a mesh with the same
/// contents is uploaded once and shared.
pub struct MeshLookup {
    entries: Vec<(MeshKey, MeshHandle)>,
}

impl MeshLookup {
    /// The handle of each uploaded mesh, by key.
    pub closed spec fn view(&self) -> Map<MeshKey, MeshHandle> {
        Map::new(
            |k: MeshKey| exists|i: int| 0 <= i < self.entries@.len() && self.entries@[i].0 == k,
            |k: MeshKey| {
                let i = choose|i: int| 0 <= i < self.entries@.len() && self.entries@[i].0 == k;
                self.entries@[i].1
            },
        )
    }

    /// Each key occurs once.
    pub closed spec fn wf(&self) -> bool {
        forall|i: int, j: int| 0 <= i < j < self.entries@.len() ==> self.entries@[i].0 != self.entries@[j].0
    }

    proof fn lemma_view_at(&self, i: int)
        requires
            self.wf(),
            0 <= i < self.entries@.len(),
        ensures
            self.view().contains_key(self.entries@[i].0),
            self.view()[self.entries@[i].0] == self.entries@[i].1,
    {
        let k = self.entries@[i].0;
        assert(self.view().dom().contains(k));
        let j = choose|j: int| 0 <= j < self.entries@.len() && self.entries@[j].0 == k;
        if j < i {
            assert(self.entries@[j].0 != self.entries@[i].0);
        } else if j > i {
            assert(self.entries@[i].0 != self.entries@[j].0);
        }
    }

    /// No mesh uploaded yet.
    pub fn new() -> (r: MeshLookup)
        ensures
            r.wf(),
            r.view() == Map::<MeshKey, MeshHandle>::empty(),
    {
        let r = MeshLookup { entries: Vec::new() };
        assert(r.view() =~= Map::<MeshKey, MeshHandle>::empty());
        r
    }

    /// The mesh uploaded with these contents, if any: it is reused instead of uploading
    /// the contents again.
    pub fn get(&self, key: &MeshKey) -> (r: Option<MeshHandle>)
        requires
            self.wf(),
        ensures
            match r {
                Some(h) => self.view().contains_key(*key) && h == self.view()[*key],
                None => !self.view().contains_key(*key),
            },
    {
        let mut i: usize = 0;
        while i < self.entries.len()
            invariant
                i <= self.entries@.len(),
                self.wf(),
                forall|j: int| 0 <= j < i ==> self.entries@[j].0 != *key,
            decreases self.entries@.len() - i,
        {
            if self.entries[i].0 == *key {
                proof {
                    self.lemma_view_at(i as int);
                }
                return Some(self.entries[i].1);
            }
            i = i + 1;
        }
        proof {
            if self.view().contains_key(*key) {
                let j = choose|j: int| 0 <= j < self.entries@.len() && self.entries@[j].0 == *key;
                assert(self.entries@[j].0 == *key);
            }
        }
        None
    }

    /// Records the mesh uploaded with new contents.
    pub fn insert(&mut self, key: MeshKey, handle: MeshHandle)
        requires
            old(self).wf(),
            !old(self).view().contains_key(key),
        ensures
            final(self).wf(),
            final(self).view() == old(self).view().insert(key, handle),
    {
        let ghost before = self.entries@;
        self.entries.push((key, handle));
        proof {
            assert forall|i: int, j: int| 0 <= i < j < self.entries@.len() implies self.entries@[i].0 != self.entries@[j].0 by {
                if j == before.len() {
                    if self.entries@[i].0 == key {
                        assert(before[i].0 == key);
                        assert(old(self).view().contains_key(key));
                    }
                } else {
                    assert(self.entries@[i] == before[i] && self.entries@[j] == before[j]);
                }
            }
            assert forall|k: MeshKey| #[trigger] self.view().contains_key(k) <==> old(self).view().insert(key, handle).contains_key(k) by {
                if self.view().contains_key(k) {
                    let j = choose|j: int| 0 <= j < self.entries@.len() && self.entries@[j].0 == k;
                    if j < before.len() {
                        assert(before[j].0 == k);
                        assert(old(self).view().contains_key(k));
                    }
                }
                if old(self).view().contains_key(k) {
                    let j = choose|j: int| 0 <= j < before.len() && before[j].0 == k;
                    assert(self.entries@[j].0 == k);
                }
                if k == key {
                    assert(self.entries@[before.len() as int].0 == k);
                }
            }
            assert forall|k: MeshKey| #[trigger] self.view().contains_key(k) implies self.view()[k] == old(self).view().insert(key, handle)[k] by {
                let j = choose|j: int| 0 <= j < self.entries@.len() && self.entries@[j].0 == k;
                self.lemma_view_at(j);
                if j < before.len() {
                    old(self).lemma_view_at(j);
                    assert(before[j] == self.entries@[j]);
                }
            }
            assert(self.view() =~= old(self).view().insert(key, handle));
        }
    }
}

/// A mesh is uploaded once: after the handle of a mesh is recorded under its key, a mesh
/// with the same bytes, stride and counts finds that handle.
pub proof fn same_contents_share_a_mesh(
    table: Map<MeshKey, MeshHandle>,
    first: MeshKey,
    second: MeshKey,
    handle: MeshHandle,
    vertices: Seq<u8>,
    indices: Seq<u8>,
    stride: usize,
    vertex_count: u32,
    index_count: u32,
)
    requires
        first@ == (byte_slice_hash(vertices), byte_slice_hash(indices), stride, vertex_count, index_count),
        second@ == (byte_slice_hash(vertices), byte_slice_hash(indices), stride, vertex_count, index_count),
    ensures
        table.insert(first, handle).contains_key(second),
        table.insert(first, handle)[second] == handle,
{
    same_contents_same_key(first, second, vertices, indices, stride, vertex_count, index_count);
}

} // verus!
