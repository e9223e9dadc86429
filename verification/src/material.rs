//! The bind group slots of a material's pipeline layout, and the keys by which a
//! material with the same resources, layouts, shader and target is reused.
use vstd::prelude::*;
use crate::geometry::MaterialHandle;
use crate::layout::{VertexAttribute, VertexAttributeKey, VertexBufferLayoutOwned, VertexLayoutKey, VertexStepMode};

verus! {

/// Where each resource of a material sits in its pipeline layout. The layouts of the
/// engine's systems come first, from slot 0; the textures, the storage buffers and the
/// compute output follow, each group in order.
#[derive(Clone, Copy, Debug, PartialEq, Eq, Structural)]
pub struct MaterialGroups {
    /// The slot of the first texture; the others follow it.
    pub first_texture: usize,
    /// The slot of the first storage buffer; the others follow it in insertion order.
    pub first_buffer: usize,
    /// The slot of the compute output that the material reads, if any.
    pub compute: Option<usize>,
    /// The number of bind group layouts in the pipeline layout.
    pub count: usize,
}

/// Lays out a material's bind groups: the systems' layouts, then the textures (a
/// material has at most one, a compute-rendering pipeline any number), then the buffers,
/// then the compute output.
pub fn material_groups(system_layouts: usize, texture_count: usize, buffer_count: usize, has_compute: bool) -> (r: MaterialGroups)
    requires
        system_layouts + texture_count + buffer_count + 1 <= usize::MAX,
    ensures
        r.first_texture == system_layouts,
        r.first_buffer == system_layouts + texture_count,
        r.compute == if has_compute {
            Some((r.first_buffer + buffer_count) as usize)
        } else {
            None::<usize>
        },
        r.count == system_layouts + texture_count + buffer_count + if has_compute {
            1int
        } else {
            0
        },
{
    let first_buffer = system_layouts + texture_count;
    let after_buffers = first_buffer + buffer_count;
    if has_compute {
        MaterialGroups { first_texture: system_layouts, first_buffer, compute: Some(after_buffers), count: after_buffers + 1 }
    } else {
        MaterialGroups { first_texture: system_layouts, first_buffer, compute: None, count: after_buffers }
    }
}

/// The identifying part of a vertex attribute.
pub open spec fn attribute_key(a: VertexAttribute) -> VertexAttributeKey {
    VertexAttributeKey { format: a.format, offset: a.offset, shader_location: a.shader_location }
}

/// A layout key as a value: its stride, step mode and attributes.
pub open spec fn layout_key_view(k: VertexLayoutKey) -> (u64, VertexStepMode, Seq<VertexAttributeKey>) {
    (k.array_stride, k.step_mode, k.attributes@)
}

/// The key of a layout, as `VertexBufferLayoutOwned::key` makes it.
pub open spec fn layout_key_of(l: VertexBufferLayoutOwned) -> (u64, VertexStepMode, Seq<VertexAttributeKey>) {
    (l.array_stride, l.step_mode, l.attributes@.map_values(|a: VertexAttribute| attribute_key(a)))
}

/// A material key as a value: buffer ids, texture labels, vertex and instance layouts,
/// shader name and target format.
pub type MaterialKeyView = (
    Seq<u64>,
    Seq<Seq<char>>,
    (u64, VertexStepMode, Seq<VertexAttributeKey>),
    (u64, VertexStepMode, Seq<VertexAttributeKey>),
    Seq<char>,
    Option<u32>,
);

/// What identifies a material: a material built with the same key as an earlier one
/// shares the earlier one's pipeline instead of getting its own.
pub struct MaterialKey {
    /// The ids of the material's buffers, in binding order. A buffer gets its id, and its
    /// binding layout with it, when it is created.
    pub buffers: Vec<u64>,
    /// The labels of the material's textures, in order.
    pub textures: Vec<String>,
    pub vertex_layout: VertexLayoutKey,
    pub instance_layout: VertexLayoutKey,
    /// The name of the shader.
    pub shader: String,
    /// The format of the texture the material renders to, by the number the renderer
    /// gives each format; `None` for the surface's own format.
    pub target_format: Option<u32>,
}

fn same_ids(a: &Vec<u64>, b: &Vec<u64>) -> (r: bool)
    ensures
        r == (a@ == b@),
{
    if a.len() != b.len() {
        return false;
    }
    let mut i: usize = 0;
    while i < a.len()
        invariant
            i <= a@.len(),
            a@.len() == b@.len(),
            forall|j: int| 0 <= j < i ==> a@[j] == b@[j],
        decreases a@.len() - i,
    {
        if a[i] != b[i] {
            return false;
        }
        i = i + 1;
    }
    assert(a@ =~= b@);
    true
}

fn same_labels(a: &Vec<String>, b: &Vec<String>) -> (r: bool)
    ensures
        r == (a@.map_values(|t: String| t@) == b@.map_values(|t: String| t@)),
{
    let ghost va = a@.map_values(|t: String| t@);
    let ghost vb = b@.map_values(|t: String| t@);
    if a.len() != b.len() {
        assert(va.len() != vb.len());
        return false;
    }
    let mut i: usize = 0;
    while i < a.len()
        invariant
            i <= a@.len(),
            a@.len() == b@.len(),
            va == a@.map_values(|t: String| t@),
            vb == b@.map_values(|t: String| t@),
            forall|j: int| 0 <= j < i ==> va[j] == vb[j],
        decreases a@.len() - i,
    {
        if a[i] != b[i] {
            assert(va[i as int] != vb[i as int]);
            return false;
        }
        i = i + 1;
    }
    assert(va =~= vb);
    true
}

fn same_layout(a: &VertexLayoutKey, b: &VertexLayoutKey) -> (r: bool)
    ensures
        r == (layout_key_view(*a) == layout_key_view(*b)),
{
    if a.array_stride != b.array_stride || a.step_mode != b.step_mode || a.attributes.len() != b.attributes.len() {
        return false;
    }
    let mut i: usize = 0;
    while i < a.attributes.len()
        invariant
            i <= a.attributes@.len(),
            a.attributes@.len() == b.attributes@.len(),
            forall|j: int| 0 <= j < i ==> a.attributes@[j] == b.attributes@[j],
        decreases a.attributes@.len() - i,
    {
        if a.attributes[i] != b.attributes[i] {
            return false;
        }
        i = i + 1;
    }
    assert(a.attributes@ =~= b.attributes@);
    true
}

impl MaterialKey {
    pub open spec fn view(&self) -> MaterialKeyView {
        (
            self.buffers@,
            self.textures@.map_values(|t: String| t@),
            layout_key_view(self.vertex_layout),
            layout_key_view(self.instance_layout),
            self.shader@,
            self.target_format,
        )
    }

    /// The key of a material with these buffers, textures, layouts, shader and target.
    pub fn new(
        buffers: Vec<u64>,
        textures: Vec<String>,
        vertex_layout: &VertexBufferLayoutOwned,
        instance_layout: &VertexBufferLayoutOwned,
        shader: String,
        target_format: Option<u32>,
    ) -> (r: MaterialKey)
        ensures
            r@ == (
                buffers@,
                textures@.map_values(|t: String| t@),
                layout_key_of(*vertex_layout),
                layout_key_of(*instance_layout),
                shader@,
                target_format,
            ),
    {
        let v = vertex_layout.key();
        let n = instance_layout.key();
        assert(v.attributes@ =~= vertex_layout.attributes@.map_values(|a: VertexAttribute| attribute_key(a)));
        assert(n.attributes@ =~= instance_layout.attributes@.map_values(|a: VertexAttribute| attribute_key(a)));
        MaterialKey { buffers, textures, vertex_layout: v, instance_layout: n, shader, target_format }
    }

    /// Whether two keys are the same.
    pub fn same(&self, other: &MaterialKey) -> (r: bool)
        ensures
            r == (self@ == other@),
    {
        same_ids(&self.buffers, &other.buffers) && same_labels(&self.textures, &other.textures)
            && same_layout(&self.vertex_layout, &other.vertex_layout) && same_layout(
            &self.instance_layout,
            &other.instance_layout,
        ) && self.shader == other.shader && self.target_format == other.target_format
    }
}

/// The materials already built, by key, so that a material with the same key is built
/// once and shared.
pub struct MaterialLookup {
    entries: Vec<(MaterialKey, MaterialHandle)>,
}

impl MaterialLookup {
    /// The handle of each built material, by key.
    pub closed spec fn view(&self) -> Map<MaterialKeyView, MaterialHandle> {
        Map::new(
            |k: MaterialKeyView| exists|i: int| 0 <= i < self.entries@.len() && self.entries@[i].0@ == k,
            |k: MaterialKeyView| {
                let i = choose|i: int| 0 <= i < self.entries@.len() && self.entries@[i].0@ == k;
                self.entries@[i].1
            },
        )
    }

    /// Each key occurs once.
    pub closed spec fn wf(&self) -> bool {
        forall|i: int, j: int| 0 <= i < j < self.entries@.len() ==> self.entries@[i].0@ != self.entries@[j].0@
    }

    proof fn lemma_view_at(&self, i: int)
        requires
            self.wf(),
            0 <= i < self.entries@.len(),
        ensures
            self.view().contains_key(self.entries@[i].0@),
            self.view()[self.entries@[i].0@] == self.entries@[i].1,
    {
        let k = self.entries@[i].0@;
        assert(self.view().dom().contains(k));
        let j = choose|j: int| 0 <= j < self.entries@.len() && self.entries@[j].0@ == k;
        if j < i {
            assert(self.entries@[j].0@ != self.entries@[i].0@);
        } else if j > i {
            assert(self.entries@[i].0@ != self.entries@[j].0@);
        }
    }

    /// No material built yet.
    pub fn new() -> (r: MaterialLookup)
        ensures
            r.wf(),
            r.view() == Map::<MaterialKeyView, MaterialHandle>::empty(),
    {
        let r = MaterialLookup { entries: Vec::new() };
        assert(r.view() =~= Map::<MaterialKeyView, MaterialHandle>::empty());
        r
    }

    /// The material built with this key, if any: it is returned instead of building
    /// another.
    pub fn get(&self, key: &MaterialKey) -> (r: Option<MaterialHandle>)
        requires
            self.wf(),
        ensures
            match r {
                Some(h) => self.view().contains_key(key@) && h == self.view()[key@],
                None => !self.view().contains_key(key@),
            },
    {
        let mut i: usize = 0;
        while i < self.entries.len()
            invariant
                i <= self.entries@.len(),
                self.wf(),
                forall|j: int| 0 <= j < i ==> self.entries@[j].0@ != key@,
            decreases self.entries@.len() - i,
        {
            if self.entries[i].0.same(key) {
                proof {
                    self.lemma_view_at(i as int);
                }
                return Some(self.entries[i].1);
            }
            i = i + 1;
        }
        proof {
            if self.view().contains_key(key@) {
                let j = choose|j: int| 0 <= j < self.entries@.len() && self.entries@[j].0@ == key@;
                assert(self.entries@[j].0@ == key@);
            }
        }
        None
    }

    /// Records the material built for a new key.
    pub fn insert(&mut self, key: MaterialKey, handle: MaterialHandle)
        requires
            old(self).wf(),
            !old(self).view().contains_key(key@),
        ensures
            final(self).wf(),
            final(self).view() == old(self).view().insert(key@, handle),
    {
        let ghost before = self.entries@;
        let ghost k0 = key@;
        self.entries.push((key, handle));
        proof {
            assert(self.entries@[before.len() as int].0@ == k0);
            assert forall|i: int, j: int| 0 <= i < j < self.entries@.len() implies self.entries@[i].0@ != self.entries@[j].0@ by {
                if j == before.len() {
                    if self.entries@[i].0@ == k0 {
                        assert(before[i].0@ == k0);
                        assert(old(self).view().contains_key(k0));
                    }
                } else {
                    assert(self.entries@[i] == before[i] && self.entries@[j] == before[j]);
                }
            }
            assert forall|k: MaterialKeyView| #[trigger] self.view().contains_key(k) <==> old(self).view().insert(k0, handle).contains_key(k) by {
                if self.view().contains_key(k) {
                    let j = choose|j: int| 0 <= j < self.entries@.len() && self.entries@[j].0@ == k;
                    if j < before.len() {
                        assert(before[j].0@ == k);
                        assert(old(self).view().contains_key(k));
                    }
                }
                if old(self).view().contains_key(k) {
                    let j = choose|j: int| 0 <= j < before.len() && before[j].0@ == k;
                    assert(self.entries@[j].0@ == k);
                }
                if k == k0 {
                    assert(self.entries@[before.len() as int].0@ == k);
                }
            }
            assert forall|k: MaterialKeyView| #[trigger] self.view().contains_key(k) implies self.view()[k] == old(self).view().insert(k0, handle)[k] by {
                let j = choose|j: int| 0 <= j < self.entries@.len() && self.entries@[j].0@ == k;
                self.lemma_view_at(j);
                if j < before.len() {
                    old(self).lemma_view_at(j);
                    assert(before[j] == self.entries@[j]);
                }
            }
            assert(self.view() =~= old(self).view().insert(k0, handle));
        }
    }
}

/// A material is built once: after the handle of a material is recorded under its key,
/// building a material with an equal key finds that handle.
pub proof fn same_key_shares_a_material(
    table: Map<MaterialKeyView, MaterialHandle>,
    first: MaterialKey,
    second: MaterialKey,
    handle: MaterialHandle,
)
    requires
        first@ == second@,
    ensures
        table.insert(first@, handle).contains_key(second@),
        table.insert(first@, handle)[second@] == handle,
{
}

} // verus!
