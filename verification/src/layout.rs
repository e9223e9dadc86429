//! Vertex buffer layouts: attribute formats, offsets and strides.
use vstd::prelude::*;

verus! {

/// The formats of vertex attributes that the engine's layouts use.
#[derive(Clone, Copy, Debug, PartialEq, Eq, Hash, Structural)]
pub enum VertexFormat {
    Float32x2,
    Float32x3,
    Float32x4,
}

impl VertexFormat {
    pub open spec fn spec_size(self) -> u64 {
        match self {
            VertexFormat::Float32x2 => 8,
            VertexFormat::Float32x3 => 12,
            VertexFormat::Float32x4 => 16,
        }
    }

    /// The size of one attribute of this format, in bytes.
    #[verifier::when_used_as_spec(spec_size)]
    pub fn size(self) -> (r: u64)
        ensures
            r == self.spec_size(),
    {
        match self {
            VertexFormat::Float32x2 => 8,
            VertexFormat::Float32x3 => 12,
            VertexFormat::Float32x4 => 16,
        }
    }
}

/// Whether a buffer advances per vertex or per instance.
#[derive(Clone, Copy, Debug, PartialEq, Eq, Hash, Structural)]
pub enum VertexStepMode {
    Vertex,
    Instance,
}

#[derive(Clone, Copy, Debug, PartialEq, Eq, Hash)]
pub struct VertexAttribute {
    pub format: VertexFormat,
    pub offset: u64,
    pub shader_location: u32,
}

/// A vertex buffer layout that owns its attribute list.
#[derive(Clone, Debug)]
pub struct VertexBufferLayoutOwned {
    pub array_stride: u64,
    pub step_mode: VertexStepMode,
    pub attributes: Vec<VertexAttribute>,
}

/// The part of an attribute that identifies a layout.
#[derive(Clone, Copy, Debug, PartialEq, Eq, Hash, Structural)]
pub struct VertexAttributeKey {
    pub format: VertexFormat,
    pub offset: u64,
    pub shader_location: u32,
}

/// What identifies a layout, for looking pipelines up.
#[derive(Clone, Debug, PartialEq, Eq, Hash)]
pub struct VertexLayoutKey {
    pub array_stride: u64,
    pub step_mode: VertexStepMode,
    pub attributes: Vec<VertexAttributeKey>,
}

/// The total size of the formats, in bytes.
pub open spec fn formats_size(formats: Seq<VertexFormat>) -> nat
    decreases formats.len(),
{
    if formats.len() == 0 {
        0
    } else {
        formats_size(formats.drop_last()) + formats.last().spec_size() as nat
    }
}

/// Attributes packed one after another from offset 0, at consecutive shader locations
/// from `first_location`, with a stride of their total size.
pub open spec fn is_packed(layout: VertexBufferLayoutOwned, first_location: u32, formats: Seq<VertexFormat>) -> bool {
    &&& layout.array_stride == formats_size(formats)
    &&& layout.attributes@.len() == formats.len()
    &&& forall|i: int|
        0 <= i < formats.len() ==> {
            &&& (#[trigger] layout.attributes@[i]).format == formats[i]
            &&& layout.attributes@[i].offset == formats_size(formats.take(i))
            &&& layout.attributes@[i].shader_location == first_location + i
        }
}

proof fn lemma_formats_size_bound(formats: Seq<VertexFormat>)
    ensures
        formats_size(formats) <= 16 * formats.len(),
    decreases formats.len(),
{
    if formats.len() > 0 {
        lemma_formats_size_bound(formats.drop_last());
    }
}

/// Lays out the formats packed, in order.
pub fn packed_layout(first_location: u32, formats: &[VertexFormat], step_mode: VertexStepMode) -> (r: VertexBufferLayoutOwned)
    requires
        first_location + formats@.len() <= u32::MAX + 1,
        formats@.len() <= 0x1000_0000,
    ensures
        is_packed(r, first_location, formats@),
        r.step_mode == step_mode,
{
    let mut attributes: Vec<VertexAttribute> = Vec::new();
    let mut offset: u64 = 0;
    let mut i: usize = 0;
    while i < formats.len()
        invariant
            i <= formats@.len(),
            first_location + formats@.len() <= u32::MAX + 1,
            formats@.len() <= 0x1000_0000,
            offset == formats_size(formats@.take(i as int)),
            attributes@.len() == i,
            forall|j: int|
                0 <= j < i ==> {
                    &&& (#[trigger] attributes@[j]).format == formats@[j]
                    &&& attributes@[j].offset == formats_size(formats@.take(j))
                    &&& attributes@[j].shader_location == first_location + j
                },
        decreases formats.len() - i,
    {
        proof {
            lemma_formats_size_bound(formats@.take(i as int));
        }
        let f = formats[i];
        attributes.push(VertexAttribute { format: f, offset, shader_location: first_location + i as u32 });
        assert(formats@.take(i + 1).drop_last() =~= formats@.take(i as int));
        offset = offset + f.size();
        i = i + 1;
    }
    assert(formats@.take(formats@.len() as int) =~= formats@);
    VertexBufferLayoutOwned { array_stride: offset, step_mode, attributes }
}

impl VertexBufferLayoutOwned {
    /// The layout's identifying key: its stride, step mode and attributes.
    pub fn key(&self) -> (r: VertexLayoutKey)
        ensures
            r.array_stride == self.array_stride,
            r.step_mode == self.step_mode,
            r.attributes@.len() == self.attributes@.len(),
            forall|i: int|
                0 <= i < r.attributes@.len() ==> {
                    &&& (#[trigger] r.attributes@[i]).format == self.attributes@[i].format
                    &&& r.attributes@[i].offset == self.attributes@[i].offset
                    &&& r.attributes@[i].shader_location == self.attributes@[i].shader_location
                },
    {
        let mut attributes: Vec<VertexAttributeKey> = Vec::new();
        let mut i: usize = 0;
        while i < self.attributes.len()
            invariant
                i <= self.attributes@.len(),
                attributes@.len() == i,
                forall|j: int|
                    0 <= j < i ==> {
                        &&& (#[trigger] attributes@[j]).format == self.attributes@[j].format
                        &&& attributes@[j].offset == self.attributes@[j].offset
                        &&& attributes@[j].shader_location == self.attributes@[j].shader_location
                    },
            decreases self.attributes.len() - i,
        {
            let a = self.attributes[i];
            attributes.push(VertexAttributeKey { format: a.format, offset: a.offset, shader_location: a.shader_location });
            i = i + 1;
        }
        VertexLayoutKey { array_stride: self.array_stride, step_mode: self.step_mode, attributes }
    }
}

/// The per-vertex layout of skybox vertices: a position.
pub fn skybox_vertex_layout() -> (r: VertexBufferLayoutOwned)
    ensures
        is_packed(r, 0, seq![VertexFormat::Float32x3]),
        r.step_mode == VertexStepMode::Vertex,
{
    let formats = [VertexFormat::Float32x3];
    let r = packed_layout(0, &formats, VertexStepMode::Vertex);
    assert(formats@ =~= seq![VertexFormat::Float32x3]);
    r
}

/// The per-vertex layout of default vertices: position, texture coordinates, normal.
pub fn default_vertex_layout() -> (r: VertexBufferLayoutOwned)
    ensures
        is_packed(r, 0, seq![VertexFormat::Float32x3, VertexFormat::Float32x2, VertexFormat::Float32x3]),
        r.step_mode == VertexStepMode::Vertex,
{
    let formats = [VertexFormat::Float32x3, VertexFormat::Float32x2, VertexFormat::Float32x3];
    let r = packed_layout(0, &formats, VertexStepMode::Vertex);
    assert(formats@ =~= seq![VertexFormat::Float32x3, VertexFormat::Float32x2, VertexFormat::Float32x3]);
    r
}

/// The per-instance layout of the default instance: position, scale, rotation
/// quaternion and color, from shader location 5.
pub fn default_instance_layout() -> (r: VertexBufferLayoutOwned)
    ensures
        is_packed(r, 5, seq![VertexFormat::Float32x3, VertexFormat::Float32x3, VertexFormat::Float32x4, VertexFormat::Float32x3]),
        r.step_mode == VertexStepMode::Instance,
{
    let formats = [VertexFormat::Float32x3, VertexFormat::Float32x3, VertexFormat::Float32x4, VertexFormat::Float32x3];
    let r = packed_layout(5, &formats, VertexStepMode::Instance);
    assert(formats@ =~= seq![VertexFormat::Float32x3, VertexFormat::Float32x3, VertexFormat::Float32x4, VertexFormat::Float32x3]);
    r
}

/// The per-instance layout of sprite instances: the default instance's attributes and
/// then the UV rectangle.
pub fn sprite_instance_layout() -> (r: VertexBufferLayoutOwned)
    ensures
        is_packed(r, 5, seq![VertexFormat::Float32x3, VertexFormat::Float32x3, VertexFormat::Float32x4, VertexFormat::Float32x3, VertexFormat::Float32x4]),
        r.step_mode == VertexStepMode::Instance,
{
    let formats = [VertexFormat::Float32x3, VertexFormat::Float32x3, VertexFormat::Float32x4, VertexFormat::Float32x3, VertexFormat::Float32x4];
    let r = packed_layout(5, &formats, VertexStepMode::Instance);
    assert(formats@ =~= seq![VertexFormat::Float32x3, VertexFormat::Float32x3, VertexFormat::Float32x4, VertexFormat::Float32x3, VertexFormat::Float32x4]);
    r
}

/// The per-instance layout of raw instances: the four columns of the model matrix, the
/// color, and the three columns of the normal matrix, from shader location 5.
pub fn raw_instance_layout() -> (r: VertexBufferLayoutOwned)
    ensures
        is_packed(r, 5, seq![
            VertexFormat::Float32x4, VertexFormat::Float32x4, VertexFormat::Float32x4, VertexFormat::Float32x4,
            VertexFormat::Float32x3, VertexFormat::Float32x3, VertexFormat::Float32x3, VertexFormat::Float32x3,
        ]),
        r.step_mode == VertexStepMode::Instance,
{
    let formats = [
        VertexFormat::Float32x4, VertexFormat::Float32x4, VertexFormat::Float32x4, VertexFormat::Float32x4,
        VertexFormat::Float32x3, VertexFormat::Float32x3, VertexFormat::Float32x3, VertexFormat::Float32x3,
    ];
    let r = packed_layout(5, &formats, VertexStepMode::Instance);
    assert(formats@ =~= seq![
        VertexFormat::Float32x4, VertexFormat::Float32x4, VertexFormat::Float32x4, VertexFormat::Float32x4,
        VertexFormat::Float32x3, VertexFormat::Float32x3, VertexFormat::Float32x3, VertexFormat::Float32x3,
    ]);
    r
}

} // verus!
