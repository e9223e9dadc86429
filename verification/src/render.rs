//! Render layers and masks, render view roles, and render targets.
use vstd::prelude::*;

verus! {

/// An ECS draw layer, as a bit set. Entities without one are on layer 1.
#[derive(Clone, Copy, Debug, PartialEq, Eq, Structural)]
pub struct RenderLayer(pub u32);

impl Default for RenderLayer {
    fn default() -> (r: Self)
        ensures
            r.0 == 1,
    {
        RenderLayer(1)
    }
}

/// The layers a view draws, as a bit set. Views draw every layer by default.
#[derive(Clone, Copy, Debug, PartialEq, Eq, Structural)]
pub struct RenderMask(pub u32);

impl Default for RenderMask {
    fn default() -> (r: Self)
        ensures
            r.0 == u32::MAX,
    {
        RenderMask(u32::MAX)
    }
}

/// The layer an entity is drawn on: its own, or layer 1.
pub open spec fn layer_bits(layer: Option<RenderLayer>) -> u32 {
    match layer {
        Some(l) => l.0,
        None => 1,
    }
}

impl RenderMask {
    /// Whether a view with this mask draws an entity on `layer`: the bit sets overlap.
    pub fn includes(self, layer: Option<&RenderLayer>) -> (r: bool)
        ensures
            r == (self.0 & layer_bits(match layer {
                Some(l) => Some(*l),
                None => None,
            }) != 0),
    {
        let bits = match layer {
            Some(l) => l.0,
            None => RenderLayer::default().0,
        };
        self.0 & bits != 0
    }
}

/// The default mask draws every entity whose layer has any bit set, untagged ones included.
pub proof fn default_mask_draws_every_layer(layer: Option<RenderLayer>)
    ensures
        (u32::MAX & layer_bits(layer) != 0) == (layer_bits(layer) != 0),
        layer is None ==> u32::MAX & layer_bits(layer) != 0,
{
    let b = layer_bits(layer);
    assert((u32::MAX & b != 0) == (b != 0)) by (bit_vector);
    assert(u32::MAX & 1u32 != 0) by (bit_vector);
}

/// Which views present to the window.
#[derive(Clone, Copy, Debug, Default, PartialEq, Eq, Structural)]
pub enum RenderViewRole {
    #[default]
    Main,
    Auxiliary,
}

/// A size in pixels.
#[derive(Clone, Copy, Debug, PartialEq, Eq, Structural)]
pub struct PixelSize {
    pub width: u32,
    pub height: u32,
}

/// A texture in the engine's texture store.
#[derive(Clone, Copy, Debug, PartialEq, Eq, Hash, Structural)]
pub struct TextureHandle(pub u64);

/// Where a view renders: the window's surface, or a view of a texture (with an optional
/// depth texture view), in a texture format `F`.
#[derive(Clone, Copy, Debug)]
pub enum RenderTarget<F> {
    Window { size: PixelSize },
    Texture {
        texture: TextureHandle,
        view_index: usize,
        depth_texture: Option<(TextureHandle, usize)>,
        size: PixelSize,
        format: F,
    },
}

/// The handles a texture target holds, for reallocating its textures at a new size.
#[derive(Clone, Copy, Debug)]
pub struct TextureResize<F> {
    pub color: TextureHandle,
    pub depth: Option<TextureHandle>,
    pub format: F,
}

impl<F: Copy> RenderTarget<F> {
    pub open spec fn spec_size(&self) -> PixelSize {
        match self {
            RenderTarget::Window { size } => *size,
            RenderTarget::Texture { size, .. } => *size,
        }
    }

    pub fn window(size: PixelSize) -> (r: Self)
        ensures
            r == (RenderTarget::<F>::Window { size }),
    {
        RenderTarget::Window { size }
    }

    pub fn texture(
        texture: TextureHandle,
        view_index: usize,
        depth_texture: Option<(TextureHandle, usize)>,
        size: PixelSize,
        format: F,
    ) -> (r: Self)
        ensures
            r == (RenderTarget::Texture { texture, view_index, depth_texture, size, format }),
    {
        RenderTarget::Texture { texture, view_index, depth_texture, size, format }
    }

    /// The color texture of a texture target.
    pub fn color_texture(&self) -> (r: Option<TextureHandle>)
        ensures
            r == (match self {
                RenderTarget::Texture { texture, .. } => Some(*texture),
                RenderTarget::Window { .. } => None::<TextureHandle>,
            }),
    {
        match self {
            RenderTarget::Texture { texture, .. } => Some(*texture),
            RenderTarget::Window { .. } => None,
        }
    }

    #[verifier::when_used_as_spec(spec_size)]
    pub fn size(&self) -> (r: PixelSize)
        ensures
            r == self.spec_size(),
    {
        match self {
            RenderTarget::Window { size } => *size,
            RenderTarget::Texture { size, .. } => *size,
        }
    }

    pub fn is_window(&self) -> (r: bool)
        ensures
            r == (self is Window),
    {
        match self {
            RenderTarget::Window { .. } => true,
            RenderTarget::Texture { .. } => false,
        }
    }

    /// Follows a window resize: a window target takes the new size and says so; a texture
    /// target keeps its own.
    pub fn resize_window(&mut self, new_size: PixelSize) -> (r: bool)
        ensures
            r == (*old(self) is Window),
            r ==> *final(self) == (RenderTarget::<F>::Window { size: new_size }),
            !r ==> *final(self) == *old(self),
    {
        match self {
            RenderTarget::Window { .. } => {
                *self = RenderTarget::Window { size: new_size };
                true
            },
            RenderTarget::Texture { .. } => false,
        }
    }

    /// The first half of resizing a texture target: the textures to reallocate, or `None`
    /// for a window target or an unchanged size. Sizes must be positive.
    pub fn texture_resize(&self, new_size: PixelSize) -> (r: Option<TextureResize<F>>)
        requires
            new_size.width > 0 && new_size.height > 0,
        ensures
            match self {
                RenderTarget::Window { .. } => r is None,
                RenderTarget::Texture { texture, depth_texture, size, format, .. } => if *size
                    == new_size {
                    r is None
                } else {
                    r matches Some(t) && t.color == *texture && t.format == *format && t.depth == (
                    match depth_texture {
                        Some(d) => Some(d.0),
                        None => None::<TextureHandle>,
                    })
                },
            },
    {
        match self {
            RenderTarget::Window { .. } => None,
            RenderTarget::Texture { texture, depth_texture, size, format, .. } => {
                if size.width == new_size.width && size.height == new_size.height {
                    return None;
                }
                let depth = match depth_texture {
                    Some(d) => Some(d.0),
                    None => None,
                };
                Some(TextureResize { color: *texture, depth, format: *format })
            },
        }
    }

    /// The second half: records the new size of a texture target whose textures were
    /// reallocated. Handles and view indices stay.
    pub fn set_texture_size(&mut self, new_size: PixelSize)
        ensures
            match *old(self) {
                RenderTarget::Window { size } => *final(self) == *old(self),
                RenderTarget::Texture { texture, view_index, depth_texture, format, .. } => *final(self) == (RenderTarget::Texture { texture, view_index, depth_texture, size: new_size, format }),
            },
    {
        match self {
            RenderTarget::Window { .. } => {},
            RenderTarget::Texture { texture, view_index, depth_texture, format, .. } => {
                let t = RenderTarget::Texture {
                    texture: *texture,
                    view_index: *view_index,
                    depth_texture: *depth_texture,
                    size: new_size,
                    format: *format,
                };
                *self = t;
            },
        }
    }
}

} // verus!

verus! {

/// A compute job in the engine's store.
#[derive(Clone, Copy, Debug, PartialEq, Eq, Hash, Structural)]
pub struct ComputeHandle(pub u64);

/// A compute-driven rendering in the engine's store.
#[derive(Clone, Copy, Debug, PartialEq, Eq, Hash, Structural)]
pub struct ComputeRenderingHandle(pub u64);

/// An ECS component: draw this mesh with this material for each instance of the controller.
#[derive(Clone, Copy, Debug, PartialEq, Eq, Structural)]
pub struct Renderable {
    pub material_handle: crate::geometry::MaterialHandle,
    pub mesh_handle: crate::geometry::MeshHandle,
    pub instance_controller_handle: crate::geometry::InstanceControllerHandle,
}

/// An ECS component: the skybox mesh and its material.
#[derive(Clone, Copy, Debug, PartialEq, Eq, Structural)]
pub struct SkyboxRenderable {
    pub material_handle: crate::geometry::MaterialHandle,
    pub mesh_handle: crate::geometry::MeshHandle,
}

/// An ECS component: a mesh drawn by a compute-driven rendering.
#[derive(Clone, Copy, Debug, PartialEq, Eq, Structural)]
pub struct ComputeRenderable {
    pub rendering_handle: ComputeRenderingHandle,
    pub mesh_handle: crate::geometry::MeshHandle,
}

/// Marks an ECS entity as a compute object.
#[derive(Clone, Copy, Debug, PartialEq, Eq, Structural)]
pub struct ComputeObject;

/// Marker components for special entities.
#[derive(Clone, Copy, Debug, PartialEq, Eq, Structural)]
pub enum Markers {
    Skybox,
}

/// What identifies a compute-driven rendering: its compute job and its shader.
#[derive(Clone, Debug, PartialEq, Eq, Hash)]
pub struct ComputeRenderingKey {
    pub compute: ComputeHandle,
    pub shader: String,
}

/// The post-processing effects.
#[derive(Clone, Copy, Debug, PartialEq, Eq, Hash, Structural)]
pub enum Effect {
    /// No effect.
    Passthrough,
    ChromaticAberration,
    ChromaticTwo,
}

/// The surface format to configure, as an index into the formats the surface supports:
/// the first sRGB one, else the first. `srgb[i]` says whether format `i` is sRGB.
pub fn surface_format_choice(srgb: &Vec<bool>) -> (r: usize)
    requires
        srgb@.len() > 0,
    ensures
        r < srgb@.len(),
        (exists|i: int| 0 <= i < srgb@.len() && srgb@[i]) ==> srgb@[r as int] && forall|j: int| 0 <= j < r ==> !srgb@[j],
        !(exists|i: int| 0 <= i < srgb@.len() && srgb@[i]) ==> r == 0,
{
    let mut i: usize = 0;
    while i < srgb.len()
        invariant
            i <= srgb@.len(),
            forall|j: int| 0 <= j < i ==> !srgb@[j],
        decreases srgb@.len() - i,
    {
        if srgb[i] {
            return i;
        }
        i = i + 1;
    }
    0
}

} // verus!

