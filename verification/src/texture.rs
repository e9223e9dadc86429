//! The checks that guard texture preprocessing on the GPU: adapter capabilities, cubemap
//! mip chains, and the shape of equirectangular HDR images.
use vstd::prelude::*;

verus! {

/// Why a texture operation was refused.
#[derive(Clone, Copy, Debug, PartialEq, Eq)]
pub enum TextureError {
    /// The adapter cannot render to filterable `Rgba16Float` textures.
    Rgba16FloatNotRenderable,
    /// The adapter cannot render to filterable `Rg16Float` textures.
    Rg16FloatNotRenderable,
    /// A cubemap face size of zero.
    ZeroFaceSize,
    /// A mip level count outside `1..=maximum` for the face size.
    MipLevelCountOutOfRange { maximum: u32 },
    /// An HDR image with a zero width or height.
    ZeroDimensions,
    /// An HDR image that is not a 2:1 equirectangular projection with a width divisible by 4.
    NotEquirectangular,
    /// Mip generation was asked of a texture that is not a cubemap.
    NotACubemap,
    /// A capture pass was given a texture of the other view type.
    WrongViewType { expected: TextureViewType },
    /// Mip generation was asked with a face size other than the texture's.
    FaceSizeMismatch,
    /// Mip generation was asked for more levels than the texture has.
    MipChainTooLong,
    /// A capture pass was asked to render no mip level, or more levels than the target
    /// cubemap has.
    RenderedMipCountOutOfRange,
}

/// How a texture is viewed: as a 2D image or as a cubemap.
#[derive(Clone, Copy, Debug, PartialEq, Eq, Structural)]
pub enum TextureViewType {
    D2,
    Cube,
}

/// Where a texture's pixels come from.
#[derive(Clone, Copy, Debug, PartialEq, Eq, Structural)]
pub enum TextureType {
    Image,
    SolidColor,
}

/// Refuses a GPU capture pass whose input texture has the wrong view type: the
/// equirectangular capture reads a 2D image, the irradiance and specular captures read
/// cubemaps.
pub fn check_capture_input(actual: TextureViewType, expected: TextureViewType) -> (r: Result<(), TextureError>)
    ensures
        r == (if actual == expected {
            Ok::<(), TextureError>(())
        } else {
            Err(TextureError::WrongViewType { expected })
        }),
{
    match (actual, expected) {
        (TextureViewType::D2, TextureViewType::D2) => Ok(()),
        (TextureViewType::Cube, TextureViewType::Cube) => Ok(()),
        _ => Err(TextureError::WrongViewType { expected }),
    }
}

/// Refuses HDR preprocessing on an adapter that cannot render to `Rgba16Float`.
pub fn ensure_hdr_preprocessing_supported(supported: bool) -> (r: Result<(), TextureError>)
    ensures
        r == (if supported {
            Ok::<(), TextureError>(())
        } else {
            Err(TextureError::Rgba16FloatNotRenderable)
        }),
{
    if !supported {
        return Err(TextureError::Rgba16FloatNotRenderable);
    }
    Ok(())
}

/// Refuses image-based-lighting preprocessing on an adapter that cannot render to
/// `Rgba16Float` or, failing that, to `Rg16Float`.
pub fn ensure_ibl_preprocessing_supported(rgba16float_renderable: bool, rg16float_renderable: bool) -> (r: Result<(), TextureError>)
    ensures
        r == (if !rgba16float_renderable {
            Err(TextureError::Rgba16FloatNotRenderable)
        } else if !rg16float_renderable {
            Err(TextureError::Rg16FloatNotRenderable)
        } else {
            Ok::<(), TextureError>(())
        }),
{
    ensure_hdr_preprocessing_supported(rgba16float_renderable)?;
    if !rg16float_renderable {
        return Err(TextureError::Rg16FloatNotRenderable);
    }
    Ok(())
}

/// The base-2 logarithm of `n`, rounded down (`n.ilog2()` for positive `n`).
pub open spec fn floor_log2(n: nat) -> nat
    decreases n,
{
    if n < 2 {
        0
    } else {
        1 + floor_log2(n / 2)
    }
}

proof fn lemma_floor_log2_bound(n: nat)
    requires
        n >= 1,
    ensures
        floor_log2(n) < n,
    decreases n,
{
    if n >= 2 {
        lemma_floor_log2_bound(n / 2);
    }
}

/// The longest mip chain of a square face of side `face_size`: `ilog2(face_size) + 1`.
pub fn max_mip_level_count(face_size: u32) -> (r: u32)
    requires
        face_size > 0,
    ensures
        r == floor_log2(face_size as nat) + 1,
{
    let mut v = face_size;
    let mut levels: u32 = 0;
    proof {
        lemma_floor_log2_bound(face_size as nat);
    }
    while v >= 2
        invariant
            v >= 1,
            levels + floor_log2(v as nat) == floor_log2(face_size as nat),
            floor_log2(face_size as nat) < face_size,
        decreases v,
    {
        v = v / 2;
        levels = levels + 1;
    }
    levels + 1
}

} // verus!

verus! {

/// What `check_cubemap_mips` answers for a face size and a mip level count.
pub open spec fn cubemap_mips_verdict(face_size: u32, mip_level_count: u32) -> Result<(), TextureError> {
    if face_size == 0 {
        Err(TextureError::ZeroFaceSize)
    } else if mip_level_count == 0 || mip_level_count > floor_log2(face_size as nat) + 1 {
        Err(TextureError::MipLevelCountOutOfRange { maximum: (floor_log2(face_size as nat) + 1) as u32 })
    } else {
        Ok(())
    }
}

/// Checks the size of a renderable cubemap before it is allocated: the face size must be
/// positive and the mip level count between 1 and the longest chain for that size.
pub fn check_cubemap_mips(face_size: u32, mip_level_count: u32) -> (r: Result<(), TextureError>)
    ensures
        r == cubemap_mips_verdict(face_size, mip_level_count),
{
    if face_size == 0 {
        return Err(TextureError::ZeroFaceSize);
    }
    let maximum = max_mip_level_count(face_size);
    if mip_level_count == 0 || mip_level_count > maximum {
        return Err(TextureError::MipLevelCountOutOfRange { maximum });
    }
    Ok(())
}

/// What `check_cubemap_render` answers: the target cubemap's verdict first, then whether
/// the levels to render fit in its mip chain.
pub open spec fn cubemap_render_verdict(face_size: u32, mip_level_count: u32, rendered_mip_level_count: u32) -> Result<(), TextureError> {
    match cubemap_mips_verdict(face_size, mip_level_count) {
        Err(e) => Err(e),
        Ok(_) => if rendered_mip_level_count == 0 || rendered_mip_level_count > mip_level_count {
            Err(TextureError::RenderedMipCountOutOfRange)
        } else {
            Ok(())
        },
    }
}

/// Checks a capture pass into a new cubemap before anything is submitted: the target's
/// face size and mip level count as `check_cubemap_mips` does, then the number of mip
/// levels to render, which must be between 1 and the target's mip level count.
pub fn check_cubemap_render(face_size: u32, mip_level_count: u32, rendered_mip_level_count: u32) -> (r: Result<(), TextureError>)
    ensures
        r == cubemap_render_verdict(face_size, mip_level_count, rendered_mip_level_count),
{
    check_cubemap_mips(face_size, mip_level_count)?;
    if rendered_mip_level_count == 0 || rendered_mip_level_count > mip_level_count {
        return Err(TextureError::RenderedMipCountOutOfRange);
    }
    Ok(())
}

/// What `hdri_face_size` answers for an image's width and height.
pub open spec fn hdri_face_size_verdict(width: u32, height: u32) -> Result<u32, TextureError> {
    if width == 0 || height == 0 {
        Err(TextureError::ZeroDimensions)
    } else if 2 * height != width || width % 4 != 0 {
        Err(TextureError::NotEquirectangular)
    } else {
        Ok((width / 4) as u32)
    }
}

/// The cubemap face size for an equirectangular HDR image: a quarter of its width. The
/// image must be non-empty, twice as wide as high, and its width divisible by 4.
pub fn hdri_face_size(width: u32, height: u32) -> (r: Result<u32, TextureError>)
    ensures
        r == hdri_face_size_verdict(width, height),
{
    if width == 0 || height == 0 {
        return Err(TextureError::ZeroDimensions);
    }
    let doubled = height.checked_mul(2);
    match doubled {
        Some(d) => {
            if d != width || width % 4 != 0 {
                return Err(TextureError::NotEquirectangular);
            }
        },
        None => {
            return Err(TextureError::NotEquirectangular);
        },
    }
    Ok(width / 4)
}

/// What `check_mip_generation` answers: whether mips must be rendered, or why not.
pub open spec fn mip_generation_verdict(
    view_type: TextureViewType,
    texture_width: u32,
    texture_mip_level_count: u32,
    face_size: u32,
    mip_level_count: u32,
) -> Result<bool, TextureError> {
    if view_type != TextureViewType::Cube {
        Err(TextureError::NotACubemap)
    } else if texture_width != face_size {
        Err(TextureError::FaceSizeMismatch)
    } else if mip_level_count <= 1 {
        Ok(false)
    } else if mip_level_count > texture_mip_level_count {
        Err(TextureError::MipChainTooLong)
    } else {
        Ok(true)
    }
}

/// Checks a request to render the mip chain of a cubemap. `Ok(false)`: a single level,
/// nothing to render; `Ok(true)`: levels 1 and up must be rendered.
pub fn check_mip_generation(
    view_type: TextureViewType,
    texture_width: u32,
    texture_mip_level_count: u32,
    face_size: u32,
    mip_level_count: u32,
) -> (r: Result<bool, TextureError>)
    ensures
        r == mip_generation_verdict(view_type, texture_width, texture_mip_level_count, face_size, mip_level_count),
{
    if !matches!(view_type, TextureViewType::Cube) {
        return Err(TextureError::NotACubemap);
    }
    if texture_width != face_size {
        return Err(TextureError::FaceSizeMismatch);
    }
    if mip_level_count <= 1 {
        return Ok(false);
    }
    if mip_level_count > texture_mip_level_count {
        return Err(TextureError::MipChainTooLong);
    }
    Ok(true)
}

/// The extent of a depth texture for a surface: each side at least 1.
pub fn depth_texture_extent(width: u32, height: u32) -> (r: (u32, u32))
    ensures
        r.0 == (if width == 0 { 1 } else { width }),
        r.1 == (if height == 0 { 1 } else { height }),
{
    let w = if width == 0 { 1 } else { width };
    let h = if height == 0 { 1 } else { height };
    (w, h)
}

/// A cubemap the check accepts has a face of at least `2^(count - 1)` pixels, so each
/// of its mip levels is at least one pixel wide.
pub proof fn accepted_mip_levels_are_nonempty(face_size: u32, mip_level_count: u32)
    requires
        cubemap_mips_verdict(face_size, mip_level_count) is Ok,
    ensures
        mip_level_count >= 1,
        pow2((mip_level_count - 1) as nat) <= face_size,
{
    lemma_pow2_floor_log2(face_size as nat);
    lemma_pow2_monotone((mip_level_count - 1) as nat, floor_log2(face_size as nat));
}

pub open spec fn pow2(b: nat) -> nat
    decreases b,
{
    if b == 0 {
        1
    } else {
        2 * pow2((b - 1) as nat)
    }
}

proof fn lemma_pow2_floor_log2(n: nat)
    requires
        n >= 1,
    ensures
        pow2(floor_log2(n)) <= n,
    decreases n,
{
    if n >= 2 {
        lemma_pow2_floor_log2(n / 2);
    }
}

proof fn lemma_pow2_monotone(a: nat, b: nat)
    requires
        a <= b,
    ensures
        pow2(a) <= pow2(b),
    decreases b,
{
    if a < b {
        lemma_pow2_monotone(a, (b - 1) as nat);
    }
}

} // verus!
