use sparmos::texture::{
    check_capture_input, check_cubemap_mips, check_cubemap_render, check_mip_generation, depth_texture_extent,
    ensure_hdr_preprocessing_supported, ensure_ibl_preprocessing_supported, hdri_face_size,
    max_mip_level_count, TextureError, TextureViewType,
};

#[test]
fn mip_chains_end_at_one_pixel() {
    assert_eq!(max_mip_level_count(1), 1);
    assert_eq!(max_mip_level_count(2), 2);
    assert_eq!(max_mip_level_count(512), 10);
    assert_eq!(max_mip_level_count(1000), 10);
    assert_eq!(max_mip_level_count(u32::MAX), 32);
}

#[test]
fn cubemap_mip_counts_are_checked() {
    assert_eq!(check_cubemap_mips(512, 10), Ok(()));
    assert_eq!(check_cubemap_mips(512, 1), Ok(()));
    assert_eq!(check_cubemap_mips(0, 1), Err(TextureError::ZeroFaceSize));
    assert_eq!(check_cubemap_mips(512, 0), Err(TextureError::MipLevelCountOutOfRange { maximum: 10 }));
    assert_eq!(check_cubemap_mips(512, 11), Err(TextureError::MipLevelCountOutOfRange { maximum: 10 }));
}

#[test]
fn hdri_images_must_be_equirectangular() {
    assert_eq!(hdri_face_size(2048, 1024), Ok(512));
    assert_eq!(hdri_face_size(0, 1024), Err(TextureError::ZeroDimensions));
    assert_eq!(hdri_face_size(2048, 0), Err(TextureError::ZeroDimensions));
    assert_eq!(hdri_face_size(2048, 2048), Err(TextureError::NotEquirectangular));
    assert_eq!(hdri_face_size(6, 3), Err(TextureError::NotEquirectangular));
    assert_eq!(hdri_face_size(u32::MAX - 1, u32::MAX), Err(TextureError::NotEquirectangular));
}

#[test]
fn adapter_capabilities_are_required() {
    assert_eq!(ensure_hdr_preprocessing_supported(true), Ok(()));
    assert_eq!(ensure_hdr_preprocessing_supported(false), Err(TextureError::Rgba16FloatNotRenderable));
    assert_eq!(ensure_ibl_preprocessing_supported(true, true), Ok(()));
    assert_eq!(ensure_ibl_preprocessing_supported(false, true), Err(TextureError::Rgba16FloatNotRenderable));
    assert_eq!(ensure_ibl_preprocessing_supported(true, false), Err(TextureError::Rg16FloatNotRenderable));
}

#[test]
fn capture_inputs_have_the_expected_view_type() {
    assert_eq!(check_capture_input(TextureViewType::D2, TextureViewType::D2), Ok(()));
    assert_eq!(
        check_capture_input(TextureViewType::D2, TextureViewType::Cube),
        Err(TextureError::WrongViewType { expected: TextureViewType::Cube })
    );
    assert_eq!(
        check_capture_input(TextureViewType::Cube, TextureViewType::D2),
        Err(TextureError::WrongViewType { expected: TextureViewType::D2 })
    );
}

#[test]
fn mip_generation_requests_are_checked() {
    assert_eq!(check_mip_generation(TextureViewType::Cube, 256, 9, 256, 9), Ok(true));
    assert_eq!(check_mip_generation(TextureViewType::Cube, 256, 9, 256, 1), Ok(false));
    assert_eq!(check_mip_generation(TextureViewType::D2, 256, 9, 256, 9), Err(TextureError::NotACubemap));
    assert_eq!(check_mip_generation(TextureViewType::Cube, 256, 9, 128, 9), Err(TextureError::FaceSizeMismatch));
    assert_eq!(check_mip_generation(TextureViewType::Cube, 256, 4, 256, 9), Err(TextureError::MipChainTooLong));
}

#[test]
fn depth_textures_are_never_empty() {
    assert_eq!(depth_texture_extent(0, 0), (1, 1));
    assert_eq!(depth_texture_extent(800, 0), (800, 1));
    assert_eq!(depth_texture_extent(640, 480), (640, 480));
}

#[test]
fn cubemap_renders_must_fit_the_target_chain() {
    assert_eq!(check_cubemap_render(256, 9, 9), Ok(()));
    assert_eq!(check_cubemap_render(256, 9, 1), Ok(()));
    assert_eq!(check_cubemap_render(256, 9, 0), Err(TextureError::RenderedMipCountOutOfRange));
    assert_eq!(check_cubemap_render(256, 5, 6), Err(TextureError::RenderedMipCountOutOfRange));
    // the target is checked first
    assert_eq!(check_cubemap_render(0, 1, 0), Err(TextureError::ZeroFaceSize));
    assert_eq!(
        check_cubemap_render(256, 10, 0),
        Err(TextureError::MipLevelCountOutOfRange { maximum: 9 })
    );
}
