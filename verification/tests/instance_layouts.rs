use sparmos::layout::{
    default_instance_layout, default_vertex_layout, packed_layout, raw_instance_layout,
    skybox_vertex_layout, sprite_instance_layout, VertexFormat, VertexStepMode,
};

#[test]
fn default_instance_layout_matches_shader_contract() {
    let layout = default_instance_layout();

    assert_eq!(layout.array_stride, 52);
    assert_eq!(
        layout
            .attributes
            .iter()
            .map(|attribute| (attribute.shader_location, attribute.offset))
            .collect::<Vec<_>>(),
        vec![(5, 0), (6, 12), (7, 24), (8, 40)]
    );
}

#[test]
fn sprite_instance_layout_includes_uv_rect() {
    let layout = sprite_instance_layout();

    assert_eq!(layout.array_stride, 68);
    assert_eq!(
        layout
            .attributes
            .iter()
            .map(|attribute| (attribute.shader_location, attribute.offset, attribute.format))
            .collect::<Vec<_>>(),
        vec![
            (5, 0, VertexFormat::Float32x3),
            (6, 12, VertexFormat::Float32x3),
            (7, 24, VertexFormat::Float32x4),
            (8, 40, VertexFormat::Float32x3),
            (9, 52, VertexFormat::Float32x4),
        ]
    );
}

#[test]
fn vertex_formats_have_their_byte_sizes() {
    assert_eq!(VertexFormat::Float32x2.size(), 8);
    assert_eq!(VertexFormat::Float32x3.size(), 12);
    assert_eq!(VertexFormat::Float32x4.size(), 16);
}

#[test]
fn default_vertex_layout_packs_position_uv_normal() {
    let layout = default_vertex_layout();
    assert_eq!(layout.array_stride, 32);
    assert_eq!(layout.step_mode, VertexStepMode::Vertex);
    assert_eq!(
        layout
            .attributes
            .iter()
            .map(|a| (a.shader_location, a.offset, a.format))
            .collect::<Vec<_>>(),
        vec![
            (0, 0, VertexFormat::Float32x3),
            (1, 12, VertexFormat::Float32x2),
            (2, 20, VertexFormat::Float32x3),
        ]
    );
}

#[test]
fn skybox_layout_is_one_position() {
    let layout = skybox_vertex_layout();
    assert_eq!(layout.array_stride, 12);
    assert_eq!(layout.attributes.len(), 1);
    assert_eq!(layout.attributes[0].shader_location, 0);
}

#[test]
fn instance_layouts_step_per_instance() {
    assert_eq!(default_instance_layout().step_mode, VertexStepMode::Instance);
    assert_eq!(sprite_instance_layout().step_mode, VertexStepMode::Instance);
    let raw = raw_instance_layout();
    assert_eq!(raw.step_mode, VertexStepMode::Instance);
    assert_eq!(raw.attributes[0].shader_location, 5);
}

#[test]
fn packed_layout_offsets_are_running_sums() {
    let formats = [VertexFormat::Float32x4, VertexFormat::Float32x2, VertexFormat::Float32x3];
    let layout = packed_layout(3, &formats, VertexStepMode::Vertex);
    assert_eq!(layout.array_stride, 36);
    let offsets: Vec<u64> = layout.attributes.iter().map(|a| a.offset).collect();
    assert_eq!(offsets, vec![0, 16, 24]);
    let locations: Vec<u32> = layout.attributes.iter().map(|a| a.shader_location).collect();
    assert_eq!(locations, vec![3, 4, 5]);
}

#[test]
fn layout_key_keeps_every_attribute() {
    let layout = sprite_instance_layout();
    let key = layout.key();
    assert_eq!(key.array_stride, 68);
    assert_eq!(key.attributes.len(), 5);
    assert_eq!(key.attributes[4].offset, 52);
    assert_eq!(key, sprite_instance_layout().key());
    assert_ne!(key, default_instance_layout().key());
}
