use sparmos::material::{material_groups, MaterialGroups};

#[test]
fn groups_follow_the_system_layouts() {
    assert_eq!(
        material_groups(2, 1, 3, true),
        MaterialGroups { first_texture: 2, first_buffer: 3, compute: Some(6), count: 7 }
    );
    assert_eq!(
        material_groups(1, 0, 0, false),
        MaterialGroups { first_texture: 1, first_buffer: 1, compute: None, count: 1 }
    );
    assert_eq!(
        material_groups(0, 0, 2, true),
        MaterialGroups { first_texture: 0, first_buffer: 0, compute: Some(2), count: 3 }
    );
}

#[test]
fn compute_rendering_pipelines_take_several_textures() {
    assert_eq!(
        material_groups(1, 3, 1, false),
        MaterialGroups { first_texture: 1, first_buffer: 4, compute: None, count: 5 }
    );
}
