use sparmos::geometry::MaterialHandle;
use sparmos::layout::{default_instance_layout, default_vertex_layout, skybox_vertex_layout};
use sparmos::material::{MaterialKey, MaterialLookup};

fn key(buffers: Vec<u64>, textures: &[&str], shader: &str, target: Option<u32>) -> MaterialKey {
    MaterialKey::new(
        buffers,
        textures.iter().map(|t| t.to_string()).collect(),
        &default_vertex_layout(),
        &default_instance_layout(),
        shader.to_string(),
        target,
    )
}

#[test]
fn keys_with_the_same_parts_are_the_same() {
    let a = key(vec![3, 4], &["wood"], "shader.wgsl", None);
    let b = key(vec![3, 4], &["wood"], "shader.wgsl", None);
    assert!(a.same(&b));
    assert_eq!(a.vertex_layout, default_vertex_layout().key());
    assert_eq!(a.instance_layout, default_instance_layout().key());
}

#[test]
fn keys_differ_in_any_part() {
    let a = key(vec![3, 4], &["wood"], "shader.wgsl", None);
    assert!(!a.same(&key(vec![3], &["wood"], "shader.wgsl", None)));
    assert!(!a.same(&key(vec![4, 3], &["wood"], "shader.wgsl", None)));
    assert!(!a.same(&key(vec![3, 4], &["stone"], "shader.wgsl", None)));
    assert!(!a.same(&key(vec![3, 4], &[], "shader.wgsl", None)));
    assert!(!a.same(&key(vec![3, 4], &["wood"], "sky.wgsl", None)));
    assert!(!a.same(&key(vec![3, 4], &["wood"], "shader.wgsl", Some(1))));
    let other_layout = MaterialKey::new(
        vec![3, 4],
        vec!["wood".to_string()],
        &skybox_vertex_layout(),
        &default_instance_layout(),
        "shader.wgsl".to_string(),
        None,
    );
    assert!(!a.same(&other_layout));
}

#[test]
fn a_material_with_a_known_key_is_reused() {
    let mut lookup = MaterialLookup::new();
    assert_eq!(lookup.get(&key(vec![1], &[], "shader.wgsl", None)), None);
    lookup.insert(key(vec![1], &[], "shader.wgsl", None), MaterialHandle(7));
    lookup.insert(key(vec![2], &[], "shader.wgsl", None), MaterialHandle(8));
    assert_eq!(lookup.get(&key(vec![1], &[], "shader.wgsl", None)), Some(MaterialHandle(7)));
    assert_eq!(lookup.get(&key(vec![2], &[], "shader.wgsl", None)), Some(MaterialHandle(8)));
    assert_eq!(lookup.get(&key(vec![1], &["wood"], "shader.wgsl", None)), None);
}
