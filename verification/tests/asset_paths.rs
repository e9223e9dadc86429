use sparmos::assets::{normalize_path, AssetManifest, AssetPathError, Assets, LoadAllPlan, LoadStep};

#[test]
fn paths_are_normalized() {
    assert_eq!(normalize_path("engine/shaders/skybox.wgsl").unwrap(), "engine/shaders/skybox.wgsl");
    assert_eq!(normalize_path("/engine//shaders/./skybox.wgsl/").unwrap(), "engine/shaders/skybox.wgsl");
    assert_eq!(normalize_path("engine\\shaders\\pbr.wgsl").unwrap(), "engine/shaders/pbr.wgsl");
    assert_eq!(normalize_path("./a").unwrap(), "a");
}

#[test]
fn parent_segments_and_empty_paths_are_refused() {
    assert_eq!(normalize_path("../secret").unwrap_err(), AssetPathError::ParentDirectory);
    assert_eq!(normalize_path("a/../b").unwrap_err(), AssetPathError::ParentDirectory);
    assert_eq!(normalize_path("a\\..\\b").unwrap_err(), AssetPathError::ParentDirectory);
    assert_eq!(normalize_path("").unwrap_err(), AssetPathError::Empty);
    assert_eq!(normalize_path("/././/").unwrap_err(), AssetPathError::Empty);
    // a dot that is part of a name is kept
    assert_eq!(normalize_path("a/..b/.c").unwrap(), "a/..b/.c");
}

#[test]
fn normalizing_twice_changes_nothing() {
    for path in ["x//y/./z", "\\a\\b", "plain", "./dir/./file.txt/"] {
        let once = normalize_path(path).unwrap();
        assert_eq!(normalize_path(&once).unwrap(), once);
    }
}

#[test]
fn stored_assets_are_found_under_any_spelling() {
    let mut assets = Assets::new(String::from("assets"));
    assert_eq!(assets.root(), "assets");
    assert_eq!(assets.get("models/cube.obj"), None);
    let path = match assets.prepare_load("./models//cube.obj").unwrap() {
        LoadStep::Fetch(path) => path,
        LoadStep::Cached(_) => panic!("nothing is cached yet"),
    };
    assert_eq!(path, "models/cube.obj");
    assets.store(path, vec![1, 2, 3]);
    assert_eq!(assets.get("models/cube.obj"), Some(vec![1, 2, 3]));
    assert_eq!(assets.get("models\\cube.obj"), Some(vec![1, 2, 3]));
    assert_eq!(assets.require("/models/cube.obj"), vec![1, 2, 3]);
    match assets.prepare_load("models/cube.obj").unwrap() {
        LoadStep::Cached(bytes) => assert_eq!(bytes, vec![1, 2, 3]),
        LoadStep::Fetch(_) => panic!("the asset is cached"),
    }
    assert_eq!(assets.get("../models/cube.obj"), None);
    assert!(assets.prepare_load("..").is_err());
}

#[test]
fn storing_again_replaces_the_bytes() {
    let mut assets = Assets::new(String::from("root"));
    assets.store(String::from("a.bin"), vec![1]);
    assets.store(String::from("b.bin"), vec![2]);
    assets.store(String::from("a.bin"), vec![3]);
    assert_eq!(assets.get("a.bin"), Some(vec![3]));
    assert_eq!(assets.get("b.bin"), Some(vec![2]));
}

#[test]
fn batch_loads_take_each_path_once() {
    let mut plan = LoadAllPlan::new();
    assert_eq!(plan.take_path("a/b").unwrap(), Some(String::from("a/b")));
    assert_eq!(plan.take_path("./a//b").unwrap(), None);
    assert_eq!(plan.take_path("c").unwrap(), Some(String::from("c")));
    assert_eq!(plan.take_path("../c").unwrap_err(), AssetPathError::ParentDirectory);
}

#[test]
fn manifest_keeps_paths_in_order() {
    let manifest = AssetManifest::new()
        .file("engine/shaders/skybox.wgsl")
        .extend(&["a.png", "b.png"])
        .file("c.obj");
    assert_eq!(
        manifest.iter(),
        vec![
            String::from("engine/shaders/skybox.wgsl"),
            String::from("a.png"),
            String::from("b.png"),
            String::from("c.obj"),
        ]
    );
    assert!(AssetManifest::new().iter().is_empty());
}

#[test]
fn normalized_paths_are_plain() {
    for path in ["\\a\\b\\", "./x//y/./z/", "//one", "a/.b/c.", "..x/y.."] {
        let q = normalize_path(path).unwrap();
        assert!(!q.is_empty());
        assert!(!q.contains('\\'));
        assert!(!q.starts_with('/') && !q.ends_with('/'));
        assert!(!q.contains("//"));
        assert!(q.split('/').all(|c| c != "." && c != ".." && !c.is_empty()));
    }
}
