use sparmos::meshes::{new_cube, sphere_indices, Meshes, PrimitiveCube, PrimitiveFace, TexturedCube};
use sparmos::physics::BodyType;
use sparmos::render::TextureHandle;
use sparmos::scene::{Scene, SceneState};
use sparmos::sprites::{Rect, SpriteFrame, SpriteSheet, SpriteSheetData, SpriteSheetMeta, SpriteSheetSize};
use sparmos::tui::tui_frame;

#[test]
fn cube_has_six_faces_of_two_triangles() {
    let cube = new_cube();
    assert_eq!(cube.vertices.len(), 36);
    assert_eq!(cube.indices, (0..36).collect::<Vec<u32>>());
    // every vertex of a face lies on the face's plane, on the side its normal points to
    for v in &cube.vertices {
        for axis in 0..3 {
            if v.normal[axis] == 1 {
                assert_eq!(v.position[axis], 1);
            }
            if v.normal[axis] == -1 {
                assert_eq!(v.position[axis], 0);
            }
        }
    }
    let from_enum = Meshes::Cube.create_primitive();
    assert_eq!(from_enum.vertices, cube.vertices);
    assert_eq!(PrimitiveCube::new().vertices, cube.vertices);
}

#[test]
fn cube_triangles_wind_counter_clockwise_seen_from_outside() {
    let cube = new_cube();
    for tri in cube.vertices.chunks(3) {
        let p = |i: usize| [tri[i].position[0] as i32, tri[i].position[1] as i32, tri[i].position[2] as i32];
        let (a, b, c) = (p(0), p(1), p(2));
        let u = [b[0] - a[0], b[1] - a[1], b[2] - a[2]];
        let w = [c[0] - a[0], c[1] - a[1], c[2] - a[2]];
        let cross = [u[1] * w[2] - u[2] * w[1], u[2] * w[0] - u[0] * w[2], u[0] * w[1] - u[1] * w[0]];
        let n = tri[0].normal;
        let dot = cross[0] * n[0] as i32 + cross[1] * n[1] as i32 + cross[2] * n[2] as i32;
        assert!(dot > 0);
    }
}

#[test]
fn face_mesh_has_two_faces() {
    let face = PrimitiveFace::new();
    assert_eq!(face.vertices.len(), 12);
    assert_eq!(face.indices, (0..12).collect::<Vec<u16>>());
}

#[test]
fn textured_cube_indices_stay_in_range() {
    let cube = TexturedCube::new();
    assert_eq!(cube.vertices.len(), 8);
    assert_eq!(cube.indices.len(), 36);
    assert!(cube.indices.iter().all(|&i| (i as usize) < cube.vertices.len()));
}

#[test]
fn sphere_indices_form_two_triangles_per_quad() {
    assert_eq!(sphere_indices(1, 1), vec![0, 1, 2, 1, 3, 2]);
    let indices = sphere_indices(8, 4);
    assert_eq!(indices.len(), 6 * 8 * 4);
    assert!(indices.iter().all(|&i| i < 5 * 9));
    assert!(sphere_indices(0, 3).is_empty());
    assert!(sphere_indices(5, 0).is_empty());
}

#[test]
fn sprite_frames_are_found_by_name() {
    let frame = |x: u32| SpriteFrame { frame: Rect { x, y: 0, w: 16, h: 16 }, duration: 100 };
    let data = SpriteSheetData {
        frames: vec![
            (String::from("idle"), frame(0)),
            (String::from("run"), frame(16)),
            (String::from("idle"), frame(32)),
        ],
        meta: SpriteSheetMeta { size: SpriteSheetSize { w: 48, h: 16 }, image: String::from("hero.png") },
    };
    let sheet = SpriteSheet::new(data, TextureHandle(4));
    assert_eq!(sheet.frame("run"), Some(frame(16)));
    assert_eq!(sheet.frame("idle"), Some(frame(0)));
    assert_eq!(sheet.frame("jump"), None);
    assert_eq!(sheet.size(), SpriteSheetSize { w: 48, h: 16 });
    assert_eq!(sheet.texture_handle, TextureHandle(4));
}

#[test]
fn tui_frame_lines_have_the_frame_width() {
    let frame = tui_frame(10, 4, Some("Hi"));
    assert_eq!(frame.top, "┌── Hi ──┐");
    assert_eq!(frame.middle, "│        │");
    assert_eq!(frame.bottom, "└────────┘");
    assert_eq!(frame.middle_rows, 2);
    for line in [&frame.top, &frame.middle, &frame.bottom] {
        assert_eq!(line.chars().count(), 10);
    }
    let plain = tui_frame(4, 2, None);
    assert_eq!(plain.top, "┌──┐");
    assert_eq!(plain.middle, "│  │");
    assert_eq!(plain.middle_rows, 0);
}

#[test]
fn only_simulating_scenes_simulate() {
    let scene = |state| Scene { world: (), name: String::from("main"), state };
    assert!(scene(SceneState::Simulating).should_simulate());
    assert!(!scene(SceneState::Sleeping).should_simulate());
    assert!(!scene(SceneState::Loaded).should_simulate());
    assert!(!BodyType::Static.is_dynamic());
    assert!(!BodyType::Kinematic.is_dynamic());
}
