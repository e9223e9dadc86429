use sparmos::render::RenderViewRole;
use sparmos::scene::SceneState;
use sparmos::scene_graph::{RenderViewHandler, SceneGraph, SceneHandler, ViewFilter};

#[test]
fn simulation_state_does_not_depend_on_render_views() {
    let mut scenes = SceneHandler::new();
    let simulating = scenes.new_scene("simulating");
    let sleeping = scenes.new_scene("sleeping");
    assert!(scenes.set_state(sleeping, SceneState::Sleeping));

    assert_eq!(scenes.simulating_handles(), vec![simulating]);
    assert_ne!(simulating, sleeping);
}

#[test]
fn the_first_scene_becomes_active() {
    let mut scenes = SceneHandler::new();
    assert_eq!(scenes.active_gameplay_scene(), None);
    let first = scenes.new_scene("first");
    let second = scenes.new_scene("second");
    assert_eq!(scenes.active_gameplay_scene(), Some(first));
    assert_eq!(scenes.handle_of("second"), Some(second));
    assert_eq!(scenes.handle_of("third"), None);
    assert_eq!(scenes.get(first).unwrap().name, "first");
    assert_eq!(scenes.get(first).unwrap().state, SceneState::Simulating);
    scenes.set_active_gameplay_scene(second);
    assert_eq!(scenes.active_gameplay_scene(), Some(second));
    assert_eq!(scenes.len(), 2);
}

#[test]
fn removing_the_active_scene_activates_another() {
    let mut scenes = SceneHandler::new();
    let first = scenes.new_scene("first");
    let second = scenes.new_scene("second");
    let removed = scenes.remove(first).unwrap();
    assert_eq!(removed.name, "first");
    assert_eq!(scenes.active_gameplay_scene(), Some(second));
    assert!(scenes.get(first).is_none());
    assert_eq!(scenes.handle_of("first"), None);
    assert!(scenes.remove(first).is_none());
    scenes.remove(second).unwrap();
    assert_eq!(scenes.active_gameplay_scene(), None);
    assert_eq!(scenes.len(), 0);
}

#[test]
fn removing_another_scene_keeps_the_active_one() {
    let mut scenes = SceneHandler::new();
    let first = scenes.new_scene("first");
    let second = scenes.new_scene("second");
    scenes.remove(second).unwrap();
    assert_eq!(scenes.active_gameplay_scene(), Some(first));
    let mut handles = scenes.handles();
    handles.sort();
    assert_eq!(handles, vec![first]);
}

#[test]
fn views_are_listed_by_filter() {
    let mut scenes = SceneHandler::new();
    let scene = scenes.new_scene("main");
    let mut views = RenderViewHandler::new();
    let window = views.new_view(scene, "window", RenderViewRole::Main, true);
    let mirror = views.new_view(scene, "mirror", RenderViewRole::Auxiliary, false);
    assert_eq!(views.presenting_handle(), Some(window));
    let mut enabled = views.handles(ViewFilter::Enabled);
    enabled.sort();
    let mut both = vec![window, mirror];
    both.sort();
    assert_eq!(enabled, both);
    assert_eq!(views.handles(ViewFilter::EnabledOffscreen), vec![mirror]);
    views.set_enabled(window, false);
    assert_eq!(views.presenting_handle(), None);
    assert_eq!(views.handles(ViewFilter::Enabled), vec![mirror]);
    views.set_simulate_camera(mirror, false);
    assert!(views.handles(ViewFilter::CameraUpdates).is_empty());
    views.set_role_from_name("mirror", RenderViewRole::Main);
    assert_eq!(views.get(mirror).unwrap().role, RenderViewRole::Main);
    assert_eq!(views.handle_of("window"), Some(window));
}

#[test]
fn removing_a_scene_removes_its_views() {
    let mut graph = SceneGraph::new();
    let world = graph.new_scene("world");
    let menu = graph.new_scene("menu");
    let main = graph.new_render_view("main", world, RenderViewRole::Main, true);
    let minimap = graph.new_render_view("minimap", world, RenderViewRole::Auxiliary, false);
    let overlay = graph.new_render_view("overlay", menu, RenderViewRole::Auxiliary, false);

    let (existed, mut removed) = graph.remove_scene(world);
    assert!(existed);
    removed.sort();
    let mut expected = vec![main, minimap];
    expected.sort();
    assert_eq!(removed, expected);
    assert!(graph.views().get(main).is_none());
    assert!(graph.views().get(minimap).is_none());
    assert_eq!(graph.views().get(overlay).unwrap().scene, menu);
    assert_eq!(graph.scenes().active_gameplay_scene(), Some(menu));
    assert_eq!(graph.views().handle_of("main"), None);

    let (existed, removed) = graph.remove_scene(world);
    assert!(!existed);
    assert!(removed.is_empty());
}

#[test]
fn views_can_move_between_live_scenes() {
    let mut graph = SceneGraph::new();
    let a = graph.new_scene("a");
    let b = graph.new_scene("b");
    let view = graph.new_render_view("view", a, RenderViewRole::Main, true);
    graph.set_render_view_scene(view, b);
    assert_eq!(graph.views().get(view).unwrap().scene, b);
    graph.set_view_role(view, RenderViewRole::Auxiliary);
    graph.set_view_enabled(view, false);
    let info = graph.views().get(view).unwrap();
    assert_eq!(info.role, RenderViewRole::Auxiliary);
    assert!(!info.enabled);
    assert!(graph.set_scene_state(a, SceneState::Sleeping));
    graph.set_active_gameplay_scene(b);
    assert_eq!(graph.scenes().active_gameplay_scene(), Some(b));
    assert!(graph.remove_render_view(view));
    assert!(!graph.remove_render_view(view));
}

#[test]
fn scenes_are_listed_and_replaced_in_slot_order() {
    let mut scenes = SceneHandler::new();
    let a = scenes.new_scene("a");
    let b = scenes.new_scene("b");
    let c = scenes.new_scene("c");
    assert_eq!(scenes.handles(), vec![a, b, c]);
    scenes.set_active_gameplay_scene(c);
    assert!(scenes.remove(c).is_some());
    assert_eq!(scenes.active_gameplay_scene(), Some(a));
    // The freed slot of `c` is reused by the next scene.
    let d = scenes.new_scene("d");
    assert_eq!(scenes.handles(), vec![a, b, d]);
    scenes.set_active_gameplay_scene(a);
    assert!(scenes.remove(a).is_some());
    assert_eq!(scenes.active_gameplay_scene(), Some(b));
    assert_eq!(scenes.simulating_handles(), vec![b, d]);
}

#[test]
fn the_presenting_view_is_the_first_in_slot_order() {
    let mut scenes = SceneHandler::new();
    let scene = scenes.new_scene("scene");
    let mut views = RenderViewHandler::new();
    let first = views.new_view(scene, "first", RenderViewRole::Main, true);
    let second = views.new_view(scene, "second", RenderViewRole::Main, true);
    assert_eq!(views.presenting_handle(), Some(first));
    views.set_enabled(first, false);
    assert_eq!(views.presenting_handle(), Some(second));
    assert_eq!(views.handles(ViewFilter::OfScene(scene)), vec![first, second]);
    assert_eq!(views.remove_for_scene(scene), vec![first, second]);
}
