use sparmos::binding::{view_layout_groups, BindGroupBuilder};
use sparmos::engine::{EngineTime, FrameRateSample, NANOS_PER_SECOND};
use sparmos::geometry::{MeshHandle, MeshKey, MeshLookup};
use sparmos::physics::BodyType;
use sparmos::render::{PixelSize, RenderLayer, RenderMask, RenderTarget, TextureHandle};
use sparmos::scene::SceneState;
use sparmos::synth::{AudioState, Transition};

#[test]
fn frame_rate_is_sampled_once_a_second() {
    let mut time = EngineTime::new();
    assert_eq!(time.dt(), 0);
    assert_eq!(time.update_time(400_000_000), None);
    assert_eq!(time.dt(), 400_000_000);
    assert_eq!(time.update_time(400_000_000), None);
    assert_eq!(
        time.update_time(300_000_000),
        Some(FrameRateSample { frames: 3, elapsed_nanos: 1_100_000_000 })
    );
    assert_eq!(time.update_time(NANOS_PER_SECOND), Some(FrameRateSample { frames: 1, elapsed_nanos: NANOS_PER_SECOND }));
    assert_eq!(time.dt(), NANOS_PER_SECOND);
}

#[test]
fn bind_group_slots_are_kept_in_order() {
    let mut builder: BindGroupBuilder<&str> = BindGroupBuilder::new();
    builder.insert(1, 0, "camera");
    builder.insert(0, 2, "sampler");
    builder.insert(0, 0, "texture");
    assert!(builder.contains(0, 2));
    assert!(!builder.contains(2, 0));
    assert_eq!(builder.get(1, 0), Some(&"camera"));
    assert_eq!(builder.get(1, 1), None);
    assert_eq!(builder.keys(), vec![(0, 0), (0, 2), (1, 0)]);
    assert_eq!(builder.group_count(), 2);
    builder.replace(0, 2, "other sampler");
    assert_eq!(builder.get(0, 2), Some(&"other sampler"));
    assert_eq!(builder.keys(), vec![(0, 0), (0, 2), (1, 0)]);
}

#[test]
fn empty_builder_has_no_groups() {
    let builder: BindGroupBuilder<u8> = BindGroupBuilder::new();
    assert_eq!(builder.group_count(), 0);
    assert!(builder.keys().is_empty());
}

#[test]
fn identical_meshes_share_a_key() {
    let a = MeshKey::from_bytes(&[1, 2, 3], &[0, 1, 2], 12, 3, 3);
    let b = MeshKey::from_bytes(&[1, 2, 3], &[0, 1, 2], 12, 3, 3);
    let c = MeshKey::from_bytes(&[1, 2, 4], &[0, 1, 2], 12, 3, 3);
    let d = MeshKey::from_bytes(&[1, 2, 3], &[0, 1, 2], 16, 3, 3);
    assert_eq!(a, b);
    assert_ne!(a, c);
    assert_ne!(a, d);
}

#[test]
fn default_mask_draws_every_layer() {
    let mask = RenderMask(u32::MAX);
    assert!(mask.includes(None));
    assert!(mask.includes(Some(&RenderLayer(1 << 7))));
    assert!(RenderMask(1).includes(None));
    assert!(!RenderMask(2).includes(None));
    assert!(!RenderMask(0b0100).includes(Some(&RenderLayer(0b1011))));
    assert!(RenderMask(0b0110).includes(Some(&RenderLayer(0b0010))));
}

#[test]
fn window_targets_follow_the_window() {
    let mut target: RenderTarget<u8> = RenderTarget::window(PixelSize { width: 10, height: 10 });
    assert!(target.is_window());
    assert_eq!(target.color_texture(), None);
    assert!(target.resize_window(PixelSize { width: 20, height: 5 }));
    assert_eq!(target.size(), PixelSize { width: 20, height: 5 });
    assert!(target.texture_resize(PixelSize { width: 1, height: 1 }).is_none());
}

#[test]
fn texture_targets_keep_their_size_until_reallocated() {
    let size = PixelSize { width: 64, height: 64 };
    let mut target: RenderTarget<u8> =
        RenderTarget::texture(TextureHandle(7), 0, Some((TextureHandle(8), 1)), size, 3);
    assert!(!target.is_window());
    assert_eq!(target.color_texture(), Some(TextureHandle(7)));
    assert!(!target.resize_window(PixelSize { width: 1, height: 1 }));
    assert_eq!(target.size(), size);
    assert!(target.texture_resize(size).is_none());
    let resize = target.texture_resize(PixelSize { width: 128, height: 32 }).unwrap();
    assert_eq!(resize.color, TextureHandle(7));
    assert_eq!(resize.depth, Some(TextureHandle(8)));
    assert_eq!(resize.format, 3);
    target.set_texture_size(PixelSize { width: 128, height: 32 });
    assert_eq!(target.size(), PixelSize { width: 128, height: 32 });
    assert_eq!(target.color_texture(), Some(TextureHandle(7)));
}

#[test]
fn sounds_start_and_release() {
    assert_eq!(AudioState::Stopped.start(), Transition { state: AudioState::Playing, restart: true });
    assert_eq!(AudioState::Playing.start(), Transition { state: AudioState::Playing, restart: false });
    assert_eq!(AudioState::Playing.force_start(), Transition { state: AudioState::Playing, restart: true });
    assert_eq!(AudioState::Playing.release(), Transition { state: AudioState::Stopping, restart: true });
    assert_eq!(AudioState::Stopping.release(), Transition { state: AudioState::Stopping, restart: false });
    assert!(AudioState::Stopping.is_audible());
    assert!(!AudioState::Stopped.is_audible());
    assert_eq!(AudioState::default(), AudioState::Stopped);
}

#[test]
fn only_dynamic_bodies_move_and_simulating_is_the_default() {
    assert!(BodyType::Dynamic.is_dynamic());
    assert_eq!(SceneState::default(), SceneState::Simulating);
    assert_eq!(RenderLayer::default(), RenderLayer(1));
    assert_eq!(RenderMask::default(), RenderMask(u32::MAX));
}

#[test]
fn view_layouts_group_bindings_by_group() {
    let groups = view_layout_groups(&vec![(1, 3), (0, 0), (3, 1), (1, 0)]);
    assert_eq!(groups, vec![vec![0], vec![0, 3], vec![], vec![1]]);
    assert!(view_layout_groups(&Vec::new()).is_empty());
}

#[test]
fn meshes_with_the_same_contents_are_uploaded_once() {
    let mut lookup = MeshLookup::new();
    let key = MeshKey::from_bytes(&[1, 2, 3], &[0, 1, 2], 12, 3, 3);
    assert_eq!(lookup.get(&key), None);
    lookup.insert(key, MeshHandle(7));
    let again = MeshKey::from_bytes(&[1, 2, 3], &[0, 1, 2], 12, 3, 3);
    assert_eq!(lookup.get(&again), Some(MeshHandle(7)));
    let other = MeshKey::from_bytes(&[9], &[0], 12, 1, 1);
    assert_eq!(lookup.get(&other), None);
}

#[test]
fn the_measuring_window_stays_under_a_second() {
    let mut time = EngineTime::new();
    time.update_time(999_999_999);
    assert_eq!(time.frame_count(), 1);
    assert_eq!(time.time_acc(), 999_999_999);
    time.update_time(1);
    assert_eq!(time.frame_count(), 0);
    assert_eq!(time.time_acc(), 0);
}
