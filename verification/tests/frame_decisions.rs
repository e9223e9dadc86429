use sparmos::frame::{
    compute_dispatch, frame_passes, pace_frame, window_event_actions, AppAction, AppEvent,
    ComputeDispatch, DepthBuffer, PassTarget, ReadbackState, RenderStep, FRAME_INTERVAL_NANOS,
    POLL_INTERVAL_NANOS,
};

#[test]
fn unconfigured_surface_draws_nothing() {
    assert!(frame_passes(false, 0).is_empty());
    assert!(frame_passes(false, 3).is_empty());
}

#[test]
fn without_effects_the_scene_goes_to_the_screen() {
    assert_eq!(
        frame_passes(true, 0),
        vec![RenderStep::Scene { target: PassTarget::Screen, depth: DepthBuffer::Window }]
    );
}

#[test]
fn one_effect_reads_the_scene_and_writes_the_screen() {
    assert_eq!(
        frame_passes(true, 1),
        vec![
            RenderStep::Scene { target: PassTarget::Effect(0), depth: DepthBuffer::Overscan },
            RenderStep::Effect { effect: 0, target: PassTarget::Screen },
        ]
    );
}

#[test]
fn effects_chain_into_each_other() {
    let passes = frame_passes(true, 3);
    assert_eq!(
        passes,
        vec![
            RenderStep::Scene { target: PassTarget::Effect(0), depth: DepthBuffer::Overscan },
            RenderStep::Effect { effect: 0, target: PassTarget::Effect(1) },
            RenderStep::Effect { effect: 1, target: PassTarget::Effect(2) },
            RenderStep::Effect { effect: 2, target: PassTarget::Screen },
        ]
    );
    // each pass reads what the one before it wrote
    for k in 1..passes.len() {
        let previous_target = match passes[k - 1] {
            RenderStep::Scene { target, .. } => target,
            RenderStep::Effect { target, .. } => target,
        };
        match passes[k] {
            RenderStep::Effect { effect, .. } => assert_eq!(previous_target, PassTarget::Effect(effect)),
            RenderStep::Scene { .. } => panic!("the scene is drawn once"),
        }
    }
}

#[test]
fn readback_is_requested_once_until_it_arrives() {
    let mut state = ReadbackState::Available;
    assert!(state.dispatches());
    assert!(state.request_readback());
    assert_eq!(state, ReadbackState::Pending);
    assert!(!state.dispatches());
    assert!(!state.request_readback());
    assert_eq!(state, ReadbackState::Pending);
    state.readback_arrived();
    assert_eq!(state, ReadbackState::Available);
    assert!(state.request_readback());
}

#[test]
fn computes_without_readback_never_ask() {
    let mut state = ReadbackState::NoReadback;
    assert!(state.dispatches());
    assert!(!state.request_readback());
    assert_eq!(state, ReadbackState::NoReadback);
}

#[test]
fn compute_dispatch_rounds_workgroups_up() {
    assert_eq!(
        compute_dispatch(ReadbackState::NoReadback, 130, 2),
        Some(ComputeDispatch { workgroups: 3, output_group: 2 })
    );
    assert_eq!(
        compute_dispatch(ReadbackState::Available, 128, 0),
        Some(ComputeDispatch { workgroups: 2, output_group: 0 })
    );
    assert_eq!(
        compute_dispatch(ReadbackState::Available, 0, 1),
        Some(ComputeDispatch { workgroups: 0, output_group: 1 })
    );
    assert_eq!(compute_dispatch(ReadbackState::Pending, 1000, 1), None);
}

#[test]
fn events_before_startup_do_nothing() {
    let mut focused = true;
    assert!(window_event_actions(false, &mut focused, AppEvent::RedrawRequested).is_empty());
    let mut unfocused = false;
    assert!(window_event_actions(false, &mut unfocused, AppEvent::Focused(true)).is_empty());
    assert!(!unfocused);
}

#[test]
fn redraw_renders_then_updates() {
    let mut focused = true;
    assert_eq!(
        window_event_actions(true, &mut focused, AppEvent::RedrawRequested),
        vec![
            AppAction::ForwardToGui,
            AppAction::MeasureFrameTime,
            AppAction::RestartClock,
            AppAction::Render,
            AppAction::ServiceReadbacks,
            AppAction::UpdateState,
            AppAction::UpdateGame,
        ]
    );
}

#[test]
fn unfocused_window_ignores_events_until_focused() {
    let mut focused = true;
    assert!(window_event_actions(true, &mut focused, AppEvent::Focused(false)).is_empty());
    assert!(!focused);
    assert!(window_event_actions(true, &mut focused, AppEvent::RedrawRequested).is_empty());
    assert!(window_event_actions(true, &mut focused, AppEvent::CloseRequested).is_empty());
    let actions = window_event_actions(true, &mut focused, AppEvent::Focused(true));
    assert!(focused);
    assert_eq!(
        actions,
        vec![
            AppAction::RestartClock,
            AppAction::MeasureFrameTime,
            AppAction::Render,
            AppAction::ForwardToGui,
            AppAction::ForwardInput,
            AppAction::ProcessGameEvent,
        ]
    );
}

#[test]
fn close_resize_and_other_events() {
    let mut focused = true;
    assert_eq!(
        window_event_actions(true, &mut focused, AppEvent::CloseRequested),
        vec![AppAction::ForwardToGui, AppAction::Exit]
    );
    assert_eq!(
        window_event_actions(true, &mut focused, AppEvent::Resized { width: 800, height: 600 }),
        vec![
            AppAction::ForwardToGui,
            AppAction::ResizeState { width: 800, height: 600 },
            AppAction::ResizeGame,
        ]
    );
    assert_eq!(
        window_event_actions(true, &mut focused, AppEvent::Other),
        vec![AppAction::ForwardToGui, AppAction::ForwardInput, AppAction::ProcessGameEvent]
    );
}

#[test]
fn frame_pacing_requests_redraw_when_due() {
    assert_eq!(FRAME_INTERVAL_NANOS, 6_944_444);
    let early = pace_frame(1_000, 10_000_000);
    assert!(!early.request_redraw);
    assert_eq!(early.next_frame, 10_000_000);
    assert_eq!(early.wake_at, 1_000 + POLL_INTERVAL_NANOS);

    let due = pace_frame(10_000_000, 10_000_000);
    assert!(due.request_redraw);
    assert_eq!(due.next_frame, 10_000_000 + FRAME_INTERVAL_NANOS);
    assert_eq!(due.wake_at, 11_000_000);

    let close = pace_frame(9_500_000, 10_000_000);
    assert!(!close.request_redraw);
    assert_eq!(close.wake_at, 10_000_000);
}
