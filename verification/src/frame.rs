//! Per-frame decisions of the application loop: which passes a frame draws, when a
//! compute result is dispatched and read back, what a window event sets off and when
//! the next frame is due.
use vstd::prelude::*;

verus! {

/// Where a render pass writes its colour output.
#[derive(Clone, Copy, Debug, PartialEq, Eq, Structural)]
pub enum PassTarget {
    /// The window surface.
    Screen,
    /// The render texture of the post-process effect at this position in the chain.
    Effect(usize),
}

/// The depth buffer that the scene pass tests against.
#[derive(Clone, Copy, Debug, PartialEq, Eq, Structural)]
pub enum DepthBuffer {
    /// The window-sized depth texture.
    Window,
    /// The enlarged depth texture that matches the post-process render textures.
    Overscan,
}

/// One pass of a frame.
#[derive(Clone, Copy, Debug, PartialEq, Eq, Structural)]
pub enum RenderStep {
    /// Draws the scene into `target`.
    Scene { target: PassTarget, depth: DepthBuffer },
    /// Runs the effect at position `effect` of the chain, which samples its own render
    /// texture, and draws a fullscreen triangle into `target`.
    Effect { effect: usize, target: PassTarget },
}

/// The effect pass at chain position `i` of `n`: it writes into the next effect's
/// texture, and the last one writes to the screen.
pub open spec fn effect_step(i: int, n: nat) -> RenderStep {
    RenderStep::Effect {
        effect: i as usize,
        target: if i + 1 < n {
            PassTarget::Effect((i + 1) as usize)
        } else {
            PassTarget::Screen
        },
    }
}

/// The passes of one frame with `effect_count` post-process effects.
pub open spec fn spec_frame_passes(surface_configured: bool, effect_count: nat) -> Seq<RenderStep> {
    if !surface_configured {
        Seq::empty()
    } else if effect_count == 0 {
        seq![RenderStep::Scene { target: PassTarget::Screen, depth: DepthBuffer::Window }]
    } else {
        seq![RenderStep::Scene { target: PassTarget::Effect(0), depth: DepthBuffer::Overscan }]
            + Seq::new(effect_count, |i: int| effect_step(i, effect_count))
    }
}

/// Where a pass writes.
pub open spec fn step_target(step: RenderStep) -> PassTarget {
    match step {
        RenderStep::Scene { target, .. } => target,
        RenderStep::Effect { target, .. } => target,
    }
}

/// Lists the passes of a frame in the order they are encoded. Nothing is drawn on a
/// surface that is not configured. Without effects the scene is drawn straight to the
/// screen; with effects it is drawn into the first effect's texture, each effect draws
/// into the next one's, and the last effect draws to the screen.
pub fn frame_passes(surface_configured: bool, effect_count: usize) -> (r: Vec<RenderStep>)
    ensures
        r@ == spec_frame_passes(surface_configured, effect_count as nat),
{
    let mut steps: Vec<RenderStep> = Vec::new();
    if !surface_configured {
        return steps;
    }
    if effect_count == 0 {
        steps.push(RenderStep::Scene { target: PassTarget::Screen, depth: DepthBuffer::Window });
        return steps;
    }
    steps.push(RenderStep::Scene { target: PassTarget::Effect(0), depth: DepthBuffer::Overscan });
    let mut i: usize = 0;
    while i < effect_count
        invariant
            0 <= i <= effect_count,
            steps@.len() == i + 1,
            steps@[0] == (RenderStep::Scene {
                target: PassTarget::Effect(0),
                depth: DepthBuffer::Overscan,
            }),
            forall|j: int| 0 <= j < i ==> steps@[j + 1] == effect_step(j, effect_count as nat),
        decreases effect_count - i,
    {
        let target = if i + 1 < effect_count {
            PassTarget::Effect(i + 1)
        } else {
            PassTarget::Screen
        };
        steps.push(RenderStep::Effect { effect: i, target });
        i = i + 1;
    }
    assert(steps@ =~= spec_frame_passes(surface_configured, effect_count as nat));
    steps
}

/// The passes of a frame form one chain: the scene is drawn once, first; every effect
/// runs once, in chain order, on the texture that the pass before it wrote; and the
/// last pass writes to the screen. An unconfigured surface draws nothing.
pub proof fn frame_passes_form_a_chain(surface_configured: bool, effect_count: nat)
    ensures
        !surface_configured ==> spec_frame_passes(surface_configured, effect_count).len() == 0,
        surface_configured ==> {
            let steps = spec_frame_passes(surface_configured, effect_count);
            &&& steps.len() == effect_count + 1
            &&& steps[0] is Scene
            &&& step_target(steps[steps.len() - 1]) == PassTarget::Screen
            &&& forall|k: int| 1 <= k < steps.len() ==> (#[trigger] steps[k]) is Effect
            &&& forall|k: int|
                1 <= k < steps.len() ==> (#[trigger] steps[k])->effect == (k - 1) as usize
            &&& forall|k: int|
                1 <= k < steps.len() ==> step_target(#[trigger] steps[k - 1]) == PassTarget::Effect(
                    steps[k]->effect,
                )
        },
{
    if surface_configured && effect_count > 0 {
        let steps = spec_frame_passes(surface_configured, effect_count);
        assert forall|k: int| 1 <= k < steps.len() implies step_target(#[trigger] steps[k - 1])
            == PassTarget::Effect(steps[k]->effect) by {
            if k > 1 {
                assert(steps[k - 1] == effect_step(k - 2, effect_count));
            }
        }
    }
}

/// Whether a compute's result is waiting to be read, being read, or neither.
#[derive(Clone, Copy, Debug, PartialEq, Eq, Structural)]
pub enum ReadbackState {
    NoReadback,
    Pending,
    Available,
}

/// What a readback request does: an available result is asked for and becomes pending;
/// in every other state nothing is asked.
pub open spec fn spec_request_readback(state: ReadbackState) -> (ReadbackState, bool) {
    match state {
        ReadbackState::Available => (ReadbackState::Pending, true),
        _ => (state, false),
    }
}

impl ReadbackState {
    /// A compute pass is encoded unless its previous result is still being read.
    pub fn dispatches(&self) -> (r: bool)
        ensures
            r == (*self != ReadbackState::Pending),
    {
        match self {
            ReadbackState::Pending => false,
            _ => true,
        }
    }

    /// Called once a frame is drawn: asks for the result when one is available and
    /// marks it pending. Returns whether a read was asked for.
    pub fn request_readback(&mut self) -> (r: bool)
        ensures
            (*final(self), r) == spec_request_readback(*old(self)),
    {
        match *self {
            ReadbackState::Available => {
                *self = ReadbackState::Pending;
                true
            },
            _ => false,
        }
    }

    /// Called when the mapped result has been read: the next one may be asked for.
    pub fn readback_arrived(&mut self)
        ensures
            *final(self) == ReadbackState::Available,
    {
        *self = ReadbackState::Available;
    }
}

/// A compute result is asked for at most once until it arrives, and a compute whose
/// result is being read is not dispatched again meanwhile.
pub proof fn readback_requests_wait_for_results(state: ReadbackState)
    ensures
        spec_request_readback(spec_request_readback(state).0).1 == false,
        spec_request_readback(state).1 ==> spec_request_readback(state).0 == ReadbackState::Pending,
        spec_request_readback(ReadbackState::Available).1,
{
}

/// How one compute pass is encoded.
#[derive(Clone, Copy, Debug, PartialEq, Eq, Structural)]
pub struct ComputeDispatch {
    /// Workgroups of 64 invocations that cover the input, truncated to 32 bits.
    pub workgroups: u32,
    /// The bind group slot of the output buffer; the inputs take the slots before it.
    pub output_group: u32,
}

/// The number of 64-wide workgroups that cover `length` items, truncated to 32 bits.
pub open spec fn spec_workgroups(length: nat) -> int {
    ((length + 63) / 64) as int % 0x1_0000_0000
}

/// Decides whether a compute is dispatched this frame and how: it is skipped while its
/// result is being read, and otherwise its inputs take bind groups `0..input_count`, its
/// output the next slot, and it runs one workgroup per 64 items.
pub fn compute_dispatch(state: ReadbackState, length: usize, input_count: usize) -> (r: Option<
    ComputeDispatch,
>)
    requires
        input_count <= u32::MAX,
    ensures
        r is None <==> state == ReadbackState::Pending,
        r matches Some(d) ==> d.output_group == input_count && d.workgroups == spec_workgroups(
            length as nat,
        ),
{
    if !state.dispatches() {
        return None;
    }
    let whole: usize = length / 64;
    let groups: usize = if length % 64 != 0 {
        whole + 1
    } else {
        whole
    };
    assert(groups == (length + 63) / 64);
    let wide: u64 = groups as u64;
    let workgroups: u32 = (wide % 0x1_0000_0000u64) as u32;
    Some(ComputeDispatch { workgroups, output_group: input_count as u32 })
}

/// What the application reads of a window event.
#[derive(Clone, Copy, Debug, PartialEq, Eq, Structural)]
pub enum AppEvent {
    Focused(bool),
    CloseRequested,
    RedrawRequested,
    Resized { width: u32, height: u32 },
    /// Every other event: it goes to the input handlers.
    Other,
}

/// One thing the application does in answer to a window event, in order.
#[derive(Clone, Copy, Debug, PartialEq, Eq, Structural)]
pub enum AppAction {
    /// Hands the event to the GUI layer.
    ForwardToGui,
    /// Sets the frame clock to now.
    RestartClock,
    /// Takes the time elapsed on the frame clock as the frame's delta.
    MeasureFrameTime,
    /// Draws a frame with that delta.
    Render,
    /// Asks for the compute results that are available.
    ServiceReadbacks,
    /// Advances the engine state by the delta.
    UpdateState,
    /// Advances the game by the delta.
    UpdateGame,
    /// Reconfigures the surface and the size-dependent textures.
    ResizeState { width: u32, height: u32 },
    /// Lets the game react to the new size.
    ResizeGame,
    /// Hands the event to the engine's input handling (the audio keys).
    ForwardInput,
    /// Hands the event to the game.
    ProcessGameEvent,
    /// Leaves the event loop.
    Exit,
}

/// The actions that a window event sets off, in order, after the focus check.
pub open spec fn spec_focused_actions(event: AppEvent) -> Seq<AppAction> {
    match event {
        AppEvent::CloseRequested => seq![AppAction::ForwardToGui, AppAction::Exit],
        AppEvent::RedrawRequested => seq![
            AppAction::ForwardToGui,
            AppAction::MeasureFrameTime,
            AppAction::RestartClock,
            AppAction::Render,
            AppAction::ServiceReadbacks,
            AppAction::UpdateState,
            AppAction::UpdateGame,
        ],
        AppEvent::Resized { width, height } => seq![
            AppAction::ForwardToGui,
            AppAction::ResizeState { width, height },
            AppAction::ResizeGame,
        ],
        AppEvent::Focused(true) => seq![
            AppAction::RestartClock,
            AppAction::MeasureFrameTime,
            AppAction::Render,
            AppAction::ForwardToGui,
            AppAction::ForwardInput,
            AppAction::ProcessGameEvent,
        ],
        _ => seq![AppAction::ForwardToGui, AppAction::ForwardInput, AppAction::ProcessGameEvent],
    }
}

/// The focus flag after an event, and the actions it sets off. Before the engine and the
/// game are ready nothing happens; a focus event sets the flag; an unfocused window
/// ignores every other event.
pub open spec fn spec_window_event(ready: bool, focused: bool, event: AppEvent) -> (bool, Seq<AppAction>) {
    if !ready {
        (focused, Seq::empty())
    } else {
        let now_focused = match event {
            AppEvent::Focused(f) => f,
            _ => focused,
        };
        if !now_focused {
            (now_focused, Seq::empty())
        } else {
            (now_focused, spec_focused_actions(event))
        }
    }
}

/// Decides what the application does with a window event. `ready` says whether the
/// engine state and the game exist; `is_focused` is the window's focus flag, which a
/// focus event updates.
pub fn window_event_actions(ready: bool, is_focused: &mut bool, event: AppEvent) -> (r: Vec<AppAction>)
    ensures
        (*final(is_focused), r@) == spec_window_event(ready, *old(is_focused), event),
{
    let mut actions: Vec<AppAction> = Vec::new();
    if !ready {
        return actions;
    }
    if let AppEvent::Focused(f) = event {
        *is_focused = f;
        if f {
            actions.push(AppAction::RestartClock);
            actions.push(AppAction::MeasureFrameTime);
            actions.push(AppAction::Render);
        }
    }
    if !*is_focused {
        return actions;
    }
    actions.push(AppAction::ForwardToGui);
    match event {
        AppEvent::CloseRequested => {
            actions.push(AppAction::Exit);
        },
        AppEvent::RedrawRequested => {
            actions.push(AppAction::MeasureFrameTime);
            actions.push(AppAction::RestartClock);
            actions.push(AppAction::Render);
            actions.push(AppAction::ServiceReadbacks);
            actions.push(AppAction::UpdateState);
            actions.push(AppAction::UpdateGame);
        },
        AppEvent::Resized { width, height } => {
            actions.push(AppAction::ResizeState { width, height });
            actions.push(AppAction::ResizeGame);
        },
        _ => {
            actions.push(AppAction::ForwardInput);
            actions.push(AppAction::ProcessGameEvent);
        },
    }
    assert(actions@ =~= spec_window_event(ready, *old(is_focused), event).1);
    actions
}

/// An unfocused window does nothing but listen for focus, a close request does nothing
/// but leave the loop, and only a redraw request draws a frame and advances the game.
pub proof fn unfocused_window_only_listens_for_focus(ready: bool, focused: bool, event: AppEvent)
    ensures
        !focused && !(event is Focused) ==> spec_window_event(ready, focused, event).1.len() == 0,
        ready && focused && event == AppEvent::CloseRequested ==> spec_window_event(
            ready,
            focused,
            event,
        ).1.last() == AppAction::Exit,
        forall|k: int|
            0 <= k < spec_window_event(ready, focused, event).1.len() && (
            #[trigger] spec_window_event(ready, focused, event).1[k]) == AppAction::UpdateGame
                ==> event == AppEvent::RedrawRequested,
{
}

/// The interval between frames: a 144th of a second, in nanoseconds.
pub const FRAME_INTERVAL_NANOS: u64 = 6_944_444;

/// How long the loop sleeps at most between polls of the device, in nanoseconds.
pub const POLL_INTERVAL_NANOS: u64 = 1_000_000;

/// What the loop does when it runs out of events.
#[derive(Clone, Copy, Debug, PartialEq, Eq, Structural)]
pub struct FramePacing {
    /// When the next frame is due.
    pub next_frame: u64,
    /// Whether a redraw is requested now.
    pub request_redraw: bool,
    /// When the loop wakes up again.
    pub wake_at: u64,
}

/// Paces frames, times in nanoseconds on one clock: once the due time has come, a redraw
/// is requested and the due time moves on by one frame interval; the loop wakes at the
/// due time, or after one poll interval if that comes first.
pub fn pace_frame(now: u64, next_frame: u64) -> (r: FramePacing)
    requires
        next_frame + FRAME_INTERVAL_NANOS <= u64::MAX,
        now + POLL_INTERVAL_NANOS <= u64::MAX,
    ensures
        r.request_redraw == (now >= next_frame),
        r.next_frame == if now >= next_frame {
            next_frame + FRAME_INTERVAL_NANOS
        } else {
            next_frame as int
        },
        r.wake_at == if now + POLL_INTERVAL_NANOS <= r.next_frame {
            now + POLL_INTERVAL_NANOS
        } else {
            r.next_frame as int
        },
{
    let due = now >= next_frame;
    let next = if due {
        next_frame + FRAME_INTERVAL_NANOS
    } else {
        next_frame
    };
    let poll = now + POLL_INTERVAL_NANOS;
    let wake_at = if poll <= next {
        poll
    } else {
        next
    };
    FramePacing { next_frame: next, request_redraw: due, wake_at }
}

} // verus!
