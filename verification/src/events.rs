//! Which registered handlers a window event goes to.
use vstd::prelude::*;

verus! {

/// The cursor events that handlers can register for.
#[derive(Clone, Copy, Debug, PartialEq, Eq, Hash, Structural)]
pub enum CursorState {
    Entered,
    Exit,
    Moved,
}

/// What the event registry reads of a window event, with keys of type `K` and mouse
/// buttons of type `B`.
#[derive(Clone, Copy, Debug, PartialEq, Eq)]
pub enum WindowEventKind<K, B> {
    /// A key with a physical key code.
    KeyboardInput(K),
    ModifiersChanged,
    CursorMoved,
    CursorEntered,
    CursorLeft,
    MouseWheel,
    MouseInput(B),
    /// Every other event, key events without a physical key code included.
    Other,
}

/// The handler list that an event is dispatched to.
#[derive(Clone, Copy, Debug, PartialEq, Eq)]
pub enum EventRoute<K, B> {
    /// The handlers registered for this key.
    Key(K),
    /// The modifier handlers.
    Modifiers,
    /// The handlers registered for this cursor state.
    Cursor(CursorState),
    /// The scroll wheel handlers.
    ScrollWheel,
    /// The handlers registered for this mouse button.
    Mouse(B),
    /// The generic handlers, which see the whole event.
    Generic,
}

pub open spec fn spec_route<K, B>(event: WindowEventKind<K, B>) -> EventRoute<K, B> {
    match event {
        WindowEventKind::KeyboardInput(k) => EventRoute::Key(k),
        WindowEventKind::ModifiersChanged => EventRoute::Modifiers,
        WindowEventKind::CursorMoved => EventRoute::Cursor(CursorState::Moved),
        WindowEventKind::CursorEntered => EventRoute::Cursor(CursorState::Entered),
        WindowEventKind::CursorLeft => EventRoute::Cursor(CursorState::Exit),
        WindowEventKind::MouseWheel => EventRoute::ScrollWheel,
        WindowEventKind::MouseInput(b) => EventRoute::Mouse(b),
        WindowEventKind::Other => EventRoute::Generic,
    }
}

/// Routes a window event to one handler list: key, modifier, cursor and mouse events to
/// their own lists, everything else to the generic handlers.
pub fn route<K, B>(event: WindowEventKind<K, B>) -> (r: EventRoute<K, B>)
    ensures
        r == spec_route(event),
{
    match event {
        WindowEventKind::KeyboardInput(k) => EventRoute::Key(k),
        WindowEventKind::ModifiersChanged => EventRoute::Modifiers,
        WindowEventKind::CursorMoved => EventRoute::Cursor(CursorState::Moved),
        WindowEventKind::CursorEntered => EventRoute::Cursor(CursorState::Entered),
        WindowEventKind::CursorLeft => EventRoute::Cursor(CursorState::Exit),
        WindowEventKind::MouseWheel => EventRoute::ScrollWheel,
        WindowEventKind::MouseInput(b) => EventRoute::Mouse(b),
        WindowEventKind::Other => EventRoute::Generic,
    }
}

/// Generic handlers only see the events that no specific list takes, and each cursor
/// event goes to the handlers of its own cursor state.
pub proof fn generic_handlers_see_only_unrouted_events<K, B>(event: WindowEventKind<K, B>)
    ensures
        (spec_route(event) == EventRoute::<K, B>::Generic) == (event == WindowEventKind::<K, B>::Other),
        spec_route(WindowEventKind::<K, B>::CursorMoved) != spec_route(WindowEventKind::<K, B>::CursorEntered),
        spec_route(WindowEventKind::<K, B>::CursorEntered) != spec_route(WindowEventKind::<K, B>::CursorLeft),
        spec_route(WindowEventKind::<K, B>::CursorLeft) != spec_route(WindowEventKind::<K, B>::CursorMoved),
{
}

/// A route whose keys and mouse buttons are given by their codes.
pub type CodedRoute = EventRoute<u32, u32>;

/// Whether two routes are the same.
pub fn same_route(a: &CodedRoute, b: &CodedRoute) -> (r: bool)
    ensures
        r == (*a == *b),
{
    match (a, b) {
        (EventRoute::Key(x), EventRoute::Key(y)) => *x == *y,
        (EventRoute::Modifiers, EventRoute::Modifiers) => true,
        (EventRoute::Cursor(x), EventRoute::Cursor(y)) => *x == *y,
        (EventRoute::ScrollWheel, EventRoute::ScrollWheel) => true,
        (EventRoute::Mouse(x), EventRoute::Mouse(y)) => *x == *y,
        (EventRoute::Generic, EventRoute::Generic) => true,
        _ => false,
    }
}

/// The handlers registered under `route`, by their registration index, in the order
/// they were registered.
pub open spec fn spec_handlers(routes: Seq<CodedRoute>, route: CodedRoute) -> Seq<usize>
    decreases routes.len(),
{
    if routes.len() == 0 {
        Seq::empty()
    } else {
        let earlier = spec_handlers(routes.drop_last(), route);
        if routes.last() == route {
            earlier.push((routes.len() - 1) as usize)
        } else {
            earlier
        }
    }
}

/// The registry of event handlers. A handler is known by its registration index: the
/// caller keeps the handler itself at that index, and the registry says which indices a
/// window event runs, in order.
pub struct EventRegistry {
    routes: Vec<CodedRoute>,
}

impl View for EventRegistry {
    type V = Seq<CodedRoute>;

    /// The route of each registered handler, by registration index.
    closed spec fn view(&self) -> Seq<CodedRoute> {
        self.routes@
    }
}

impl EventRegistry {
    /// A registry without handlers.
    pub fn new() -> (r: EventRegistry)
        ensures
            r@ == Seq::<CodedRoute>::empty(),
    {
        EventRegistry { routes: Vec::new() }
    }

    fn register(&mut self, route: CodedRoute) -> (id: usize)
        ensures
            final(self)@ == old(self)@.push(route),
            id == old(self)@.len(),
    {
        let id = self.routes.len();
        self.routes.push(route);
        id
    }

    /// Registers a generic handler, which sees every event that no other list takes.
    pub fn event(&mut self) -> (id: usize)
        ensures
            final(self)@ == old(self)@.push(EventRoute::Generic),
            id == old(self)@.len(),
    {
        self.register(EventRoute::Generic)
    }

    /// Registers a handler for the key with this code.
    pub fn key(&mut self, keycode: u32) -> (id: usize)
        ensures
            final(self)@ == old(self)@.push(EventRoute::Key(keycode)),
            id == old(self)@.len(),
    {
        self.register(EventRoute::Key(keycode))
    }

    /// Registers a handler for modifier changes.
    pub fn modifier(&mut self) -> (id: usize)
        ensures
            final(self)@ == old(self)@.push(EventRoute::Modifiers),
            id == old(self)@.len(),
    {
        self.register(EventRoute::Modifiers)
    }

    /// Registers a handler for one cursor state.
    pub fn cursor(&mut self, cursor_state: CursorState) -> (id: usize)
        ensures
            final(self)@ == old(self)@.push(EventRoute::Cursor(cursor_state)),
            id == old(self)@.len(),
    {
        self.register(EventRoute::Cursor(cursor_state))
    }

    /// Registers a handler for the mouse button with this code.
    pub fn mouse(&mut self, mouse_button: u32) -> (id: usize)
        ensures
            final(self)@ == old(self)@.push(EventRoute::Mouse(mouse_button)),
            id == old(self)@.len(),
    {
        self.register(EventRoute::Mouse(mouse_button))
    }

    /// Registers a handler for the scroll wheel.
    pub fn scrollwheel(&mut self) -> (id: usize)
        ensures
            final(self)@ == old(self)@.push(EventRoute::ScrollWheel),
            id == old(self)@.len(),
    {
        self.register(EventRoute::ScrollWheel)
    }

    /// The handlers that a window event runs, in registration order: those registered
    /// under the event's route.
    pub fn process(&self, event: WindowEventKind<u32, u32>) -> (r: Vec<usize>)
        ensures
            r@ == spec_handlers(self@, spec_route(event)),
    {
        let target = route(event);
        let mut out: Vec<usize> = Vec::new();
        let mut i: usize = 0;
        while i < self.routes.len()
            invariant
                i <= self.routes@.len(),
                target == spec_route(event),
                out@ == spec_handlers(self.routes@.take(i as int), target),
            decreases self.routes@.len() - i,
        {
            assert(self.routes@.take(i + 1).drop_last() =~= self.routes@.take(i as int));
            if same_route(&self.routes[i], &target) {
                out.push(i);
            }
            i = i + 1;
        }
        assert(self.routes@.take(i as int) =~= self.routes@);
        out
    }
}

/// A handler registered after the others runs after them, for exactly the events of its
/// route, and leaves what the other handlers see unchanged.
pub proof fn new_handler_runs_last(routes: Seq<CodedRoute>, route: CodedRoute, event: WindowEventKind<u32, u32>)
    ensures
        spec_handlers(routes.push(route), spec_route(event)) == if route == spec_route(event) {
            spec_handlers(routes, spec_route(event)).push(routes.len() as usize)
        } else {
            spec_handlers(routes, spec_route(event))
        },
{
    assert(routes.push(route).drop_last() =~= routes);
}

/// Over a log of at most `usize::MAX` routes: the handlers of a route were registered
/// under it, each appears once, in registration order.
proof fn lemma_handlers_in_order(routes: Seq<CodedRoute>, route: CodedRoute)
    requires
        routes.len() <= usize::MAX,
    ensures
        forall|k: int|
            0 <= k < spec_handlers(routes, route).len() ==> {
                let id = #[trigger] spec_handlers(routes, route)[k];
                id < routes.len() && routes[id as int] == route
            },
        forall|j: int, k: int|
            0 <= j < k < spec_handlers(routes, route).len() ==> spec_handlers(routes, route)[j]
                < spec_handlers(routes, route)[k],
    decreases routes.len(),
{
    if routes.len() > 0 {
        let rest = routes.drop_last();
        lemma_handlers_in_order(rest, route);
        let earlier = spec_handlers(rest, route);
        let cur = spec_handlers(routes, route);
        if routes.last() == route {
            assert(cur == earlier.push((routes.len() - 1) as usize));
        } else {
            assert(cur == earlier);
        }
        assert forall|k: int| 0 <= k < cur.len() implies ({
            let id = #[trigger] cur[k];
            id < routes.len() && routes[id as int] == route
        }) by {
            if k < earlier.len() {
                assert(cur[k] == earlier[k]);
                assert(rest[earlier[k] as int] == routes[earlier[k] as int]);
            }
        }
        assert forall|j: int, k: int| 0 <= j < k < cur.len() implies cur[j] < cur[k] by {
            assert(cur[j] == earlier[j]);
            assert(earlier[j] < rest.len());
            if k < earlier.len() {
                assert(cur[k] == earlier[k]);
            }
        }
    }
}

/// Every handler that an event runs was registered under that event's route, each runs
/// once, and they run in registration order.
pub proof fn handlers_run_in_registration_order(registry: &EventRegistry, event: WindowEventKind<u32, u32>)
    ensures
        forall|k: int|
            0 <= k < spec_handlers(registry@, spec_route(event)).len() ==> {
                let id = #[trigger] spec_handlers(registry@, spec_route(event))[k];
                id < registry@.len() && registry@[id as int] == spec_route(event)
            },
        forall|j: int, k: int|
            0 <= j < k < spec_handlers(registry@, spec_route(event)).len() ==> spec_handlers(registry@, spec_route(event))[j]
                < spec_handlers(registry@, spec_route(event))[k],
{
    vstd::std_specs::vec::axiom_spec_len(&registry.routes);
    lemma_handlers_in_order(registry@, spec_route(event));
}

} // verus!
