use sparmos::events::{route, CursorState, EventRegistry, EventRoute, WindowEventKind};

#[test]
fn events_route_to_their_lists() {
    assert_eq!(route::<u32, u32>(WindowEventKind::KeyboardInput(7)), EventRoute::Key(7));
    assert_eq!(route::<u32, u32>(WindowEventKind::ModifiersChanged), EventRoute::Modifiers);
    assert_eq!(
        route::<u32, u32>(WindowEventKind::CursorMoved),
        EventRoute::Cursor(CursorState::Moved)
    );
    assert_eq!(
        route::<u32, u32>(WindowEventKind::CursorEntered),
        EventRoute::Cursor(CursorState::Entered)
    );
    assert_eq!(
        route::<u32, u32>(WindowEventKind::CursorLeft),
        EventRoute::Cursor(CursorState::Exit)
    );
    assert_eq!(route::<u32, u32>(WindowEventKind::MouseWheel), EventRoute::ScrollWheel);
    assert_eq!(route::<u32, u32>(WindowEventKind::MouseInput(1)), EventRoute::Mouse(1));
    assert_eq!(route::<u32, u32>(WindowEventKind::Other), EventRoute::Generic);
}

#[test]
fn handlers_run_in_registration_order_for_their_route() {
    let mut registry = EventRegistry::new();
    let space = registry.key(32);
    let generic = registry.event();
    let space_again = registry.key(32);
    let enter = registry.key(13);
    let wheel = registry.scrollwheel();
    let moved = registry.cursor(CursorState::Moved);
    let left = registry.mouse(0);
    let modifiers = registry.modifier();
    assert_eq!((space, generic, space_again, enter), (0, 1, 2, 3));

    assert_eq!(registry.process(WindowEventKind::KeyboardInput(32)), vec![space, space_again]);
    assert_eq!(registry.process(WindowEventKind::KeyboardInput(13)), vec![enter]);
    assert!(registry.process(WindowEventKind::KeyboardInput(99)).is_empty());
    assert_eq!(registry.process(WindowEventKind::Other), vec![generic]);
    assert_eq!(registry.process(WindowEventKind::MouseWheel), vec![wheel]);
    assert_eq!(registry.process(WindowEventKind::CursorMoved), vec![moved]);
    assert!(registry.process(WindowEventKind::CursorEntered).is_empty());
    assert_eq!(registry.process(WindowEventKind::MouseInput(0)), vec![left]);
    assert_eq!(registry.process(WindowEventKind::ModifiersChanged), vec![modifiers]);
}

#[test]
fn a_new_handler_runs_last() {
    let mut registry = EventRegistry::new();
    let first = registry.mouse(2);
    let second = registry.mouse(2);
    assert_eq!(registry.process(WindowEventKind::MouseInput(2)), vec![first, second]);
    let third = registry.mouse(2);
    assert_eq!(registry.process(WindowEventKind::MouseInput(2)), vec![first, second, third]);
}
