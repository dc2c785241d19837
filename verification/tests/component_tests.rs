use winr::boundaries::{calculate_boundaries, Boundaries, BoundarySizingMode};
use winr::component::{BaseComponent, WrapMode};
use winr::cursor::CursorTracker;
use winr::events::{EventListener, EventSystem, EventType, ListenerTable};
use winr::margin::Margin;
use winr::padding::Padding;
use winr::position::Position;
use winr::size::Size;

/// A listener that records every event it receives.
struct Recorder {
    received: Vec<(EventType, usize)>,
}

impl Recorder {
    fn new() -> Recorder {
        Recorder { received: Vec::new() }
    }
}

impl EventListener for Recorder {
    fn on_event(&mut self, event: &EventType, caller_id: usize) {
        self.received.push((*event, caller_id));
    }
}

fn base_geometry() -> (Size, Position, Margin, Padding) {
    (
        Size::new(50, 100),
        Position::new(10, 10),
        Margin::new(0, 0, 0, 0),
        Padding::new(5, 5, 5, 5),
    )
}

#[test]
fn border_box_scenario() {
    // Position(10,10), Size(width=100,height=50), Margin 0, Padding 5 under
    // the default BorderBox mode.
    let (size, position, margin, padding) = base_geometry();
    let mut events = EventSystem::new();
    let component = BaseComponent::new(size, position, margin, padding, &mut events);

    let bounds = component.bounds().unwrap();
    assert_eq!(bounds.p0, Position::new(15, 15));
    assert_eq!(bounds.p1, Position::new(105, 15));
    assert_eq!(bounds.p2, Position::new(105, 55));
    assert_eq!(bounds.p3, Position::new(15, 55));

    let direct = calculate_boundaries(position, size, margin, padding, BoundarySizingMode::BorderBox);
    assert_eq!(*bounds, direct);
}

#[test]
fn content_box_scenario() {
    // Same inputs under ContentBox: the insets are ignored entirely.
    let (size, position, margin, padding) = base_geometry();
    let bounds = calculate_boundaries(position, size, margin, padding, BoundarySizingMode::ContentBox);
    assert_eq!(bounds.p0, Position::new(10, 10));
    assert_eq!(bounds.p1, Position::new(110, 10));
    assert_eq!(bounds.p2, Position::new(110, 60));
    assert_eq!(bounds.p3, Position::new(10, 60));

    // Margin and padding values do not matter under ContentBox.
    let other = calculate_boundaries(
        position,
        size,
        Margin::new(7, 7, 7, 7),
        Padding::new(9, 9, 9, 9),
        BoundarySizingMode::ContentBox,
    );
    assert_eq!(bounds, other);
}

#[test]
fn margin_box_scenario() {
    // MarginBox subtracts margin and padding combined on each side.
    let bounds = calculate_boundaries(
        Position::new(10, 10),
        Size::new(50, 100),
        Margin::new(1, 2, 3, 4),
        Padding::new(5, 5, 5, 5),
        BoundarySizingMode::MarginBox,
    );
    assert_eq!(bounds.p0, Position::new(19, 16));
    assert_eq!(bounds.p1, Position::new(103, 16));
    assert_eq!(bounds.p2, Position::new(103, 52));
    assert_eq!(bounds.p3, Position::new(19, 52));
}

#[test]
fn padding_exceeding_size_clamps_to_zero() {
    // width=5 with left and right padding of 10: the width-derived
    // coordinates clamp at zero instead of underflowing or panicking.
    let bounds = calculate_boundaries(
        Position::new(0, 0),
        Size::new(5, 5),
        Margin::new(0, 0, 0, 0),
        Padding::new(10, 10, 10, 10),
        BoundarySizingMode::BorderBox,
    );
    assert_eq!(bounds.p1.x, 0);
    assert_eq!(bounds.p2.x, 0);
    assert_eq!(bounds.p2.y, 0);
}

#[test]
fn construction_under_a_chosen_sizing_mode() {
    // A component rebuilt from persisted geometry keeps its sizing mode:
    // the same inputs under ContentBox give the uninset rectangle.
    let (size, position, margin, padding) = base_geometry();
    let mut events = EventSystem::new();
    let component = BaseComponent::new_with_mode(
        size,
        position,
        margin,
        padding,
        BoundarySizingMode::ContentBox,
        &mut events,
    );
    assert_eq!(component.sizing_mode(), BoundarySizingMode::ContentBox);
    let bounds = *component.bounds().unwrap();
    assert_eq!(bounds.p0, Position::new(10, 10));
    assert_eq!(bounds.p1, Position::new(110, 10));
    assert_eq!(bounds.p2, Position::new(110, 60));
    assert_eq!(bounds.p3, Position::new(10, 60));

    // And every later recomputation keeps using that mode.
    let mut table: ListenerTable<Recorder> = ListenerTable::new();
    let mut component = component;
    component.set_margin(Margin::new(9, 9, 9, 9), &mut events, &mut table);
    component.calculate_bounds();
    assert_eq!(*component.bounds().unwrap(), bounds);

    let margin_boxed = BaseComponent::new_with_mode(
        size,
        position,
        Margin::new(1, 2, 3, 4),
        padding,
        BoundarySizingMode::MarginBox,
        &mut events,
    );
    assert_eq!(margin_boxed.sizing_mode(), BoundarySizingMode::MarginBox);
    assert_eq!(margin_boxed.bounds().unwrap().p0, Position::new(19, 16));
}

#[test]
fn calculate_bounds_is_idempotent() {
    let (size, position, margin, padding) = base_geometry();
    let mut events = EventSystem::new();
    let mut component = BaseComponent::new(size, position, margin, padding, &mut events);

    component.calculate_bounds();
    let first: Boundaries = *component.bounds().unwrap();
    component.calculate_bounds();
    let second: Boundaries = *component.bounds().unwrap();
    assert_eq!(first, second);
}

#[test]
fn noop_mutation_keeps_cache_and_emits_nothing() {
    let (size, position, margin, padding) = base_geometry();
    let mut events = EventSystem::new();
    let mut table: ListenerTable<Recorder> = ListenerTable::new();
    let handle = table.register(Recorder::new());
    events.subscribe(EventType::ComponentResized, handle);

    let mut component = BaseComponent::new(size, position, margin, padding, &mut events);
    let before = *component.bounds().unwrap();

    component.set_size(Size::new(50, 100), &mut events, &mut table);

    assert_eq!(*component.bounds().unwrap(), before);
    assert_eq!(table.get(handle).unwrap().received.len(), 0);
}

#[test]
fn mutation_emits_exactly_one_event_per_live_subscriber() {
    let (size, position, margin, padding) = base_geometry();
    let mut events = EventSystem::new();
    let mut table: ListenerTable<Recorder> = ListenerTable::new();
    let moved_a = table.register(Recorder::new());
    let moved_b = table.register(Recorder::new());
    let resized = table.register(Recorder::new());
    events.subscribe(EventType::ComponentMoved, moved_a);
    events.subscribe(EventType::ComponentMoved, moved_b);
    events.subscribe(EventType::ComponentResized, resized);

    let mut component = BaseComponent::new(size, position, margin, padding, &mut events);
    let id = *component.id();
    component.set_position(Position::new(20, 20), &mut events, &mut table);

    assert_eq!(
        table.get(moved_a).unwrap().received,
        vec![(EventType::ComponentMoved, id)]
    );
    assert_eq!(
        table.get(moved_b).unwrap().received,
        vec![(EventType::ComponentMoved, id)]
    );
    assert_eq!(table.get(resized).unwrap().received.len(), 0);

    // The cache was invalidated and recomputes to the new geometry.
    assert!(component.bounds().is_none());
    component.calculate_bounds();
    let bounds = component.bounds().unwrap();
    assert_eq!(bounds.p0, Position::new(25, 25));
}

#[test]
fn emit_notifies_in_subscription_order() {
    let mut events = EventSystem::new();
    let mut table: ListenerTable<Recorder> = ListenerTable::new();
    let first = table.register(Recorder::new());
    let second = table.register(Recorder::new());
    events.subscribe(EventType::ComponentResized, second);
    events.subscribe(EventType::ComponentResized, first);

    let notified = events.emit(&EventType::ComponentResized, 7, &mut table);
    assert_eq!(notified, vec![second, first]);
}

#[test]
fn dead_listener_is_skipped_and_forgotten() {
    let mut events = EventSystem::new();
    let mut table: ListenerTable<Recorder> = ListenerTable::new();
    let live = table.register(Recorder::new());
    let dead = table.register(Recorder::new());
    events.subscribe(EventType::ComponentMoved, live);
    events.subscribe(EventType::ComponentMoved, dead);
    assert_eq!(events.subscription_count(), 2);

    table.remove(dead);

    let notified = events.emit(&EventType::ComponentMoved, 3, &mut table);
    assert_eq!(notified, vec![live]);
    // The dead handle's subscription is gone for good.
    assert_eq!(events.subscription_count(), 1);

    let notified_again = events.emit(&EventType::ComponentMoved, 4, &mut table);
    assert_eq!(notified_again, vec![live]);
    assert_eq!(
        table.get(live).unwrap().received,
        vec![(EventType::ComponentMoved, 3), (EventType::ComponentMoved, 4)]
    );
    assert!(table.get(dead).is_none());
}

#[test]
fn cleanup_sweeps_dead_handles_across_kinds() {
    let mut events = EventSystem::new();
    let mut table: ListenerTable<Recorder> = ListenerTable::new();
    let live = table.register(Recorder::new());
    let dead = table.register(Recorder::new());
    events.subscribe(EventType::ComponentMoved, dead);
    events.subscribe(EventType::ComponentResized, dead);
    events.subscribe(EventType::ComponentResized, live);
    assert_eq!(events.subscription_count(), 3);

    table.remove(dead);
    events.cleanup(&table);
    assert_eq!(events.subscription_count(), 1);
}

#[test]
fn ids_are_distinct_and_increasing() {
    let (size, position, margin, padding) = base_geometry();
    let mut events = EventSystem::new();
    let a = BaseComponent::new(size, position, margin, padding, &mut events);
    let b = BaseComponent::new(size, position, margin, padding, &mut events);
    assert_ne!(*a.id(), *b.id());
    assert!(*b.id() > *a.id());
}

#[test]
fn rebinding_reissues_the_id() {
    let (size, position, margin, padding) = base_geometry();
    let mut events = EventSystem::new();
    let mut other = EventSystem::new();
    let _ = other.get_next_id();
    let _ = other.get_next_id();

    let mut component = BaseComponent::new(size, position, margin, padding, &mut events);
    assert_eq!(*component.id(), 0);
    component.inyect_event_system(&mut other);
    assert_eq!(*component.id(), 2);
}

#[test]
fn visibility_change_emits_and_keeps_bounds() {
    let (size, position, margin, padding) = base_geometry();
    let mut events = EventSystem::new();
    let mut table: ListenerTable<Recorder> = ListenerTable::new();
    let handle = table.register(Recorder::new());
    events.subscribe(EventType::ComponentVisibilityChanged, handle);

    let mut component = BaseComponent::new(size, position, margin, padding, &mut events);
    let id = *component.id();
    assert_eq!(*component.visible(), true);
    let before = *component.bounds().unwrap();

    component.set_visible(false, &mut events, &mut table);
    assert_eq!(*component.visible(), false);
    assert_eq!(*component.bounds().unwrap(), before);
    assert_eq!(
        table.get(handle).unwrap().received,
        vec![(EventType::ComponentVisibilityChanged, id)]
    );

    // Setting the same value again is a no-op.
    component.set_visible(false, &mut events, &mut table);
    assert_eq!(table.get(handle).unwrap().received.len(), 1);
}

#[test]
fn margin_and_padding_mutators_invalidate_and_emit() {
    let (size, position, margin, padding) = base_geometry();
    let mut events = EventSystem::new();
    let mut table: ListenerTable<Recorder> = ListenerTable::new();
    let handle = table.register(Recorder::new());
    events.subscribe(EventType::ComponentMarginChanged, handle);
    events.subscribe(EventType::ComponentPaddingChanged, handle);

    let mut component = BaseComponent::new(size, position, margin, padding, &mut events);
    let id = *component.id();

    component.set_margin(Margin::new(1, 1, 1, 1), &mut events, &mut table);
    assert!(component.bounds().is_none());
    component.calculate_bounds();

    component.set_padding(Padding::new(2, 2, 2, 2), &mut events, &mut table);
    assert!(component.bounds().is_none());

    assert_eq!(
        table.get(handle).unwrap().received,
        vec![
            (EventType::ComponentMarginChanged, id),
            (EventType::ComponentPaddingChanged, id)
        ]
    );
}

#[test]
fn accessors_reflect_construction() {
    let (size, position, margin, padding) = base_geometry();
    let mut events = EventSystem::new();
    let component = BaseComponent::new(size, position, margin, padding, &mut events);

    assert_eq!(*component.size(), size);
    assert_eq!(*component.position(), position);
    assert_eq!(*component.margin(), margin);
    assert_eq!(*component.padding(), padding);
    assert_eq!(component.sizing_mode(), BoundarySizingMode::BorderBox);
    assert_eq!(*component.wrap_mode(), WrapMode::Wrap);
    assert_eq!(*component.visible(), true);
    assert_eq!(*component.id(), 0);
}

#[test]
fn inside_boundary_checks_the_tracked_cursor() {
    let bounds = winr::boundaries::Boundaries::new(
        Position::new(10, 10),
        Position::new(100, 10),
        Position::new(100, 50),
        Position::new(10, 50),
    );
    let mut cursor = CursorTracker::default();
    cursor.update_position(Position::new(50, 30));
    assert_eq!(cursor.current_position(), Position::new(50, 30));
    assert!(bounds.inside_boundary(cursor));

    cursor.update_position(Position::new(5, 30));
    assert!(!bounds.inside_boundary(cursor));

    cursor.update_position(Position::new(10, 10));
    assert!(bounds.inside_boundary(cursor));
}
