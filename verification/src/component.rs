use vstd::prelude::*;
use crate::boundaries::{boundaries_for, calculate_boundaries, Boundaries, BoundarySizingMode};
use crate::events::{pruned_subs, EventListener, EventSystem, EventType, ListenerTable};
use crate::margin::Margin;
use crate::padding::Padding;
use crate::position::Position;
use crate::size::Size;

verus! {

/// Whether a component's content may wrap onto further lines.
#[derive(Debug, Default, Clone, Copy, PartialEq, Eq, Hash, Structural)]
pub enum WrapMode {
    NoWrap,
    #[default]
    Wrap,
}

/// The geometry and notification core every widget builds on: one instance
/// of each geometric value, a cached invalidatable `Boundaries`, a
/// visibility flag, a sizing-mode selector and a process-unique id issued
/// by the event registry.
///
/// Geometry changes only through the typed setters, which invalidate the
/// cache and announce the mutation through the registry, so a stale cache
/// is never observable: whenever the cache holds a value, it is the
/// calculator's output for the current fields.
#[derive(Debug, Clone)]
pub struct BaseComponent {
    id: usize,
    size: Size,
    position: Position,
    bounds: Option<Boundaries>,
    margin: Margin,
    padding: Padding,
    visible: bool,
    wrap_mode: WrapMode,
    sizing_mode: BoundarySizingMode,
}

impl BaseComponent {
    pub closed spec fn spec_id(&self) -> usize {
        self.id
    }

    pub closed spec fn spec_size(&self) -> Size {
        self.size
    }

    pub closed spec fn spec_position(&self) -> Position {
        self.position
    }

    pub closed spec fn spec_bounds(&self) -> Option<Boundaries> {
        self.bounds
    }

    pub closed spec fn spec_margin(&self) -> Margin {
        self.margin
    }

    pub closed spec fn spec_padding(&self) -> Padding {
        self.padding
    }

    pub closed spec fn spec_visible(&self) -> bool {
        self.visible
    }

    pub closed spec fn spec_wrap_mode(&self) -> WrapMode {
        self.wrap_mode
    }

    pub closed spec fn spec_sizing_mode(&self) -> BoundarySizingMode {
        self.sizing_mode
    }

    /// The calculator's output for the component's current fields.
    pub open spec fn current_boundaries(&self) -> Boundaries {
        boundaries_for(
            self.spec_position(),
            self.spec_size(),
            self.spec_margin(),
            self.spec_padding(),
            self.spec_sizing_mode(),
        )
    }

    /// Well-formedness: a present cache is exactly the calculator's output
    /// for the current fields — no stale cache is ever observable.
    pub open spec fn wf(&self) -> bool {
        self.spec_bounds() matches Some(b) ==> b == self.current_boundaries()
    }

    /// Everything except the cache and the identity: what equality and the
    /// persisted form consider.
    pub open spec fn same_semantic_state(&self, other: &Self) -> bool {
        &&& self.spec_size() == other.spec_size()
        &&& self.spec_position() == other.spec_position()
        &&& self.spec_margin() == other.spec_margin()
        &&& self.spec_padding() == other.spec_padding()
        &&& self.spec_visible() == other.spec_visible()
        &&& self.spec_sizing_mode() == other.spec_sizing_mode()
    }

    /// All fields of `other` equal `self`'s except possibly the cache.
    pub open spec fn same_but_bounds(&self, other: &Self) -> bool {
        &&& self.same_semantic_state(other)
        &&& self.spec_id() == other.spec_id()
        &&& self.spec_wrap_mode() == other.spec_wrap_mode()
    }

    /// Builds a component with the given geometry, visible, with the default
    /// wrap mode and sizing mode (`BorderBox`), its id issued by the
    /// registry's counter and its bounds computed eagerly.
    pub fn new(
        size: Size,
        position: Position,
        margin: Margin,
        padding: Padding,
        events: &mut EventSystem,
    ) -> (c: BaseComponent)
        requires
            old(events).id_counter() < usize::MAX,
        ensures
            c.spec_size() == size,
            c.spec_position() == position,
            c.spec_margin() == margin,
            c.spec_padding() == padding,
            c.spec_visible() == true,
            c.spec_wrap_mode() == WrapMode::Wrap,
            c.spec_sizing_mode() == BoundarySizingMode::BorderBox,
            c.spec_id() == old(events).id_counter(),
            c.spec_bounds() == Some(c.current_boundaries()),
            final(events).id_counter() == old(events).id_counter() + 1,
            final(events).subscriptions() == old(events).subscriptions(),
            final(events).emitted() == old(events).emitted(),
    {
        BaseComponent::new_with_mode(
            size,
            position,
            margin,
            padding,
            BoundarySizingMode::BorderBox,
            events,
        )
    }

    /// Builds a component as `new` does but under a caller-chosen sizing
    /// mode, as when one is rebuilt from its persisted geometry: the bounds
    /// are computed eagerly under that mode.
    pub fn new_with_mode(
        size: Size,
        position: Position,
        margin: Margin,
        padding: Padding,
        sizing_mode: BoundarySizingMode,
        events: &mut EventSystem,
    ) -> (c: BaseComponent)
        requires
            old(events).id_counter() < usize::MAX,
        ensures
            c.spec_size() == size,
            c.spec_position() == position,
            c.spec_margin() == margin,
            c.spec_padding() == padding,
            c.spec_visible() == true,
            c.spec_wrap_mode() == WrapMode::Wrap,
            c.spec_sizing_mode() == sizing_mode,
            c.spec_id() == old(events).id_counter(),
            c.spec_bounds() == Some(c.current_boundaries()),
            final(events).id_counter() == old(events).id_counter() + 1,
            final(events).subscriptions() == old(events).subscriptions(),
            final(events).emitted() == old(events).emitted(),
    {
        let id = events.get_next_id();
        let bounds = calculate_boundaries(position, size, margin, padding, sizing_mode);
        BaseComponent {
            id,
            size,
            position,
            bounds: Some(bounds),
            margin,
            padding,
            visible: true,
            wrap_mode: WrapMode::Wrap,
            sizing_mode,
        }
    }

    /// Repopulates the cache from the current fields under the selected
    /// sizing mode. Idempotent: no field but the cache changes, and the
    /// cache's new value depends on the other fields alone.
    pub fn calculate_bounds(&mut self)
        ensures
            old(self).same_but_bounds(final(self)),
            final(self).spec_bounds() == Some(old(self).current_boundaries()),
    {
        match self.sizing_mode {
            BoundarySizingMode::ContentBox => self.calculate_content_box_bounds(),
            BoundarySizingMode::BorderBox => self.calculate_border_box_bounds(),
            BoundarySizingMode::MarginBox => self.calculate_margin_box_bounds(),
        }
    }

    /// Caches the bounds with margin and padding subtracted together.
    fn calculate_margin_box_bounds(&mut self)
        ensures
            old(self).same_but_bounds(final(self)),
            final(self).spec_bounds() == Some(
                boundaries_for(
                    old(self).spec_position(),
                    old(self).spec_size(),
                    old(self).spec_margin(),
                    old(self).spec_padding(),
                    BoundarySizingMode::MarginBox,
                ),
            ),
    {
        let bounds = calculate_boundaries(
            self.position,
            self.size,
            self.margin,
            self.padding,
            BoundarySizingMode::MarginBox,
        );
        self.bounds = Some(bounds);
    }

    /// Caches the bounds with only the padding subtracted.
    fn calculate_border_box_bounds(&mut self)
        ensures
            old(self).same_but_bounds(final(self)),
            final(self).spec_bounds() == Some(
                boundaries_for(
                    old(self).spec_position(),
                    old(self).spec_size(),
                    old(self).spec_margin(),
                    old(self).spec_padding(),
                    BoundarySizingMode::BorderBox,
                ),
            ),
    {
        let bounds = calculate_boundaries(
            self.position,
            self.size,
            self.margin,
            self.padding,
            BoundarySizingMode::BorderBox,
        );
        self.bounds = Some(bounds);
    }

    /// Caches the bounds with margin and padding ignored.
    fn calculate_content_box_bounds(&mut self)
        ensures
            old(self).same_but_bounds(final(self)),
            final(self).spec_bounds() == Some(
                boundaries_for(
                    old(self).spec_position(),
                    old(self).spec_size(),
                    old(self).spec_margin(),
                    old(self).spec_padding(),
                    BoundarySizingMode::ContentBox,
                ),
            ),
    {
        let bounds = calculate_boundaries(
            self.position,
            self.size,
            self.margin,
            self.padding,
            BoundarySizingMode::ContentBox,
        );
        self.bounds = Some(bounds);
    }

    /// Re-associates the component with a different registry, which
    /// re-issues its id from that registry's counter. Nothing else changes.
    pub fn inyect_event_system(&mut self, events: &mut EventSystem)
        requires
            old(events).id_counter() < usize::MAX,
        ensures
            final(self).spec_id() == old(events).id_counter(),
            final(events).id_counter() == old(events).id_counter() + 1,
            final(events).subscriptions() == old(events).subscriptions(),
            final(events).emitted() == old(events).emitted(),
            old(self).same_semantic_state(final(self)),
            final(self).spec_wrap_mode() == old(self).spec_wrap_mode(),
            final(self).spec_bounds() == old(self).spec_bounds(),
    {
        self.id = events.get_next_id();
    }

    /// Replaces the size. A no-op when the value already equals the current
    /// one; otherwise invalidates the cache and announces `ComponentResized`
    /// through the registry with this component's id.
    pub fn set_size<L: EventListener>(
        &mut self,
        size: Size,
        events: &mut EventSystem,
        listeners: &mut ListenerTable<L>,
    )
        ensures
            size == old(self).spec_size() ==> {
                &&& *final(self) == *old(self)
                &&& *final(events) == *old(events)
                &&& *final(listeners) == *old(listeners)
            },
            size != old(self).spec_size() ==> {
                &&& final(self).spec_size() == size
                &&& final(self).spec_position() == old(self).spec_position()
                &&& final(self).spec_margin() == old(self).spec_margin()
                &&& final(self).spec_padding() == old(self).spec_padding()
                &&& final(self).spec_visible() == old(self).spec_visible()
                &&& final(self).spec_wrap_mode() == old(self).spec_wrap_mode()
                &&& final(self).spec_sizing_mode() == old(self).spec_sizing_mode()
                &&& final(self).spec_id() == old(self).spec_id()
                &&& final(self).spec_bounds() is None
                &&& final(events).subscriptions() == pruned_subs(
                    old(events).subscriptions(),
                    EventType::ComponentResized,
                    old(listeners).alive_map(),
                )
                &&& final(events).emitted() == old(events).emitted().push(
                    (EventType::ComponentResized, old(self).spec_id()),
                )
                &&& final(events).id_counter() == old(events).id_counter()
                &&& final(listeners).alive_map() == old(listeners).alive_map()
            },
    {
        if !size_eq(&self.size, &size) {
            self.size = size;
            self.invalidate_bounds();
            let _ = events.emit(&EventType::ComponentResized, self.id, listeners);
        }
    }

    /// Replaces the position. A no-op when the value already equals the
    /// current one; otherwise invalidates the cache and announces
    /// `ComponentMoved` through the registry with this component's id.
    pub fn set_position<L: EventListener>(
        &mut self,
        position: Position,
        events: &mut EventSystem,
        listeners: &mut ListenerTable<L>,
    )
        ensures
            position == old(self).spec_position() ==> {
                &&& *final(self) == *old(self)
                &&& *final(events) == *old(events)
                &&& *final(listeners) == *old(listeners)
            },
            position != old(self).spec_position() ==> {
                &&& final(self).spec_position() == position
                &&& final(self).spec_size() == old(self).spec_size()
                &&& final(self).spec_margin() == old(self).spec_margin()
                &&& final(self).spec_padding() == old(self).spec_padding()
                &&& final(self).spec_visible() == old(self).spec_visible()
                &&& final(self).spec_wrap_mode() == old(self).spec_wrap_mode()
                &&& final(self).spec_sizing_mode() == old(self).spec_sizing_mode()
                &&& final(self).spec_id() == old(self).spec_id()
                &&& final(self).spec_bounds() is None
                &&& final(events).subscriptions() == pruned_subs(
                    old(events).subscriptions(),
                    EventType::ComponentMoved,
                    old(listeners).alive_map(),
                )
                &&& final(events).emitted() == old(events).emitted().push(
                    (EventType::ComponentMoved, old(self).spec_id()),
                )
                &&& final(events).id_counter() == old(events).id_counter()
                &&& final(listeners).alive_map() == old(listeners).alive_map()
            },
    {
        if !position_eq(&self.position, &position) {
            self.position = position;
            self.invalidate_bounds();
            let _ = events.emit(&EventType::ComponentMoved, self.id, listeners);
        }
    }

    /// Replaces the margin. A no-op when the value already equals the
    /// current one; otherwise invalidates the cache and announces
    /// `ComponentMarginChanged` through the registry with this component's
    /// id.
    pub fn set_margin<L: EventListener>(
        &mut self,
        margin: Margin,
        events: &mut EventSystem,
        listeners: &mut ListenerTable<L>,
    )
        ensures
            margin == old(self).spec_margin() ==> {
                &&& *final(self) == *old(self)
                &&& *final(events) == *old(events)
                &&& *final(listeners) == *old(listeners)
            },
            margin != old(self).spec_margin() ==> {
                &&& final(self).spec_margin() == margin
                &&& final(self).spec_size() == old(self).spec_size()
                &&& final(self).spec_position() == old(self).spec_position()
                &&& final(self).spec_padding() == old(self).spec_padding()
                &&& final(self).spec_visible() == old(self).spec_visible()
                &&& final(self).spec_wrap_mode() == old(self).spec_wrap_mode()
                &&& final(self).spec_sizing_mode() == old(self).spec_sizing_mode()
                &&& final(self).spec_id() == old(self).spec_id()
                &&& final(self).spec_bounds() is None
                &&& final(events).subscriptions() == pruned_subs(
                    old(events).subscriptions(),
                    EventType::ComponentMarginChanged,
                    old(listeners).alive_map(),
                )
                &&& final(events).emitted() == old(events).emitted().push(
                    (EventType::ComponentMarginChanged, old(self).spec_id()),
                )
                &&& final(events).id_counter() == old(events).id_counter()
                &&& final(listeners).alive_map() == old(listeners).alive_map()
            },
    {
        if !margin_eq(&self.margin, &margin) {
            self.margin = margin;
            self.invalidate_bounds();
            let _ = events.emit(&EventType::ComponentMarginChanged, self.id, listeners);
        }
    }

    /// Replaces the padding. A no-op when the value already equals the
    /// current one; otherwise invalidates the cache and announces
    /// `ComponentPaddingChanged` through the registry with this component's
    /// id.
    pub fn set_padding<L: EventListener>(
        &mut self,
        padding: Padding,
        events: &mut EventSystem,
        listeners: &mut ListenerTable<L>,
    )
        ensures
            padding == old(self).spec_padding() ==> {
                &&& *final(self) == *old(self)
                &&& *final(events) == *old(events)
                &&& *final(listeners) == *old(listeners)
            },
            padding != old(self).spec_padding() ==> {
                &&& final(self).spec_padding() == padding
                &&& final(self).spec_size() == old(self).spec_size()
                &&& final(self).spec_position() == old(self).spec_position()
                &&& final(self).spec_margin() == old(self).spec_margin()
                &&& final(self).spec_visible() == old(self).spec_visible()
                &&& final(self).spec_wrap_mode() == old(self).spec_wrap_mode()
                &&& final(self).spec_sizing_mode() == old(self).spec_sizing_mode()
                &&& final(self).spec_id() == old(self).spec_id()
                &&& final(self).spec_bounds() is None
                &&& final(events).subscriptions() == pruned_subs(
                    old(events).subscriptions(),
                    EventType::ComponentPaddingChanged,
                    old(listeners).alive_map(),
                )
                &&& final(events).emitted() == old(events).emitted().push(
                    (EventType::ComponentPaddingChanged, old(self).spec_id()),
                )
                &&& final(events).id_counter() == old(events).id_counter()
                &&& final(listeners).alive_map() == old(listeners).alive_map()
            },
    {
        if !padding_eq(&self.padding, &padding) {
            self.padding = padding;
            self.invalidate_bounds();
            let _ = events.emit(&EventType::ComponentPaddingChanged, self.id, listeners);
        }
    }

    /// Replaces the visibility flag. A no-op when the value already equals
    /// the current one; otherwise announces `ComponentVisibilityChanged`.
    /// Visibility does not participate in the bounds, so the cache is left
    /// untouched.
    pub fn set_visible<L: EventListener>(
        &mut self,
        visible: bool,
        events: &mut EventSystem,
        listeners: &mut ListenerTable<L>,
    )
        ensures
            visible == old(self).spec_visible() ==> {
                &&& *final(self) == *old(self)
                &&& *final(events) == *old(events)
                &&& *final(listeners) == *old(listeners)
            },
            visible != old(self).spec_visible() ==> {
                &&& final(self).spec_visible() == visible
                &&& final(self).spec_size() == old(self).spec_size()
                &&& final(self).spec_position() == old(self).spec_position()
                &&& final(self).spec_margin() == old(self).spec_margin()
                &&& final(self).spec_padding() == old(self).spec_padding()
                &&& final(self).spec_wrap_mode() == old(self).spec_wrap_mode()
                &&& final(self).spec_sizing_mode() == old(self).spec_sizing_mode()
                &&& final(self).spec_id() == old(self).spec_id()
                &&& final(self).spec_bounds() == old(self).spec_bounds()
                &&& final(events).subscriptions() == pruned_subs(
                    old(events).subscriptions(),
                    EventType::ComponentVisibilityChanged,
                    old(listeners).alive_map(),
                )
                &&& final(events).emitted() == old(events).emitted().push(
                    (EventType::ComponentVisibilityChanged, old(self).spec_id()),
                )
                &&& final(events).id_counter() == old(events).id_counter()
                &&& final(listeners).alive_map() == old(listeners).alive_map()
            },
    {
        if self.visible != visible {
            self.visible = visible;
            let _ = events.emit(&EventType::ComponentVisibilityChanged, self.id, listeners);
        }
    }

    fn invalidate_bounds(&mut self)
        ensures
            final(self).spec_bounds() is None,
            old(self).same_but_bounds(final(self)),
    {
        self.bounds = None;
    }

    pub fn size(&self) -> (r: &Size)
        ensures
            *r == self.spec_size(),
    {
        &self.size
    }

    pub fn position(&self) -> (r: &Position)
        ensures
            *r == self.spec_position(),
    {
        &self.position
    }

    pub fn margin(&self) -> (r: &Margin)
        ensures
            *r == self.spec_margin(),
    {
        &self.margin
    }

    pub fn padding(&self) -> (r: &Padding)
        ensures
            *r == self.spec_padding(),
    {
        &self.padding
    }

    pub fn sizing_mode(&self) -> (r: BoundarySizingMode)
        ensures
            r == self.spec_sizing_mode(),
    {
        self.sizing_mode
    }

    /// The cached bounds, or `None` when they were invalidated and not yet
    /// recomputed: stale data is never returned, callers recompute through
    /// `calculate_bounds` first.
    pub fn bounds(&self) -> (r: Option<&Boundaries>)
        ensures
            match r {
                Some(b) => self.spec_bounds() == Some(*b),
                None => self.spec_bounds() is None,
            },
    {
        self.bounds.as_ref()
    }

    pub fn id(&self) -> (r: &usize)
        ensures
            *r == self.spec_id(),
    {
        &self.id
    }

    pub fn visible(&self) -> (r: &bool)
        ensures
            *r == self.spec_visible(),
    {
        &self.visible
    }

    pub fn wrap_mode(&self) -> (r: &WrapMode)
        ensures
            *r == self.spec_wrap_mode(),
    {
        &self.wrap_mode
    }
}

fn size_eq(a: &Size, b: &Size) -> (r: bool)
    ensures
        r == (*a == *b),
{
    a.height == b.height && a.width == b.width
}

fn position_eq(a: &Position, b: &Position) -> (r: bool)
    ensures
        r == (*a == *b),
{
    a.x == b.x && a.y == b.y
}

fn margin_eq(a: &Margin, b: &Margin) -> (r: bool)
    ensures
        r == (*a == *b),
{
    a.top == b.top && a.right == b.right && a.bottom == b.bottom && a.left == b.left
}

fn padding_eq(a: &Padding, b: &Padding) -> (r: bool)
    ensures
        r == (*a == *b),
{
    a.top == b.top && a.right == b.right && a.bottom == b.bottom && a.left == b.left
}

/// Equality of components considers geometry, visibility and sizing mode
/// only: the cache is derived data and the id is identity, not semantic
/// state, so neither participates.
impl PartialEq for BaseComponent {
    fn eq(&self, other: &Self) -> (r: bool) {
        size_eq(&self.size, &other.size) && position_eq(&self.position, &other.position)
            && margin_eq(&self.margin, &other.margin) && padding_eq(&self.padding, &other.padding)
            && self.visible == other.visible && sizing_mode_eq(self.sizing_mode, other.sizing_mode)
    }
}

impl Eq for BaseComponent {

}

impl vstd::std_specs::cmp::PartialEqSpecImpl for BaseComponent {
    open spec fn obeys_eq_spec() -> bool {
        true
    }

    open spec fn eq_spec(&self, other: &Self) -> bool {
        self.same_semantic_state(other)
    }
}

fn sizing_mode_eq(a: BoundarySizingMode, b: BoundarySizingMode) -> (r: bool)
    ensures
        r == (a == b),
{
    a == b
}

/// Recomputing the bounds twice in a row without a mutator call in between
/// produces identical boundaries both times: the second recomputation
/// changes nothing at all.
pub proof fn lemma_calculate_bounds_idempotent(
    c0: BaseComponent,
    c1: BaseComponent,
    c2: BaseComponent,
)
    requires
        c0.same_but_bounds(&c1),
        c1.spec_bounds() == Some(c0.current_boundaries()),
        c1.same_but_bounds(&c2),
        c2.spec_bounds() == Some(c1.current_boundaries()),
    ensures
        c2.spec_bounds() == c1.spec_bounds(),
        c2 == c1,
{
}

/// Two components constructed against the same registry receive distinct
/// ids, the later one greater: construction takes the counter's value and
/// leaves the counter strictly larger, and no operation ever decreases it,
/// so the counter at the second construction is already past the first id.
pub proof fn lemma_ids_distinct(
    first: BaseComponent,
    counter_after_first: EventSystem,
    counter_at_second: EventSystem,
    second: BaseComponent,
)
    requires
        counter_after_first.id_counter() == first.spec_id() + 1,
        counter_at_second.id_counter() >= counter_after_first.id_counter(),
        second.spec_id() == counter_at_second.id_counter(),
    ensures
        second.spec_id() > first.spec_id(),
        second.spec_id() != first.spec_id(),
{
}

} // verus!
