use vstd::prelude::*;

verus! {

/// The kinds of events the registry can announce.
#[derive(Debug, Clone, Copy, PartialEq, Eq, Hash, Structural)]
pub enum EventType {
    // Component events
    ComponentAdded,
    ComponentRemoved,
    ComponentResized,
    ComponentMoved,
    ComponentPaddingChanged,
    ComponentMarginChanged,
    ComponentVisibilityChanged,
    // Window events
    WindowOpened,
    WindowClosed,
    WindowFocused,
    WindowMaximized,
    WindowMinimized,
    WindowResized,
    WindowMoved,
    WindowTitleChanged,
    WindowIconChanged,
    // Keyboard events
    KeyPressed,
    KeyReleased,
    KeyTyped,
    KeyHeld,
    KeyCombinationPressed,
    KeyCombinationReleased,
    KeyCombinationHeld,
    KeyCombinationTyped,
    // Mouse events
    MouseButtonPressed,
    MouseButtonReleased,
    MouseButtonClicked,
    MouseButtonDoubleClicked,
    MouseMoved,
    MouseScrolled,
    // Drag and drop events
    DragStart,
    DragEnd,
    DragDrop,
    DragHover,
    DragLeave,
    // Hover events
    Hovered,
    Unhovered,
    HoverEntered,
    HoverExited,
    // Animation events
    AnimationStarted,
    AnimationStopped,
    AnimationPaused,
    AnimationResumed,
    AnimationFrameUpdated,
    AnimationCompleted,
    AnimationTransitionStarted,
    AnimationTransitionEnded,
    // Form events
    FieldFocused,
    FieldFocusedLost,
    FieldValueChanged,
    FieldValidating,
    FieldFocusMove,
    // System events
    RenderRequested,
    UpdateRequested,
}

/// The capability a collaborator implements to react to announced events.
pub trait EventListener {
    fn on_event(&mut self, event: &EventType, caller_id: usize);
}

/// Owns the listeners on behalf of the rest of the program and answers the
/// registry's liveness question. A handle is an index into the table; a slot
/// whose owner has been destroyed holds `None` and its handle is never
/// reused, so a handle stays a stable identity for the listener it named.
pub struct ListenerTable<L> {
    slots: Vec<Option<L>>,
}

/// Whether `handle` names a live slot of a table whose liveness pattern
/// is `alive`.
pub open spec fn handle_live(alive: Seq<bool>, handle: usize) -> bool {
    handle < alive.len() && alive[handle as int]
}

impl<L> ListenerTable<L> {
    pub closed spec fn spec_slots(&self) -> Seq<Option<L>> {
        self.slots@
    }

    /// One flag per slot: whether the listener in it is still alive.
    pub open spec fn alive_map(&self) -> Seq<bool> {
        self.spec_slots().map(|i: int, s: Option<L>| s is Some)
    }

    pub open spec fn spec_is_live(&self, handle: usize) -> bool {
        handle_live(self.alive_map(), handle)
    }

    pub fn new() -> (t: Self)
        ensures
            t.spec_slots() == Seq::<Option<L>>::empty(),
    {
        ListenerTable { slots: Vec::new() }
    }

    /// Takes ownership of a listener and hands out its handle.
    pub fn register(&mut self, listener: L) -> (handle: usize)
        ensures
            final(self).spec_slots() == old(self).spec_slots().push(Some(listener)),
            handle == old(self).spec_slots().len(),
    {
        let handle = self.slots.len();
        self.slots.push(Some(listener));
        handle
    }

    /// Destroys the listener owned by `handle`'s slot. Its handle is dead
    /// from here on and is never reissued.
    pub fn remove(&mut self, handle: usize)
        requires
            handle < old(self).spec_slots().len(),
        ensures
            final(self).spec_slots() == old(self).spec_slots().update(handle as int, None),
    {
        self.slots.set(handle, None);
    }

    /// The liveness question the registry asks before invoking a handle.
    pub fn is_live(&self, handle: usize) -> (r: bool)
        ensures
            r == self.spec_is_live(handle),
    {
        handle < self.slots.len() && self.slots[handle].is_some()
    }

    /// A look at the listener a live handle names.
    pub fn get(&self, handle: usize) -> (r: Option<&L>)
        ensures
            match r {
                Some(l) => self.spec_is_live(handle) && self.spec_slots()[handle as int] == Some(
                    *l,
                ),
                None => !self.spec_is_live(handle),
            },
    {
        if handle < self.slots.len() {
            self.slots[handle].as_ref()
        } else {
            None
        }
    }
}

impl<L: EventListener> ListenerTable<L> {
    /// Invokes a live listener. The listener may mutate its own state but
    /// cannot change which slots are alive.
    pub fn notify(&mut self, handle: usize, event: &EventType, caller_id: usize)
        requires
            old(self).spec_is_live(handle),
        ensures
            final(self).alive_map() == old(self).alive_map(),
    {
        let mut slot = self.slots.remove(handle);
        match &mut slot {
            Some(listener) => {
                listener.on_event(event, caller_id);
            },
            None => {},
        }
        self.slots.insert(handle, slot);
        proof {
            assert(self.slots@ =~= old(self).slots@.update(handle as int, slot));
            assert(final(self).alive_map() =~= old(self).alive_map());
        }
    }
}

/// The handles that a dispatch of `kind` notifies, given the subscription
/// list and the liveness pattern at dispatch time: the handles subscribed
/// to `kind` that are still alive, in subscription order.
pub open spec fn live_targets(
    subs: Seq<(EventType, usize)>,
    kind: EventType,
    alive: Seq<bool>,
) -> Seq<usize>
    decreases subs.len(),
{
    if subs.len() == 0 {
        Seq::empty()
    } else {
        let prev = live_targets(subs.drop_last(), kind, alive);
        let entry = subs.last();
        if entry.0 == kind && handle_live(alive, entry.1) {
            prev.push(entry.1)
        } else {
            prev
        }
    }
}

/// The subscription list after a dispatch of `kind`: dead handles under
/// `kind` are forgotten permanently; everything else is kept in order.
pub open spec fn pruned_subs(
    subs: Seq<(EventType, usize)>,
    kind: EventType,
    alive: Seq<bool>,
) -> Seq<(EventType, usize)>
    decreases subs.len(),
{
    if subs.len() == 0 {
        Seq::empty()
    } else {
        let prev = pruned_subs(subs.drop_last(), kind, alive);
        let entry = subs.last();
        if entry.0 != kind || handle_live(alive, entry.1) {
            prev.push(entry)
        } else {
            prev
        }
    }
}

/// The subscription list after an out-of-band sweep: dead handles are
/// forgotten under every kind.
pub open spec fn swept_subs(
    subs: Seq<(EventType, usize)>,
    alive: Seq<bool>,
) -> Seq<(EventType, usize)>
    decreases subs.len(),
{
    if subs.len() == 0 {
        Seq::empty()
    } else {
        let prev = swept_subs(subs.drop_last(), alive);
        let entry = subs.last();
        if handle_live(alive, entry.1) {
            prev.push(entry)
        } else {
            prev
        }
    }
}

/// A single-threaded publish/subscribe bus keyed by event kind, plus the id
/// allocator that gives every component a process-unique identity. The
/// registry holds handles only, never the listeners themselves, so it is
/// never the reason a listener's owner stays alive.
pub struct EventSystem {
    subscriptions: Vec<(EventType, usize)>,
    next_id: usize,
    emitted: Ghost<Seq<(EventType, usize)>>,
}

impl EventSystem {
    /// The registered (kind, handle) pairs, in subscription order.
    pub closed spec fn subscriptions(&self) -> Seq<(EventType, usize)> {
        self.subscriptions@
    }

    /// The next id the allocator will hand out. Monotonically increasing,
    /// starting at zero, never reused.
    pub closed spec fn id_counter(&self) -> int {
        self.next_id as int
    }

    /// The dispatch history: every (kind, emitting component id) pair ever
    /// handed to `emit`, in order. Ghost state: it exists only to let
    /// callers' contracts say which dispatches a call made.
    pub closed spec fn emitted(&self) -> Seq<(EventType, usize)> {
        self.emitted@
    }

    pub fn new() -> (s: EventSystem)
        ensures
            s.subscriptions() == Seq::<(EventType, usize)>::empty(),
            s.id_counter() == 0,
            s.emitted() == Seq::<(EventType, usize)>::empty(),
    {
        EventSystem { subscriptions: Vec::new(), next_id: 0, emitted: Ghost(Seq::empty()) }
    }

    /// Allocates the next component id: the counter's current value.
    pub fn get_next_id(&mut self) -> (id: usize)
        requires
            old(self).id_counter() < usize::MAX,
        ensures
            id == old(self).id_counter(),
            final(self).id_counter() == old(self).id_counter() + 1,
            final(self).subscriptions() == old(self).subscriptions(),
            final(self).emitted() == old(self).emitted(),
    {
        let id = self.next_id;
        self.next_id = self.next_id + 1;
        id
    }

    /// How many (kind, handle) subscriptions the registry holds.
    pub fn subscription_count(&self) -> (n: usize)
        ensures
            n == self.subscriptions().len(),
    {
        self.subscriptions.len()
    }

    /// Registers a non-owning listener handle under `event`. Registration
    /// order is preserved; one handle may subscribe to several kinds.
    pub fn subscribe(&mut self, event: EventType, listener: usize)
        ensures
            final(self).subscriptions() == old(self).subscriptions().push((event, listener)),
            final(self).id_counter() == old(self).id_counter(),
            final(self).emitted() == old(self).emitted(),
    {
        self.subscriptions.push((event, listener));
    }

    /// Dispatches `event` with the emitting component's id to every live
    /// listener subscribed to that kind, in subscription order, and
    /// permanently forgets the dead handles found under that kind. Returns
    /// the handles that were notified, in dispatch order.
    ///
    /// Dispatch is synchronous. A listener invoked here cannot re-enter the
    /// registry during the dispatch — the registry and the table are
    /// exclusively borrowed for its whole duration — so a re-emission chain
    /// is expressed by the caller reacting to the returned handles after
    /// `emit` returns, and no unbounded recursive re-emission can form.
    pub fn emit<L: EventListener>(
        &mut self,
        event: &EventType,
        caller_id: usize,
        listeners: &mut ListenerTable<L>,
    ) -> (notified: Vec<usize>)
        ensures
            notified@ == live_targets(old(self).subscriptions(), *event, old(listeners).alive_map()),
            final(self).subscriptions() == pruned_subs(
                old(self).subscriptions(),
                *event,
                old(listeners).alive_map(),
            ),
            final(self).id_counter() == old(self).id_counter(),
            final(self).emitted() == old(self).emitted().push((*event, caller_id)),
            final(listeners).alive_map() == old(listeners).alive_map(),
    {
        let ghost alive = listeners.alive_map();
        let ghost subs0 = self.subscriptions@;
        let ghost emitted0 = self.emitted@;
        let mut kept: Vec<(EventType, usize)> = Vec::new();
        let mut notified: Vec<usize> = Vec::new();
        let n = self.subscriptions.len();
        let mut i: usize = 0;
        while i < n
            invariant
                i <= n,
                n == subs0.len(),
                self.subscriptions@ == subs0,
                self.next_id == old(self).next_id,
                self.emitted@ == emitted0,
                listeners.alive_map() == alive,
                kept@ == pruned_subs(subs0.take(i as int), *event, alive),
                notified@ == live_targets(subs0.take(i as int), *event, alive),
            decreases n - i,
        {
            let (kind, handle) = self.subscriptions[i];
            if kind == *event {
                if listeners.is_live(handle) {
                    listeners.notify(handle, event, caller_id);
                    kept.push((kind, handle));
                    notified.push(handle);
                }
            } else {
                kept.push((kind, handle));
            }
            i = i + 1;
            proof {
                assert(subs0.take(i as int).drop_last() =~= subs0.take(i - 1));
                assert(subs0.take(i as int).last() == subs0[i - 1]);
            }
        }
        proof {
            assert(subs0.take(n as int) =~= subs0);
        }
        self.subscriptions = kept;
        self.emitted = Ghost(emitted0.push((*event, caller_id)));
        notified
    }

    /// Proactively forgets every dead handle, across all event kinds,
    /// without dispatching anything.
    pub fn cleanup<L>(&mut self, listeners: &ListenerTable<L>)
        ensures
            final(self).subscriptions() == swept_subs(
                old(self).subscriptions(),
                listeners.alive_map(),
            ),
            final(self).id_counter() == old(self).id_counter(),
            final(self).emitted() == old(self).emitted(),
    {
        let ghost subs0 = self.subscriptions@;
        let mut kept: Vec<(EventType, usize)> = Vec::new();
        let n = self.subscriptions.len();
        let mut i: usize = 0;
        while i < n
            invariant
                i <= n,
                n == subs0.len(),
                self.subscriptions@ == subs0,
                self.next_id == old(self).next_id,
                self.emitted@ == old(self).emitted@,
                kept@ == swept_subs(subs0.take(i as int), listeners.alive_map()),
            decreases n - i,
        {
            let (kind, handle) = self.subscriptions[i];
            if listeners.is_live(handle) {
                kept.push((kind, handle));
            }
            i = i + 1;
            proof {
                assert(subs0.take(i as int).drop_last() =~= subs0.take(i - 1));
                assert(subs0.take(i as int).last() == subs0[i - 1]);
            }
        }
        proof {
            assert(subs0.take(n as int) =~= subs0);
        }
        self.subscriptions = kept;
    }
}

/// Dispatch reaches exactly the live subscribers of the emitted kind, each
/// exactly as often as it subscribed, in subscription order: the notified
/// handles are the subscription list filtered down to live entries of that
/// kind, projected to their handles.
pub proof fn lemma_live_targets_filter(
    subs: Seq<(EventType, usize)>,
    kind: EventType,
    alive: Seq<bool>,
)
    ensures
        live_targets(subs, kind, alive) == subs.filter(
            |e: (EventType, usize)| e.0 == kind && handle_live(alive, e.1),
        ).map_values(|e: (EventType, usize)| e.1),
    decreases subs.len(),
{
    let pred = |e: (EventType, usize)| e.0 == kind && handle_live(alive, e.1);
    let proj = |e: (EventType, usize)| e.1;
    if subs.len() == 0 {
        assert(live_targets(subs, kind, alive) =~= subs.filter(pred).map_values(proj));
    } else {
        lemma_live_targets_filter(subs.drop_last(), kind, alive);
        reveal_with_fuel(Seq::filter, 2);
        if pred(subs.last()) {
            assert(subs.filter(pred) == subs.drop_last().filter(pred).push(subs.last()));
            assert(subs.filter(pred).map_values(proj) =~= subs.drop_last().filter(pred).map_values(
                proj,
            ).push(subs.last().1));
        } else {
            assert(subs.filter(pred) == subs.drop_last().filter(pred));
        }
    }
}

/// Dead-listener forgetting: a dead handle is never notified, and a dispatch
/// of `kind` removes its subscription under that kind, so later dispatches
/// do not even attempt to resolve it.
pub proof fn lemma_emit_forgets_dead(
    subs: Seq<(EventType, usize)>,
    kind: EventType,
    alive: Seq<bool>,
    handle: usize,
)
    requires
        !handle_live(alive, handle),
    ensures
        !live_targets(subs, kind, alive).contains(handle),
        !pruned_subs(subs, kind, alive).contains((kind, handle)),
    decreases subs.len(),
{
    if subs.len() > 0 {
        lemma_emit_forgets_dead(subs.drop_last(), kind, alive, handle);
        let prev_lt = live_targets(subs.drop_last(), kind, alive);
        let prev_pr = pruned_subs(subs.drop_last(), kind, alive);
        assert forall|x: usize| prev_lt.push(x).contains(handle) implies prev_lt.contains(handle)
            || x == handle by {
            let i = choose|i: int| 0 <= i < prev_lt.push(x).len() && prev_lt.push(x)[i] == handle;
            if i < prev_lt.len() {
                assert(prev_lt[i] == handle);
            }
        }
        assert forall|e: (EventType, usize)|
            prev_pr.push(e).contains((kind, handle)) implies prev_pr.contains((kind, handle)) || e
            == (kind, handle) by {
            let i = choose|i: int|
                0 <= i < prev_pr.push(e).len() && prev_pr.push(e)[i] == (kind, handle);
            if i < prev_pr.len() {
                assert(prev_pr[i] == (kind, handle));
            }
        }
    }
}

} // verus!
