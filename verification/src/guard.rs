//! Entries that are emitted when nothing holds them any more.

use std::sync::Arc;

use vstd::prelude::*;

use crate::aggregate::CloseValue;
use crate::entry::{Entry, EntryItem, ItemModel};
use crate::traits::MetricValue;
use crate::with_unit::WithUnit;

verus! {

/// An entry that is emitted when its owner and all handles to it are gone and either all flush
/// guards are gone too or any force-flush guard is.
pub struct AppendAndCloseOnDrop<E> {
    entry: Option<E>,
    owners: u64,
    flush_guards: u64,
    force_flush_guards: u64,
    forced: bool,
}

/// What holds an entry back.
pub ghost struct GuardModel<E> {
    /// The entry, unless it was emitted.
    pub entry: Option<E>,
    /// The number of direct references to the entry: its owner, or the handles to it.
    pub owners: nat,
    /// The number of flush guards.
    pub flush_guards: nat,
    /// The number of force-flush guards.
    pub force_flush_guards: nat,
    /// Whether a force-flush guard is gone.
    pub forced: bool,
}

/// An entry that its owner alone holds.
pub open spec fn owned<E>(entry: E) -> GuardModel<E> {
    GuardModel {
        entry: Some(entry),
        owners: 1,
        flush_guards: 0,
        force_flush_guards: 0,
        forced: false,
    }
}

/// Whether nothing holds the entry back.
pub open spec fn released<E>(g: GuardModel<E>) -> bool {
    g.owners == 0 && (g.flush_guards == 0 || g.forced)
}

/// The state after the entry was emitted, if nothing holds it back.
pub open spec fn emitted<E>(g: GuardModel<E>) -> GuardModel<E> {
    if released(g) {
        GuardModel { entry: None, ..g }
    } else {
        g
    }
}

/// What is emitted, if anything.
pub open spec fn emission<E: CloseValue>(g: GuardModel<E>) -> Option<E::Closed> {
    if released(g) {
        match g.entry {
            Some(e) => Some(e.closed()),
            None => None,
        }
    } else {
        None
    }
}

/// What can happen to an entry that is held.
pub ghost enum GuardEvent {
    HandleMade,
    FlushGuardMade,
    ForceFlushGuardMade,
    OwnerDropped,
    FlushGuardDropped,
    ForceFlushGuardDropped,
}

/// Whether something can happen: handles and guards are made through a direct reference, and only
/// what is there can go.
pub open spec fn can_happen<E>(g: GuardModel<E>, event: GuardEvent) -> bool {
    match event {
        GuardEvent::HandleMade => g.owners > 0,
        GuardEvent::FlushGuardMade => g.owners > 0,
        GuardEvent::ForceFlushGuardMade => g.owners > 0,
        GuardEvent::OwnerDropped => g.owners > 0,
        GuardEvent::FlushGuardDropped => g.flush_guards > 0,
        GuardEvent::ForceFlushGuardDropped => g.force_flush_guards > 0,
    }
}

/// What holds an entry back after something happened, before the entry is emitted.
pub open spec fn happened<E>(g: GuardModel<E>, event: GuardEvent) -> GuardModel<E> {
    match event {
        GuardEvent::HandleMade => GuardModel { owners: g.owners + 1, ..g },
        GuardEvent::FlushGuardMade => GuardModel { flush_guards: g.flush_guards + 1, ..g },
        GuardEvent::ForceFlushGuardMade => GuardModel {
            force_flush_guards: g.force_flush_guards + 1,
            ..g
        },
        GuardEvent::OwnerDropped => GuardModel { owners: (g.owners - 1) as nat, ..g },
        GuardEvent::FlushGuardDropped => GuardModel {
            flush_guards: (g.flush_guards - 1) as nat,
            ..g
        },
        GuardEvent::ForceFlushGuardDropped => GuardModel {
            force_flush_guards: (g.force_flush_guards - 1) as nat,
            forced: true,
            ..g
        },
    }
}

impl<E> View for AppendAndCloseOnDrop<E> {
    type V = GuardModel<E>;

    closed spec fn view(&self) -> GuardModel<E> {
        GuardModel {
            entry: self.entry,
            owners: self.owners as nat,
            flush_guards: self.flush_guards as nat,
            force_flush_guards: self.force_flush_guards as nat,
            forced: self.forced,
        }
    }
}

impl<E> AppendAndCloseOnDrop<E> {
    /// The entry was emitted if and only if nothing holds it back.
    pub open spec fn wf(self) -> bool {
        self@.entry is None <==> released(self@)
    }
}

/// An entry that its owner holds.
pub fn append_and_close<E: CloseValue>(base: E) -> (g: AppendAndCloseOnDrop<E>)
    ensures
        g.wf(),
        g@ == owned(base),
{
    AppendAndCloseOnDrop {
        entry: Some(base),
        owners: 1,
        flush_guards: 0,
        force_flush_guards: 0,
        forced: false,
    }
}

impl<E: CloseValue> AppendAndCloseOnDrop<E> {
    /// Adds a flush guard.
    pub fn flush_guard(&mut self)
        requires
            old(self).wf(),
            can_happen(old(self)@, GuardEvent::FlushGuardMade),
            old(self)@.flush_guards < u64::MAX,
        ensures
            final(self).wf(),
            final(self)@ == happened(old(self)@, GuardEvent::FlushGuardMade),
    {
        self.flush_guards = self.flush_guards + 1;
    }

    /// Adds a force-flush guard.
    pub fn force_flush_guard(&mut self)
        requires
            old(self).wf(),
            can_happen(old(self)@, GuardEvent::ForceFlushGuardMade),
            old(self)@.force_flush_guards < u64::MAX,
        ensures
            final(self).wf(),
            final(self)@ == happened(old(self)@, GuardEvent::ForceFlushGuardMade),
    {
        self.force_flush_guards = self.force_flush_guards + 1;
    }

    /// Adds a handle.
    pub fn handle(&mut self)
        requires
            old(self).wf(),
            can_happen(old(self)@, GuardEvent::HandleMade),
            old(self)@.owners < u64::MAX,
        ensures
            final(self).wf(),
            final(self)@ == happened(old(self)@, GuardEvent::HandleMade),
    {
        self.owners = self.owners + 1;
    }

    /// The entry. It is there as long as there is a direct reference to it.
    pub fn get(&self) -> (entry: &E)
        requires
            self.wf(),
            self@.owners > 0,
        ensures
            Some(*entry) == self@.entry,
    {
        self.entry.as_ref().unwrap()
    }

    /// Changes the entry. It is there as long as there is a direct reference to it.
    pub fn set(&mut self, entry: E)
        requires
            old(self).wf(),
            old(self)@.owners > 0,
        ensures
            final(self).wf(),
            final(self)@ == (GuardModel { entry: Some(entry), ..old(self)@ }),
    {
        self.entry = Some(entry);
    }

    /// Emits the entry if nothing holds it back any more.
    fn settle(&mut self) -> (out: Option<E::Closed>)
        requires
            old(self)@.entry is None ==> released(old(self)@),
        ensures
            final(self).wf(),
            final(self)@ == emitted(old(self)@),
            out == emission(old(self)@),
    {
        if self.owners == 0 && (self.flush_guards == 0 || self.forced) {
            match self.entry.take() {
                Some(entry) => Some(entry.close()),
                None => None,
            }
        } else {
            None
        }
    }

    /// The owner or a handle is gone. Hands over the entry if it is to be emitted now.
    pub fn drop_owner(&mut self) -> (out: Option<E::Closed>)
        requires
            old(self).wf(),
            can_happen(old(self)@, GuardEvent::OwnerDropped),
        ensures
            final(self).wf(),
            final(self)@ == emitted(happened(old(self)@, GuardEvent::OwnerDropped)),
            out == emission(happened(old(self)@, GuardEvent::OwnerDropped)),
    {
        self.owners = self.owners - 1;
        self.settle()
    }

    /// A flush guard is gone. Hands over the entry if it is to be emitted now.
    pub fn drop_flush_guard(&mut self) -> (out: Option<E::Closed>)
        requires
            old(self).wf(),
            can_happen(old(self)@, GuardEvent::FlushGuardDropped),
        ensures
            final(self).wf(),
            final(self)@ == emitted(happened(old(self)@, GuardEvent::FlushGuardDropped)),
            out == emission(happened(old(self)@, GuardEvent::FlushGuardDropped)),
    {
        self.flush_guards = self.flush_guards - 1;
        self.settle()
    }

    /// A force-flush guard is gone. Hands over the entry if it is to be emitted now.
    pub fn drop_force_flush_guard(&mut self) -> (out: Option<E::Closed>)
        requires
            old(self).wf(),
            can_happen(old(self)@, GuardEvent::ForceFlushGuardDropped),
        ensures
            final(self).wf(),
            final(self)@ == emitted(happened(old(self)@, GuardEvent::ForceFlushGuardDropped)),
            out == emission(happened(old(self)@, GuardEvent::ForceFlushGuardDropped)),
    {
        self.force_flush_guards = self.force_flush_guards - 1;
        self.forced = true;
        self.settle()
    }
}

/// Whether each of the events can happen, one after the other.
pub open spec fn can_happen_all<E>(g: GuardModel<E>, events: Seq<GuardEvent>) -> bool
    decreases events.len(),
{
    events.len() == 0 || (can_happen_all(g, events.drop_last()) && can_happen(
        after_all(g, events.drop_last()),
        events.last(),
    ))
}

/// What is left after several events.
pub open spec fn after_all<E>(g: GuardModel<E>, events: Seq<GuardEvent>) -> GuardModel<E>
    decreases events.len(),
{
    if events.len() == 0 {
        g
    } else {
        emitted(happened(after_all(g, events.drop_last()), events.last()))
    }
}

/// How often the entry is emitted in the course of several events.
pub open spec fn emissions<E: CloseValue>(g: GuardModel<E>, events: Seq<GuardEvent>) -> nat
    decreases events.len(),
{
    if events.len() == 0 {
        0
    } else {
        let before = after_all(g, events.drop_last());
        emissions(g, events.drop_last()) + if emission(happened(before, events.last())) is Some {
            1nat
        } else {
            0
        }
    }
}

/// Whatever happens to an entry, it is emitted once if its owner and all handles are gone and either
/// no flush guard is left or a force-flush guard is gone, and not at all otherwise.
pub proof fn entries_are_emitted_once<E: CloseValue>(entry: E, events: Seq<GuardEvent>)
    requires
        can_happen_all(owned(entry), events),
    ensures
        ({
            let end = after_all(owned(entry), events);
            &&& emissions(owned(entry), events) == if released(end) {
                1nat
            } else {
                0
            }
            &&& end.entry == if released(end) {
                None
            } else {
                Some(entry)
            }
        }),
    decreases events.len(),
{
    if events.len() > 0 {
        entries_are_emitted_once(entry, events.drop_last());
    }
}

/// Once a force-flush guard is gone, no flush guard holds the entry back, be it made before or
/// after.
pub proof fn forced_entries_wait_for_owners_alone<E>(g: GuardModel<E>, events: Seq<GuardEvent>)
    requires
        g.forced,
        can_happen_all(g, events),
    ensures
        after_all(g, events).forced,
        released(after_all(g, events)) <==> after_all(g, events).owners == 0,
    decreases events.len(),
{
    if events.len() > 0 {
        forced_entries_wait_for_owners_alone(g, events.drop_last());
    }
}

/// An entry that is emitted once: when its guard goes, unless it was discarded or emitted before.
pub struct NoAllocAppendOnDrop<E> {
    entry: Option<E>,
}

impl<E: CloseValue> NoAllocAppendOnDrop<E> {
    /// The entry, unless it was emitted or discarded.
    pub closed spec fn held(self) -> Option<E> {
        self.entry
    }

    /// A guard for an entry.
    pub fn new(entry: E) -> (g: Self)
        ensures
            g.held() == Some(entry),
    {
        NoAllocAppendOnDrop { entry: Some(entry) }
    }

    /// Gives up the entry without emitting it.
    pub fn discard(&mut self)
        ensures
            final(self).held() is None,
    {
        self.entry = None;
    }

    /// Hands over the entry to be emitted, if it is still there.
    pub fn emit(&mut self) -> (out: Option<E::Closed>)
        ensures
            final(self).held() is None,
            out == match old(self).held() {
                Some(entry) => Some(entry.closed()),
                None => None,
            },
    {
        match self.entry.take() {
            Some(entry) => Some(entry.close()),
            None => None,
        }
    }

    /// The entry, which has to be there.
    pub fn get(&self) -> (entry: &E)
        requires
            self.held() is Some,
        ensures
            Some(*entry) == self.held(),
    {
        self.entry.as_ref().unwrap()
    }

    /// Changes the entry, which has to be there.
    pub fn set(&mut self, entry: E)
        requires
            old(self).held() is Some,
        ensures
            final(self).held() == Some(entry),
    {
        self.entry = Some(entry);
    }
}

/// `std::sync::Arc::into_inner` gives the value if nothing else refers to it. When that is so is not
/// said here.
#[verifier::external_body]
fn arc_into_inner<T>(shared: Arc<T>) -> (res: Option<T>)
    ensures
        res matches Some(value) ==> value == *shared,
{
    Arc::into_inner(shared)
}

/// A part of an entry that several tasks share. It is closed with the last of them.
#[derive(Debug)]
pub struct SharedChild<T> {
    shared: Arc<T>,
}

impl<T> SharedChild<T> {
    /// The part itself.
    pub closed spec fn inner(self) -> T {
        *self.shared
    }

    /// A part that can be shared.
    pub fn new(value: T) -> (child: SharedChild<T>)
        ensures
            child.inner() == value,
    {
        SharedChild { shared: Arc::new(value) }
    }

    /// The part itself.
    pub fn get(&self) -> (value: &T)
        ensures
            *value == self.inner(),
    {
        &self.shared
    }

    /// One more reference to the part.
    pub fn share(&self) -> (child: SharedChild<T>)
        ensures
            child.inner() == self.inner(),
    {
        SharedChild { shared: self.shared.clone() }
    }
}

impl<T: CloseValue> SharedChild<T> {
    /// Closes the part, if this is the last reference to it.
    pub fn close(self) -> (closed: Option<T::Closed>)
        ensures
            closed matches Some(c) ==> c == self.inner().closed(),
    {
        close_shared(arc_into_inner(self.shared))
    }
}

/// Closes a part that nothing else refers to.
pub fn close_shared<T: CloseValue>(value: Option<T>) -> (closed: Option<T::Closed>)
    ensures
        closed == match value {
            Some(v) => Some(v.closed()),
            None => None,
        },
{
    match value {
        Some(v) => Some(v.close()),
        None => None,
    }
}

/// An entry that is emitted on its own.
pub struct RootEntry<M> {
    metric: M,
}

impl<M> RootEntry<M> {
    /// The entry itself.
    pub closed spec fn inner(self) -> M {
        self.metric
    }

    /// An entry that is emitted on its own.
    pub fn new(metric: M) -> (root: RootEntry<M>)
        ensures
            root.inner() == metric,
    {
        RootEntry { metric }
    }
}

impl<M: Entry> Entry for RootEntry<M> {
    open spec fn items(&self) -> Seq<ItemModel> {
        self.inner().items()
    }

    fn write(&self) -> (items: Vec<EntryItem>) {
        self.metric.write()
    }
}

/// Gives a value a unit that it is converted to.
pub trait AttachUnit: Sized {
    /// The value with a unit that it is converted to.
    fn make<U>(self) -> (w: WithUnit<Self, U>)
        ensures
            w.inner() == self,
    ;
}

impl<V: MetricValue> AttachUnit for V {
    fn make<U>(self) -> (w: WithUnit<V, U>) {
        WithUnit::new(self)
    }
}

/// How often something happened.
pub open spec fn occurrences(events: Seq<GuardEvent>, event: GuardEvent) -> nat
    decreases events.len(),
{
    if events.len() == 0 {
        0
    } else {
        occurrences(events.drop_last(), event) + if events.last() == event {
            1nat
        } else {
            0
        }
    }
}

/// Whether an entry is to have been emitted after several events: as many direct references are gone
/// as there ever were, the first owner included, and as many flush guards are gone as were made, or
/// else a force-flush guard is gone.
pub open spec fn is_let_go(events: Seq<GuardEvent>) -> bool {
    &&& occurrences(events, GuardEvent::OwnerDropped) == 1 + occurrences(
        events,
        GuardEvent::HandleMade,
    )
    &&& occurrences(events, GuardEvent::FlushGuardDropped) == occurrences(
        events,
        GuardEvent::FlushGuardMade,
    ) || occurrences(events, GuardEvent::ForceFlushGuardDropped) > 0
}

proof fn events_are_counted<E>(entry: E, events: Seq<GuardEvent>)
    requires
        can_happen_all(owned(entry), events),
    ensures
        ({
            let end = after_all(owned(entry), events);
            &&& end.owners == 1 + occurrences(events, GuardEvent::HandleMade) - occurrences(
                events,
                GuardEvent::OwnerDropped,
            )
            &&& end.flush_guards == occurrences(events, GuardEvent::FlushGuardMade) - occurrences(
                events,
                GuardEvent::FlushGuardDropped,
            )
            &&& end.forced <==> occurrences(events, GuardEvent::ForceFlushGuardDropped) > 0
        }),
    decreases events.len(),
{
    if events.len() > 0 {
        events_are_counted(entry, events.drop_last());
    }
}

/// An entry is emitted as soon as its owner and all handles are gone and either all flush guards are
/// gone too or a force-flush guard is, and it is emitted once: not before, and not again whatever
/// happens after. What is emitted is the entry, closed.
pub proof fn entries_are_emitted_when_nothing_holds_them<E: CloseValue>(
    entry: E,
    events: Seq<GuardEvent>,
)
    requires
        can_happen_all(owned(entry), events),
    ensures
        emissions(owned(entry), events) == if is_let_go(events) {
            1nat
        } else {
            0
        },
        events.len() > 0 ==> ({
            let last = emission(
                happened(after_all(owned(entry), events.drop_last()), events.last()),
            );
            &&& last is Some <==> is_let_go(events) && !is_let_go(events.drop_last())
            &&& last is Some ==> last == Some(entry.closed())
        }),
{
    entries_are_emitted_once(entry, events);
    events_are_counted(entry, events);
    if events.len() > 0 {
        entries_are_emitted_once(entry, events.drop_last());
        events_are_counted(entry, events.drop_last());
    }
}

/// An entry that is emitted on its own hands over what the entry itself does.
pub proof fn root_entries_are_entries<M: Entry>(root: RootEntry<M>)
    ensures
        root.items() == root.inner().items(),
{
}

} // verus!
