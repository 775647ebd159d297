use vstd::prelude::*;
use tokio::sync::broadcast::{Receiver, Sender};

verus! {

/// Opaque handle of the sending half of a tokio broadcast channel.
#[verifier::external_type_specification]
#[verifier::external_body]
#[verifier::reject_recursive_types(T)]
pub struct ExBroadcastSender<T>(Sender<T>);

/// Opaque handle of a receiving half of a tokio broadcast channel.
#[verifier::external_type_specification]
#[verifier::external_body]
#[verifier::reject_recursive_types(T)]
pub struct ExBroadcastReceiver<T>(Receiver<T>);

/// What happens in the orchestrator that other components may react to.
#[derive(Clone, Debug, PartialEq, Eq)]
pub enum Event {
    NodeJoined { node_id: String },
    Heartbeat { node_id: String },
    TaskCreated { task_id: String },
    TaskCompleted { task_id: String },
}

/// The content of an event, with each identifier taken by its characters.
pub enum EventView {
    NodeJoined { node_id: Seq<char> },
    Heartbeat { node_id: Seq<char> },
    TaskCreated { task_id: Seq<char> },
    TaskCompleted { task_id: Seq<char> },
}

impl View for Event {
    type V = EventView;

    open spec fn view(&self) -> EventView {
        match self {
            Event::NodeJoined { node_id } => EventView::NodeJoined { node_id: node_id@ },
            Event::Heartbeat { node_id } => EventView::Heartbeat { node_id: node_id@ },
            Event::TaskCreated { task_id } => EventView::TaskCreated { task_id: task_id@ },
            Event::TaskCompleted { task_id } => EventView::TaskCompleted { task_id: task_id@ },
        }
    }
}

/// The largest capacity that a broadcast channel accepts.
pub open spec fn max_bus_capacity() -> int {
    usize::MAX as int / 2
}

/// The number of events that each receiver of the channel behind `sender`
/// can hold before it lags. tokio fixes it when the channel is made.
pub uninterp spec fn bus_capacity(sender: Sender<Event>) -> nat;

/// `receiver` receives what is sent through `sender`: both belong to one
/// broadcast channel.
pub uninterp spec fn feeds(sender: Sender<Event>, receiver: Receiver<Event>) -> bool;

/// `a` and `b` send into one broadcast channel.
pub uninterp spec fn same_channel(a: Sender<Event>, b: Sender<Event>) -> bool;

/// The events handed to `Sender::send` through the handle `sender`, oldest
/// first, since the handle was made.
pub uninterp spec fn handle_history(sender: Sender<Event>) -> Seq<EventView>;

/// `n` is a power of two.
pub open spec fn is_power_of_two(n: nat) -> bool {
    exists|k: nat| n == #[trigger] vstd::arithmetic::power2::pow2(k)
}

/// `later` is the handle `earlier` after sending through it: the same
/// capacity, the same receivers fed, and the same channel as every handle
/// that shared one with `earlier`.
pub open spec fn same_handle(earlier: Sender<Event>, later: Sender<Event>) -> bool {
    &&& bus_capacity(later) == bus_capacity(earlier)
    &&& forall|r: Receiver<Event>|
        #![trigger feeds(later, r)]
        #![trigger feeds(earlier, r)]
        feeds(later, r) == feeds(earlier, r)
    &&& forall|s: Sender<Event>|
        #![trigger same_channel(s, later)]
        #![trigger same_channel(s, earlier)]
        same_channel(s, later) == same_channel(s, earlier)
    &&& forall|s: Sender<Event>|
        #![trigger same_channel(later, s)]
        #![trigger same_channel(earlier, s)]
        same_channel(later, s) == same_channel(earlier, s)
}

/// Calls `tokio::sync::broadcast::channel` and keeps its sending half; the
/// receiving half made with it is dropped. tokio rounds the capacity up to
/// the next power of two (`usize::next_power_of_two`): the smallest power of
/// two that is at least the capacity asked for. The new handle has sent
/// nothing. The call panics when the capacity is 0 or above `usize::MAX / 2`,
/// which `requires` leaves out.
#[verifier::external_body]
fn broadcast_channel(capacity: usize) -> (sender: Sender<Event>)
    requires
        0 < capacity <= max_bus_capacity(),
    ensures
        is_power_of_two(bus_capacity(sender)),
        capacity <= bus_capacity(sender) < 2 * capacity,
        handle_history(sender) == Seq::<EventView>::empty(),
{
    tokio::sync::broadcast::channel(capacity).0
}

/// Calls `Sender::subscribe`: a new receiver on the same channel, which gets
/// the values sent after the call. What it will receive depends on later
/// sends and is not stated here.
#[verifier::external_body]
fn broadcast_subscribe(sender: &Sender<Event>) -> (receiver: Receiver<Event>)
    ensures
        feeds(*sender, receiver),
{
    sender.subscribe()
}

/// Calls `Sender::send` through the handle `sender`, which records the event
/// in the handle's history. tokio returns the number of subscribed receivers
/// on success, which is at least one, and an error exactly when no receiver
/// is subscribed; the error, which hands the value back, is mapped to `None`.
/// How many receivers there are depends on the state of the channel, which is
/// not modelled, so only the bound on a success is stated. The handle is
/// taken mutably so that its history can change; `send` itself changes
/// neither the channel it belongs to nor its capacity nor its receivers.
#[verifier::external_body]
fn broadcast_send(sender: &mut Sender<Event>, event: Event) -> (delivered: Option<usize>)
    ensures
        handle_history(*final(sender)) == handle_history(*old(sender)).push(event@),
        same_handle(*old(sender), *final(sender)),
        delivered matches Some(n) ==> n >= 1,
{
    match sender.send(event) {
        Ok(n) => Some(n),
        Err(_) => None,
    }
}

/// Calls `Sender::clone`: another handle on the same channel (the clone
/// shares the channel's state), so of the same capacity; the new handle has
/// sent nothing.
#[verifier::external_body]
fn broadcast_sender_clone(sender: &Sender<Event>) -> (copy: Sender<Event>)
    ensures
        same_channel(*sender, copy),
        bus_capacity(copy) == bus_capacity(*sender),
        handle_history(copy) == Seq::<EventView>::empty(),
{
    sender.clone()
}

/// Publish/subscribe hub over a tokio broadcast channel. Every handle made by
/// `clone` sends into the same channel.
pub struct EventBus {
    sender: Sender<Event>,
}

impl Clone for EventBus {
    /// Another handle on the same channel; it has sent nothing yet.
    fn clone(&self) -> (copy: Self)
        ensures
            copy.shares_channel_with(self),
            copy.capacity() == self.capacity(),
            copy.sent_events() == Seq::<EventView>::empty(),
    {
        EventBus { sender: broadcast_sender_clone(&self.sender) }
    }
}

impl EventBus {
    /// The channel handle through which this bus sends.
    pub closed spec fn handle(&self) -> Sender<Event> {
        self.sender
    }

    /// How many events each receiver of this bus holds before it lags.
    pub open spec fn capacity(&self) -> nat {
        bus_capacity(self.handle())
    }

    /// `receiver` gets what is sent on this bus.
    pub open spec fn feeds(&self, receiver: Receiver<Event>) -> bool {
        feeds(self.handle(), receiver)
    }

    /// This handle and `other` send into one channel.
    pub open spec fn shares_channel_with(&self, other: &EventBus) -> bool {
        same_channel(other.handle(), self.handle())
    }

    /// This bus is `earlier` after sending on it: same capacity, the same
    /// receivers fed, the same channel as every bus that shared one with it.
    pub open spec fn continues(&self, earlier: &EventBus) -> bool {
        same_handle(earlier.handle(), self.handle())
    }

    /// The events sent through this handle, oldest first.
    pub open spec fn sent_events(&self) -> Seq<EventView> {
        handle_history(self.handle())
    }

    /// A bus whose receivers each buffer `capacity` events rounded up to a
    /// power of two. The capacity must be positive and at most
    /// `usize::MAX / 2`.
    pub fn new(capacity: usize) -> (bus: Self)
        requires
            0 < capacity <= max_bus_capacity(),
        ensures
            is_power_of_two(bus.capacity()),
            capacity <= bus.capacity() < 2 * capacity,
            bus.sent_events() == Seq::<EventView>::empty(),
    {
        EventBus { sender: broadcast_channel(capacity) }
    }

    /// A receiver for every event published on this bus after this call.
    pub fn subscribe(&self) -> (receiver: Receiver<Event>)
        ensures
            self.feeds(receiver),
    {
        broadcast_subscribe(&self.sender)
    }

    /// Sends `event` to every current subscriber. With no subscriber the event
    /// is dropped; that is not an error.
    pub fn publish(&mut self, event: Event)
        ensures
            final(self).sent_events() == old(self).sent_events().push(event@),
            final(self).continues(old(self)),
    {
        let _ = broadcast_send(&mut self.sender, event);
    }
}

} // verus!
