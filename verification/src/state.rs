//! The mathematical state of the postmaster and the transitions that its
//! operations perform on it. Every contract of the executable postmaster is
//! stated over this state.

use vstd::prelude::*;
use crate::address::{Address, Message};
use crate::error::PostmasterError;

verus! {

/// A message whose delivery is deferred: the timer task that owns it waits
/// until `delay` ticks have elapsed and then sends `message` to `destination`.
#[derive(Debug, PartialEq, Eq)]
pub struct DelayedMessage<P> {
    pub destination: Address,
    pub message: Message<P>,
    pub delay: u64,
}

impl<P> DelayedMessage<P> {
    /// Whether the timer has run out, so that the send is to be attempted.
    pub open spec fn due(self) -> bool {
        self.delay == 0
    }

    /// The same descriptor once `ticks` more ticks have elapsed.
    pub open spec fn after(self, ticks: u64) -> Self {
        DelayedMessage {
            delay: if self.delay >= ticks {
                (self.delay - ticks) as u64
            } else {
                0
            },
            ..self
        }
    }
}

/// How a send ended.
#[derive(Debug, PartialEq, Eq)]
pub enum Dispatch<P> {
    /// The message is queued in the mailbox of its destination.
    Delivered,
    /// The mailbox is full. The message comes back, and the sender stays
    /// suspended until the consumer has freed a slot; then it sends again.
    Suspended(Message<P>),
    /// A timer task holds the message and will send it when its delay has
    /// elapsed.
    Scheduled,
}

/// Whether the timers are listed in the order in which they run out.
pub open spec fn in_firing_order<P>(pending: Seq<DelayedMessage<P>>) -> bool {
    forall|i: int, j: int| 0 <= i < j < pending.len() ==> pending[i].delay <= pending[j].delay
}

/// Where a timer with the given delay joins the list: behind the longest
/// leading run of timers that run out no later than it does.
pub open spec fn firing_position<P>(pending: Seq<DelayedMessage<P>>, delay: u64) -> nat
    decreases pending.len(),
{
    if pending.len() > 0 && pending[0].delay <= delay {
        1 + firing_position(pending.drop_first(), delay)
    } else {
        0
    }
}

/// The position is the place of the first timer that runs out later, or the
/// end of the list where there is none.
pub proof fn lemma_firing_position<P>(pending: Seq<DelayedMessage<P>>, delay: u64, position: int)
    requires
        0 <= position <= pending.len(),
        forall|i: int| 0 <= i < position ==> pending[i].delay <= delay,
        position < pending.len() ==> pending[position].delay > delay,
    ensures
        firing_position(pending, delay) == position,
    decreases position,
{
    if position > 0 {
        lemma_firing_position(pending.drop_first(), delay, position - 1);
    }
}

/// The timers of `pending` that have run out and are addressed to
/// `destination`, in their order in `pending`.
pub open spec fn due_for<P>(pending: Seq<DelayedMessage<P>>, destination: Address) -> Seq<
    DelayedMessage<P>,
>
    decreases pending.len(),
{
    if pending.len() == 0 {
        Seq::empty()
    } else if pending[0].due() && pending[0].destination == destination {
        seq![pending[0]] + due_for(pending.drop_first(), destination)
    } else {
        due_for(pending.drop_first(), destination)
    }
}

/// The timers of `pending` that have not yet run out, in their order in
/// `pending`.
pub open spec fn still_waiting<P>(pending: Seq<DelayedMessage<P>>) -> Seq<DelayedMessage<P>>
    decreases pending.len(),
{
    if pending.len() == 0 {
        Seq::empty()
    } else if pending[0].due() {
        still_waiting(pending.drop_first())
    } else {
        seq![pending[0]] + still_waiting(pending.drop_first())
    }
}

/// The messages that the given timers carry, in the same order.
pub open spec fn messages_of<P>(timers: Seq<DelayedMessage<P>>) -> Seq<Message<P>> {
    Seq::new(timers.len(), |i: int| timers[i].message)
}

/// The postmaster as a mathematical value.
pub struct PostmasterState<P> {
    /// One queue per address, oldest message first.
    pub queues: Seq<Seq<Message<P>>>,
    /// How many messages each queue can hold.
    pub capacity: nat,
    /// The positions of the addresses that have a live registration.
    pub registered: Set<int>,
    /// How many tasks the task pool can run at once.
    pub task_slots: nat,
    /// The timer tasks in flight, in the order in which they run out.
    pub pending: Seq<DelayedMessage<P>>,
}

impl<P> PostmasterState<P> {
    /// What holds of every state that the postmaster can reach: no queue
    /// exceeds the capacity, only addresses of the set are registered, the
    /// tasks fit the pool, and the timers are in firing order and addressed to
    /// members of the set.
    pub open spec fn inv(self) -> bool {
        &&& forall|i: int|
            0 <= i < self.queues.len() ==> (#[trigger] self.queues[i]).len() <= self.capacity
        &&& self.registered.finite()
        &&& forall|i: int| self.registered.contains(i) ==> 0 <= i < self.queues.len()
        &&& self.tasks() <= self.task_slots
        &&& in_firing_order(self.pending)
        &&& forall|i: int|
            0 <= i < self.pending.len() ==> self.knows((#[trigger] self.pending[i]).destination)
    }

    /// Whether `address` belongs to the address set.
    pub open spec fn knows(self, address: Address) -> bool {
        address.index < self.queues.len()
    }

    /// The queue of `address`, oldest message first.
    pub open spec fn queue(self, address: Address) -> Seq<Message<P>> {
        self.queues[address.index as int]
    }

    /// Whether the mailbox of `address` can take one more message.
    pub open spec fn has_room(self, address: Address) -> bool {
        self.queue(address).len() < self.capacity
    }

    /// Whether `address` has a live registration.
    pub open spec fn is_registered(self, address: Address) -> bool {
        self.registered.contains(address.index as int)
    }

    /// The number of tasks that occupy a slot of the pool: one per registered
    /// agent and one per timer in flight.
    pub open spec fn tasks(self) -> nat {
        self.registered.len() + self.pending.len()
    }

    /// The number of slots of the task pool that no task occupies.
    pub open spec fn free_slots(self) -> nat {
        if self.tasks() <= self.task_slots {
            (self.task_slots - self.tasks()) as nat
        } else {
            0
        }
    }

    /// Whether the task pool can run one more task.
    pub open spec fn has_free_slot(self) -> bool {
        self.tasks() < self.task_slots
    }

    /// Why a registration of `address` is refused, if it is: the address is
    /// outside the set, or it is taken, or the pool has no slot for the agent.
    pub open spec fn registration_error(self, address: Address) -> Option<PostmasterError> {
        if !self.knows(address) {
            Some(PostmasterError::NoRecipient)
        } else if self.is_registered(address) {
            Some(PostmasterError::AddressAlreadyTaken)
        } else if !self.has_free_slot() {
            Some(PostmasterError::DelayedMessageTaskSpawnFailed)
        } else {
            None
        }
    }

    /// Why a non-blocking send to `destination` is refused, if it is: the
    /// destination is outside the set, or its mailbox is full.
    pub open spec fn try_send_error(self, destination: Address) -> Option<PostmasterError> {
        if !self.knows(destination) {
            Some(PostmasterError::NoRecipient)
        } else if !self.has_room(destination) {
            Some(PostmasterError::TrySendFailed)
        } else {
            None
        }
    }

    /// Why a delayed send to `destination` is refused, if it is: the
    /// destination is outside the set, or the pool has no slot for the timer
    /// task.
    pub open spec fn schedule_error(self, destination: Address) -> Option<PostmasterError> {
        if !self.knows(destination) {
            Some(PostmasterError::NoRecipient)
        } else if !self.has_free_slot() {
            Some(PostmasterError::DelayedMessageTaskSpawnFailed)
        } else {
            None
        }
    }

    /// How one step of a blocking send to `destination` ends: with the
    /// message delivered, or with the sender suspended and the message back in
    /// its hands, or refused because the destination is outside the set.
    pub open spec fn send_outcome(self, destination: Address, message: Message<P>) -> Result<
        Dispatch<P>,
        PostmasterError,
    > {
        if !self.knows(destination) {
            Err(PostmasterError::NoRecipient)
        } else if !self.has_room(destination) {
            Ok(Dispatch::Suspended(message))
        } else {
            Ok(Dispatch::Delivered)
        }
    }

    /// The message that a receive on the mailbox of `address` hands out: the
    /// oldest one queued, if any is.
    pub open spec fn oldest(self, address: Address) -> Option<Message<P>> {
        if self.knows(address) && self.queue(address).len() > 0 {
            Some(self.queue(address)[0])
        } else {
            None
        }
    }

    /// The state in which no message, registration or timer exists yet.
    pub open spec fn initial(addresses: nat, capacity: nat, task_slots: nat) -> Self {
        PostmasterState {
            queues: Seq::new(addresses, |i: int| Seq::empty()),
            capacity,
            registered: Set::empty(),
            task_slots,
            pending: Seq::empty(),
        }
    }

    /// `message` joins the back of the queue of `destination`.
    pub open spec fn delivered(self, destination: Address, message: Message<P>) -> Self {
        PostmasterState {
            queues: self.queues.update(
                destination.index as int,
                self.queue(destination).push(message),
            ),
            ..self
        }
    }

    /// The oldest message leaves the queue of `address`.
    pub open spec fn received(self, address: Address) -> Self {
        PostmasterState {
            queues: self.queues.update(address.index as int, self.queue(address).drop_first()),
            ..self
        }
    }

    /// `address` gains its registration, and its agent a slot of the pool.
    pub open spec fn enrolled(self, address: Address) -> Self {
        PostmasterState { registered: self.registered.insert(address.index as int), ..self }
    }

    /// A timer task for `timer` joins those in flight, behind every timer that
    /// runs out no later than it does.
    pub open spec fn scheduled(self, timer: DelayedMessage<P>) -> Self {
        PostmasterState {
            pending: self.pending.insert(
                firing_position(self.pending, timer.delay) as int,
                timer,
            ),
            ..self
        }
    }

    /// `ticks` ticks pass for every timer in flight.
    pub open spec fn elapsed(self, ticks: u64) -> Self {
        PostmasterState {
            pending: Seq::new(self.pending.len(), |i: int| self.pending[i].after(ticks)),
            ..self
        }
    }

    /// Every timer task that has run out attempts its send, in firing order.
    /// One that finds room delivers its message and ends; one that finds its
    /// destination full stays in flight, suspended in its send.
    pub open spec fn fired(self) -> Self
        decreases self.pending.len(),
    {
        if self.pending.len() == 0 {
            self
        } else {
            let first = self.pending[0];
            let rest = PostmasterState { pending: self.pending.drop_first(), ..self };
            if first.due() && self.has_room(first.destination) {
                rest.delivered(first.destination, first.message).fired()
            } else {
                let later = rest.fired();
                PostmasterState { pending: seq![first] + later.pending, ..later }
            }
        }
    }

    /// How many of the timers that have run out for `destination` find room
    /// when they fire: all of them, or as many as the mailbox has free slots.
    pub open spec fn deliverable(self, destination: Address) -> nat {
        let due = due_for(self.pending, destination).len();
        let room = self.capacity - self.queue(destination).len();
        if due <= room {
            due
        } else if room >= 0 {
            room as nat
        } else {
            0
        }
    }

    /// `ticks` ticks pass, and the timers that have run out fire.
    pub open spec fn advanced(self, ticks: u64) -> Self {
        self.elapsed(ticks).fired()
    }

    /// How long until the next timer runs out, if any timer is still waiting.
    pub open spec fn next_delay(self) -> Option<u64> {
        if self.overdue() < self.pending.len() {
            Some(self.pending[self.overdue() as int].delay)
        } else {
            None
        }
    }

    /// The state after an attempt to register `address`: the address is
    /// enrolled where nothing speaks against it, and nothing changes where the
    /// registration is refused.
    pub open spec fn after_register(self, address: Address) -> Self {
        if self.registration_error(address) is None {
            self.enrolled(address)
        } else {
            self
        }
    }

    /// The state after an attempt to send `message` to `destination`,
    /// blocking or not: the message is delivered where the mailbox exists and
    /// has room, and nothing changes otherwise.
    pub open spec fn after_send(self, destination: Address, message: Message<P>) -> Self {
        if self.try_send_error(destination) is None {
            self.delivered(destination, message)
        } else {
            self
        }
    }

    /// The state after a receive on the mailbox of `address`: the oldest
    /// message is gone where there was one, and nothing changes otherwise.
    pub open spec fn after_receive(self, address: Address) -> Self {
        if self.oldest(address) is Some {
            self.received(address)
        } else {
            self
        }
    }

    /// The state after an attempt to start a timer task for `timer`: the task
    /// is in flight where nothing speaks against it, and nothing changes where
    /// it is refused.
    pub open spec fn after_schedule(self, timer: DelayedMessage<P>) -> Self {
        if self.schedule_error(timer.destination) is None {
            self.scheduled(timer)
        } else {
            self
        }
    }

    /// The number of timer tasks that have run out and are still in flight:
    /// the leading run of the list, as it is in firing order. After the timers
    /// have fired, these are the tasks suspended in a send to a full mailbox.
    pub open spec fn overdue(self) -> nat {
        firing_position(self.pending, 0)
    }
}

/// One call on the postmaster, as far as the state is concerned.
pub enum Operation<P> {
    /// An attempt to register the address.
    Register(Address),
    /// An attempt, blocking or not, to send the message to the address.
    Send(Address, Message<P>),
    /// A receive on the mailbox of the address.
    Receive(Address),
    /// An attempt to start a timer task for the delayed message.
    Schedule(DelayedMessage<P>),
    /// The passing of that many ticks.
    Advance(u64),
}

impl<P> PostmasterState<P> {
    /// The state after one operation.
    pub open spec fn step(self, operation: Operation<P>) -> Self {
        match operation {
            Operation::Register(address) => self.after_register(address),
            Operation::Send(destination, message) => self.after_send(destination, message),
            Operation::Receive(address) => self.after_receive(address),
            Operation::Schedule(timer) => self.after_schedule(timer),
            Operation::Advance(ticks) => self.advanced(ticks),
        }
    }

    /// The state after the operations, performed in order.
    pub open spec fn run(self, operations: Seq<Operation<P>>) -> Self
        decreases operations.len(),
    {
        if operations.len() == 0 {
            self
        } else {
            self.step(operations[0]).run(operations.drop_first())
        }
    }

    /// The messages that one operation adds to the queue of `address`, in the
    /// order in which they join it: the message of a send that is admitted,
    /// or the messages of the timers that fire into the mailbox.
    pub open spec fn arrivals(self, operation: Operation<P>, address: Address) -> Seq<Message<P>> {
        match operation {
            Operation::Send(destination, message) => {
                if destination == address && self.try_send_error(destination) is None {
                    seq![message]
                } else {
                    Seq::empty()
                }
            },
            Operation::Advance(ticks) => {
                let later = self.elapsed(ticks);
                messages_of(
                    due_for(later.pending, address).take(later.deliverable(address) as int),
                )
            },
            _ => Seq::empty(),
        }
    }

    /// The messages that one operation hands to the consumer of `address`:
    /// the oldest message, where the operation is a receive on that mailbox
    /// and something is queued.
    pub open spec fn departures(self, operation: Operation<P>, address: Address) -> Seq<
        Message<P>,
    > {
        match operation {
            Operation::Receive(receiver) => {
                if receiver == address && self.oldest(address) is Some {
                    seq![self.oldest(address)->0]
                } else {
                    Seq::empty()
                }
            },
            _ => Seq::empty(),
        }
    }

    /// Every message that the operations add to the queue of `address`, in
    /// the order of the operations.
    pub open spec fn arrived(self, operations: Seq<Operation<P>>, address: Address) -> Seq<
        Message<P>,
    >
        decreases operations.len(),
    {
        if operations.len() == 0 {
            Seq::empty()
        } else {
            self.arrivals(operations[0], address) + self.step(operations[0]).arrived(
                operations.drop_first(),
                address,
            )
        }
    }

    /// Every message that the operations hand to the consumer of `address`,
    /// in the order of the operations.
    pub open spec fn consumed(self, operations: Seq<Operation<P>>, address: Address) -> Seq<
        Message<P>,
    >
        decreases operations.len(),
    {
        if operations.len() == 0 {
            Seq::empty()
        } else {
            self.departures(operations[0], address) + self.step(operations[0]).consumed(
                operations.drop_first(),
                address,
            )
        }
    }

    /// What the consumer of `address` sees in its next `count` receives, as
    /// long as messages are queued: the messages, in the order received.
    pub open spec fn observed(self, address: Address, count: nat) -> Seq<Message<P>>
        decreases count,
    {
        if count == 0 || self.oldest(address) is None {
            Seq::empty()
        } else {
            seq![self.oldest(address)->0] + self.received(address).observed(
                address,
                (count - 1) as nat,
            )
        }
    }

    /// The operations that send the messages of `batch` to `destination`, one
    /// after the other.
    pub open spec fn sends(destination: Address, batch: Seq<Message<P>>) -> Seq<Operation<P>> {
        Seq::new(batch.len(), |i: int| Operation::Send(destination, batch[i]))
    }

    /// Whether the two states have the same shape: the same address set, the
    /// same mailbox capacity and the same task pool.
    pub open spec fn same_shape(self, other: Self) -> bool {
        &&& self.queues.len() == other.queues.len()
        &&& self.capacity == other.capacity
        &&& self.task_slots == other.task_slots
    }
}

} // verus!
