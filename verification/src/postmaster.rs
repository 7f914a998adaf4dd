//! The postmaster: the table of mailboxes, the registration records, the task
//! pool and the timers in flight, built once and handed to whoever sends or
//! receives.

use vstd::prelude::*;
use crate::address::{Address, Message};
use crate::error::PostmasterError;
use crate::mailbox::Mailbox;
use crate::laws::{lemma_elapsed_keeps_invariant, lemma_scheduled_keeps_invariant};
use crate::state::{DelayedMessage, Dispatch, PostmasterState, lemma_firing_position};

verus! {

/// The consumer end of one mailbox. A registration hands out the only inbox
/// of its address, and an inbox cannot be copied: whoever holds it is the one
/// consumer of that mailbox.
#[derive(Debug)]
pub struct Inbox {
    address: Address,
}

impl Inbox {
    /// The address whose mailbox this inbox drains.
    pub closed spec fn owner(&self) -> Address {
        self.address
    }

    /// The address whose mailbox this inbox drains.
    pub fn address(&self) -> (address: Address)
        ensures
            address == self.owner(),
    {
        self.address
    }
}

/// The routing table with everything that hangs on it. The set of addresses,
/// the capacity of the mailboxes and the size of the task pool are fixed when
/// it is built; only the contents of the mailboxes, the registrations and the
/// timers change. Every operation that changes anything takes the postmaster
/// exclusively, so that the sends of many producers to one mailbox are
/// admitted one after the other, in some order.
pub struct Postmaster<P> {
    mailboxes: Vec<Mailbox<P>>,
    capacity: usize,
    registered: Vec<bool>,
    agents: usize,
    task_slots: usize,
    pending: Vec<DelayedMessage<P>>,
}

impl<P> Postmaster<P> {
    /// The postmaster as a mathematical value.
    pub closed spec fn view(&self) -> PostmasterState<P> {
        PostmasterState {
            queues: Seq::new(self.mailboxes.len() as nat, |i: int| self.mailboxes[i]@),
            capacity: self.capacity as nat,
            registered: Set::new(|i: int| 0 <= i < self.registered.len() && self.registered[i]),
            task_slots: self.task_slots as nat,
            pending: self.pending@,
        }
    }

    /// The representation is consistent: one flag and one well-formed mailbox
    /// of the common capacity per address, the agent count matches the flags,
    /// and the state satisfies its invariant.
    pub closed spec fn wf(&self) -> bool {
        &&& self.registered.len() == self.mailboxes.len()
        &&& forall|i: int|
            0 <= i < self.mailboxes.len() ==> (#[trigger] self.mailboxes[i]).wf()
                && self.mailboxes[i].limit() == self.capacity
        &&& self.agents == self@.registered.len()
        &&& self@.inv()
    }

    /// A well-formed postmaster is in a state that satisfies the invariant.
    pub proof fn lemma_invariant(&self)
        requires
            self.wf(),
        ensures
            self@.inv(),
    {
    }

    /// Builds the table: one empty mailbox of `capacity` messages for each of
    /// `addresses` addresses, no registration, no timer, and a task pool of
    /// `task_slots` slots.
    pub fn initialize(addresses: usize, capacity: usize, task_slots: usize) -> (postmaster:
        Postmaster<P>)
        ensures
            postmaster.wf(),
            postmaster@ == PostmasterState::<P>::initial(
                addresses as nat,
                capacity as nat,
                task_slots as nat,
            ),
    {
        let mut mailboxes: Vec<Mailbox<P>> = Vec::new();
        let mut registered: Vec<bool> = Vec::new();
        while mailboxes.len() < addresses
            invariant
                mailboxes.len() <= addresses,
                registered.len() == mailboxes.len(),
                forall|i: int|
                    0 <= i < mailboxes.len() ==> (#[trigger] mailboxes[i]).wf()
                        && mailboxes[i].limit() == capacity && mailboxes[i]@.len() == 0,
                forall|i: int| 0 <= i < registered.len() ==> !registered[i],
            decreases addresses - mailboxes.len(),
        {
            mailboxes.push(Mailbox::new(capacity));
            registered.push(false);
        }
        let postmaster = Postmaster {
            mailboxes,
            capacity,
            registered,
            agents: 0,
            task_slots,
            pending: Vec::new(),
        };
        proof {
            let initial = PostmasterState::<P>::initial(
                addresses as nat,
                capacity as nat,
                task_slots as nat,
            );
            assert(postmaster@.registered =~= initial.registered);
            assert forall|i: int| 0 <= i < addresses implies postmaster@.queues[i]
                == initial.queues[i] by {
            }
            assert(postmaster@.queues =~= initial.queues);
        }
        postmaster
    }

    /// The number of messages that each mailbox can hold.
    pub fn capacity(&self) -> (capacity: usize)
        ensures
            capacity == self@.capacity,
    {
        self.capacity
    }

    /// The number of addresses in the set.
    pub fn addresses(&self) -> (count: usize)
        ensures
            count == self@.queues.len(),
    {
        self.mailboxes.len()
    }

    /// The mailbox of `address`. Every address of the set has one; the only
    /// failure is an address outside the set.
    pub fn lookup(&self, address: Address) -> (found: Result<&Mailbox<P>, PostmasterError>)
        requires
            self.wf(),
        ensures
            match found {
                Ok(mailbox) => {
                    &&& self@.knows(address)
                    &&& mailbox.wf()
                    &&& mailbox@ == self@.queue(address)
                    &&& mailbox.limit() == self@.capacity
                },
                Err(error) => !self@.knows(address) && error == PostmasterError::NoRecipient,
            },
    {
        if address.index < self.mailboxes.len() {
            Ok(&self.mailboxes[address.index])
        } else {
            Err(PostmasterError::NoRecipient)
        }
    }

    /// Whether `address` has a live registration.
    pub fn is_registered(&self, address: Address) -> (taken: bool)
        ensures
            taken == self@.is_registered(address),
    {
        address.index < self.registered.len() && self.registered[address.index]
    }

    /// Binds `address` to one agent and hands out the consumer end of its
    /// mailbox. The agent occupies one slot of the task pool from then on.
    /// A refused registration changes nothing.
    pub fn register(&mut self, address: Address) -> (outcome: Result<Inbox, PostmasterError>)
        requires
            old(self).wf(),
        ensures
            final(self).wf(),
            final(self)@ == old(self)@.after_register(address),
            match outcome {
                Ok(inbox) => old(self)@.registration_error(address) is None && inbox.owner()
                    == address,
                Err(error) => old(self)@.registration_error(address) == Some(error),
            },
    {
        if address.index >= self.mailboxes.len() {
            return Err(PostmasterError::NoRecipient);
        }
        if self.registered[address.index] {
            return Err(PostmasterError::AddressAlreadyTaken);
        }
        if self.agents + self.pending.len() >= self.task_slots {
            return Err(PostmasterError::DelayedMessageTaskSpawnFailed);
        }
        self.registered[address.index] = true;
        self.agents = self.agents + 1;
        proof {
            assert(self@.registered =~= old(self)@.registered.insert(address.index as int));
        }
        Ok(Inbox { address })
    }

    /// Queues the payload in the mailbox of `destination` without ever
    /// suspending. When the mailbox is full the send fails at once and nothing
    /// is queued, not even in part.
    pub fn try_send(&mut self, destination: Address, source: Address, payload: P) -> (outcome:
        Result<(), PostmasterError>)
        requires
            old(self).wf(),
        ensures
            final(self).wf(),
            final(self)@ == old(self)@.after_send(destination, Message { source, payload }),
            match outcome {
                Ok(()) => old(self)@.try_send_error(destination) is None,
                Err(error) => old(self)@.try_send_error(destination) == Some(error),
            },
    {
        match self.send(destination, source, payload) {
            Ok(Dispatch::Delivered) => Ok(()),
            Ok(_) => Err(PostmasterError::TrySendFailed),
            Err(error) => Err(error),
        }
    }

    /// One step of a blocking send. With room in the mailbox of `destination`
    /// the message is queued behind everything already admitted. With the
    /// mailbox full nothing changes and the message comes back: the sender
    /// is suspended, and sends again once the consumer has received.
    pub fn send(&mut self, destination: Address, source: Address, payload: P) -> (outcome: Result<
        Dispatch<P>,
        PostmasterError,
    >)
        requires
            old(self).wf(),
        ensures
            final(self).wf(),
            final(self)@ == old(self)@.after_send(destination, Message { source, payload }),
            outcome == old(self)@.send_outcome(destination, Message { source, payload }),
    {
        if destination.index >= self.mailboxes.len() {
            return Err(PostmasterError::NoRecipient);
        }
        let message = Message { source, payload };
        match self.mailboxes[destination.index].try_send(message) {
            Ok(()) => {
                proof {
                    assert(self@.queues =~= old(self)@.delivered(destination, message).queues);
                }
                Ok(Dispatch::Delivered)
            },
            Err(returned) => {
                proof {
                    assert(self@.queues =~= old(self)@.queues);
                }
                Ok(Dispatch::Suspended(returned))
            },
        }
    }

    /// One step of a receive. Hands the consumer the oldest message of its
    /// mailbox, which then belongs to the consumer alone. `None` means that
    /// nothing is queued and the consumer is to suspend until something
    /// arrives; it never means that the mailbox is gone, for a mailbox lives
    /// as long as the postmaster.
    pub fn receive(&mut self, inbox: &Inbox) -> (received: Option<Message<P>>)
        requires
            old(self).wf(),
        ensures
            final(self).wf(),
            final(self)@ == old(self)@.after_receive(inbox.owner()),
            received == old(self)@.oldest(inbox.owner()),
    {
        if inbox.address.index >= self.mailboxes.len() {
            return None;
        }
        let received = self.mailboxes[inbox.address.index].try_receive();
        proof {
            if received is Some {
                assert(self@.queues =~= old(self)@.received(inbox.owner()).queues);
            } else {
                assert(self@.queues =~= old(self)@.queues);
            }
        }
        received
    }

    /// Starts a timer task for a delayed message. The task takes one slot of
    /// the pool and joins the timers in flight behind every timer that runs
    /// out no later than it does. Without a free slot the call fails at once,
    /// the message is dropped and no mailbox ever sees it.
    pub fn schedule(&mut self, timer: DelayedMessage<P>) -> (outcome: Result<(), PostmasterError>)
        requires
            old(self).wf(),
        ensures
            final(self).wf(),
            final(self)@ == old(self)@.after_schedule(timer),
            match outcome {
                Ok(()) => old(self)@.schedule_error(timer.destination) is None,
                Err(error) => old(self)@.schedule_error(timer.destination) == Some(error),
            },
    {
        if timer.destination.index >= self.mailboxes.len() {
            return Err(PostmasterError::NoRecipient);
        }
        if self.agents + self.pending.len() >= self.task_slots {
            return Err(PostmasterError::DelayedMessageTaskSpawnFailed);
        }
        let mut position: usize = 0;
        while position < self.pending.len() && self.pending[position].delay <= timer.delay
            invariant
                position <= self.pending.len(),
                forall|i: int| 0 <= i < position ==> self.pending[i].delay <= timer.delay,
            decreases self.pending.len() - position,
        {
            position = position + 1;
        }
        proof {
            lemma_firing_position(self.pending@, timer.delay, position as int);
        }
        self.pending.insert(position, timer);
        proof {
            lemma_scheduled_keeps_invariant(old(self)@, timer);
        }
        Ok(())
    }

    /// Lets `ticks` ticks pass. Every timer in flight comes that much closer
    /// to running out. Then each timer task that has run out attempts its
    /// send, in firing order: where the mailbox has room, the message is
    /// queued and the task ends and frees its slot; where the mailbox is full,
    /// the task stays in flight, suspended in its send, and tries again at the
    /// next call. Returns the number of messages delivered.
    pub fn advance(&mut self, ticks: u64) -> (delivered: usize)
        requires
            old(self).wf(),
        ensures
            final(self).wf(),
            final(self)@ == old(self)@.advanced(ticks),
            delivered == old(self)@.pending.len() - final(self)@.pending.len(),
    {
        self.elapse(ticks);
        self.fire()
    }

    /// Lets `ticks` ticks pass for every timer in flight.
    fn elapse(&mut self, ticks: u64)
        requires
            old(self).wf(),
        ensures
            final(self).wf(),
            final(self)@ == old(self)@.elapsed(ticks),
    {
        let mut i: usize = 0;
        while i < self.pending.len()
            invariant
                i <= self.pending.len(),
                self.pending.len() == old(self).pending.len(),
                forall|j: int| 0 <= j < i ==> self.pending[j] == old(self).pending[j].after(ticks),
                forall|j: int|
                    i <= j < self.pending.len() ==> self.pending[j] == old(self).pending[j],
                self.mailboxes == old(self).mailboxes,
                self.registered == old(self).registered,
                self.capacity == old(self).capacity,
                self.agents == old(self).agents,
                self.task_slots == old(self).task_slots,
            decreases self.pending.len() - i,
        {
            let remaining = self.pending[i].delay;
            self.pending[i].delay = if remaining >= ticks {
                remaining - ticks
            } else {
                0
            };
            i = i + 1;
        }
        proof {
            assert(self@.pending =~= old(self)@.elapsed(ticks).pending);
            lemma_elapsed_keeps_invariant(old(self)@, ticks);
        }
    }

    /// Lets every timer task that has run out attempt its send, in firing
    /// order, and returns the number of messages delivered.
    fn fire(&mut self) -> (delivered: usize)
        requires
            old(self).wf(),
        ensures
            final(self).wf(),
            final(self)@ == old(self)@.fired(),
            delivered == old(self)@.pending.len() - final(self)@.pending.len(),
    {
        let mut delivered: usize = 0;
        let mut i: usize = 0;
        proof {
            assert(self.pending@.skip(0) =~= self.pending@);
        }
        while i < self.pending.len()
            invariant
                self.wf(),
                i <= self.pending.len(),
                delivered == old(self).pending.len() - self.pending.len(),
                old(self)@.fired() == (PostmasterState {
                    pending: self.pending@.take(i as int) + (PostmasterState {
                        pending: self.pending@.skip(i as int),
                        ..self@
                    }).fired().pending,
                    ..(PostmasterState { pending: self.pending@.skip(i as int), ..self@ }).fired()
                }),
            decreases self.pending.len() - i,
        {
            let ghost before = self@;
            let ghost tail = PostmasterState { pending: self.pending@.skip(i as int), ..self@ };
            let ghost rest = PostmasterState { pending: tail.pending.drop_first(), ..tail };
            let destination = self.pending[i].destination;
            let due = self.pending[i].delay == 0;
            if due && !self.mailboxes[destination.index].is_full() {
                let timer = self.pending.remove(i);
                let ghost message = timer.message;
                self.mailboxes[destination.index].enqueue(timer.message);
                delivered = delivered + 1;
                proof {
                    assert(self@.queues =~= before.delivered(destination, message).queues);
                    assert(self.pending@.skip(i as int) =~= rest.pending);
                    assert(self.pending@.take(i as int) =~= before.pending.take(i as int));
                    assert forall|a: int| 0 <= a < self@.queues.len() implies (
                    #[trigger] self@.queues[a]).len() <= self@.capacity by {
                        self.mailboxes[a].lemma_bounded();
                    }
                }
            } else {
                proof {
                    let first = tail.pending[0];
                    assert(self.pending@.skip(i as int + 1) =~= rest.pending);
                    assert(self.pending@.take(i as int + 1) + rest.fired().pending
                        =~= self.pending@.take(i as int) + (seq![first] + rest.fired().pending));
                }
                i = i + 1;
            }
        }
        proof {
            let tail = PostmasterState { pending: self.pending@.skip(i as int), ..self@ };
            assert(self.pending@.take(i as int) + tail.pending =~= self.pending@);
        }
        delivered
    }

    /// The number of messages queued for `address`; none for an address
    /// outside the set.
    pub fn queued(&self, address: Address) -> (count: usize)
        ensures
            count == if self@.knows(address) {
                self@.queue(address).len()
            } else {
                0
            },
    {
        if address.index < self.mailboxes.len() {
            self.mailboxes[address.index].len()
        } else {
            0
        }
    }

    /// The number of timer tasks in flight.
    pub fn timers_in_flight(&self) -> (count: usize)
        ensures
            count == self@.pending.len(),
    {
        self.pending.len()
    }

    /// The number of slots of the task pool that no agent and no timer task
    /// occupies.
    pub fn free_slots(&self) -> (count: usize)
        requires
            self.wf(),
        ensures
            count == self@.free_slots(),
    {
        self.task_slots - self.agents - self.pending.len()
    }

    /// The number of timer tasks that have run out and are still in flight.
    /// Right after `advance` these are the tasks whose send is suspended
    /// because the mailbox of their destination is full.
    pub fn overdue(&self) -> (count: usize)
        ensures
            count == self@.overdue(),
    {
        let mut count: usize = 0;
        while count < self.pending.len() && self.pending[count].delay == 0
            invariant
                count <= self.pending.len(),
                forall|i: int| 0 <= i < count ==> self.pending[i].delay <= 0,
            decreases self.pending.len() - count,
        {
            count = count + 1;
        }
        proof {
            lemma_firing_position(self.pending@, 0, count as int);
        }
        count
    }

    /// How many ticks remain until the next timer runs out, or `None` when no
    /// timer is waiting.
    pub fn next_delay(&self) -> (delay: Option<u64>)
        ensures
            delay == self@.next_delay(),
    {
        let overdue = self.overdue();
        if overdue < self.pending.len() {
            Some(self.pending[overdue].delay)
        } else {
            None
        }
    }
}

} // verus!
