//! A mailbox: a bounded first-in-first-out queue of messages whose storage is
//! laid out once, when the mailbox is made, and never grows.

use vstd::prelude::*;
use crate::address::Message;

verus! {

/// Where the `offset`-th queued message lives in a ring of `ring` slots whose
/// oldest message sits at `head`.
spec fn ring_slot(head: int, offset: int, ring: int) -> int {
    if head + offset < ring {
        head + offset
    } else {
        head + offset - ring
    }
}

/// A bounded queue of messages for one address. Many producers may fill it;
/// one consumer drains it, oldest message first.
pub struct Mailbox<P> {
    slots: Vec<Option<Message<P>>>,
    head: usize,
    count: usize,
}

impl<P> Mailbox<P> {
    /// The ring is consistent: the read position lies inside it, no more
    /// messages are counted than there are slots, and every counted slot is
    /// occupied.
    pub closed spec fn wf(&self) -> bool {
        &&& self.count <= self.slots.len()
        &&& self.head < self.slots.len() || (self.head == 0 && self.slots.len() == 0)
        &&& forall|offset: int|
            0 <= offset < self.count ==> (#[trigger] self.slots@[ring_slot(
                self.head as int,
                offset,
                self.slots.len() as int,
            )]) is Some
    }

    /// The queued messages, oldest first.
    pub closed spec fn view(&self) -> Seq<Message<P>> {
        Seq::new(
            self.count as nat,
            |offset: int|
                self.slots@[ring_slot(self.head as int, offset, self.slots.len() as int)]->0,
        )
    }

    /// The number of messages that the mailbox can hold.
    pub closed spec fn limit(&self) -> nat {
        self.slots.len() as nat
    }

    /// A well-formed mailbox never holds more than its limit.
    pub proof fn lemma_bounded(&self)
        requires
            self.wf(),
        ensures
            self@.len() <= self.limit(),
    {
    }

    /// An empty mailbox with room for `capacity` messages.
    pub fn new(capacity: usize) -> (mailbox: Mailbox<P>)
        ensures
            mailbox.wf(),
            mailbox@ == Seq::<Message<P>>::empty(),
            mailbox.limit() == capacity,
    {
        let mut slots: Vec<Option<Message<P>>> = Vec::new();
        while slots.len() < capacity
            invariant
                slots.len() <= capacity,
            decreases capacity - slots.len(),
        {
            slots.push(None);
        }
        Mailbox { slots, head: 0, count: 0 }
    }

    /// The number of messages that the mailbox can hold.
    pub fn capacity(&self) -> (capacity: usize)
        ensures
            capacity == self.limit(),
    {
        self.slots.len()
    }

    /// The number of messages queued.
    pub fn len(&self) -> (count: usize)
        ensures
            count == self@.len(),
    {
        self.count
    }

    /// Whether nothing is queued.
    pub fn is_empty(&self) -> (empty: bool)
        ensures
            empty == (self@.len() == 0),
    {
        self.count == 0
    }

    /// Whether the mailbox is at capacity.
    pub fn is_full(&self) -> (full: bool)
        ensures
            full == (self@.len() == self.limit()),
    {
        self.count == self.slots.len()
    }

    /// Queues `message` behind everything already admitted, or hands it back
    /// untouched when the mailbox is at capacity. Nothing is ever queued in
    /// part.
    pub fn try_send(&mut self, message: Message<P>) -> (outcome: Result<(), Message<P>>)
        requires
            old(self).wf(),
        ensures
            final(self).wf(),
            final(self).limit() == old(self).limit(),
            match outcome {
                Ok(()) => {
                    &&& old(self)@.len() < old(self).limit()
                    &&& final(self)@ == old(self)@.push(message)
                },
                Err(returned) => {
                    &&& old(self)@.len() == old(self).limit()
                    &&& returned == message
                    &&& final(self)@ == old(self)@
                },
            },
    {
        if self.count == self.slots.len() {
            Err(message)
        } else {
            self.enqueue(message);
            Ok(())
        }
    }

    /// Queues `message` behind everything already admitted, in a mailbox that
    /// is known to have room.
    pub(crate) fn enqueue(&mut self, message: Message<P>)
        requires
            old(self).wf(),
            old(self)@.len() < old(self).limit(),
        ensures
            final(self).wf(),
            final(self).limit() == old(self).limit(),
            final(self)@ == old(self)@.push(message),
    {
        let ring = self.slots.len();
        let tail = if self.head >= ring - self.count {
            self.head - (ring - self.count)
        } else {
            self.head + self.count
        };
        self.slots[tail] = Some(message);
        self.count = self.count + 1;
        proof {
            assert forall|offset: int| 0 <= offset < self.count implies (
            #[trigger] self.slots@[ring_slot(self.head as int, offset, ring as int)]) is Some by {
                if offset < old(self).count {
                    assert(old(self).slots@[ring_slot(self.head as int, offset, ring as int)]
                        is Some);
                }
            }
        }
    }

    /// Removes and returns the oldest message, or returns `None` when nothing
    /// is queued.
    pub fn try_receive(&mut self) -> (received: Option<Message<P>>)
        requires
            old(self).wf(),
        ensures
            final(self).wf(),
            final(self).limit() == old(self).limit(),
            match received {
                Some(message) => {
                    &&& old(self)@.len() > 0
                    &&& message == old(self)@[0]
                    &&& final(self)@ == old(self)@.drop_first()
                },
                None => {
                    &&& old(self)@.len() == 0
                    &&& final(self)@ == old(self)@
                },
            },
    {
        if self.count == 0 {
            return None;
        }
        let ring = self.slots.len();
        assert(old(self).slots@[ring_slot(self.head as int, 0, ring as int)] is Some);
        let oldest = self.slots[self.head].take();
        self.head = if self.head + 1 == ring {
            0
        } else {
            self.head + 1
        };
        self.count = self.count - 1;
        proof {
            assert forall|offset: int| 0 <= offset < self.count implies (
            #[trigger] self.slots@[ring_slot(self.head as int, offset, ring as int)]) is Some by {
                assert(old(self).slots@[ring_slot(
                    old(self).head as int,
                    offset + 1,
                    ring as int,
                )] is Some);
            }
        }
        oldest
    }
}

} // verus!
