//! What holds of the postmaster whatever is done with it, proved over the
//! state and its transitions.

use vstd::prelude::*;
use crate::address::{Address, Message};
use crate::error::PostmasterError;
use crate::state::{
    DelayedMessage, Dispatch, Operation, PostmasterState, due_for, firing_position,
    in_firing_order, messages_of, still_waiting,
};

verus! {

/// A state without messages, registrations and timers satisfies the
/// invariant.
pub proof fn law_initial_state_is_sound<P>(addresses: nat, capacity: nat, task_slots: nat)
    ensures
        PostmasterState::<P>::initial(addresses, capacity, task_slots).inv(),
{
}

/// Letting time pass keeps the invariant.
pub proof fn lemma_elapsed_keeps_invariant<P>(state: PostmasterState<P>, ticks: u64)
    requires
        state.inv(),
    ensures
        state.elapsed(ticks).inv(),
{
}

/// The leading run of timers that run out no later than `delay` ends inside
/// the list, and ends where a later timer begins.
proof fn lemma_firing_position_bounds<P>(pending: Seq<DelayedMessage<P>>, delay: u64)
    ensures
        firing_position(pending, delay) <= pending.len(),
        forall|i: int| 0 <= i < firing_position(pending, delay) ==> pending[i].delay <= delay,
        firing_position(pending, delay) < pending.len() ==> pending[firing_position(
            pending,
            delay,
        ) as int].delay > delay,
    decreases pending.len(),
{
    if pending.len() > 0 && pending[0].delay <= delay {
        let rest = pending.drop_first();
        lemma_firing_position_bounds(rest, delay);
        assert forall|i: int| 0 <= i < firing_position(pending, delay) implies pending[i].delay
            <= delay by {
            if i > 0 {
                assert(pending[i] == rest[i - 1]);
            }
        }
    }
}

/// A new timer joins the timers in flight behind every timer that runs out
/// no later than it does and ahead of every timer that runs out later; the
/// timers already in flight keep their order. So of two timers the one with
/// the shorter delay left fires first, and of two with the same delay left the
/// one scheduled first.
pub proof fn law_schedule_keeps_firing_order<P>(state: PostmasterState<P>, timer: DelayedMessage<P>)
    requires
        state.inv(),
    ensures
        firing_position(state.pending, timer.delay) <= state.pending.len(),
        state.scheduled(timer).pending[firing_position(state.pending, timer.delay) as int] == timer,
        state.scheduled(timer).pending.remove(firing_position(state.pending, timer.delay) as int)
            == state.pending,
        forall|i: int|
            0 <= i < firing_position(state.pending, timer.delay) ==> state.scheduled(
                timer,
            ).pending[i].delay <= timer.delay,
        forall|i: int|
            firing_position(state.pending, timer.delay) < i < state.scheduled(timer).pending.len()
                ==> state.scheduled(timer).pending[i].delay > timer.delay,
{
    lemma_firing_position_bounds(state.pending, timer.delay);
}

/// A timer that finds a free slot joins the list without disturbing the
/// firing order.
pub proof fn lemma_scheduled_keeps_invariant<P>(state: PostmasterState<P>, timer: DelayedMessage<P>)
    requires
        state.inv(),
        state.schedule_error(timer.destination) is None,
    ensures
        state.scheduled(timer).inv(),
{
    law_schedule_keeps_firing_order(state, timer);
}

/// Without its first timer a state still satisfies the invariant, and so it
/// does once that timer has delivered its message into a mailbox with room.
proof fn lemma_rest_keeps_invariant<P>(state: PostmasterState<P>)
    requires
        state.inv(),
        state.pending.len() > 0,
    ensures
        (PostmasterState { pending: state.pending.drop_first(), ..state }).inv(),
        state.knows(state.pending[0].destination),
        state.has_room(state.pending[0].destination) ==> (PostmasterState {
            pending: state.pending.drop_first(),
            ..state
        }).delivered(state.pending[0].destination, state.pending[0].message).inv(),
{
}

/// Firing keeps everything but the queues and the timers, frees a slot for
/// each message it delivers, and keeps the invariant. No timer left in flight
/// runs out earlier than `bound`, if none did before.
proof fn lemma_fired_keeps_invariant<P>(state: PostmasterState<P>, bound: u64)
    requires
        state.inv(),
        forall|i: int| 0 <= i < state.pending.len() ==> state.pending[i].delay >= bound,
    ensures
        state.fired().inv(),
        state.fired().same_shape(state),
        state.fired().registered == state.registered,
        state.fired().pending.len() <= state.pending.len(),
        forall|i: int|
            0 <= i < state.fired().pending.len() ==> state.fired().pending[i].delay >= bound,
        forall|i: int|
            0 <= i < state.queues.len() ==> (#[trigger] state.fired().queues[i]).len()
                >= state.queues[i].len(),
    decreases state.pending.len(),
{
    if state.pending.len() > 0 {
        let first = state.pending[0];
        let rest = PostmasterState { pending: state.pending.drop_first(), ..state };
        if first.due() && state.has_room(first.destination) {
            lemma_fired_keeps_invariant(
                rest.delivered(first.destination, first.message),
                bound,
            );
        } else {
            lemma_fired_keeps_invariant(rest, first.delay);
        }
    }
}

/// No operation breaks the invariant, and none changes the shape of the
/// table: the address set, the capacity of the mailboxes and the size of the
/// task pool stay as they were built. In particular no queue ever exceeds the
/// capacity.
pub proof fn law_step_keeps_invariant<P>(state: PostmasterState<P>, operation: Operation<P>)
    requires
        state.inv(),
    ensures
        state.step(operation).inv(),
        state.step(operation).same_shape(state),
{
    match operation {
        Operation::Register(address) => {},
        Operation::Send(destination, message) => {},
        Operation::Receive(address) => {},
        Operation::Schedule(timer) => {
            if state.schedule_error(timer.destination) is None {
                lemma_scheduled_keeps_invariant(state, timer);
            }
        },
        Operation::Advance(ticks) => {
            lemma_elapsed_keeps_invariant(state, ticks);
            lemma_fired_keeps_invariant(state.elapsed(ticks), 0);
        },
    }
}

/// No sequence of operations breaks the invariant or changes the shape of the
/// table.
pub proof fn law_run_keeps_invariant<P>(state: PostmasterState<P>, operations: Seq<Operation<P>>)
    requires
        state.inv(),
    ensures
        state.run(operations).inv(),
        state.run(operations).same_shape(state),
    decreases operations.len(),
{
    if operations.len() > 0 {
        law_step_keeps_invariant(state, operations[0]);
        law_run_keeps_invariant(state.step(operations[0]), operations.drop_first());
    }
}

/// A registration that succeeds makes every further registration of the same
/// address fail with `AddressAlreadyTaken`, and the refused attempt changes
/// nothing: the mailbox stays with the first registration.
pub proof fn law_second_registration_fails<P>(state: PostmasterState<P>, address: Address)
    requires
        state.inv(),
        state.registration_error(address) is None,
    ensures
        state.after_register(address).is_registered(address),
        state.after_register(address).queues == state.queues,
        state.after_register(address).registration_error(address) == Some(
            PostmasterError::AddressAlreadyTaken,
        ),
        state.after_register(address).after_register(address) == state.after_register(address),
{
}

/// A registration is never lost: whatever is done after an address has been
/// registered, the address stays registered, every attempt to register it
/// again fails with `AddressAlreadyTaken`, and the attempt changes nothing.
/// So an address never has more than one live registration.
pub proof fn law_registration_is_exclusive<P>(
    state: PostmasterState<P>,
    address: Address,
    operations: Seq<Operation<P>>,
)
    requires
        state.inv(),
        state.is_registered(address),
    ensures
        state.run(operations).is_registered(address),
        state.run(operations).registration_error(address) == Some(
            PostmasterError::AddressAlreadyTaken,
        ),
        state.run(operations).after_register(address) == state.run(operations),
    decreases operations.len(),
{
    if operations.len() > 0 {
        law_step_keeps_invariant(state, operations[0]);
        match operations[0] {
            Operation::Advance(ticks) => {
                lemma_elapsed_keeps_invariant(state, ticks);
                lemma_fired_keeps_invariant(state.elapsed(ticks), 0);
            },
            _ => {},
        }
        law_registration_is_exclusive(
            state.step(operations[0]),
            address,
            operations.drop_first(),
        );
    }
}

/// A consumer that receives `count` times sees the messages of its queue in
/// queue order, oldest first, as far as the queue reaches.
pub proof fn law_receives_observe_queue_order<P>(
    state: PostmasterState<P>,
    address: Address,
    count: nat,
)
    requires
        state.knows(address),
    ensures
        count <= state.queue(address).len() ==> state.observed(address, count) == state.queue(
            address,
        ).take(count as int),
        count >= state.queue(address).len() ==> state.observed(address, count) == state.queue(
            address,
        ),
    decreases count,
{
    if count > 0 && state.queue(address).len() > 0 {
        law_receives_observe_queue_order(state.received(address), address, (count - 1) as nat);
    }
}

/// Messages sent one after the other to a destination that has room for all
/// of them are all admitted, join its queue in the order in which they were
/// sent, behind what was queued before, and are received in that order. The
/// batch may mix sources: the messages of each source keep their order among
/// themselves.
pub proof fn law_sends_arrive_in_issue_order<P>(
    state: PostmasterState<P>,
    destination: Address,
    batch: Seq<Message<P>>,
)
    requires
        state.inv(),
        state.knows(destination),
        state.queue(destination).len() + batch.len() <= state.capacity,
    ensures
        state.run(PostmasterState::sends(destination, batch)).queue(destination) == state.queue(
            destination,
        ) + batch,
        state.run(PostmasterState::sends(destination, batch)).observed(
            destination,
            state.queue(destination).len() + batch.len(),
        ) == state.queue(destination) + batch,
    decreases batch.len(),
{
    let sends = PostmasterState::sends(destination, batch);
    let queue = state.queue(destination);
    if batch.len() > 0 {
        law_step_keeps_invariant(state, sends[0]);
        assert(sends.drop_first() =~= PostmasterState::sends(destination, batch.drop_first()));
        law_sends_arrive_in_issue_order(state.step(sends[0]), destination, batch.drop_first());
    }
    law_run_keeps_invariant(state, sends);
    law_receives_observe_queue_order(
        state.run(sends),
        destination,
        queue.len() + batch.len(),
    );
}

/// One operation changes the queue of an address at its two ends only: what
/// it hands to the consumer leaves at the front, and what it admits joins at
/// the back.
pub proof fn law_step_is_first_in_first_out<P>(
    state: PostmasterState<P>,
    address: Address,
    operation: Operation<P>,
)
    requires
        state.inv(),
        state.knows(address),
    ensures
        state.queue(address) + state.arrivals(operation, address) == state.departures(
            operation,
            address,
        ) + state.step(operation).queue(address),
{
    match operation {
        Operation::Advance(ticks) => {
            lemma_elapsed_keeps_invariant(state, ticks);
            law_due_timers_deliver_once_in_order(state.elapsed(ticks), address);
        },
        _ => {},
    }
}

/// Every mailbox is first in, first out, whatever is done with the
/// postmaster: what was queued at the start, followed by everything admitted
/// since in the order of admission, is what the consumer has received since,
/// in the order received, followed by what is queued at the end. So no
/// message is lost, duplicated or overtaken; in particular the messages that
/// one source sends to one destination, each admitted, are received in the
/// order in which they were sent.
pub proof fn law_mailbox_is_first_in_first_out<P>(
    state: PostmasterState<P>,
    address: Address,
    operations: Seq<Operation<P>>,
)
    requires
        state.inv(),
        state.knows(address),
    ensures
        state.queue(address) + state.arrived(operations, address) == state.consumed(
            operations,
            address,
        ) + state.run(operations).queue(address),
    decreases operations.len(),
{
    if operations.len() > 0 {
        let next = state.step(operations[0]);
        let rest = operations.drop_first();
        let departures = state.departures(operations[0], address);
        law_step_keeps_invariant(state, operations[0]);
        law_step_is_first_in_first_out(state, address, operations[0]);
        law_mailbox_is_first_in_first_out(next, address, rest);
        assert(departures + (next.consumed(rest, address) + next.run(rest).queue(address))
            =~= (departures + next.consumed(rest, address)) + next.run(rest).queue(address));
    }
}

/// A non-blocking send to a full mailbox fails with `TrySendFailed` and
/// leaves every queue as it was.
pub proof fn law_full_mailbox_refuses<P>(
    state: PostmasterState<P>,
    destination: Address,
    message: Message<P>,
)
    requires
        state.knows(destination),
        !state.has_room(destination),
    ensures
        state.try_send_error(destination) == Some(PostmasterError::TrySendFailed),
        state.send_outcome(destination, message) == Ok::<Dispatch<P>, PostmasterError>(
            Dispatch::Suspended(message),
        ),
        state.after_send(destination, message) == state,
{
}

/// A full mailbox stays as it is until its consumer receives: no operation
/// other than a receive on it changes its queue, so a send to it stays
/// suspended however often it is tried.
pub proof fn law_blocked_send_waits_for_a_receive<P>(
    state: PostmasterState<P>,
    destination: Address,
    operations: Seq<Operation<P>>,
)
    requires
        state.inv(),
        state.knows(destination),
        !state.has_room(destination),
        forall|i: int|
            0 <= i < operations.len() ==> operations[i] != Operation::<P>::Receive(destination),
    ensures
        state.run(operations).knows(destination),
        state.run(operations).queue(destination) == state.queue(destination),
        !state.run(operations).has_room(destination),
    decreases operations.len(),
{
    if operations.len() > 0 {
        let operation = operations[0];
        let rest = operations.drop_first();
        law_step_keeps_invariant(state, operation);
        match operation {
            Operation::Advance(ticks) => {
                lemma_elapsed_keeps_invariant(state, ticks);
                law_due_timers_deliver_once_in_order(state.elapsed(ticks), destination);
            },
            _ => {},
        }
        law_blocked_send_waits_for_a_receive(state.step(operation), destination, rest);
    }
}

/// Once the consumer of a full mailbox has received, a suspended send to it
/// completes: the consumer got the oldest message, the new message is queued
/// behind those that were there before it, and the consumer sees them in that
/// order.
pub proof fn law_blocked_send_completes_after_a_receive<P>(
    state: PostmasterState<P>,
    destination: Address,
    message: Message<P>,
)
    requires
        state.inv(),
        state.knows(destination),
        !state.has_room(destination),
        state.capacity > 0,
    ensures
        state.oldest(destination) == Some(state.queue(destination)[0]),
        state.after_receive(destination).send_outcome(destination, message) == Ok::<
            Dispatch<P>,
            PostmasterError,
        >(Dispatch::Delivered),
        state.after_receive(destination).after_send(destination, message).queue(destination)
            == state.queue(destination).drop_first().push(message),
        state.after_receive(destination).after_send(destination, message).observed(
            destination,
            state.capacity,
        ) == state.queue(destination).drop_first().push(message),
{
    law_receives_observe_queue_order(
        state.after_receive(destination).after_send(destination, message),
        destination,
        state.capacity,
    );
}

/// Firing touches no timer that has not run out: the timers still waiting are
/// the same before and after, in the same order.
pub proof fn law_firing_spares_waiting_timers<P>(state: PostmasterState<P>)
    ensures
        still_waiting(state.fired().pending) == still_waiting(state.pending),
    decreases state.pending.len(),
{
    if state.pending.len() > 0 {
        let first = state.pending[0];
        let rest = PostmasterState { pending: state.pending.drop_first(), ..state };
        if first.due() && state.has_room(first.destination) {
            law_firing_spares_waiting_timers(rest.delivered(first.destination, first.message));
        } else {
            law_firing_spares_waiting_timers(rest);
            let kept = seq![first] + rest.fired().pending;
            assert(kept.drop_first() =~= rest.fired().pending);
        }
    }
}

/// No delayed message is delivered before its delay has elapsed: when `ticks`
/// ticks pass, every timer with more than `ticks` to go is still in flight
/// afterwards, with `ticks` less to go, and in the same order. Only timers
/// whose delay has run out leave the list.
pub proof fn law_timer_waits_out_its_delay<P>(state: PostmasterState<P>, ticks: u64)
    ensures
        still_waiting(state.advanced(ticks).pending) == still_waiting(
            state.elapsed(ticks).pending,
        ),
        forall|i: int|
            0 <= i < state.pending.len() ==> (#[trigger] state.elapsed(ticks).pending[i]).due() == (
            state.pending[i].delay <= ticks),
        forall|i: int|
            0 <= i < state.pending.len() && state.pending[i].delay > ticks ==> (
            #[trigger] state.elapsed(ticks).pending[i]).delay == state.pending[i].delay - ticks,
{
    law_firing_spares_waiting_timers(state.elapsed(ticks));
}

/// Firing delivers, for each destination, the first of the timers that have
/// run out for it, as many as its mailbox has room for: their messages join
/// the queue in firing order, behind what was queued before, and the other
/// timers that have run out for it stay in flight, in their order. So a
/// timer that has run out is delivered once or is still in flight, never
/// both, and never lost; and with room for all of them, all are delivered.
pub proof fn law_due_timers_deliver_once_in_order<P>(
    state: PostmasterState<P>,
    destination: Address,
)
    requires
        state.inv(),
        state.knows(destination),
    ensures
        state.deliverable(destination) <= due_for(state.pending, destination).len(),
        state.fired().queue(destination) == state.queue(destination) + messages_of(
            due_for(state.pending, destination).take(state.deliverable(destination) as int),
        ),
        due_for(state.fired().pending, destination) == due_for(state.pending, destination).skip(
            state.deliverable(destination) as int,
        ),
    decreases state.pending.len(),
{
    if state.pending.len() > 0 {
        let first = state.pending[0];
        let rest = PostmasterState { pending: state.pending.drop_first(), ..state };
        lemma_rest_keeps_invariant(state);
        if first.due() && state.has_room(first.destination) {
            law_due_timers_deliver_once_in_order(
                rest.delivered(first.destination, first.message),
                destination,
            );
        } else {
            law_due_timers_deliver_once_in_order(rest, destination);
            let kept = seq![first] + rest.fired().pending;
            assert(kept.drop_first() =~= rest.fired().pending);
        }
    }
}

/// After firing, a timer that has run out is still in flight only because
/// the mailbox of its destination is full: its task is suspended in its send,
/// as any sender to that mailbox would be.
pub proof fn law_overdue_timers_face_a_full_mailbox<P>(state: PostmasterState<P>)
    requires
        state.inv(),
    ensures
        forall|i: int|
            0 <= i < state.fired().pending.len() && (#[trigger] state.fired().pending[i]).due()
                ==> !state.fired().has_room(state.fired().pending[i].destination),
    decreases state.pending.len(),
{
    if state.pending.len() > 0 {
        let first = state.pending[0];
        let rest = PostmasterState { pending: state.pending.drop_first(), ..state };
        lemma_rest_keeps_invariant(state);
        if first.due() && state.has_room(first.destination) {
            let next = rest.delivered(first.destination, first.message);
            law_overdue_timers_face_a_full_mailbox(next);
            assert(state.fired() == next.fired());
        } else {
            law_overdue_timers_face_a_full_mailbox(rest);
            lemma_fired_keeps_invariant(rest, 0);
            assert forall|i: int|
                0 <= i < state.fired().pending.len() && (
                #[trigger] state.fired().pending[i]).due() implies !state.fired().has_room(
                state.fired().pending[i].destination,
            ) by {
                if i > 0 {
                    assert(state.fired().pending[i] == rest.fired().pending[i - 1]);
                }
            }
        }
    }
}

/// Where the first timer in firing order has not run out, none has, and
/// firing changes nothing.
proof fn lemma_nothing_due_nothing_fires<P>(state: PostmasterState<P>)
    requires
        in_firing_order(state.pending),
        state.pending.len() > 0 ==> !state.pending[0].due(),
    ensures
        state.fired() == state,
    decreases state.pending.len(),
{
    if state.pending.len() > 0 {
        let rest = PostmasterState { pending: state.pending.drop_first(), ..state };
        lemma_nothing_due_nothing_fires(rest);
        assert(seq![state.pending[0]] + rest.pending =~= state.pending);
    }
}

/// Firing, letting time pass and firing again ends where letting the time
/// pass and firing once ends: a timer that fired early would have fired
/// first in the later firing too, and one that found its mailbox full still
/// finds it full.
proof fn lemma_firing_early_changes_nothing<P>(state: PostmasterState<P>, ticks: u64)
    requires
        state.inv(),
    ensures
        state.fired().elapsed(ticks).fired() == state.elapsed(ticks).fired(),
    decreases state.pending.len(),
{
    if state.pending.len() > 0 {
        let first = state.pending[0];
        let rest = PostmasterState { pending: state.pending.drop_first(), ..state };
        let later = state.elapsed(ticks);
        lemma_rest_keeps_invariant(state);
        assert(later.pending.drop_first() =~= rest.elapsed(ticks).pending);
        if !first.due() {
            lemma_nothing_due_nothing_fires(state);
        } else if state.has_room(first.destination) {
            lemma_firing_early_changes_nothing(
                rest.delivered(first.destination, first.message),
                ticks,
            );
        } else {
            let fired = rest.fired();
            let kept = PostmasterState { pending: seq![first] + fired.pending, ..fired };
            lemma_firing_early_changes_nothing(rest, ticks);
            lemma_fired_keeps_invariant(rest, 0);
            assert(kept.elapsed(ticks).pending.drop_first() =~= fired.elapsed(ticks).pending);
        }
    }
}

/// How the passing of time is cut into pieces makes no difference: letting
/// some ticks pass and then some more ends in the same state as letting all
/// of them pass at once. So a delayed message is delivered when the ticks
/// that have passed add up to its delay, however they were counted out.
pub proof fn law_time_is_additive<P>(state: PostmasterState<P>, first: u64, second: u64)
    requires
        state.inv(),
        first + second <= u64::MAX,
    ensures
        state.advanced(first).advanced(second) == state.advanced((first + second) as u64),
{
    lemma_elapsed_keeps_invariant(state, first);
    lemma_firing_early_changes_nothing(state.elapsed(first), second);
    assert(state.elapsed(first).elapsed(second).pending =~= state.elapsed(
        (first + second) as u64,
    ).pending);
}

/// Firing again without anything else having happened changes nothing: the
/// timers that found their mailbox full find it full again.
pub proof fn law_firing_again_changes_nothing<P>(state: PostmasterState<P>)
    requires
        state.inv(),
    ensures
        state.fired().fired() == state.fired(),
        state.advanced(0) == state.fired(),
{
    lemma_fired_keeps_invariant(state, 0);
    lemma_firing_early_changes_nothing(state, 0);
    assert(state.elapsed(0).pending =~= state.pending);
    assert(state.fired().elapsed(0).pending =~= state.fired().pending);
}

} // verus!
