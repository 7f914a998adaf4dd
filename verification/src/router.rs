//! The one way to build a send: name destination, source and payload, say
//! whether the delivery is deferred, and dispatch.

use vstd::prelude::*;
use crate::address::{Address, Message};
use crate::error::PostmasterError;
use crate::postmaster::Postmaster;
use crate::state::{DelayedMessage, Dispatch, PostmasterState};

verus! {

/// A send that has been described and not yet dispatched.
#[derive(Debug)]
pub struct MessageBuilder<P> {
    pub destination: Address,
    pub source: Address,
    pub payload: P,
    /// The ticks to wait before the send is attempted; `None` sends at once.
    pub delay: Option<u64>,
}

/// Describes the send of `payload` from `source` to `destination`, to be
/// dispatched at once unless a delay is added.
pub fn message<P>(destination: Address, source: Address, payload: P) -> (builder: MessageBuilder<
    P,
>)
    ensures
        builder == (MessageBuilder { destination, source, payload, delay: None }),
{
    MessageBuilder { destination, source, payload, delay: None }
}

impl<P> MessageBuilder<P> {
    /// The message that this send carries.
    pub open spec fn letter(self) -> Message<P> {
        Message { source: self.source, payload: self.payload }
    }

    /// The timer that stands for this send when it is deferred by `ticks`.
    pub open spec fn timer(self, ticks: u64) -> DelayedMessage<P> {
        DelayedMessage { destination: self.destination, message: self.letter(), delay: ticks }
    }

    /// The state in which dispatching this send leaves the postmaster.
    pub open spec fn after_dispatch(self, state: PostmasterState<P>) -> PostmasterState<P> {
        match self.delay {
            None => state.after_send(self.destination, self.letter()),
            Some(ticks) => state.after_schedule(self.timer(ticks)),
        }
    }

    /// How dispatching this send ends. An immediate send ends as one step of
    /// a blocking send does. A deferred send is scheduled, or refused because
    /// the destination is outside the set or the task pool has no free slot.
    pub open spec fn dispatch_outcome(self, state: PostmasterState<P>) -> Result<
        Dispatch<P>,
        PostmasterError,
    > {
        match self.delay {
            None => state.send_outcome(self.destination, self.letter()),
            Some(ticks) => match state.schedule_error(self.destination) {
                Some(error) => Err(error),
                None => Ok(Dispatch::Scheduled),
            },
        }
    }

    /// Defers the delivery: the message is to be sent once `ticks` ticks have
    /// elapsed. A later delay replaces an earlier one.
    pub fn with_delay(self, ticks: u64) -> (builder: MessageBuilder<P>)
        ensures
            builder == (MessageBuilder { delay: Some(ticks), ..self }),
    {
        MessageBuilder {
            destination: self.destination,
            source: self.source,
            payload: self.payload,
            delay: Some(ticks),
        }
    }

    /// Dispatches the send. Without a delay this is one step of a blocking
    /// send. With a delay a timer task takes the message over and the caller
    /// goes on at once; if the pool has no slot for that task, the call fails
    /// here and now and the message reaches no mailbox.
    pub fn send(self, postmaster: &mut Postmaster<P>) -> (outcome: Result<
        Dispatch<P>,
        PostmasterError,
    >)
        requires
            old(postmaster).wf(),
        ensures
            final(postmaster).wf(),
            final(postmaster)@ == self.after_dispatch(old(postmaster)@),
            outcome == self.dispatch_outcome(old(postmaster)@),
    {
        match self.delay {
            None => postmaster.send(self.destination, self.source, self.payload),
            Some(ticks) => {
                let timer = DelayedMessage {
                    destination: self.destination,
                    message: Message { source: self.source, payload: self.payload },
                    delay: ticks,
                };
                match postmaster.schedule(timer) {
                    Ok(()) => Ok(Dispatch::Scheduled),
                    Err(error) => Err(error),
                }
            },
        }
    }
}

} // verus!
