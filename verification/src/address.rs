//! Addresses and the messages that travel between them.

use vstd::prelude::*;

verus! {

/// One member of the closed address set, named by its position in the set.
/// An address is both the key of a mailbox and the identity of a sender.
#[derive(Clone, Copy, Debug, PartialEq, Eq, Structural)]
pub struct Address {
    pub index: usize,
}

impl Address {
    /// The address at position `index` of the address set.
    pub fn new(index: usize) -> (address: Address)
        ensures
            address.index == index,
    {
        Address { index }
    }

    /// The position of this address in the address set.
    pub fn position(&self) -> (index: usize)
        ensures
            index == self.index,
    {
        self.index
    }
}

/// What a mailbox holds: a payload together with the address that sent it.
/// The destination is the mailbox that the message is queued in.
#[derive(Debug, PartialEq, Eq)]
pub struct Message<P> {
    pub source: Address,
    pub payload: P,
}

} // verus!
