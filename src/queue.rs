//! The bounded FIFO of packet events that sits between decoding a frame and
//! answering it, kept in an embassy-sync channel.

use embassy_sync::blocking_mutex::raw::NoopRawMutex;
use embassy_sync::channel::{Channel, TrySendError};
use vstd::prelude::*;

use crate::net::PacketEvent;

verus! {

/// How many events the queue buffers.
pub const EVENT_QUEUE_CAPACITY: usize = 4;

/// A channel of packet events owned by one connection.
#[verifier::external_body]
pub struct EventQueue {
    channel: Channel<NoopRawMutex, PacketEvent, 4>,
}

/// The events buffered in a queue, oldest first.
pub uninterp spec fn queued(q: EventQueue) -> Seq<PacketEvent>;

impl EventQueue {
    /// Relies on embassy-sync's `Channel::new`: a new channel buffers nothing.
    #[verifier::external_body]
    pub(crate) fn new() -> (q: EventQueue)
        ensures
            queued(q) == Seq::<PacketEvent>::empty(),
    {
        EventQueue { channel: Channel::new() }
    }

    /// Relies on embassy-sync's `Channel::try_send`: the event joins the back
    /// unless the channel holds its capacity already, and is then handed back.
    #[verifier::external_body]
    pub(crate) fn try_send(&mut self, event: PacketEvent) -> (r: Result<(), PacketEvent>)
        ensures
            queued(*old(self)).len() < EVENT_QUEUE_CAPACITY ==> r is Ok && queued(*final(self))
                == queued(*old(self)).push(event),
            queued(*old(self)).len() >= EVENT_QUEUE_CAPACITY ==> (r matches Err(e) && e
                == event),
            queued(*old(self)).len() >= EVENT_QUEUE_CAPACITY ==> queued(*final(self)) == queued(
                *old(self),
            ),
    {
        match self.channel.try_send(event) {
            Ok(()) => Ok(()),
            Err(TrySendError::Full(event)) => Err(event),
        }
    }

    /// Relies on embassy-sync's `Channel::try_receive`: it takes the oldest
    /// event, or fails when there is none.
    #[verifier::external_body]
    pub(crate) fn try_receive(&mut self) -> (r: Option<PacketEvent>)
        ensures
            queued(*old(self)).len() == 0 ==> r is None && queued(*final(self)) == queued(
                *old(self),
            ),
            queued(*old(self)).len() > 0 ==> r == Some(queued(*old(self))[0]) && queued(
                *final(self),
            ) == queued(*old(self)).drop_first(),
    {
        self.channel.try_receive().ok()
    }
}

} // verus!
