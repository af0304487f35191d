//! The side channel for unsolicited responses: frames that no active
//! collector claimed. Publishing is non-blocking relative to frame draining,
//! so the channel is unbounded. The queue itself is `async_channel`'s; its
//! behaviour enters the proofs only through the trusted contracts below.

use vstd::prelude::*;

use crate::frames::ResponseFrame;

verus! {

#[verifier::external_type_specification]
#[verifier::external_body]
#[verifier::reject_recursive_types(T)]
pub struct ExSender<T>(async_channel::Sender<T>);

#[verifier::external_type_specification]
#[verifier::external_body]
#[verifier::reject_recursive_types(T)]
pub struct ExReceiver<T>(async_channel::Receiver<T>);

/// The unsolicited-response channel of one session: the collectors publish
/// into it, the application drains it later and independently. It owns both
/// ends, so it is never closed underneath a publisher, and an unbounded
/// publish cannot block or fail.
pub struct UnsolicitedChannel {
    tx: async_channel::Sender<ResponseFrame>,
    rx: async_channel::Receiver<ResponseFrame>,
    queued: Ghost<Seq<ResponseFrame>>,
}

impl UnsolicitedChannel {
    /// The frames published and not yet drained, oldest first.
    pub closed spec fn queued(&self) -> Seq<ResponseFrame> {
        self.queued@
    }

    /// A fresh, empty channel.
    ///
    /// Relies on `async_channel::unbounded`: a new unbounded queue is empty.
    #[verifier::external_body]
    pub fn new() -> (c: Self)
        ensures
            c.queued() == Seq::<ResponseFrame>::empty(),
    {
        let (tx, rx) = async_channel::unbounded();
        UnsolicitedChannel { tx, rx, queued: Ghost(Seq::empty()) }
    }

    /// Fire-and-forget publish: appends the frame to the queue without
    /// blocking the publisher.
    ///
    /// Relies on `async_channel::Sender::try_send`: on an unbounded channel
    /// whose receiver is alive (it lives in this struct) it always enqueues
    /// the message at the back of the FIFO queue.
    #[verifier::external_body]
    pub fn publish(&mut self, f: ResponseFrame)
        ensures
            final(self).queued() == old(self).queued().push(f),
    {
        let _ = self.tx.try_send(f);
    }

    /// Non-blocking drain of the oldest queued frame, if any.
    ///
    /// Relies on `async_channel::Receiver::try_recv`: it pops the front of
    /// the FIFO queue, or reports the queue empty without blocking.
    #[verifier::external_body]
    pub fn try_next(&mut self) -> (r: Option<ResponseFrame>)
        ensures
            old(self).queued().len() == 0 ==> r is None && final(self).queued()
                == old(self).queued(),
            old(self).queued().len() > 0 ==> r == Some(old(self).queued()[0])
                && final(self).queued() == old(self).queued().skip(1),
    {
        match self.rx.try_recv() {
            Ok(f) => Some(f),
            Err(_) => None,
        }
    }
}

} // verus!
