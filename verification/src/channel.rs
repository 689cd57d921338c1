//! Bounded FIFO event channel between event producers and the main loop.

use vstd::prelude::*;

use crate::types::Update;

verus! {

/// How many events the channel holds at most.
pub const CHANNEL_CAPACITY: usize = 64;

/// Returned by `try_send` on a full channel.  The producer must surface the
/// rejection to the event's originator (for a remote caller: an explicit
/// "too many requests" failure); the loop itself is unaffected.
#[derive(Clone, Copy, Debug, PartialEq, Eq, Structural)]
pub struct ChannelFull;

/// A bounded FIFO queue of `Update` events.  Sends never block: at capacity
/// they are rejected and the queued events stay exactly as they were.
pub struct EventChannel {
    queue: Vec<Update>,
}

impl View for EventChannel {
    type V = Seq<Update>;

    /// The queued events, oldest first.
    closed spec fn view(&self) -> Seq<Update> {
        self.queue@
    }
}

impl EventChannel {
    /// Well-formedness: the queue never outgrows the capacity.  `new`
    /// establishes it and every method keeps it.
    pub open spec fn wf(&self) -> bool {
        self@.len() <= CHANNEL_CAPACITY
    }

    /// A new, empty channel.
    pub fn new() -> (r: Self)
        ensures
            r@ == Seq::<Update>::empty(),
            r.wf(),
    {
        EventChannel { queue: Vec::new() }
    }

    /// How many events are queued.
    pub fn len(&self) -> (r: usize)
        ensures
            r == self@.len(),
    {
        self.queue.len()
    }

    /// Non-blocking send: below capacity the event is appended at the back;
    /// at capacity the send is rejected and the queue is left unchanged, so
    /// the accepted events keep their FIFO order.
    pub fn try_send(&mut self, update: Update) -> (r: Result<(), ChannelFull>)
        ensures
            old(self)@.len() < CHANNEL_CAPACITY ==> r is Ok && final(self)@ == old(self)@.push(update),
            old(self)@.len() >= CHANNEL_CAPACITY ==> r is Err && final(self)@ == old(self)@,
            old(self).wf() ==> final(self).wf(),
    {
        if self.queue.len() < CHANNEL_CAPACITY {
            self.queue.push(update);
            Ok(())
        } else {
            Err(ChannelFull)
        }
    }

    /// Non-blocking receive: the oldest queued event, removed from the queue,
    /// or `None` on an empty channel.
    pub fn try_recv(&mut self) -> (r: Option<Update>)
        ensures
            old(self)@.len() == 0 ==> r is None && final(self)@ == old(self)@,
            old(self)@.len() > 0 ==> r == Some(old(self)@[0]) && final(self)@ == old(self)@.drop_first(),
            old(self).wf() ==> final(self).wf(),
    {
        if self.queue.len() > 0 {
            let event = self.queue.remove(0);
            proof {
                assert(self.queue@ =~= old(self).queue@.drop_first());
            }
            Some(event)
        } else {
            None
        }
    }
}

} // verus!
