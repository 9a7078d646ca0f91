//! The channel split: a framed connection viewed as two ordered
//! queues joined by one message pump.
//!
//! The pump side pushes frames decoded off the wire into the inbound
//! queue and drains the outbound queue onto the wire; the session side
//! receives inbound frames and enqueues outbound ones. Ghost histories
//! record every frame that crossed each edge, and the channel
//! invariant makes the ordering guarantees exact: frames are delivered
//! to the session in the order they arrived on the wire, and written
//! to the wire in the order the session enqueued them.

use vstd::prelude::*;

verus! {

/// The views of a sequence of frames.
pub open spec fn frames_view(s: Seq<Vec<u8>>) -> Seq<Seq<u8>> {
    s.map_values(|f: Vec<u8>| f@)
}

/// One session's channel: the inbound and outbound frame queues and
/// the ghost history of everything that crossed them.
pub struct Channel {
    inbound: Vec<Vec<u8>>,
    outbound: Vec<Vec<u8>>,
    wire_in: Ghost<Seq<Seq<u8>>>,
    delivered: Ghost<Seq<Seq<u8>>>,
    enqueued: Ghost<Seq<Seq<u8>>>,
    wire_out: Ghost<Seq<Seq<u8>>>,
}

impl Channel {
    /// Every frame the pump pushed after decoding it off the wire,
    /// in wire order.
    pub closed spec fn wire_in(&self) -> Seq<Seq<u8>> {
        self.wire_in@
    }

    /// Every frame delivered to the session logic, in delivery order.
    pub closed spec fn delivered(&self) -> Seq<Seq<u8>> {
        self.delivered@
    }

    /// Every frame the session logic enqueued for output, in order.
    pub closed spec fn enqueued(&self) -> Seq<Seq<u8>> {
        self.enqueued@
    }

    /// Every frame the pump took to write to the wire, in wire order.
    pub closed spec fn wire_out(&self) -> Seq<Seq<u8>> {
        self.wire_out@
    }

    /// How many frames currently wait in the inbound queue.
    pub closed spec fn inbound_len(&self) -> nat {
        self.inbound@.len()
    }

    /// How many frames currently wait in the outbound queue.
    pub closed spec fn outbound_len(&self) -> nat {
        self.outbound@.len()
    }

    /// The channel invariant: what was delivered plus what still
    /// waits is exactly what arrived, and what went out plus what
    /// still waits is exactly what was enqueued — each in order.
    pub closed spec fn wf(&self) -> bool {
        &&& self.delivered@ + frames_view(self.inbound@) == self.wire_in@
        &&& self.wire_out@ + frames_view(self.outbound@) == self.enqueued@
    }

    /// A fresh channel with empty queues and empty histories.
    pub fn new() -> (c: Self)
        ensures
            c.wf(),
            c.wire_in() == Seq::<Seq<u8>>::empty(),
            c.delivered() == Seq::<Seq<u8>>::empty(),
            c.enqueued() == Seq::<Seq<u8>>::empty(),
            c.wire_out() == Seq::<Seq<u8>>::empty(),
    {
        let c = Channel {
            inbound: Vec::new(),
            outbound: Vec::new(),
            wire_in: Ghost(Seq::empty()),
            delivered: Ghost(Seq::empty()),
            enqueued: Ghost(Seq::empty()),
            wire_out: Ghost(Seq::empty()),
        };
        proof {
            assert(c.delivered@ + frames_view(c.inbound@) =~= c.wire_in@);
            assert(c.wire_out@ + frames_view(c.outbound@) =~= c.enqueued@);
        }
        c
    }

    /// Pump side: a frame decoded off the wire joins the inbound
    /// queue, extending the wire history by exactly that frame.
    pub fn pump_push_inbound(&mut self, frame: Vec<u8>)
        requires
            old(self).wf(),
        ensures
            final(self).wf(),
            final(self).wire_in() == old(self).wire_in().push(frame@),
            final(self).delivered() == old(self).delivered(),
            final(self).enqueued() == old(self).enqueued(),
            final(self).wire_out() == old(self).wire_out(),
            final(self).inbound_len() == old(self).inbound_len() + 1,
            final(self).outbound_len() == old(self).outbound_len(),
    {
        let ghost f = frame@;
        self.inbound.push(frame);
        proof {
            self.wire_in@ = self.wire_in@.push(f);
            assert(frames_view(self.inbound@) =~= frames_view(old(self).inbound@).push(f));
            assert(self.delivered@ + frames_view(self.inbound@) =~= self.wire_in@);
        }
    }

    /// Session side: the oldest undelivered frame, if any. What comes
    /// out is exactly the next frame of the wire-in history, so
    /// delivery order is wire order.
    pub fn recv(&mut self) -> (r: Option<Vec<u8>>)
        requires
            old(self).wf(),
        ensures
            final(self).wf(),
            final(self).wire_in() == old(self).wire_in(),
            final(self).enqueued() == old(self).enqueued(),
            final(self).wire_out() == old(self).wire_out(),
            final(self).outbound_len() == old(self).outbound_len(),
            r is None ==> old(self).inbound_len() == 0 && *final(self) == *old(self),
            r is Some ==> final(self).inbound_len() == old(self).inbound_len() - 1,
            r is Some ==> old(self).inbound_len() > 0 && r->0@ == old(self).wire_in()[old(
                self,
            ).delivered().len() as int] && final(self).delivered() == old(self).delivered().push(
                r->0@,
            ),
    {
        if self.inbound.len() == 0 {
            Option::None
        } else {
            let frame = self.inbound.remove(0);
            proof {
                self.delivered@ = self.delivered@.push(frame@);
                assert(frames_view(old(self).inbound@) =~= seq![frame@] + frames_view(
                    self.inbound@,
                ));
                assert(self.delivered@ + frames_view(self.inbound@) =~= self.wire_in@);
                assert(old(self).wire_in@[old(self).delivered@.len() as int] == frame@);
            }
            Option::Some(frame)
        }
    }

    /// Session side: a frame enqueued for output, extending the
    /// enqueue history by exactly that frame.
    pub fn send(&mut self, frame: Vec<u8>)
        requires
            old(self).wf(),
        ensures
            final(self).wf(),
            final(self).enqueued() == old(self).enqueued().push(frame@),
            final(self).wire_in() == old(self).wire_in(),
            final(self).delivered() == old(self).delivered(),
            final(self).wire_out() == old(self).wire_out(),
            final(self).outbound_len() == old(self).outbound_len() + 1,
            final(self).inbound_len() == old(self).inbound_len(),
    {
        let ghost f = frame@;
        self.outbound.push(frame);
        proof {
            self.enqueued@ = self.enqueued@.push(f);
            assert(frames_view(self.outbound@) =~= frames_view(old(self).outbound@).push(f));
            assert(self.wire_out@ + frames_view(self.outbound@) =~= self.enqueued@);
        }
    }

    /// Pump side: the oldest frame waiting for the wire, if any. What
    /// comes out is exactly the next frame of the enqueue history, so
    /// wire order is enqueue order.
    pub fn pump_take_outbound(&mut self) -> (r: Option<Vec<u8>>)
        requires
            old(self).wf(),
        ensures
            final(self).wf(),
            final(self).wire_in() == old(self).wire_in(),
            final(self).delivered() == old(self).delivered(),
            final(self).enqueued() == old(self).enqueued(),
            final(self).inbound_len() == old(self).inbound_len(),
            r is None ==> old(self).outbound_len() == 0 && *final(self) == *old(self),
            r is Some ==> final(self).outbound_len() == old(self).outbound_len() - 1,
            r is Some ==> old(self).outbound_len() > 0 && r->0@ == old(self).enqueued()[old(
                self,
            ).wire_out().len() as int] && final(self).wire_out() == old(self).wire_out().push(
                r->0@,
            ),
    {
        if self.outbound.len() == 0 {
            Option::None
        } else {
            let frame = self.outbound.remove(0);
            proof {
                self.wire_out@ = self.wire_out@.push(frame@);
                assert(frames_view(old(self).outbound@) =~= seq![frame@] + frames_view(
                    self.outbound@,
                ));
                assert(self.wire_out@ + frames_view(self.outbound@) =~= self.enqueued@);
                assert(old(self).enqueued@[old(self).wire_out@.len() as int] == frame@);
            }
            Option::Some(frame)
        }
    }
}

/// A drained queue means the histories have caught up with each
/// other: with nothing waiting inbound, everything that arrived was
/// delivered; with nothing waiting outbound, everything enqueued
/// reached the wire.
pub proof fn lemma_channel_drained(c: Channel)
    requires
        c.wf(),
    ensures
        c.inbound_len() == 0 ==> c.delivered() == c.wire_in(),
        c.outbound_len() == 0 ==> c.wire_out() == c.enqueued(),
{
    if c.inbound_len() == 0 {
        assert(c.delivered() =~= c.wire_in());
    }
    if c.outbound_len() == 0 {
        assert(c.wire_out() =~= c.enqueued());
    }
}

/// Ordering law of the channel: at every instant, what was delivered
/// to the session is a prefix of what arrived on the wire, and what
/// went to the wire is a prefix of what the session enqueued — the
/// orders agree exactly, with no reordering and no invention.
pub proof fn lemma_channel_order(c: Channel)
    requires
        c.wf(),
    ensures
        c.delivered() == c.wire_in().subrange(0, c.delivered().len() as int),
        c.wire_out() == c.enqueued().subrange(0, c.wire_out().len() as int),
        c.delivered().len() <= c.wire_in().len(),
        c.wire_out().len() <= c.enqueued().len(),
{
    assert(c.delivered() =~= c.wire_in().subrange(0, c.delivered().len() as int));
    assert(c.wire_out() =~= c.enqueued().subrange(0, c.wire_out().len() as int));
}

} // verus!
