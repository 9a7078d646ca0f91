//! The message pump: the unit that moves frames between the wire and
//! the channel.
//!
//! One step of the inbound half decodes every complete frame out of
//! the accumulated bytes and forwards each, in wire order, into the
//! channel; one step of the outbound half drains the outbound queue
//! and lays each frame's wire form, in enqueue order, onto the
//! outgoing byte stream. The surrounding program owns the actual
//! reads and writes and calls these steps between them.

use crate::channel::Channel;
use crate::codec::{
    decode_spec, encode_spec, lemma_wire_of_push, wire_of, FrameDecoder, FrameStep, SpecDecoded,
};
use crate::error::AdapterError;
use vstd::prelude::*;

verus! {

/// Forwards every complete frame in the decoder into the channel, in
/// wire order: the channel's wire-in history grows by exactly the
/// newly decoded frames. Stops at a malformed header with a protocol
/// error, or cleanly once more input is needed.
pub fn pump_inbound(dec: &mut FrameDecoder, ch: &mut Channel) -> (r: Option<AdapterError>)
    requires
        old(dec).wf(),
        old(ch).wf(),
    ensures
        final(dec).wf(),
        final(ch).wf(),
        final(dec).fed() == old(dec).fed(),
        old(dec).emitted().len() <= final(dec).emitted().len(),
        final(dec).emitted().subrange(0, old(dec).emitted().len() as int) == old(dec).emitted(),
        final(ch).wire_in() == old(ch).wire_in() + final(dec).emitted().skip(
            old(dec).emitted().len() as int,
        ),
        final(ch).delivered() == old(ch).delivered(),
        final(ch).enqueued() == old(ch).enqueued(),
        final(ch).wire_out() == old(ch).wire_out(),
        r is None ==> decode_spec(final(dec).pending()) is NeedMore,
        r is Some ==> r->0 == AdapterError::Protocol && decode_spec(final(dec).pending())
            is Malformed,
    decreases old(dec).pending().len(),
{
    let ghost n0 = old(dec).emitted().len();
    loop
        invariant
            dec.wf(),
            ch.wf(),
            dec.fed() == old(dec).fed(),
            n0 <= dec.emitted().len(),
            dec.emitted().subrange(0, n0 as int) == old(dec).emitted(),
            ch.wire_in() == old(ch).wire_in() + dec.emitted().skip(n0 as int),
            ch.delivered() == old(ch).delivered(),
            ch.enqueued() == old(ch).enqueued(),
            ch.wire_out() == old(ch).wire_out(),
        decreases dec.pending().len(),
    {
        let ghost before = dec.pending();
        let ghost emitted_before = dec.emitted();
        let step = dec.next_frame();
        match step {
            FrameStep::Frame(payload) => {
                proof {
                    assert(decode_spec(before) matches SpecDecoded::Frame(q, k) && k >= 4 && k
                        <= before.len());
                    assert(dec.emitted() =~= emitted_before.push(payload@));
                    assert(dec.emitted().subrange(0, n0 as int) =~= emitted_before.subrange(
                        0,
                        n0 as int,
                    ));
                }
                ch.pump_push_inbound(payload);
                proof {
                    assert(dec.emitted().skip(n0 as int) =~= emitted_before.skip(n0 as int).push(
                        dec.emitted().last(),
                    ));
                    assert(ch.wire_in() =~= old(ch).wire_in() + dec.emitted().skip(n0 as int));
                }
            },
            FrameStep::NeedMore => {
                return Option::None;
            },
            FrameStep::Malformed => {
                return Option::Some(AdapterError::Protocol);
            },
        }
    }
}

/// Drains the outbound queue onto the outgoing byte stream: each
/// frame the session enqueued is appended in enqueue order, each as
/// its wire form, one whole unit after another with nothing
/// interleaved.
pub fn pump_outbound(ch: &mut Channel, wire: &mut Vec<u8>)
    requires
        old(ch).wf(),
    ensures
        final(ch).wf(),
        final(ch).outbound_len() == 0,
        final(ch).wire_out() == old(ch).enqueued(),
        final(ch).enqueued() == old(ch).enqueued(),
        final(ch).wire_in() == old(ch).wire_in(),
        final(ch).delivered() == old(ch).delivered(),
        final(wire)@ == old(wire)@ + wire_of(
            old(ch).enqueued().skip(old(ch).wire_out().len() as int),
        ),
{
    let ghost n0 = old(ch).wire_out().len();
    loop
        invariant
            ch.wf(),
            ch.enqueued() == old(ch).enqueued(),
            ch.wire_in() == old(ch).wire_in(),
            ch.delivered() == old(ch).delivered(),
            n0 <= ch.wire_out().len(),
            ch.wire_out().subrange(0, n0 as int) == old(ch).wire_out(),
            wire@ == old(wire)@ + wire_of(ch.wire_out().skip(n0 as int)),
        decreases ch.outbound_len(),
    {
        let ghost out_before = ch.wire_out();
        match ch.pump_take_outbound() {
            Option::Some(frame) => {
                let mut bytes = crate::codec::encode_frame(&frame);
                wire.append(&mut bytes);
                proof {
                    assert(ch.wire_out() =~= out_before.push(frame@));
                    assert(ch.wire_out().subrange(0, n0 as int) =~= out_before.subrange(
                        0,
                        n0 as int,
                    ));
                    assert(ch.wire_out().skip(n0 as int) =~= out_before.skip(n0 as int).push(
                        frame@,
                    ));
                    lemma_wire_of_push(out_before.skip(n0 as int), frame@);
                }
            },
            Option::None => {
                proof {
                    crate::channel::lemma_channel_drained(*ch);
                    assert(ch.wire_out().skip(n0 as int) =~= old(ch).enqueued().skip(n0 as int));
                }
                return ;
            },
        }
    }
}

} // verus!
