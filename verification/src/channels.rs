//! The callback-flavored surface: a combined send/receive endpoint that
//! drives a [`Listener`] with decoded messages instead of returning
//! events.

use crate::decoder::{Decoder, Event};
use crate::encoder::{write_frame, OversizedPayload};
use crate::model::{
    dfeed, dstep, init, lemma_dfeed_concat, lemma_dfeed_destroyed, lemma_dfeed_empty,
    lemma_dfeed_unfold, DModel,
};
use crate::laws::frame_bytes;
use crate::wrappers::{bytes_as_slice, bytes_from_vec, bytes_view};
use crate::{max_or_default, Channel, MessageType, Type};
use vstd::prelude::*;

verus! {

/// What a consumer plugs into [`SimpleMessageChannels`]: called for every
/// decoded message, and for every advisory about bytes still missing.
pub trait Listener {
    /// A complete message arrived on `channel` with the given type.
    fn on_message(&mut self, channel: Channel, message_type: Type, message: bytes::Bytes);

    /// The decoder needs `len` more payload bytes than it has been fed.
    fn on_missing(&mut self, len: usize);
}

/// A send/receive endpoint over one serial byte stream: `send` frames
/// outgoing messages, `recv` feeds incoming bytes to the decoder and
/// reports each event to the listener.
pub struct SimpleMessageChannels<L> {
    listener: L,
    decoder: Decoder,
    max_size: usize,
}

impl<L: Listener> SimpleMessageChannels<L> {
    /// The state of the decoding side.
    pub closed spec fn dec(&self) -> DModel {
        self.decoder@
    }

    /// The listener the endpoint reports to.
    pub closed spec fn listener(&self) -> L {
        self.listener
    }

    /// The held decoder is well formed, and the sending side enforces the
    /// same maximum the decoding side does.
    pub closed spec fn wf(&self) -> bool {
        &&& self.decoder.wf()
        &&& self.max_size as nat == self.decoder@.max
    }

    /// A fresh endpoint around `listener`, bounding messages in both
    /// directions by `max_size` bytes (or the default when `None`).
    pub fn new(max_size: Option<usize>, listener: L) -> (r: SimpleMessageChannels<L>)
        ensures
            r.wf(),
            r.dec() == init(max_or_default(max_size)),
            r.listener() == listener,
    {
        let max = match max_size {
            Some(m) => m,
            None => crate::DEFAULT_MAX_SIZE,
        };
        SimpleMessageChannels { listener, decoder: Decoder::new(Some(max)), max_size: max }
    }

    /// Feeds one chunk of the incoming stream, reporting every decoded
    /// message and every advisory to the listener, in stream order.
    /// Returns whether the decoder survived the chunk; after `false` the
    /// endpoint must not be fed again.
    pub fn recv(&mut self, data: bytes::Bytes) -> (r: bool)
        requires
            old(self).wf(),
            !old(self).dec().destroyed,
        ensures
            final(self).wf(),
            final(self).dec() == dfeed(old(self).dec(), bytes_view(data)).state,
            r == !final(self).dec().destroyed,
    {
        let ghost m0 = self.dec();
        let ghost all = bytes_view(data);
        let n = {
            let s = bytes_as_slice(&data);
            s.len()
        };
        proof {
            lemma_dfeed_empty(m0, all.subrange(0, 0));
        }
        let mut pos: usize = 0;
        while pos < n
            invariant
                self.decoder.wf(),
                self.max_size as nat == self.decoder@.max,
                !self.decoder@.destroyed,
                n == all.len(),
                all == bytes_view(data),
                pos <= n,
                m0 == old(self).dec(),
                dfeed(m0, all.subrange(0, pos as int)).state == self.decoder@,
            decreases n - pos,
        {
            let b = {
                let s = bytes_as_slice(&data);
                s[pos]
            };
            pos = pos + 1;
            let avail = n - pos;
            let ghost pre = self.decoder@;
            let ghost consumed_pre = all.subrange(0, pos - 1);
            let ev = self.decoder.feed_byte(b, avail);
            proof {
                let consumed_now = all.subrange(0, pos as int);
                assert(consumed_now =~= consumed_pre + seq![b]);
                lemma_dfeed_concat(m0, consumed_pre, seq![b]);
                lemma_dfeed_unfold(pre, seq![b]);
                lemma_dfeed_empty(dstep(pre, b).state, seq![b].skip(1));
                assert(seq![b][0] == b);
                assert(dfeed(m0, consumed_now).state == self.decoder@);
            }
            match ev {
                None => {}
                Some(Event::Message(m)) => {
                    self.listener.on_message(m.channel, Type(m.message_type.0), m.data);
                }
                Some(Event::Missing(len)) => {
                    self.listener.on_missing(len);
                }
                Some(Event::Error(_)) => {
                    // Fatal: the rest of the chunk is dead input.
                    proof {
                        lemma_dfeed_concat(m0, all.subrange(0, pos as int), all.skip(pos as int));
                        lemma_dfeed_destroyed(self.decoder@, all.skip(pos as int));
                        assert(all.subrange(0, pos as int) + all.skip(pos as int) =~= all);
                    }
                    return false;
                }
            }
        }
        proof {
            assert(all.subrange(0, pos as int) =~= all);
        }
        true
    }

    /// Takes the endpoint apart, handing the listener back to the
    /// consumer that supplied it.
    pub fn into_listener(self) -> (r: L)
        ensures
            r == self.listener(),
    {
        self.listener
    }

    /// Frames one outgoing message, or refuses an oversized payload
    /// without producing any output.  The destroyed check guards the
    /// receiving side's contract.
    pub fn send(&mut self, channel: Channel, message_type: Type, data: &bytes::Bytes) -> (r:
        Result<bytes::Bytes, OversizedPayload>)
        requires
            old(self).wf(),
            !old(self).dec().destroyed,
            channel.0 < 128,
            message_type.0 < 16,
            bytes_view(*data).len() + 2 <= usize::MAX,
        ensures
            final(self).wf(),
            final(self).dec() == old(self).dec(),
            final(self).listener() == old(self).listener(),
            bytes_view(*data).len() > old(self).dec().max <==> r is Err,
            match r {
                Ok(frame) => bytes_view(frame) == frame_bytes(
                    channel.0 as nat,
                    message_type.0 as nat,
                    bytes_view(*data),
                ),
                Err(e) => e.len == bytes_view(*data).len() && e.max as nat == old(self).dec().max,
            },
    {
        let len = {
            let s = bytes_as_slice(data);
            s.len()
        };
        if len > self.max_size {
            return Err(OversizedPayload { len, max: self.max_size });
        }
        let out = write_frame(channel, MessageType(message_type.0), data);
        Ok(bytes_from_vec(out))
    }
}

} // verus!
