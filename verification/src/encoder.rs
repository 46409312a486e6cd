//! The encoder: a stateless (per call) serializer that turns `(channel,
//! message type, payload)` triples into self-contained frames.

use crate::laws::frame_bytes;
use crate::varint::{lemma_varint_enc_len, pow128, required_space, varint_enc, write_varint};
use crate::wrappers::{bytes_as_slice, bytes_from_vec, bytes_view};
use crate::{encode_header, max_or_default, Channel, Header, MessageType, DEFAULT_MAX_SIZE};
use vstd::prelude::*;

verus! {

/// The encoder-side failure: the caller asked to send a payload larger
/// than the configured maximum.  Local and recoverable — the encoder
/// stays usable.
#[derive(Copy, Clone, Debug, Eq, PartialEq, Structural)]
pub struct OversizedPayload {
    /// The length of the rejected payload.
    pub len: usize,
    /// The configured maximum it exceeds.
    pub max: usize,
}

/// Serializes messages into frames.  Holds nothing but the configured
/// maximum payload size.
pub struct Encoder {
    max_size: usize,
}

impl View for Encoder {
    type V = nat;

    closed spec fn view(&self) -> nat {
        self.max_size as nat
    }
}

/// Builds one complete frame: length varint, header varint, payload.
pub(crate) fn write_frame(channel: Channel, message_type: MessageType, data: &bytes::Bytes) -> (out:
    Vec<u8>)
    requires
        channel.0 < 128,
        message_type.0 < 16,
        bytes_view(*data).len() + 2 <= usize::MAX,
    ensures
        out@ == frame_bytes(channel.0 as nat, message_type.0 as nat, bytes_view(*data)),
{
    let header = encode_header(Header { channel, message_type });
    proof {
        assert(pow128(2) == 16384) by {
            reveal_with_fuel(pow128, 3);
        }
        lemma_varint_enc_len(header as nat, 2);
    }
    let hs = required_space(header);
    let s = bytes_as_slice(data);
    let length = s.len() + hs;
    let mut out: Vec<u8> = Vec::new();
    write_varint(&mut out, length as u64);
    write_varint(&mut out, header);
    let ghost prefix = varint_enc(length as nat) + varint_enc(header as nat);
    proof {
        assert(out@ =~= prefix);
    }
    let mut i: usize = 0;
    while i < s.len()
        invariant
            i <= s@.len(),
            s@ == bytes_view(*data),
            out@ == prefix + s@.take(i as int),
        decreases s@.len() - i,
    {
        out.push(s[i]);
        i = i + 1;
        proof {
            assert(s@.take(i as int) =~= s@.take(i - 1).push(s@[i - 1]));
            assert(out@ =~= prefix + s@.take(i as int));
        }
    }
    proof {
        assert(s@.take(s@.len() as int) =~= s@);
        assert(out@ =~= frame_bytes(channel.0 as nat, message_type.0 as nat, bytes_view(*data)));
    }
    out
}

impl Encoder {
    /// A fresh encoder that will refuse payloads above `max_size` bytes
    /// (or above the default when `None`).
    pub fn new(max_size: Option<usize>) -> (r: Encoder)
        ensures
            r@ == max_or_default(max_size),
    {
        let max_size = match max_size {
            Some(m) => m,
            None => DEFAULT_MAX_SIZE,
        };
        Encoder { max_size }
    }

    /// Encodes one message as a complete frame, or refuses an oversized
    /// payload without producing any output.
    pub fn send(&mut self, channel: Channel, message_type: MessageType, data: &bytes::Bytes) -> (r:
        Result<bytes::Bytes, OversizedPayload>)
        requires
            channel.0 < 128,
            message_type.0 < 16,
            bytes_view(*data).len() + 2 <= usize::MAX,
        ensures
            *final(self) == *old(self),
            bytes_view(*data).len() > old(self)@ <==> r is Err,
            match r {
                Ok(frame) => bytes_view(frame) == frame_bytes(
                    channel.0 as nat,
                    message_type.0 as nat,
                    bytes_view(*data),
                ),
                Err(e) => e.len == bytes_view(*data).len() && e.max as nat == old(self)@,
            },
    {
        let len = {
            let s = bytes_as_slice(data);
            s.len()
        };
        if len > self.max_size {
            return Err(OversizedPayload { len, max: self.max_size });
        }
        let out = write_frame(channel, message_type, data);
        Ok(bytes_from_vec(out))
    }
}

} // verus!
