//! Incremental framing codec for a multiplexed message protocol.
//!
//! An [`Encoder`](encoder::Encoder) turns `(channel, message type,
//! payload)` triples into self-delimiting frames; a
//! [`Decoder`](decoder::Decoder) reassembles those triples from a byte
//! stream that may arrive in arbitrarily small chunks.  Each frame is a
//! length varint, a header varint packing `channel << 4 | message_type`,
//! and the payload bytes.

pub mod channels;
pub mod decoder;
pub mod encoder;
pub mod laws;
pub mod model;
pub mod varint;
pub mod wrappers;

pub use channels::{Listener, SimpleMessageChannels};
pub use decoder::{Decoder, DecoderIterator, Error, Event, Message, TooLarge};
pub use encoder::{Encoder, OversizedPayload};

use crate::laws::header_val;
use crate::model::{chan_of, type_of};
use vstd::prelude::*;

verus! {

/// The maximum payload size, in bytes, that encoder and decoder agree to
/// handle when none is configured.
pub const DEFAULT_MAX_SIZE: usize = 8 * 1024 * 1024;

/// The maximum size a constructor was given, or the default.
pub open spec fn max_or_default(max_size: Option<usize>) -> nat {
    match max_size {
        Some(m) => m as nat,
        None => DEFAULT_MAX_SIZE as nat,
    }
}

/// Identifies a logical sub-stream multiplexed onto the shared byte
/// stream.  The wire format gives the channel the bits above the 4-bit
/// message type within a 56-bit header varint; only values below 128 are
/// valid to send.
#[derive(Copy, Clone, Debug, Eq, PartialEq, Structural)]
pub struct Channel(pub u64);

/// Tag distinguishing payload kinds within a channel: 4 bits on the wire,
/// so only values below 16 are valid to send.
#[derive(Copy, Clone, Debug, Eq, PartialEq, Structural)]
pub struct Type(pub u64);

/// Tag distinguishing payload kinds within a channel: 4 bits on the wire,
/// so only values below 16 are valid to send.
#[derive(Copy, Clone, Debug, Eq, PartialEq, Structural)]
pub struct MessageType(pub u64);

/// A `(channel, message type)` pair about to be packed into one header
/// value for the wire.
#[derive(Copy, Clone, Debug, Eq, PartialEq, Structural)]
pub struct Header {
    pub channel: Channel,
    pub message_type: MessageType,
}

/// Packs a header into the single integer the wire format carries.
pub fn encode_header(header: Header) -> (r: u64)
    requires
        header.channel.0 < 128,
        header.message_type.0 < 16,
    ensures
        r as nat == header_val(header.channel.0 as nat, header.message_type.0 as nat),
        r < 2048,
{
    let c = header.channel.0;
    let t = header.message_type.0;
    assert(c << 4 | t == c * 16 + t) by (bit_vector)
        requires
            c < 128,
            t < 16,
    ;
    c << 4 | t
}

/// Unpacks a wire header value into its channel and message type.
pub fn decode_header(value: u64) -> (r: Header)
    ensures
        r.channel.0 as nat == chan_of(value as nat),
        r.message_type.0 as nat == type_of(value as nat),
{
    assert(value >> 4 == value / 16 && value & 0b1111 == value % 16) by (bit_vector);
    Header { channel: Channel(value >> 4), message_type: MessageType(value & 0b1111) }
}

} // verus!
