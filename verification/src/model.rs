//! Mathematical model of the decoder: a byte-at-a-time state machine over
//! the wire format.  The executable decoder is specified against this
//! model, and the protocol laws (round trip, fragmentation invariance,
//! ordering) are proved about it.

use crate::varint::pow128;
use vstd::prelude::*;

verus! {

/// A decoded unit or a terminal failure, as the model sees it.
///
/// `Missing` advisories are deliberately absent here: they depend on how
/// the input happened to be chunked, never on the byte stream itself.
pub ghost enum EventM {
    /// A complete decoded message.
    Message { channel: nat, message_type: nat, payload: Seq<u8> },
    /// A frame declared a payload longer than the configured maximum.
    TooLarge { channel: nat, message_type: nat, len: nat },
    /// A malformed varint (nine or more bytes), or a frame too short to
    /// hold its own header.
    InvalidHeader,
}

/// The parse phase the decoder is in between two bytes.
pub ghost enum PhaseM {
    /// Accumulating the frame-length varint: `value` collected so far from
    /// `cont` continuation bytes.
    Length { value: nat, cont: nat },
    /// Accumulating the header varint of a frame of `frame_len` total
    /// bytes (header varint plus payload).
    Header { value: nat, cont: nat, frame_len: nat },
    /// Collecting `remaining` more payload bytes of the message tagged
    /// `header`, with `buf` collected so far.
    Payload { header: nat, remaining: nat, buf: Seq<u8> },
}

/// The whole decoder state: parse phase, configured maximum payload size,
/// and whether a fatal error has destroyed the decoder.
pub ghost struct DModel {
    pub destroyed: bool,
    pub phase: PhaseM,
    pub max: nat,
}

/// What one step (or one chunk) of decoding produces: the state after it,
/// and the events emitted, in order.
pub ghost struct StepOut {
    pub state: DModel,
    pub events: Seq<EventM>,
}

/// A freshly constructed decoder with maximum message size `max`.
pub open spec fn init(max: nat) -> DModel {
    DModel { destroyed: false, phase: PhaseM::Length { value: 0, cont: 0 }, max }
}

/// The channel packed into a header value: everything above the low 4 bits.
pub open spec fn chan_of(header: nat) -> nat {
    header / 16
}

/// The message type packed into a header value: the low 4 bits.
pub open spec fn type_of(header: nat) -> nat {
    header % 16
}

/// Completion of the frame-length varint with value `v`: a zero length is
/// an idle frame, anything else opens a frame of `v` bytes.
pub open spec fn length_complete(s: DModel, v: nat) -> StepOut {
    if v == 0 {
        StepOut {
            state: DModel { phase: PhaseM::Length { value: 0, cont: 0 }, ..s },
            events: seq![],
        }
    } else {
        StepOut {
            state: DModel { phase: PhaseM::Header { value: 0, cont: 0, frame_len: v }, ..s },
            events: seq![],
        }
    }
}

/// Completion of the header varint with value `h` after `hlen` bytes of a
/// frame of `frame_len` bytes: what remains is the payload.
pub open spec fn header_complete(s: DModel, h: nat, hlen: nat, frame_len: nat) -> StepOut {
    if frame_len < hlen {
        // The frame is shorter than its own header varint.
        StepOut { state: DModel { destroyed: true, phase: PhaseM::Length { value: 0, cont: 0 }, ..s }, events: seq![EventM::InvalidHeader] }
    } else {
        let plen = (frame_len - hlen) as nat;
        if plen > s.max {
            StepOut {
                state: DModel { destroyed: true, phase: PhaseM::Length { value: 0, cont: 0 }, ..s },
                events: seq![
                    EventM::TooLarge { channel: chan_of(h), message_type: type_of(h), len: plen },
                ],
            }
        } else if plen == 0 {
            // A zero-length payload completes immediately, without waiting
            // for another byte.
            StepOut {
                state: DModel { phase: PhaseM::Length { value: 0, cont: 0 }, ..s },
                events: seq![
                    EventM::Message {
                        channel: chan_of(h),
                        message_type: type_of(h),
                        payload: seq![],
                    },
                ],
            }
        } else {
            StepOut {
                state: DModel {
                    phase: PhaseM::Payload { header: h, remaining: plen, buf: seq![] },
                    ..s
                },
                events: seq![],
            }
        }
    }
}

/// Feeding one byte to the decoder.  A destroyed decoder absorbs
/// everything and emits nothing further.
pub open spec fn dstep(s: DModel, b: u8) -> StepOut {
    if s.destroyed {
        StepOut { state: s, events: seq![] }
    } else {
        match s.phase {
            PhaseM::Length { value, cont } => {
                if b < 128 {
                    length_complete(s, value + (b as nat) * pow128(cont))
                } else if cont >= 7 {
                    // Eighth continuation byte: the varint cannot describe
                    // a value below 2^56, so the stream is malformed.
                    StepOut {
                        state: DModel { destroyed: true, phase: PhaseM::Length { value: 0, cont: 0 }, ..s },
                        events: seq![EventM::InvalidHeader],
                    }
                } else {
                    StepOut {
                        state: DModel {
                            phase: PhaseM::Length {
                                value: value + ((b - 128) as nat) * pow128(cont),
                                cont: cont + 1,
                            },
                            ..s
                        },
                        events: seq![],
                    }
                }
            }
            PhaseM::Header { value, cont, frame_len } => {
                if b < 128 {
                    header_complete(s, value + (b as nat) * pow128(cont), cont + 1, frame_len)
                } else if cont >= 7 {
                    StepOut {
                        state: DModel { destroyed: true, phase: PhaseM::Length { value: 0, cont: 0 }, ..s },
                        events: seq![EventM::InvalidHeader],
                    }
                } else {
                    StepOut {
                        state: DModel {
                            phase: PhaseM::Header {
                                value: value + ((b - 128) as nat) * pow128(cont),
                                cont: cont + 1,
                                frame_len,
                            },
                            ..s
                        },
                        events: seq![],
                    }
                }
            }
            PhaseM::Payload { header, remaining, buf } => {
                let buf2 = buf.push(b);
                if remaining <= 1 {
                    StepOut {
                        state: DModel { phase: PhaseM::Length { value: 0, cont: 0 }, ..s },
                        events: seq![
                            EventM::Message {
                                channel: chan_of(header),
                                message_type: type_of(header),
                                payload: buf2,
                            },
                        ],
                    }
                } else {
                    StepOut {
                        state: DModel {
                            phase: PhaseM::Payload {
                                header,
                                remaining: (remaining - 1) as nat,
                                buf: buf2,
                            },
                            ..s
                        },
                        events: seq![],
                    }
                }
            }
        }
    }
}

/// Feeding a whole byte sequence, byte by byte.
pub open spec fn dfeed(s: DModel, input: Seq<u8>) -> StepOut
    decreases input.len(),
{
    if input.len() == 0 {
        StepOut { state: s, events: seq![] }
    } else {
        let first = dstep(s, input[0]);
        let rest = dfeed(first.state, input.skip(1));
        StepOut { state: rest.state, events: first.events + rest.events }
    }
}

/// Feeding nothing changes nothing.
pub proof fn lemma_dfeed_empty(s: DModel, input: Seq<u8>)
    requires
        input.len() == 0,
    ensures
        dfeed(s, input) == (StepOut { state: s, events: Seq::<EventM>::empty() }),
{
    assert(dfeed(s, input).events =~= Seq::<EventM>::empty());
}

/// One step of the recursion that defines `dfeed`, spelled out.
pub proof fn lemma_dfeed_unfold(s: DModel, input: Seq<u8>)
    requires
        input.len() > 0,
    ensures
        dfeed(s, input).state == dfeed(dstep(s, input[0]).state, input.skip(1)).state,
        dfeed(s, input).events == dstep(s, input[0]).events + dfeed(
            dstep(s, input[0]).state,
            input.skip(1),
        ).events,
{
}

/// A destroyed decoder stays destroyed and emits nothing, whatever it is
/// fed.
pub proof fn lemma_dfeed_destroyed(s: DModel, input: Seq<u8>)
    requires
        s.destroyed,
    ensures
        dfeed(s, input) == (StepOut { state: s, events: seq![] }),
    decreases input.len(),
{
    if input.len() > 0 {
        lemma_dfeed_destroyed(s, input.skip(1));
        assert(dfeed(s, input).events =~= seq![]);
    }
}

/// Decoding is insensitive to chunk boundaries: feeding `a + b` is feeding
/// `a`, then feeding `b` from the state it left, with the event streams
/// concatenated.
pub proof fn lemma_dfeed_concat(s: DModel, a: Seq<u8>, b: Seq<u8>)
    ensures
        dfeed(s, a + b).state == dfeed(dfeed(s, a).state, b).state,
        dfeed(s, a + b).events == dfeed(s, a).events + dfeed(dfeed(s, a).state, b).events,
    decreases a.len(),
{
    if a.len() == 0 {
        assert(a + b =~= b);
        assert(dfeed(s, a).events + dfeed(dfeed(s, a).state, b).events =~= dfeed(s, b).events);
    } else {
        let first = dstep(s, a[0]);
        assert((a + b)[0] == a[0]);
        assert((a + b).skip(1) =~= a.skip(1) + b);
        lemma_dfeed_concat(first.state, a.skip(1), b);
        assert(dfeed(s, a + b).events =~= dfeed(s, a).events + dfeed(
            dfeed(s, a).state,
            b,
        ).events);
    }
}

} // verus!
