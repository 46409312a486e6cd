//! The decoder: an incremental state machine that consumes byte chunks of
//! arbitrary size across repeated calls and emits completed messages,
//! progress advisories and terminal errors.

use crate::model::{
    dfeed, dstep, init, lemma_dfeed_concat, lemma_dfeed_empty, lemma_dfeed_unfold, DModel, EventM,
    PhaseM, StepOut,
};
use crate::varint::{lemma_pow128_8, lemma_pow128_mono, pow128};
use crate::wrappers::{bytes_as_slice, bytes_from_vec, bytes_view, u64_to_usize};
use crate::{decode_header, max_or_default, Channel, MessageType, DEFAULT_MAX_SIZE};
use vstd::prelude::*;

verus! {

/// The decoded unit: channel, message type, and the payload as an
/// exclusively owned byte sequence.
#[derive(Clone, Debug, Eq, PartialEq)]
pub struct Message {
    pub channel: Channel,
    pub message_type: MessageType,
    pub data: bytes::Bytes,
}

impl View for Message {
    type V = EventM;

    open spec fn view(&self) -> EventM {
        EventM::Message {
            channel: self.channel.0 as nat,
            message_type: self.message_type.0 as nat,
            payload: bytes_view(self.data),
        }
    }
}

/// A fatal oversize: a frame declared `len` payload bytes for
/// `(channel, message_type)`, more than the configured maximum.
#[derive(Clone, Debug, Eq, PartialEq)]
pub struct TooLarge {
    channel: Channel,
    message_type: MessageType,
    len: u64,
}

impl View for TooLarge {
    type V = EventM;

    closed spec fn view(&self) -> EventM {
        EventM::TooLarge {
            channel: self.channel.0 as nat,
            message_type: self.message_type.0 as nat,
            len: self.len as nat,
        }
    }
}

/// A fatal decoding failure; the decoder that reported it is destroyed.
#[derive(Clone, Debug, Eq, PartialEq)]
pub enum Error {
    /// A frame declared a payload above the configured maximum.
    TooLarge(TooLarge),
    /// A malformed varint, or a frame shorter than its own header.
    InvalidHeader,
}

impl View for Error {
    type V = EventM;

    open spec fn view(&self) -> EventM {
        match self {
            Error::TooLarge(t) => t@,
            Error::InvalidHeader => EventM::InvalidHeader,
        }
    }
}

/// What one `recv` call can yield.
#[derive(Clone, Debug, Eq, PartialEq)]
pub enum Event {
    /// A complete decoded message.
    Message(Message),
    /// Advisory only: this many more payload bytes are needed than the
    /// current chunk still holds.
    Missing(usize),
    /// Fatal: the decoder is destroyed and must not be fed again.
    Error(Error),
}

/// The parse phase, kept alongside the shared accumulator fields.
enum State {
    Length,
    Header,
    Payload,
}

/// The incremental decoder.  Between any two calls its state says exactly
/// how many bytes of what kind are still needed, so feeding can resume
/// from any chunk boundary.
pub struct Decoder {
    destroyed: bool,
    error: Option<Error>,
    message: Option<Vec<u8>>,
    varint: u64,
    factor: u64,
    length: u64,
    header: u64,
    state: State,
    consumed: u64,
    max_size: usize,
}

impl View for Decoder {
    type V = DModel;

    closed spec fn view(&self) -> DModel {
        DModel {
            destroyed: self.destroyed,
            max: self.max_size as nat,
            phase: match self.state {
                State::Length => PhaseM::Length {
                    value: self.varint as nat,
                    cont: self.consumed as nat,
                },
                State::Header => PhaseM::Header {
                    value: self.varint as nat,
                    cont: self.consumed as nat,
                    frame_len: self.length as nat,
                },
                State::Payload => PhaseM::Payload {
                    header: self.header as nat,
                    remaining: self.length as nat,
                    buf: match self.message {
                        Some(v) => v@,
                        None => Seq::empty(),
                    },
                },
            },
        }
    }
}

/// Accumulating one more 7-bit group keeps the running value below the
/// next positional weight.
proof fn lemma_acc_bound(value: nat, cont: nat, d: nat)
    requires
        value < pow128(cont),
        d < 128,
    ensures
        value + d * pow128(cont) < pow128(cont + 1),
{
    assert(value + d * pow128(cont) < pow128(cont + 1)) by (nonlinear_arith)
        requires
            value < pow128(cont),
            d < 128,
            pow128(cont + 1) == 128 * pow128(cont),
    ;
}

/// Whether consuming byte `j` of `input`, fed from state `s0`, completes
/// a header into a payload that needs more bytes than `input` still holds
/// after it — the moment a `Missing` advisory is due.
pub open spec fn missing_due_at(s0: DModel, input: Seq<u8>, j: int) -> bool {
    let pre = dfeed(s0, input.take(j)).state;
    let post = dstep(pre, input[j]).state;
    &&& pre.phase is Header
    &&& (post.phase matches PhaseM::Payload { remaining, .. } && remaining + j + 1 > input.len())
}

impl Decoder {
    /// Internal well-formedness: the accumulator fields agree with what
    /// the model expects between two bytes.
    pub closed spec fn wf(&self) -> bool {
        &&& (self.destroyed <==> self.error is Some)
        &&& (self.destroyed || {
            &&& self.consumed <= 7
            &&& self.factor as nat == pow128(self.consumed as nat)
            &&& (self.varint as nat) < pow128(self.consumed as nat)
            &&& match self.state {
                State::Length => self.message is None,
                State::Header => {
                    &&& self.message is None
                    &&& 1 <= self.length
                    &&& (self.length as nat) < pow128(8)
                },
                State::Payload => {
                    &&& self.varint == 0
                    &&& self.consumed == 0
                    &&& 1 <= self.length
                    &&& (match self.message {
                        Some(v) => v@.len(),
                        None => 0,
                    }) + self.length <= self.max_size
                    &&& (self.header as nat) < pow128(8)
                },
            }
        })
    }

    /// The view of the stored fatal error, if any.
    pub closed spec fn fatal_event(&self) -> Option<EventM> {
        match self.error {
            Some(e) => Some(e@),
            None => None,
        }
    }

    /// The error that destroyed the decoder, if any.
    pub fn last_error(&self) -> (r: &Option<Error>)
        requires
            self.wf(),
        ensures
            (*r) is Some <==> self@.destroyed,
            (match *r {
                Some(e) => Some(e@),
                None => None,
            }) == self.fatal_event(),
    {
        &self.error
    }

    /// A fresh decoder that will refuse to buffer messages above
    /// `max_size` bytes (or above the default when `None`).
    pub fn new(max_size: Option<usize>) -> (r: Decoder)
        ensures
            r.wf(),
            r@ == init(max_or_default(max_size)),
    {
        let max_size = match max_size {
            Some(m) => m,
            None => DEFAULT_MAX_SIZE,
        };
        Decoder {
            destroyed: false,
            error: None,
            message: None,
            varint: 0,
            factor: 1,
            length: 0,
            header: 0,
            state: State::Length,
            consumed: 0,
            max_size,
        }
    }

    /// Records the fatal error and renders the decoder unusable.
    fn destroy(&mut self, err: Error)
        ensures
            final(self).wf(),
            final(self)@ == (DModel {
                destroyed: true,
                phase: PhaseM::Length { value: 0, cont: 0 },
                max: old(self)@.max,
            }),
            final(self).fatal_event() == Some(err@),
    {
        self.error = Some(err);
        self.destroyed = true;
        self.varint = 0;
        self.consumed = 0;
        self.factor = 1;
        self.state = State::Length;
        self.message = None;
    }

    /// Feeds a single byte.  `avail` is how many input bytes the current
    /// chunk still holds after this one; it only steers the `Missing`
    /// advisory, never the decoding itself.
    pub(crate) fn feed_byte(&mut self, b: u8, avail: usize) -> (r: Option<Event>)
        requires
            old(self).wf(),
            !old(self)@.destroyed,
        ensures
            final(self).wf(),
            final(self)@ == dstep(old(self)@, b).state,
            match r {
                None => dstep(old(self)@, b).events == Seq::<EventM>::empty() && !final(self)@.destroyed,
                Some(Event::Missing(n)) => dstep(old(self)@, b).events == Seq::<EventM>::empty()
                    && !final(self)@.destroyed && (final(self)@.phase matches PhaseM::Payload {
                    remaining,
                    buf,
                    ..
                } && buf.len() == 0 && remaining == n + avail && n >= 1),
                Some(Event::Message(m)) => dstep(old(self)@, b).events == seq![m@] && !final(self)@.destroyed,
                Some(Event::Error(e)) => dstep(old(self)@, b).events == seq![e@] && final(self)@.destroyed
                    && final(self).fatal_event() == Some(e@),
            },
            r matches Some(Event::Missing(_)) <==> (old(self)@.phase is Header && (final(self)@.phase matches PhaseM::Payload { remaining, .. } && remaining > avail)),
    {
        proof {
            lemma_pow128_8();
            lemma_pow128_mono(self.consumed as nat, 7);
        }
        match self.state {
            State::Length => {
                if b < 128 {
                    proof {
                        lemma_acc_bound(self.varint as nat, self.consumed as nat, b as nat);
                        lemma_pow128_mono(self.consumed as nat + 1, 8);
                    }
                    let v = self.varint + (b as u64) * self.factor;
                    self.varint = 0;
                    self.consumed = 0;
                    self.factor = 1;
                    if v == 0 {
                        None
                    } else {
                        self.length = v;
                        self.state = State::Header;
                        None
                    }
                } else if self.consumed >= 7 {
                    self.destroy(Error::InvalidHeader);
                    Some(Event::Error(Error::InvalidHeader))
                } else {
                    proof {
                        lemma_acc_bound(self.varint as nat, self.consumed as nat, (b - 128) as nat);
                        lemma_pow128_mono(self.consumed as nat + 1, 7);
                    }
                    self.varint = self.varint + ((b - 128) as u64) * self.factor;
                    self.consumed = self.consumed + 1;
                    self.factor = self.factor * 128;
                    None
                }
            }
            State::Header => {
                if b < 128 {
                    proof {
                        lemma_acc_bound(self.varint as nat, self.consumed as nat, b as nat);
                        lemma_pow128_mono(self.consumed as nat + 1, 8);
                    }
                    let h = self.varint + (b as u64) * self.factor;
                    let hlen = self.consumed + 1;
                    if self.length < hlen {
                        self.destroy(Error::InvalidHeader);
                        return Some(Event::Error(Error::InvalidHeader));
                    }
                    let plen = self.length - hlen;
                    let hd = decode_header(h);
                    match u64_to_usize(plen) {
                        None => {
                            // The declared payload cannot even be
                            // addressed, let alone fit the maximum.
                            self.destroy(Error::TooLarge(TooLarge {
                                channel: hd.channel,
                                message_type: hd.message_type,
                                len: plen,
                            }));
                            Some(Event::Error(Error::TooLarge(TooLarge {
                                channel: hd.channel,
                                message_type: hd.message_type,
                                len: plen,
                            })))
                        }
                        Some(pl) => {
                            if pl > self.max_size {
                                self.destroy(Error::TooLarge(TooLarge {
                                    channel: hd.channel,
                                    message_type: hd.message_type,
                                    len: plen,
                                }));
                                Some(Event::Error(Error::TooLarge(TooLarge {
                                    channel: hd.channel,
                                    message_type: hd.message_type,
                                    len: plen,
                                })))
                            } else {
                                self.varint = 0;
                                self.consumed = 0;
                                self.factor = 1;
                                if pl == 0 {
                                    // A zero-length payload completes
                                    // immediately, with no further input.
                                    self.state = State::Length;
                                    let data = bytes_from_vec(Vec::new());
                                    Some(Event::Message(Message {
                                        channel: hd.channel,
                                        message_type: hd.message_type,
                                        data,
                                    }))
                                } else {
                                    self.header = h;
                                    self.length = plen;
                                    self.state = State::Payload;
                                    if pl > avail {
                                        Some(Event::Missing(pl - avail))
                                    } else {
                                        None
                                    }
                                }
                            }
                        }
                    }
                } else if self.consumed >= 7 {
                    self.destroy(Error::InvalidHeader);
                    Some(Event::Error(Error::InvalidHeader))
                } else {
                    proof {
                        lemma_acc_bound(self.varint as nat, self.consumed as nat, (b - 128) as nat);
                        lemma_pow128_mono(self.consumed as nat + 1, 7);
                    }
                    self.varint = self.varint + ((b - 128) as u64) * self.factor;
                    self.consumed = self.consumed + 1;
                    self.factor = self.factor * 128;
                    None
                }
            }
            State::Payload => {
                let mut buf: Vec<u8> = match self.message.take() {
                    Some(v) => v,
                    None => Vec::new(),
                };
                buf.push(b);
                if self.length == 1 {
                    self.state = State::Length;
                    let hd = decode_header(self.header);
                    let data = bytes_from_vec(buf);
                    Some(Event::Message(Message {
                        channel: hd.channel,
                        message_type: hd.message_type,
                        data,
                    }))
                } else {
                    self.length = self.length - 1;
                    self.message = Some(buf);
                    None
                }
            }
        }
    }

    /// Hands the decoder and a chunk of input to an iterator that pulls
    /// the chunk's events one at a time.  `into_inner` on the iterator
    /// returns the decoder for the next chunk.
    pub fn messages(self, data: bytes::Bytes) -> (it: DecoderIterator)
        requires
            self.wf(),
        ensures
            it.wf(),
            it.dec() == self@,
            it.input() == bytes_view(data),
    {
        let it = DecoderIterator { decoder: self, bytes: data, pos: 0 };
        proof {
            assert(bytes_view(it.bytes).skip(0) =~= bytes_view(it.bytes));
        }
        it
    }
}

/// Pulls the events of one chunk out of a decoder, one `recv` at a time.
pub struct DecoderIterator {
    decoder: Decoder,
    bytes: bytes::Bytes,
    pos: usize,
}

impl DecoderIterator {
    /// The decoder state the iterator currently holds.
    pub closed spec fn dec(&self) -> DModel {
        self.decoder@
    }

    /// The input bytes not yet consumed.
    pub closed spec fn input(&self) -> Seq<u8> {
        bytes_view(self.bytes).skip(self.pos as int)
    }

    /// The view of the fatal error the held decoder stores, if any.
    pub closed spec fn fatal_event(&self) -> Option<EventM> {
        self.decoder.fatal_event()
    }

    /// The held decoder is well formed and the cursor is in bounds.
    pub closed spec fn wf(&self) -> bool {
        &&& self.decoder.wf()
        &&& self.pos <= bytes_view(self.bytes).len()
    }

    /// Gives the decoder back, to be fed the next chunk.
    pub fn into_inner(self) -> (d: Decoder)
        requires
            self.wf(),
        ensures
            d.wf(),
            d@ == self.dec(),
            d.fatal_event() == self.fatal_event(),
    {
        self.decoder
    }

    /// Consumes input until it produces the next event, or returns `None`
    /// with the chunk exhausted.  The consumed prefix drives the decoder
    /// exactly as the model says and carries exactly the returned message
    /// or error event; a due `Missing` advisory — a header completing
    /// into a payload needing more than the chunk still holds — is never
    /// passed over.
    pub fn recv(&mut self) -> (r: Option<Event>)
        requires
            old(self).wf(),
            !old(self).dec().destroyed,
        ensures
            final(self).wf(),
            final(self).input().len() <= old(self).input().len(),
            final(self).input() == old(self).input().skip(
                old(self).input().len() - final(self).input().len(),
            ),
            ({
                let m0 = old(self).dec();
                let b0 = old(self).input();
                let k = b0.len() - final(self).input().len();
                let fed = dfeed(m0, b0.take(k));
                &&& fed.state == final(self).dec()
                &&& match r {
                    None => final(self).input().len() == 0 && fed.events == Seq::<EventM>::empty()
                        && (forall|j: int| 0 <= j < k ==> !missing_due_at(m0, b0, j)),
                    Some(Event::Missing(n)) => fed.events == Seq::<EventM>::empty() && !final(self).dec().destroyed && (final(self).dec().phase matches PhaseM::Payload {
                        remaining,
                        buf,
                        ..
                    } && buf.len() == 0 && remaining == n + final(self).input().len() && n >= 1)
                        && k >= 1 && missing_due_at(m0, b0, k - 1) && (forall|j: int|
                        0 <= j < k - 1 ==> !missing_due_at(m0, b0, j)),
                    Some(Event::Message(m)) => fed.events == seq![m@] && !final(self).dec().destroyed && (forall|j: int| 0 <= j < k ==> !missing_due_at(m0, b0, j)),
                    Some(Event::Error(e)) => fed.events == seq![e@] && final(self).dec().destroyed
                        && final(self).fatal_event() == Some(e@) && k >= 1 && (forall|j: int|
                        0 <= j < k - 1 ==> !missing_due_at(m0, b0, j)),
                }
            }),
    {
        let ghost m0 = self.dec();
        let ghost start = self.pos as int;
        let ghost b0 = old(self).input();
        let n = {
            let s = bytes_as_slice(&self.bytes);
            s.len()
        };
        proof {
            lemma_dfeed_empty(m0, b0.take(0));
        }
        while self.pos < n
            invariant
                self.decoder.wf(),
                !self.decoder@.destroyed,
                self.bytes == old(self).bytes,
                n == bytes_view(self.bytes).len(),
                start == old(self).pos as int,
                start <= self.pos <= n,
                m0 == old(self).dec(),
                b0 == bytes_view(self.bytes).skip(start),
                dfeed(m0, b0.take(self.pos - start)) == (StepOut {
                    state: self.decoder@,
                    events: Seq::<EventM>::empty(),
                }),
                forall|j: int| 0 <= j < self.pos - start ==> !missing_due_at(m0, b0, j),
            decreases n - self.pos,
        {
            let b = {
                let s = bytes_as_slice(&self.bytes);
                s[self.pos]
            };
            self.pos = self.pos + 1;
            let avail = n - self.pos;
            let ghost i = self.pos - 1 - start;
            let ghost pre = self.decoder@;
            proof {
                assert(b == b0[i]);
            }
            let ev = self.decoder.feed_byte(b, avail);
            proof {
                assert(b0.take(i + 1) =~= b0.take(i) + seq![b]);
                lemma_dfeed_concat(m0, b0.take(i), seq![b]);
                lemma_dfeed_unfold(pre, seq![b]);
                lemma_dfeed_empty(dstep(pre, b).state, seq![b].skip(1));
                assert(seq![b][0] == b);
                assert(dfeed(m0, b0.take(i + 1)).state == self.decoder@);
                assert(dfeed(m0, b0.take(i + 1)).events =~= dstep(pre, b).events);
                assert(b0.len() == n - start);
                // A Missing advisory is due at this byte exactly when
                // feed_byte reports one.
                assert(missing_due_at(m0, b0, i) <==> (pre.phase is Header
                    && (self.decoder@.phase matches PhaseM::Payload { remaining, .. }
                    && remaining > avail)));
                assert(self.input() =~= b0.skip(i + 1));
                assert(old(self).input().take(old(self).input().len() - self.input().len())
                    =~= b0.take(i + 1));
                assert(self.input() =~= old(self).input().skip(
                    old(self).input().len() - self.input().len(),
                ));
            }
            if let Some(e) = ev {
                proof {
                    if !(e matches Event::Missing(_)) {
                        assert(!missing_due_at(m0, b0, i));
                        assert(forall|j: int| 0 <= j < i + 1 ==> !missing_due_at(m0, b0, j));
                    }
                }
                return Some(e);
            }
            proof {
                assert(dfeed(m0, b0.take(i + 1)).events =~= Seq::<EventM>::empty());
                assert(!missing_due_at(m0, b0, i));
                assert(forall|j: int| 0 <= j < self.pos - start ==> !missing_due_at(m0, b0, j));
            }
        }
        proof {
            assert(self.input() =~= Seq::<u8>::empty());
            assert(b0.take(self.pos - start) =~= b0);
            assert(old(self).input().take(old(self).input().len() - self.input().len())
                =~= b0.take(self.pos - start));
            assert(self.input() =~= old(self).input().skip(
                old(self).input().len() - self.input().len(),
            ));
        }
        None
    }
}

} // verus!
