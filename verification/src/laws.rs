//! The protocol laws, proved against the decoder model: what feeding an
//! encoded frame (or any split of one) to the model yields.

use crate::model::{
    chan_of, dfeed, dstep, header_complete, init, length_complete, lemma_dfeed_concat,
    lemma_dfeed_destroyed, lemma_dfeed_empty, lemma_dfeed_unfold, type_of, DModel, EventM,
    PhaseM, StepOut,
};
use crate::varint::{lemma_pow128_8, lemma_varint_enc_len, lemma_varint_enc_len_pos, pow128,
    varint_enc};
use vstd::prelude::*;

verus! {

/// The header value that packs a channel and a message type.
pub open spec fn header_val(channel: nat, message_type: nat) -> nat {
    channel * 16 + message_type
}

/// One complete frame on the wire: length varint, header varint, payload.
pub open spec fn frame_bytes(channel: nat, message_type: nat, payload: Seq<u8>) -> Seq<u8> {
    let h = header_val(channel, message_type);
    varint_enc(varint_enc(h).len() + payload.len()) + varint_enc(h) + payload
}

/// Feeding the encoding of `n` into a length varint in progress
/// accumulates `n` at the current position and completes the varint.
proof fn lemma_feed_varint_length(s: DModel, value: nat, cont: nat, n: nat)
    requires
        !s.destroyed,
        s.phase == (PhaseM::Length { value, cont }),
        varint_enc(n).len() + cont <= 8,
    ensures
        dfeed(s, varint_enc(n)) == length_complete(s, value + n * pow128(cont)),
    decreases n,
{
    let enc = varint_enc(n);
    if n < 128 {
        assert(enc =~= seq![n as u8]);
        let out = dstep(s, n as u8);
        lemma_dfeed_unfold(s, enc);
        lemma_dfeed_empty(out.state, enc.skip(1));
        assert(dfeed(s, enc).events =~= out.events);
        assert(dfeed(s, enc) == out);
    } else {
        let b: u8 = (128 + n % 128) as u8;
        assert(enc[0] == b);
        lemma_varint_enc_len_pos(n / 128);
        assert(enc.len() >= 2);
        assert(cont + 1 <= 7);
        let value2 = value + (n % 128) * pow128(cont);
        assert((b - 128) as nat == n % 128);
        let s2 = DModel {
            phase: PhaseM::Length { value: value2, cont: cont + 1 },
            ..s
        };
        assert(dstep(s, b).state == s2);
        lemma_dfeed_unfold(s, enc);
        assert(enc.skip(1) =~= varint_enc(n / 128));
        lemma_feed_varint_length(s2, value2, cont + 1, n / 128);
        assert(value2 + (n / 128) * pow128(cont + 1) == value + n * pow128(cont))
            by (nonlinear_arith)
            requires
                value2 == value + (n % 128) * pow128(cont),
                pow128(cont + 1) == 128 * pow128(cont),
        ;
        assert(dfeed(s, enc).events =~= length_complete(s, value + n * pow128(cont)).events);
    }
}

/// The same, for the header varint of a frame of `frame_len` bytes.
proof fn lemma_feed_varint_header(s: DModel, value: nat, cont: nat, frame_len: nat, n: nat)
    requires
        !s.destroyed,
        s.phase == (PhaseM::Header { value, cont, frame_len }),
        varint_enc(n).len() + cont <= 8,
    ensures
        dfeed(s, varint_enc(n)) == header_complete(
            s,
            value + n * pow128(cont),
            cont + varint_enc(n).len(),
            frame_len,
        ),
    decreases n,
{
    let enc = varint_enc(n);
    if n < 128 {
        assert(enc =~= seq![n as u8]);
        let out = dstep(s, n as u8);
        lemma_dfeed_unfold(s, enc);
        lemma_dfeed_empty(out.state, enc.skip(1));
        assert(dfeed(s, enc).events =~= out.events);
        assert(dfeed(s, enc) == out);
    } else {
        let b: u8 = (128 + n % 128) as u8;
        assert(enc[0] == b);
        lemma_varint_enc_len_pos(n / 128);
        assert(enc.len() >= 2);
        assert(cont + 1 <= 7);
        let value2 = value + (n % 128) * pow128(cont);
        assert((b - 128) as nat == n % 128);
        let s2 = DModel {
            phase: PhaseM::Header { value: value2, cont: cont + 1, frame_len },
            ..s
        };
        assert(dstep(s, b).state == s2);
        lemma_dfeed_unfold(s, enc);
        assert(enc.skip(1) =~= varint_enc(n / 128));
        lemma_feed_varint_header(s2, value2, cont + 1, frame_len, n / 128);
        assert(value2 + (n / 128) * pow128(cont + 1) == value + n * pow128(cont))
            by (nonlinear_arith)
            requires
                value2 == value + (n % 128) * pow128(cont),
                pow128(cont + 1) == 128 * pow128(cont),
        ;
        assert(dfeed(s, enc).events =~= header_complete(
            s,
            value + n * pow128(cont),
            cont + enc.len(),
            frame_len,
        ).events);
    }
}

/// Feeding payload bytes accumulates them, and completes the message
/// exactly when the declared count has arrived.
proof fn lemma_feed_payload(s: DModel, header: nat, remaining: nat, buf: Seq<u8>, bs: Seq<u8>)
    requires
        !s.destroyed,
        s.phase == (PhaseM::Payload { header, remaining, buf }),
        1 <= remaining,
        bs.len() <= remaining,
    ensures
        bs.len() < remaining ==> dfeed(s, bs) == (StepOut {
            state: DModel {
                phase: PhaseM::Payload {
                    header,
                    remaining: (remaining - bs.len()) as nat,
                    buf: buf + bs,
                },
                ..s
            },
            events: seq![],
        }),
        bs.len() == remaining ==> dfeed(s, bs) == (StepOut {
            state: DModel { phase: PhaseM::Length { value: 0, cont: 0 }, ..s },
            events: seq![
                EventM::Message {
                    channel: chan_of(header),
                    message_type: type_of(header),
                    payload: buf + bs,
                },
            ],
        }),
    decreases bs.len(),
{
    if bs.len() == 0 {
        lemma_dfeed_empty(s, bs);
        assert(buf + bs =~= buf);
    } else {
        let b = bs[0];
        let out = dstep(s, b);
        lemma_dfeed_unfold(s, bs);
        if remaining == 1 {
            assert(bs.len() == 1);
            lemma_dfeed_empty(out.state, bs.skip(1));
            assert(buf.push(b) =~= buf + bs);
            assert(dfeed(s, bs).events =~= out.events);
        } else {
            let s2 = DModel {
                phase: PhaseM::Payload {
                    header,
                    remaining: (remaining - 1) as nat,
                    buf: buf.push(b),
                },
                ..s
            };
            assert(out.state == s2);
            lemma_feed_payload(s2, header, (remaining - 1) as nat, buf.push(b), bs.skip(1));
            assert(buf.push(b) + bs.skip(1) =~= buf + bs);
            assert(dfeed(s, bs).events =~= dfeed(s2, bs.skip(1)).events);
        }
    }
}

/// Decoding one well-formed frame from a clean between-frames state yields
/// exactly its message and returns the decoder to that same state.
pub proof fn lemma_decode_frame(s: DModel, channel: nat, message_type: nat, payload: Seq<u8>)
    requires
        !s.destroyed,
        s.phase == (PhaseM::Length { value: 0nat, cont: 0nat }),
        message_type < 16,
        header_val(channel, message_type) < pow128(8),
        varint_enc(header_val(channel, message_type)).len() + payload.len() < pow128(8),
        payload.len() <= s.max,
    ensures
        dfeed(s, frame_bytes(channel, message_type, payload)) == (StepOut {
            state: s,
            events: seq![EventM::Message { channel, message_type, payload }],
        }),
{
    let h = header_val(channel, message_type);
    let ench = varint_enc(h);
    let frame_len = ench.len() + payload.len();
    let encl = varint_enc(frame_len);
    let frame = frame_bytes(channel, message_type, payload);

    assert(h / 16 == channel && h % 16 == message_type) by (nonlinear_arith)
        requires
            h == channel * 16 + message_type,
            message_type < 16,
    ;
    lemma_varint_enc_len(frame_len, 8);
    lemma_varint_enc_len(h, 8);

    assert(frame =~= encl + (ench + payload));
    lemma_dfeed_concat(s, encl, ench + payload);
    lemma_feed_varint_length(s, 0, 0, frame_len);
    let s1 = length_complete(s, frame_len).state;
    assert(s1 == DModel {
        phase: PhaseM::Header { value: 0, cont: 0, frame_len },
        ..s
    });
    lemma_dfeed_concat(s1, ench, payload);
    lemma_feed_varint_header(s1, 0, 0, frame_len, h);
    let hc = header_complete(s1, h, ench.len(), frame_len);
    if payload.len() == 0 {
        assert(payload =~= Seq::<u8>::empty());
        lemma_dfeed_empty(hc.state, payload);
        assert(seq![EventM::Message { channel, message_type, payload: seq![] }]
            =~= seq![EventM::Message { channel, message_type, payload }]);
        assert(dfeed(s, frame).events =~= seq![EventM::Message { channel, message_type, payload }]);
    } else {
        assert(hc.state == DModel {
            phase: PhaseM::Payload { header: h, remaining: payload.len(), buf: seq![] },
            ..s
        });
        lemma_feed_payload(hc.state, h, payload.len(), Seq::<u8>::empty(), payload);
        assert(Seq::<u8>::empty() + payload =~= payload);
        assert(dfeed(s, frame).events =~= seq![EventM::Message { channel, message_type, payload }]);
    }
}

/// ROUND TRIP: any valid triple, encoded as a frame and decoded from a
/// fresh decoder, yields exactly one message event equal to the triple and
/// leaves the decoder fresh again.
pub proof fn lemma_round_trip(max: nat, channel: nat, message_type: nat, payload: Seq<u8>)
    requires
        channel < 128,
        message_type < 16,
        payload.len() <= max,
        payload.len() + 2 < pow128(8),
    ensures
        dfeed(init(max), frame_bytes(channel, message_type, payload)) == (StepOut {
            state: init(max),
            events: seq![EventM::Message { channel, message_type, payload }],
        }),
{
    let h = header_val(channel, message_type);
    lemma_pow128_8();
    assert(pow128(2) == 16384) by {
        reveal_with_fuel(pow128, 3);
    }
    lemma_varint_enc_len(h, 2);
    lemma_decode_frame(init(max), channel, message_type, payload);
}

/// Feeding a sequence of chunks, one after the other.
pub open spec fn dfeed_chunks(s: DModel, chunks: Seq<Seq<u8>>) -> StepOut
    decreases chunks.len(),
{
    if chunks.len() == 0 {
        StepOut { state: s, events: seq![] }
    } else {
        let first = dfeed(s, chunks[0]);
        let rest = dfeed_chunks(first.state, chunks.skip(1));
        StepOut { state: rest.state, events: first.events + rest.events }
    }
}

/// FRAGMENTATION INVARIANCE: however a byte stream is partitioned into
/// consecutive chunks, feeding the chunks in order ends in the same state
/// and yields the same events as feeding the whole stream at once.
pub proof fn lemma_fragmentation_invariance(s: DModel, chunks: Seq<Seq<u8>>)
    ensures
        dfeed_chunks(s, chunks) == dfeed(s, chunks.flatten()),
    decreases chunks.len(),
{
    if chunks.len() == 0 {
        assert(chunks.flatten() =~= Seq::<u8>::empty());
        lemma_dfeed_empty(s, chunks.flatten());
        assert(dfeed_chunks(s, chunks).events =~= dfeed(s, chunks.flatten()).events);
    } else {
        let first = dfeed(s, chunks[0]);
        lemma_fragmentation_invariance(first.state, chunks.skip(1));
        lemma_dfeed_concat(s, chunks[0], chunks.skip(1).flatten());
        assert(chunks.flatten() =~= chunks[0] + chunks.skip(1).flatten());
        assert(dfeed_chunks(s, chunks).events =~= dfeed(s, chunks.flatten()).events);
    }
}

/// One application-level send: a channel, a message type and a payload.
pub ghost struct SendM {
    pub channel: nat,
    pub message_type: nat,
    pub payload: Seq<u8>,
}

/// A send the encoder accepts and a frame the decoder can represent.
pub open spec fn valid_send(m: SendM, max: nat) -> bool {
    &&& m.channel < 128
    &&& m.message_type < 16
    &&& m.payload.len() <= max
    &&& m.payload.len() + 2 < pow128(8)
}

/// The concatenated wire bytes of a sequence of sends.
pub open spec fn frames_of(msgs: Seq<SendM>) -> Seq<u8>
    decreases msgs.len(),
{
    if msgs.len() == 0 {
        Seq::empty()
    } else {
        frame_bytes(msgs[0].channel, msgs[0].message_type, msgs[0].payload) + frames_of(
            msgs.skip(1),
        )
    }
}

/// The message events a sequence of sends should decode to, in order.
pub open spec fn messages_of(msgs: Seq<SendM>) -> Seq<EventM>
    decreases msgs.len(),
{
    if msgs.len() == 0 {
        Seq::empty()
    } else {
        seq![
            EventM::Message {
                channel: msgs[0].channel,
                message_type: msgs[0].message_type,
                payload: msgs[0].payload,
            },
        ] + messages_of(msgs.skip(1))
    }
}

/// MULTIPLEXED ORDERING: messages sent in sequence through the encoder are
/// decoded from the concatenated stream as exactly the same messages, in
/// the same order.
pub proof fn lemma_multiplexed_ordering(max: nat, msgs: Seq<SendM>)
    requires
        forall|i: int| 0 <= i < msgs.len() ==> valid_send(#[trigger] msgs[i], max),
    ensures
        dfeed(init(max), frames_of(msgs)) == (StepOut {
            state: init(max),
            events: messages_of(msgs),
        }),
    decreases msgs.len(),
{
    if msgs.len() == 0 {
        lemma_dfeed_empty(init(max), frames_of(msgs));
        assert(dfeed(init(max), frames_of(msgs)).events =~= messages_of(msgs));
    } else {
        let m = msgs[0];
        let frame = frame_bytes(m.channel, m.message_type, m.payload);
        lemma_round_trip(max, m.channel, m.message_type, m.payload);
        lemma_dfeed_concat(init(max), frame, frames_of(msgs.skip(1)));
        lemma_multiplexed_ordering(max, msgs.skip(1));
        assert(dfeed(init(max), frames_of(msgs)).events =~= messages_of(msgs));
    }
}

/// IDLE FRAME: a zero-length frame produces no events and leaves decoding
/// of whatever follows undisturbed.
pub proof fn lemma_idle_frame(s: DModel, rest: Seq<u8>)
    requires
        !s.destroyed,
        s.phase == (PhaseM::Length { value: 0nat, cont: 0nat }),
    ensures
        dfeed(s, seq![0u8] + rest) == dfeed(s, rest),
{
    lemma_dfeed_concat(s, seq![0u8], rest);
    lemma_dfeed_unfold(s, seq![0u8]);
    lemma_dfeed_empty(dstep(s, 0u8).state, seq![0u8].skip(1));
    assert(seq![0u8][0] == 0u8);
    assert(dstep(s, 0u8).state == s);
    assert(dfeed(s, seq![0u8]).events =~= Seq::<EventM>::empty());
    assert(dfeed(s, seq![0u8] + rest).events =~= dfeed(s, rest).events);
}

/// SIZE ENFORCEMENT (decoder side): a frame declaring a payload larger
/// than the configured maximum yields exactly one `TooLarge` event carrying
/// the offending channel, type and declared length, destroys the decoder,
/// and nothing that follows produces any further event.
pub proof fn lemma_size_enforcement(
    max: nat,
    channel: nat,
    message_type: nat,
    declared: nat,
    rest: Seq<u8>,
)
    requires
        message_type < 16,
        header_val(channel, message_type) < pow128(8),
        declared > max,
        varint_enc(header_val(channel, message_type)).len() + declared < pow128(8),
    ensures
        ({
            let h = header_val(channel, message_type);
            let pre = varint_enc(varint_enc(h).len() + declared) + varint_enc(h);
            dfeed(init(max), pre + rest) == (StepOut {
                state: DModel {
                    destroyed: true,
                    phase: PhaseM::Length { value: 0, cont: 0 },
                    max,
                },
                events: seq![EventM::TooLarge { channel, message_type, len: declared }],
            })
        }),
{
    let s = init(max);
    let h = header_val(channel, message_type);
    let ench = varint_enc(h);
    let frame_len = ench.len() + declared;
    let encl = varint_enc(frame_len);
    let pre = encl + ench;

    assert(h / 16 == channel && h % 16 == message_type) by (nonlinear_arith)
        requires
            h == channel * 16 + message_type,
            message_type < 16,
    ;
    lemma_varint_enc_len(frame_len, 8);
    lemma_varint_enc_len(h, 8);

    lemma_dfeed_concat(s, pre, rest);
    lemma_dfeed_concat(s, encl, ench);
    assert((encl + ench) + rest =~= pre + rest);
    lemma_feed_varint_length(s, 0, 0, frame_len);
    let s1 = length_complete(s, frame_len).state;
    assert(s1 == DModel {
        phase: PhaseM::Header { value: 0, cont: 0, frame_len },
        ..s
    });
    lemma_feed_varint_header(s1, 0, 0, frame_len, h);
    let hc = header_complete(s1, h, ench.len(), frame_len);
    assert(pow128(0) == 1);
    assert(dfeed(s, encl) == length_complete(s, frame_len));
    assert(dfeed(s1, ench) == hc);
    assert(hc.state.destroyed);
    assert(hc.events == seq![EventM::TooLarge { channel, message_type, len: declared }]);
    lemma_dfeed_destroyed(hc.state, rest);
    assert(dfeed(s, pre).state == hc.state);
    assert(dfeed(s, pre).events =~= seq![
        EventM::TooLarge { channel, message_type, len: declared },
    ]);
    assert(dfeed(s, pre + rest).events =~= seq![
        EventM::TooLarge { channel, message_type, len: declared },
    ]);
}

/// VARINT OVERFLOW: eight continuation bytes with no terminator — so nine
/// or more continuation bytes certainly — yield exactly one fatal event,
/// destroy the decoder, and nothing that follows produces anything more.
pub proof fn lemma_varint_overflow(s: DModel, value: nat, cont: nat, input: Seq<u8>)
    requires
        !s.destroyed,
        s.phase == (PhaseM::Length { value, cont }),
        cont <= 7,
        input.len() >= 8 - cont,
        forall|i: int| 0 <= i < 8 - cont ==> input[i] >= 128,
    ensures
        dfeed(s, input).state.destroyed,
        dfeed(s, input).events == seq![EventM::InvalidHeader],
    decreases input.len(),
{
    let b = input[0];
    assert(b >= 128);
    lemma_dfeed_unfold(s, input);
    if cont == 7 {
        let s2 = dstep(s, b).state;
        assert(s2.destroyed);
        lemma_dfeed_destroyed(s2, input.skip(1));
        assert(dfeed(s, input).events =~= seq![EventM::InvalidHeader]);
    } else {
        let value2 = value + ((b - 128) as nat) * pow128(cont);
        let s2 = DModel { phase: PhaseM::Length { value: value2, cont: cont + 1 }, ..s };
        assert(dstep(s, b).state == s2);
        assert(forall|i: int| 0 <= i < 8 - (cont + 1) ==> input.skip(1)[i] >= 128);
        lemma_varint_overflow(s2, value2, cont + 1, input.skip(1));
        assert(dfeed(s, input).events =~= seq![EventM::InvalidHeader]);
    }
}

} // verus!
