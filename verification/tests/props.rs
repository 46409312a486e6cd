use bytes::Bytes;
use integer_encoding::VarInt;
use simple_message_channels::varint::{required_space, write_varint};
use simple_message_channels::{
    decode_header, encode_header, Channel, Decoder, Encoder, Error, Event, Header, Listener,
    Message, MessageType, OversizedPayload, SimpleMessageChannels, Type,
};

/// Drains every event the decoder yields for one chunk.
fn drain(decoder: Decoder, data: Bytes) -> (Decoder, Vec<Event>) {
    let mut it = decoder.messages(data);
    let mut events = Vec::new();
    loop {
        match it.recv() {
            Some(ev) => {
                let fatal = matches!(ev, Event::Error(_));
                events.push(ev);
                if fatal {
                    break;
                }
            }
            None => break,
        }
    }
    (it.into_inner(), events)
}

#[test]
fn wire_format_is_exact() {
    let mut encoder = Encoder::new(None);
    let frame = encoder
        .send(Channel(0), MessageType(1), &Bytes::from("hi"))
        .unwrap();
    assert_eq!(&frame[..], &[3, 1, b'h', b'i']);

    // A two-byte header varint: channel 42, type 3 packs to 675.
    let frame = encoder
        .send(Channel(42), MessageType(3), &Bytes::from("hey"))
        .unwrap();
    assert_eq!(&frame[..], &[5, 0xa3, 0x05, b'h', b'e', b'y']);
}

#[test]
fn varint_agrees_with_integer_encoding() {
    let samples: [u64; 9] = [
        0,
        1,
        127,
        128,
        16_383,
        16_384,
        100_000,
        1 << 32,
        u64::MAX,
    ];
    for v in samples {
        assert_eq!(required_space(v), VarInt::required_space(v));
        let mut mine: Vec<u8> = Vec::new();
        write_varint(&mut mine, v);
        assert_eq!(mine, v.encode_var_vec());
    }
}

#[test]
fn header_codec_round_trip() {
    let h = Header {
        channel: Channel(42),
        message_type: MessageType(3),
    };
    let packed = encode_header(h);
    assert_eq!(packed, 42 << 4 | 3);
    let back = decode_header(packed);
    assert_eq!(back, h);
}

#[test]
fn idle_frames_are_silent() {
    let decoder = Decoder::new(None);
    let mut encoder = Encoder::new(None);

    // Idle bytes before, between and after two frames.
    let mut all = vec![0u8];
    all.extend_from_slice(
        &encoder
            .send(Channel(1), MessageType(2), &Bytes::from("ab"))
            .unwrap(),
    );
    all.extend_from_slice(&[0, 0]);
    all.extend_from_slice(
        &encoder
            .send(Channel(3), MessageType(4), &Bytes::from("cd"))
            .unwrap(),
    );
    all.push(0);

    let (_d, events) = drain(decoder, Bytes::from(all));
    assert_eq!(
        events,
        vec![
            Event::Message(Message {
                channel: Channel(1),
                message_type: MessageType(2),
                data: Bytes::from("ab"),
            }),
            Event::Message(Message {
                channel: Channel(3),
                message_type: MessageType(4),
                data: Bytes::from("cd"),
            }),
        ]
    );
}

#[test]
fn varint_overflow_is_fatal() {
    let decoder = Decoder::new(None);
    // Nine continuation bytes, then valid-looking input: exactly one
    // fatal event, nothing after it.
    let mut all = vec![0x80u8; 9];
    all.extend_from_slice(&[3, 1, b'h', b'i']);
    let (_d, events) = drain(decoder, Bytes::from(all));
    assert_eq!(events, vec![Event::Error(Error::InvalidHeader)]);
}

#[test]
fn varint_overflow_chunked() {
    // The overflow is detected at the eighth continuation byte, however
    // the bytes are split.
    let mut decoder = Decoder::new(None);
    for i in 0..8 {
        let (d, evs) = drain(decoder, Bytes::from(vec![0x80u8]));
        decoder = d;
        if i < 7 {
            assert_eq!(evs, vec![]);
        } else {
            assert_eq!(evs, vec![Event::Error(Error::InvalidHeader)]);
        }
    }
}

#[test]
fn eight_byte_varint_is_accepted() {
    // Seven continuation bytes plus a terminator is the longest valid
    // varint: it parses, and the huge length it declares is then
    // rejected as oversized rather than malformed.
    let decoder = Decoder::new(None);
    let mut all = vec![0xffu8; 7];
    all.push(0x7f);
    all.push(0x01);
    let (_d, events) = drain(decoder, Bytes::from(all));
    assert_eq!(events.len(), 1);
    assert!(matches!(events[0], Event::Error(Error::TooLarge(_))));
}

#[test]
fn oversized_frame_is_fatal() {
    let decoder = Decoder::new(Some(2));
    // Declares a 3-byte payload against a maximum of 2: length 4,
    // header 1, then payload bytes that must never be buffered.
    let (d, events) = drain(decoder, Bytes::from(vec![4u8, 1, b'x', b'y', b'z']));
    assert_eq!(events.len(), 1);
    assert!(matches!(
        events[0],
        Event::Error(Error::TooLarge(_))
    ));
    assert!(matches!(d.last_error(), Some(Error::TooLarge(_))));
}

#[test]
fn frame_shorter_than_header_is_fatal() {
    let decoder = Decoder::new(None);
    // Declared frame length 1, but the header varint alone takes two
    // bytes.
    let (_d, events) = drain(decoder, Bytes::from(vec![1u8, 0x80, 0x01]));
    assert_eq!(events, vec![Event::Error(Error::InvalidHeader)]);
}

#[test]
fn oversized_send_reports_sizes() {
    let mut encoder = Encoder::new(Some(2));
    let err = encoder
        .send(Channel(0), MessageType(0), &Bytes::from("foo"))
        .unwrap_err();
    assert_eq!(err, OversizedPayload { len: 3, max: 2 });
    // The encoder stays usable afterwards.
    assert!(encoder
        .send(Channel(0), MessageType(0), &Bytes::from("ok"))
        .is_ok());
}

#[test]
fn fragmentation_boundaries_do_not_matter() {
    // The same two frames, cut at every possible single split point,
    // always decode to the same two messages.
    let mut encoder = Encoder::new(None);
    let mut all = Vec::new();
    all.extend_from_slice(
        &encoder
            .send(Channel(5), MessageType(7), &Bytes::from("first"))
            .unwrap(),
    );
    all.extend_from_slice(
        &encoder
            .send(Channel(9), MessageType(0), &Bytes::from("second!"))
            .unwrap(),
    );
    let all = Bytes::from(all);

    let expected = vec![
        Message {
            channel: Channel(5),
            message_type: MessageType(7),
            data: Bytes::from("first"),
        },
        Message {
            channel: Channel(9),
            message_type: MessageType(0),
            data: Bytes::from("second!"),
        },
    ];

    for cut in 0..=all.len() {
        let mut decoder = Decoder::new(None);
        let mut messages = Vec::new();
        for chunk in [all.slice(0..cut), all.slice(cut..all.len())] {
            let (d, evs) = drain(decoder, chunk);
            decoder = d;
            for ev in evs {
                match ev {
                    Event::Message(m) => messages.push(m),
                    Event::Missing(_) => {}
                    Event::Error(_) => panic!("unexpected error at cut {}", cut),
                }
            }
        }
        assert_eq!(messages, expected, "cut at {}", cut);
    }
}

/// Records everything the channel endpoint reports.
struct Recorder {
    messages: Vec<(Channel, Type, Bytes)>,
    missing: Vec<usize>,
}

impl Listener for Recorder {
    fn on_message(&mut self, channel: Channel, message_type: Type, message: Bytes) {
        self.messages.push((channel, message_type, message));
    }

    fn on_missing(&mut self, len: usize) {
        self.missing.push(len);
    }
}

#[test]
fn channels_byte_by_byte() {
    let recorder = Recorder {
        messages: vec![],
        missing: vec![],
    };
    let mut smc = SimpleMessageChannels::new(None, recorder);
    let frame = smc.send(Channel(0), Type(1), &Bytes::from("hi")).unwrap();

    for i in 0..frame.len() {
        assert!(smc.recv(frame.slice(i..i + 1)));
    }

    let recorder = smc.into_listener();
    assert_eq!(recorder.missing, vec![2]);
    assert_eq!(
        recorder.messages,
        vec![(Channel(0), Type(1), Bytes::from("hi"))]
    );
}

#[test]
fn channels_send_enforces_max() {
    let recorder = Recorder {
        messages: vec![],
        missing: vec![],
    };
    let mut smc = SimpleMessageChannels::new(Some(2), recorder);
    let err = smc
        .send(Channel(0), Type(0), &Bytes::from("foo"))
        .unwrap_err();
    assert_eq!(err, OversizedPayload { len: 3, max: 2 });
    // The endpoint stays usable afterwards.
    let frame = smc.send(Channel(0), Type(0), &Bytes::from("ok")).unwrap();
    assert!(smc.recv(frame));
    assert_eq!(
        smc.into_listener().messages,
        vec![(Channel(0), Type(0), Bytes::from("ok"))]
    );
}

#[test]
fn channels_empty_message() {
    let recorder = Recorder {
        messages: vec![],
        missing: vec![],
    };
    let mut smc = SimpleMessageChannels::new(None, recorder);
    let frame = smc.send(Channel(0), Type(0), &Bytes::new()).unwrap();

    assert!(smc.recv(frame));

    let recorder = smc.into_listener();
    assert_eq!(recorder.missing, Vec::<usize>::new());
    assert_eq!(
        recorder.messages,
        vec![(Channel(0), Type(0), Bytes::new())]
    );
}
