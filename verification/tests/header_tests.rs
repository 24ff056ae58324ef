use proxy_detect::header::{
    ConditionalHeader, DecodeError, DetectHeader, Header, Reason, HEADER_BUFFER_CAPACITY,
};
use proxy_detect::name::Name;
use proxy_detect::prefix::ReadEvent;

const PREFACE: &[u8] = b"proxy.l5d.io/connect\r\n\r\n";
const TIMEOUT_MS: u64 = 10_000;

fn detector() -> DetectHeader {
    DetectHeader::new(HEADER_BUFFER_CAPACITY, TIMEOUT_MS)
}

fn name(bytes: &[u8]) -> Name {
    Name::parse(bytes.to_vec()).expect("name must be valid")
}

#[test]
fn roundtrip_prefaced() {
    let header = Header { port: 4040, name: Some(name(b"foo.bar.example.com")) };
    let mut wire = header.encode_prefaced();
    wire.extend_from_slice(b"12345");

    let (h, rest) = match detector().detect(vec![ReadEvent::Data(wire), ReadEvent::Eof]) {
        Some(Ok((ConditionalHeader::Present(h), rest))) => (h, rest),
        other => panic!("decodes: {:?}", other.map(|r| r.map(|(c, _)| c))),
    };
    assert_eq!(header.port, h.port);
    assert_eq!(
        header.name.as_ref().unwrap().as_bytes(),
        h.name.as_ref().expect("decodes").as_bytes()
    );
    assert_eq!(rest.peek_all(), b"12345");
}

#[test]
fn roundtrip_without_name() {
    let header = Header { port: 9, name: None };
    let wire = header.encode_prefaced();
    match detector().detect(vec![ReadEvent::Data(wire), ReadEvent::Eof]) {
        Some(Ok((ConditionalHeader::Present(h), rest))) => {
            assert_eq!(h.port, 9);
            assert!(h.name.is_none());
            assert!(rest.peek_all().is_empty());
        },
        other => panic!("must decode: {:?}", other.map(|r| r.map(|(c, _)| c))),
    }
}

#[test]
fn roundtrip_port_zero() {
    let header = Header { port: 0, name: Some(name(b"svc.ns")) };
    let wire = header.encode_prefaced();
    match detector().detect(vec![ReadEvent::Data(wire), ReadEvent::Eof]) {
        Some(Ok((ConditionalHeader::Present(h), _))) => {
            assert_eq!(h.port, 0);
            assert_eq!(h.name.unwrap().as_bytes().as_slice(), b"svc.ns");
        },
        other => panic!("must decode: {:?}", other.map(|r| r.map(|(c, _)| c))),
    }
}

#[test]
fn roundtrip_split_reads() {
    let header = Header { port: 443, name: Some(name(b"a-b.example")) };
    let frame = header.encode_prefaced();
    let mut wire = frame.clone();
    wire.extend_from_slice(b"tail");
    for split in 0..=wire.len() {
        let mut events = Vec::new();
        if split > 0 {
            events.push(ReadEvent::Data(wire[..split].to_vec()));
        }
        if split < wire.len() {
            events.push(ReadEvent::Data(wire[split..].to_vec()));
        }
        events.push(ReadEvent::Eof);
        // Once the first read completes the frame, the detection settles
        // without reading further: only trailing bytes already read end
        // up in the replay buffer; the rest stay on the stream.
        let expected_replay: &[u8] = if split < frame.len() {
            b"tail"
        } else {
            &wire[frame.len()..split]
        };
        match detector().detect(events) {
            Some(Ok((ConditionalHeader::Present(h), rest))) => {
                assert_eq!(h.port, 443, "split at {split}");
                assert_eq!(rest.peek_all(), expected_replay, "split at {split}");
            },
            _ => panic!("must decode at split {split}"),
        }
    }
}

#[test]
fn header_undecided_when_events_run_out() {
    let r = detector().detect(vec![ReadEvent::Data(PREFACE[..10].to_vec())]);
    assert!(r.is_none());
}

#[test]
fn no_preface_keeps_all_bytes() {
    let input = b"GET / HTTP/1.1\r\nHost: example.com\r\n\r\n".to_vec();
    match detector().detect(vec![ReadEvent::Data(input.clone()), ReadEvent::Eof]) {
        Some(Ok((ConditionalHeader::Absent(reason), rest))) => {
            assert_eq!(reason, Reason::NoPreface);
            assert_eq!(rest.peek_all(), input);
        },
        _ => panic!("must be absent"),
    }
}

#[test]
fn short_stream_is_no_preface() {
    // Even a strict prefix of the preface token: the stream ended before
    // the preface and length were complete.
    let input = PREFACE[..10].to_vec();
    match detector().detect(vec![ReadEvent::Data(input.clone()), ReadEvent::Eof]) {
        Some(Ok((ConditionalHeader::Absent(reason), rest))) => {
            assert_eq!(reason, Reason::NoPreface);
            assert_eq!(rest.peek_all(), input);
        },
        _ => panic!("must be absent"),
    }
}

#[test]
fn timeout_is_absent_with_bytes_kept() {
    let input = PREFACE.to_vec();
    match detector().detect(vec![ReadEvent::Data(input.clone()), ReadEvent::TimedOut]) {
        Some(Ok((ConditionalHeader::Absent(reason), rest))) => {
            assert_eq!(reason, Reason::Timeout);
            assert_eq!(rest.peek_all(), input);
        },
        _ => panic!("must be absent on timeout"),
    }
}

#[test]
fn eof_after_preface_is_fatal() {
    let header = Header { port: 4040, name: Some(name(b"foo.bar.example.com")) };
    let wire = header.encode_prefaced();
    // Cut the stream in the middle of the declared message.
    let truncated = wire[..wire.len() - 3].to_vec();
    match detector().detect(vec![ReadEvent::Data(truncated), ReadEvent::Eof]) {
        Some(Err(e)) => assert_eq!(e, DecodeError::UnexpectedEof),
        _ => panic!("must fail fatally, not absent"),
    }
}

#[test]
fn declared_length_over_capacity_is_fatal() {
    let mut wire = PREFACE.to_vec();
    // Length field: far over any reasonable capacity.
    wire.extend_from_slice(&[0xff, 0xff, 0xff, 0xff]);
    match DetectHeader::new(1024, TIMEOUT_MS).detect(vec![ReadEvent::Data(wire), ReadEvent::Eof]) {
        Some(Err(e)) => assert_eq!(e, DecodeError::InvalidData),
        _ => panic!("must fail fatally"),
    }
}

#[test]
fn malformed_message_is_fatal() {
    let mut wire = PREFACE.to_vec();
    wire.extend_from_slice(&[0, 0, 0, 2]);
    // Wire type 7 does not exist.
    wire.extend_from_slice(&[0x0f, 0x00]);
    match detector().detect(vec![ReadEvent::Data(wire), ReadEvent::Eof]) {
        Some(Err(e)) => assert_eq!(e, DecodeError::InvalidData),
        _ => panic!("must fail fatally"),
    }
}

#[test]
fn invalid_name_is_fatal() {
    let mut msg = Vec::new();
    msg.push(0x12);
    msg.push(4);
    msg.extend_from_slice(b"-bad");
    let mut wire = PREFACE.to_vec();
    wire.extend_from_slice(&[0, 0, 0, msg.len() as u8]);
    wire.extend_from_slice(&msg);
    match detector().detect(vec![ReadEvent::Data(wire), ReadEvent::Eof]) {
        Some(Err(e)) => assert_eq!(e, DecodeError::InvalidData),
        _ => panic!("must fail fatally"),
    }
}

#[test]
fn empty_name_field_means_no_name() {
    // Port 7 as a varint field, then an explicitly empty name field.
    let msg = vec![0x08, 7, 0x12, 0];
    let mut wire = PREFACE.to_vec();
    wire.extend_from_slice(&[0, 0, 0, msg.len() as u8]);
    wire.extend_from_slice(&msg);
    match detector().detect(vec![ReadEvent::Data(wire), ReadEvent::Eof]) {
        Some(Ok((ConditionalHeader::Present(h), _))) => {
            assert_eq!(h.port, 7);
            assert!(h.name.is_none());
        },
        _ => panic!("must decode"),
    }
}

#[test]
fn unknown_fields_are_skipped() {
    // Field 3 varint, field 4 length-delimited, then the port.
    let msg = vec![0x18, 0x05, 0x22, 2, 9, 9, 0x08, 80];
    let mut wire = PREFACE.to_vec();
    wire.extend_from_slice(&[0, 0, 0, msg.len() as u8]);
    wire.extend_from_slice(&msg);
    match detector().detect(vec![ReadEvent::Data(wire), ReadEvent::Eof]) {
        Some(Ok((ConditionalHeader::Present(h), _))) => {
            assert_eq!(h.port, 80);
            assert!(h.name.is_none());
        },
        _ => panic!("must decode"),
    }
}
