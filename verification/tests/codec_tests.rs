use bear::codec::{decode_payload, encode_payload, push_hex, parse_hex16, CodecError};
use bear::{Envelope, Event, Execution, ProcessId, ReporterId};

fn sample_execution() -> Execution {
    Execution {
        executable: "/usr/bin/cc".to_string(),
        arguments: vec!["-c".to_string(), "a.c".to_string(), "-o".to_string(), "a.o".to_string()],
        working_dir: "/proj".to_string(),
        environment: vec![("PATH".to_string(), "/usr/bin:/bin".to_string())],
    }
}

fn sample_envelope() -> Envelope {
    Envelope {
        rid: ReporterId(0xdeadbeef12345678),
        timestamp: 1700000000123,
        event: Event { pid: ProcessId(4242), execution: sample_execution() },
    }
}

#[test]
fn payload_round_trip() {
    let e = sample_envelope();
    let payload = encode_payload(&e);
    let decoded = decode_payload(&payload).expect("payload must parse");
    assert_eq!(decoded, e);
}

#[test]
fn payload_round_trip_empty_fields() {
    let e = Envelope {
        rid: ReporterId(0),
        timestamp: 0,
        event: Event {
            pid: ProcessId(0),
            execution: Execution {
                executable: String::new(),
                arguments: vec![],
                working_dir: String::new(),
                environment: vec![],
            },
        },
    };
    let payload = encode_payload(&e);
    let decoded = decode_payload(&payload).expect("payload must parse");
    assert_eq!(decoded, e);
}

#[test]
fn payload_round_trip_non_ascii() {
    let e = Envelope {
        rid: ReporterId(7),
        timestamp: 9,
        event: Event {
            pid: ProcessId(1),
            execution: Execution {
                executable: "/usr/bin/c\u{e9}c".to_string(),
                arguments: vec!["\u{3b1}\u{3b2}".to_string()],
                working_dir: "/tmp/\u{1f980}".to_string(),
                environment: vec![("K\u{fc}".to_string(), "v".to_string())],
            },
        },
    };
    let payload = encode_payload(&e);
    let decoded = decode_payload(&payload).expect("payload must parse");
    assert_eq!(decoded, e);
}

#[test]
fn hex_digits_exact() {
    let mut out: Vec<u8> = Vec::new();
    push_hex(&mut out, 255, 2);
    assert_eq!(out, b"ff".to_vec());
    let mut out16: Vec<u8> = Vec::new();
    push_hex(&mut out16, 0x0123456789abcdef, 16);
    assert_eq!(out16, b"0123456789abcdef".to_vec());
    let v = parse_hex16(&out16, 0).expect("16 digits parse");
    assert_eq!(v, 0x0123456789abcdef);
}

#[test]
fn parse_hex16_rejects_short_and_bad_input() {
    let short = b"abc".to_vec();
    assert_eq!(parse_hex16(&short, 0), None);
    let bad = b"0123456789abcdeg".to_vec();
    assert_eq!(parse_hex16(&bad, 0), None);
}

#[test]
fn frame_round_trip() {
    let e = sample_envelope();
    let mut log: Vec<u8> = Vec::new();
    let n = e.write_into(&mut log).expect("frame must be written");
    assert_eq!(log.len(), 4 + n as usize);
    // The first four bytes carry the payload length, big-endian.
    let len = u32::from_be_bytes([log[0], log[1], log[2], log[3]]);
    assert_eq!(len, n);
    let (decoded, end) = Envelope::read_from(&log, 0).expect("frame must be read");
    assert_eq!(decoded, e);
    assert_eq!(end, log.len());
}

#[test]
fn read_from_reports_truncated_length() {
    let log = vec![0u8, 0u8];
    match Envelope::read_from(&log, 0) {
        Err(CodecError::TruncatedLength) => {}
        other => panic!("expected a truncated length, got {:?}", other),
    }
}

#[test]
fn read_from_reports_truncated_payload() {
    // A frame announcing 100 payload bytes, followed by only 3.
    let mut log = 100u32.to_be_bytes().to_vec();
    log.extend_from_slice(&[1, 2, 3]);
    match Envelope::read_from(&log, 0) {
        Err(CodecError::TruncatedPayload) => {}
        other => panic!("expected a truncated payload, got {:?}", other),
    }
}

#[test]
fn read_from_reports_malformed_payload() {
    // A complete frame whose payload is not an envelope.
    let mut log = 4u32.to_be_bytes().to_vec();
    log.extend_from_slice(b"zzzz");
    match Envelope::read_from(&log, 0) {
        Err(CodecError::Malformed) => {}
        other => panic!("expected a malformed payload, got {:?}", other),
    }
}

#[test]
fn oversize_is_the_only_write_failure() {
    // Any ordinary envelope fits behind the 32-bit length prefix.
    let e = sample_envelope();
    let mut out: Vec<u8> = Vec::new();
    assert!(e.write_into(&mut out).is_ok());
}

#[test]
fn envelope_new_keeps_reporter_and_event() {
    let rid = ReporterId::new();
    let event = Event { pid: ProcessId(77), execution: sample_execution() };
    let envelope = Envelope::new(&rid, event.clone());
    assert_eq!(envelope.rid, rid);
    assert_eq!(envelope.event, event);
}

#[test]
fn reporter_wraps_events_with_its_identity() {
    let reporter = bear::Reporter::new("127.0.0.1:5555".to_string());
    assert_eq!(reporter.endpoint, "127.0.0.1:5555");
    let event = Event { pid: ProcessId(9), execution: sample_execution() };
    let envelope = reporter.envelope_for(event.clone());
    assert_eq!(envelope.rid, reporter.rid);
    assert_eq!(envelope.event, event);
}

#[test]
fn reporter_ids_are_distinct_with_high_probability() {
    let a = ReporterId::new();
    let b = ReporterId::new();
    let c = ReporterId::new();
    // Three draws from 64 bits of entropy collide with negligible chance.
    assert!(a != b || b != c || a != c);
}
