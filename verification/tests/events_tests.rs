use bear::events::EventFileReader;
use bear::{Envelope, Event, Execution, ProcessId, ReporterId};

fn envelope(rid: u64, pid: u32, executable: &str) -> Envelope {
    Envelope {
        rid: ReporterId(rid),
        timestamp: 1000 + rid,
        event: Event {
            pid: ProcessId(pid),
            execution: Execution {
                executable: executable.to_string(),
                arguments: vec!["-c".to_string(), "a.c".to_string()],
                working_dir: "/proj".to_string(),
                environment: vec![],
            },
        },
    }
}

#[test]
fn empty_log_yields_nothing_and_no_warning() {
    let reader = EventFileReader::new(Vec::new());
    let (executions, warning) = reader.generate();
    assert!(executions.is_empty());
    assert!(!warning);
}

#[test]
fn clean_log_yields_every_execution_in_order() {
    let mut log: Vec<u8> = Vec::new();
    let a = envelope(1, 10, "/usr/bin/cc");
    let b = envelope(2, 20, "/usr/bin/g++");
    a.write_into(&mut log).unwrap();
    b.write_into(&mut log).unwrap();
    let (executions, warning) = EventFileReader::new(log).generate();
    assert!(!warning);
    assert_eq!(executions.len(), 2);
    assert_eq!(executions[0], a.event.execution);
    assert_eq!(executions[1], b.event.execution);
}

#[test]
fn trailing_fragment_yields_prior_records_and_one_warning() {
    // Valid frames followed by a 2-byte trailing fragment: everything before
    // the fragment is still yielded, with a warning and no crash.
    let mut log: Vec<u8> = Vec::new();
    let a = envelope(1, 10, "/usr/bin/cc");
    let b = envelope(2, 20, "/usr/bin/clang");
    a.write_into(&mut log).unwrap();
    b.write_into(&mut log).unwrap();
    log.extend_from_slice(&[0, 0]);
    let (executions, warning) = EventFileReader::new(log).generate();
    assert!(warning);
    assert_eq!(executions.len(), 2);
    assert_eq!(executions[0], a.event.execution);
    assert_eq!(executions[1], b.event.execution);
}

#[test]
fn truncated_final_payload_warns_and_keeps_earlier_records() {
    let mut log: Vec<u8> = Vec::new();
    let a = envelope(1, 10, "/usr/bin/cc");
    a.write_into(&mut log).unwrap();
    // A length prefix promising more bytes than follow.
    log.extend_from_slice(&9u32.to_be_bytes());
    log.extend_from_slice(b"abc");
    let (executions, warning) = EventFileReader::new(log).generate();
    assert!(warning);
    assert_eq!(executions.len(), 1);
    assert_eq!(executions[0], a.event.execution);
}

#[test]
fn malformed_frame_is_dropped_and_reading_continues() {
    let mut log: Vec<u8> = Vec::new();
    let a = envelope(1, 10, "/usr/bin/cc");
    a.write_into(&mut log).unwrap();
    // A complete frame whose payload parses as no envelope.
    log.extend_from_slice(&4u32.to_be_bytes());
    log.extend_from_slice(b"zzzz");
    let b = envelope(2, 20, "/usr/bin/gcc");
    b.write_into(&mut log).unwrap();
    let (executions, warning) = EventFileReader::new(log).generate();
    assert!(!warning);
    assert_eq!(executions.len(), 2);
    assert_eq!(executions[0], a.event.execution);
    assert_eq!(executions[1], b.event.execution);
}

#[test]
fn many_reporters_one_log_nothing_lost_nothing_interleaved() {
    // One envelope per reporter, appended whole in completion order through
    // the collector's single-writer discipline: the log holds exactly one
    // well-formed frame per reporter, in order, none interleaved, none
    // truncated.
    let n: u64 = 300;
    let mut collector = bear::events::Collector::new();
    let mut sent: Vec<Envelope> = Vec::new();
    for i in 0..n {
        let e = envelope(i, (i % 1000) as u32, &format!("/usr/bin/cc{}", i));
        collector.append(&e).unwrap();
        sent.push(e);
    }
    let (envelopes, warning) = EventFileReader::new(collector.into_log()).read_envelopes();
    assert!(!warning);
    assert_eq!(envelopes.len(), n as usize);
    for i in 0..n as usize {
        assert_eq!(envelopes[i], sent[i]);
    }
}
