//! Observes an arbitrary build, captures every executed program, classifies
//! which executions are compiler invocations, and derives normalized per-file
//! compiler-flag records for downstream tooling.
//!
//! The crate covers the execution-capture transport (a self-framing wire and
//! log format carrying one captured execution per message) and the semantic
//! derivation pipeline (classifying executions and rewriting compiler flags
//! under a configured policy).

use vstd::prelude::*;

pub mod application;
pub mod codec;
pub mod config;
pub mod events;
pub mod semantic;
pub mod transform;

verus! {

/// Name of the hand-off mechanism through which intercepted processes learn
/// the collector's endpoint address.
pub const KEY_DESTINATION: &'static str = "INTERCEPT_REPORTER_ADDRESS";

/// Unique identifier of one reporting process.
///
/// OS process identifiers are recycled within a single build, so a
/// high-entropy 64-bit value is drawn once per reporting process instead.
#[derive(Debug, Clone, Copy, PartialEq, Eq, Structural)]
pub struct ReporterId(pub u64);

/// Relies on `rand::random`: draws a value from the thread-local generator.
/// Nothing is promised of the result.
pub assume_specification<T>[ rand::random::<T> ]() -> (r: T)
    where
        rand::distributions::Standard: rand::distributions::Distribution<T>,
;

impl ReporterId {
    /// Draws a fresh high-entropy identifier for one reporting process.
    pub fn new() -> Self {
        let id: u64 = rand::random::<u64>();
        ReporterId(id)
    }
}

impl Default for ReporterId {
    fn default() -> Self {
        Self::new()
    }
}

/// OS-assigned identifier of a process; a hint only, not unique over a build.
#[derive(Debug, Clone, Copy, PartialEq, Eq, Structural)]
pub struct ProcessId(pub u32);

/// Immutable record of one program invocation: everything needed to
/// reproduce the execution, nothing about its outcome.
#[derive(Debug, Clone, PartialEq)]
pub struct Execution {
    pub executable: String,
    pub arguments: Vec<String>,
    pub working_dir: String,
    pub environment: Vec<(String, String)>,
}

/// Mathematical value of an [`Execution`].
pub struct ExecutionModel {
    pub executable: Seq<char>,
    pub arguments: Seq<Seq<char>>,
    pub working_dir: Seq<char>,
    pub environment: Seq<(Seq<char>, Seq<char>)>,
}

impl View for Execution {
    type V = ExecutionModel;

    open spec fn view(&self) -> ExecutionModel {
        ExecutionModel {
            executable: self.executable@,
            arguments: self.arguments.deep_view(),
            working_dir: self.working_dir@,
            environment: self.environment.deep_view(),
        }
    }
}

impl DeepView for Execution {
    type V = ExecutionModel;

    open spec fn deep_view(&self) -> ExecutionModel {
        self@
    }
}

/// A relevant life cycle event of a process: "this process ran this".
#[derive(Debug, Clone, PartialEq)]
pub struct Event {
    pub pid: ProcessId,
    pub execution: Execution,
}

/// Mathematical value of an [`Event`].
pub struct EventModel {
    pub pid: u32,
    pub execution: ExecutionModel,
}

impl View for Event {
    type V = EventModel;

    open spec fn view(&self) -> EventModel {
        EventModel { pid: self.pid.0, execution: self.execution@ }
    }
}

/// The unit transmitted and persisted: one event together with the reporter's
/// identity and a millisecond epoch timestamp.
///
/// Timestamps come from independent clocks and are not globally monotonic;
/// consumers must not infer execution order from them.
#[derive(Debug, Clone, PartialEq)]
pub struct Envelope {
    pub rid: ReporterId,
    pub timestamp: u64,
    pub event: Event,
}

/// Mathematical value of an [`Envelope`].
pub struct EnvelopeModel {
    pub rid: u64,
    pub timestamp: u64,
    pub event: EventModel,
}

impl View for Envelope {
    type V = EnvelopeModel;

    open spec fn view(&self) -> EnvelopeModel {
        EnvelopeModel { rid: self.rid.0, timestamp: self.timestamp, event: self.event@ }
    }
}

impl DeepView for Envelope {
    type V = EnvelopeModel;

    open spec fn deep_view(&self) -> EnvelopeModel {
        self@
    }
}

/// Relies on `chrono::Utc::now().timestamp_millis()`: the current time as
/// milliseconds since the epoch. Nothing is promised of the clock's value.
#[verifier::external_body]
fn now_millis() -> u64 {
    chrono::Utc::now().timestamp_millis() as u64
}

impl Envelope {
    /// Wraps one event with the reporter's identity and the current time.
    ///
    /// The timestamp is whatever the local clock returned; no two clocks are
    /// assumed to agree.
    pub fn new(rid: &ReporterId, event: Event) -> (r: Self)
        ensures
            r.rid == *rid,
            r@.event == event@,
    {
        let timestamp = now_millis();
        Envelope { rid: rid.clone(), timestamp, event }
    }
}

/// Per-process client of the capture transport: wraps each captured execution
/// into an envelope carrying this process's identity.
///
/// Establishing the connection and writing the frame are the caller's side;
/// the reporter owns only the identity and the framing.
pub struct Reporter {
    pub rid: ReporterId,
    pub endpoint: String,
}

impl Reporter {
    /// Creates a reporter for one process, bound to the collector's endpoint.
    pub fn new(endpoint: String) -> (r: Self)
        ensures
            r.endpoint@ == endpoint@,
    {
        Reporter { rid: ReporterId::new(), endpoint }
    }

    /// Builds the envelope that `report` sends for one captured event: this
    /// reporter's identity, the current time, and the event.
    pub fn envelope_for(&self, event: Event) -> (r: Envelope)
        ensures
            r.rid == self.rid,
            r@.event == event@,
    {
        Envelope::new(&self.rid, event)
    }
}

} // verus!
