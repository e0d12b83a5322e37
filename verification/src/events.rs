//! Event Source: a finished event log read back, frame by frame, as the
//! sequence of captured executions.
//!
//! A clean end exactly on a frame boundary ends the sequence successfully. A
//! partial trailing frame ends the sequence with a non-fatal warning and
//! still yields everything decoded before it. A complete frame whose payload
//! does not parse drops that one record and reading continues.

use vstd::prelude::*;
use crate::codec::{spec_frame_len, spec_decode_envelope, spec_frame, spec_encode_envelope,
    wf_envelope, spec_read_frame, lemma_frame_round_trip, lemma_piece_at, decode_payload};
use crate::{Envelope, EnvelopeModel, Execution, ExecutionModel};

verus! {

/// The envelopes framed one after another in `b` from `pos` on, and whether
/// the log ends in a partial trailing frame.
pub open spec fn spec_read_log(b: Seq<u8>, pos: int) -> (Seq<EnvelopeModel>, bool)
    decreases b.len() - pos,
    when 0 <= pos <= b.len()
{
    if pos == b.len() {
        (Seq::empty(), false)
    } else if pos + 4 > b.len() {
        (Seq::empty(), true)
    } else if pos + 4 + spec_frame_len(b, pos) > b.len() {
        (Seq::empty(), true)
    } else {
        let end = pos + 4 + spec_frame_len(b, pos);
        let rest = spec_read_log(b, end);
        match spec_decode_envelope(b.subrange(pos + 4, end)) {
            Some(e) => (seq![e] + rest.0, rest.1),
            None => rest,
        }
    }
}

/// What a finished log means: the executions of its envelopes, in log order.
pub open spec fn spec_log_executions(b: Seq<u8>) -> Seq<ExecutionModel> {
    spec_read_log(b, 0).0.map_values(|e: EnvelopeModel| e.event.execution)
}

/// Read-only, forward-only decoder over a finished event log.
pub struct EventFileReader {
    pub bytes: Vec<u8>,
}

impl EventFileReader {
    /// Wraps the bytes of one finished log.
    pub fn new(bytes: Vec<u8>) -> (r: Self)
        ensures
            r.bytes@ == bytes@,
    {
        EventFileReader { bytes }
    }

    /// Decodes every framed envelope in log order. The flag reports a
    /// partial trailing frame; everything decoded before it is still
    /// returned.
    pub fn read_envelopes(&self) -> (r: (Vec<Envelope>, bool))
        ensures
            r.0.deep_view() == spec_read_log(self.bytes@, 0).0,
            r.1 == spec_read_log(self.bytes@, 0).1,
    {
        let b = &self.bytes;
        let len = b.len();
        let mut out: Vec<Envelope> = Vec::new();
        let mut pos: usize = 0;
        while pos < len
            invariant
                0 <= pos <= len,
                b@ == self.bytes@,
                len == b@.len(),
                b@.len() <= usize::MAX,
                spec_read_log(b@, 0).0 == out.deep_view() + spec_read_log(b@, pos as int).0,
                spec_read_log(b@, 0).1 == spec_read_log(b@, pos as int).1,
            decreases len - pos,
        {
            if len - pos < 4 {
                proof {
                    assert(pos as int + 4 > b@.len());
                    assert(spec_read_log(b@, pos as int).1 == true);
                    assert(spec_read_log(b@, pos as int).0 == Seq::<EnvelopeModel>::empty());
                    assert(out.deep_view() + spec_read_log(b@, pos as int).0 =~= out.deep_view());
                }
                return (out, true);
            }
            let n32: u32 = ((b[pos] as u32) << 24) | ((b[pos + 1] as u32) << 16) | ((b[pos + 2]
                as u32) << 8) | (b[pos + 3] as u32);
            assert(n32 as nat == spec_frame_len(b@, pos as int));
            let n = n32 as usize;
            if n > len - (pos + 4) {
                assert(out.deep_view() + spec_read_log(b@, pos as int).0 =~= out.deep_view());
                return (out, true);
            }
            let start = pos + 4;
            let end = start + n;
            let mut payload: Vec<u8> = Vec::new();
            let mut i: usize = 0;
            while i < n
                invariant
                    0 <= i <= n,
                    start + n <= b@.len(),
                    b@.len() <= usize::MAX,
                    payload@ == b@.subrange(start as int, (start + i) as int),
                decreases n - i,
            {
                payload.push(b[start + i]);
                i = i + 1;
                assert(payload@ =~= b@.subrange(start as int, (start + i) as int));
            }
            let ghost prev = out.deep_view();
            match decode_payload(&payload) {
                Some(env) => {
                    out.push(env);
                    proof {
                        assert(out.deep_view() =~= prev.push(env@));
                        let rest = spec_read_log(b@, end as int);
                        assert(spec_read_log(b@, pos as int).0 == seq![env@] + rest.0);
                        assert(prev + (seq![env@] + rest.0) =~= prev.push(env@) + rest.0);
                    }
                },
                None => {
                },
            }
            pos = end;
        }
        assert(out.deep_view() + spec_read_log(b@, pos as int).0 =~= out.deep_view());
        (out, false)
    }

    /// Streams the executions out of the log, in log order, exposing only
    /// the execution of each envelope. The flag reports a partial trailing
    /// frame.
    pub fn generate(self) -> (r: (Vec<Execution>, bool))
        ensures
            r.0.deep_view() == spec_log_executions(self.bytes@),
            r.1 == spec_read_log(self.bytes@, 0).1,
    {
        let (mut envs, warning) = self.read_envelopes();
        let ghost all = envs.deep_view();
        let mut xs: Vec<Execution> = Vec::new();
        while envs.len() > 0
            invariant
                all.map_values(|e: EnvelopeModel| e.event.execution) == xs.deep_view()
                    + envs.deep_view().map_values(|e: EnvelopeModel| e.event.execution),
            decreases envs.len(),
        {
            let ghost before = envs.deep_view();
            let ghost xs_before = xs.deep_view();
            let env = envs.remove(0);
            xs.push(env.event.execution);
            proof {
                assert(envs.deep_view() =~= before.drop_first());
                assert(xs.deep_view() =~= xs_before.push(env.event.execution@));
                assert(before.map_values(|e: EnvelopeModel| e.event.execution) =~= seq![
                    env@.event.execution,
                ] + before.drop_first().map_values(|e: EnvelopeModel| e.event.execution));
                assert(xs_before + (seq![env@.event.execution] + before.drop_first().map_values(
                    |e: EnvelopeModel| e.event.execution,
                )) =~= xs_before.push(env.event.execution@) + before.drop_first().map_values(
                    |e: EnvelopeModel| e.event.execution,
                ));
            }
        }
        proof {
            assert(envs.deep_view().map_values(|e: EnvelopeModel| e.event.execution)
                =~= Seq::<ExecutionModel>::empty());
            assert(xs.deep_view() + Seq::<ExecutionModel>::empty() =~= xs.deep_view());
        }
        (xs, warning)
    }
}

/// Aggregation point of the capture transport: every decoded envelope is
/// appended to one durable event log in completion order.
///
/// All appends funnel through this single writer, each as one whole frame,
/// so two frames' bytes never interleave mid-write; accepting connections
/// and decoding incoming frames may proceed in parallel around it.
pub struct Collector {
    pub log: Vec<u8>,
}

impl Collector {
    /// Starts an empty event log.
    pub fn new() -> (r: Self)
        ensures
            r.log@ == Seq::<u8>::empty(),
    {
        Collector { log: Vec::new() }
    }

    /// Appends one envelope as one whole frame, after every frame appended
    /// before it. Fails, appending nothing, only on an envelope whose
    /// payload cannot fit behind a 32-bit length prefix.
    pub fn append(&mut self, envelope: &Envelope) -> (r: Result<u32, crate::codec::CodecError>)
        ensures
            match r {
                Ok(n) => {
                    &&& final(self).log@ == old(self).log@ + spec_frame(
                        spec_encode_envelope(envelope@),
                    )
                    &&& n as nat == spec_encode_envelope(envelope@).len()
                    &&& spec_encode_envelope(envelope@).len() <= u32::MAX
                    &&& wf_envelope(envelope@)
                },
                Err(e) => {
                    &&& final(self).log@ == old(self).log@
                    &&& e == crate::codec::CodecError::Oversize
                    &&& spec_encode_envelope(envelope@).len() > u32::MAX
                },
            },
    {
        envelope.write_into(&mut self.log)
    }

    /// Hands the finished log over, to be read back as an event source.
    pub fn into_log(self) -> (r: Vec<u8>)
        ensures
            r@ == self.log@,
    {
        self.log
    }
}

/// The concatenation of one whole frame per envelope, in order.
pub open spec fn spec_frames(es: Seq<EnvelopeModel>) -> Seq<u8>
    decreases es.len(),
{
    if es.len() == 0 {
        Seq::empty()
    } else {
        spec_frame(spec_encode_envelope(es[0])) + spec_frames(es.drop_first())
    }
}

/// The frames of `es` fill `b` from `pos` to its end; reading from `pos`
/// then yields exactly `es`, with no warning.
#[verifier::rlimit(50)]
pub proof fn lemma_read_log_of_frames(b: Seq<u8>, pos: int, es: Seq<EnvelopeModel>)
    requires
        forall|i: int|
            0 <= i < es.len() ==> wf_envelope(#[trigger] es[i]) && spec_encode_envelope(
                es[i],
            ).len() <= u32::MAX,
        0 <= pos <= b.len(),
        b.len() - pos == spec_frames(es).len(),
        b.subrange(pos, b.len() as int) == spec_frames(es),
    ensures
        spec_read_log(b, pos) == (es, false),
    decreases es.len(),
{
    if es.len() == 0 {
        assert(spec_read_log(b, pos) == (Seq::<EnvelopeModel>::empty(), false));
        assert(es =~= Seq::<EnvelopeModel>::empty());
    } else {
        let f0 = spec_frame(spec_encode_envelope(es[0]));
        let rest = spec_frames(es.drop_first());
        let all = spec_frames(es);
        assert(all == f0 + rest);
        assert(forall|i: int| 0 <= i < f0.len() ==> all[i] == #[trigger] f0[i]);
        lemma_piece_at(b, pos, all, 0, f0);
        lemma_frame_round_trip(b, pos, es[0]);
        let end = pos + f0.len();
        assert(forall|i: int| 0 <= i < rest.len() ==> all[f0.len() + i] == #[trigger] rest[i]);
        lemma_piece_at(b, pos, all, f0.len() as int, rest);
        assert(b.subrange(end, b.len() as int) == rest);
        lemma_read_log_of_frames(b, end, es.drop_first());
        assert(spec_read_frame(b, pos) == Some((es[0], end)));
        assert(spec_read_log(b, pos).0 == seq![es[0]] + es.drop_first());
        assert(seq![es[0]] + es.drop_first() =~= es);
    }
}

/// Law: a log formed by appending `es.len()` whole frames, one per envelope
/// and in completion order, reads back as exactly those envelopes, in that
/// order, none lost, none interleaved, and with no partial-frame warning.
pub proof fn lemma_log_of_frames(es: Seq<EnvelopeModel>)
    requires
        forall|i: int|
            0 <= i < es.len() ==> wf_envelope(#[trigger] es[i]) && spec_encode_envelope(
                es[i],
            ).len() <= u32::MAX,
    ensures
        spec_read_log(spec_frames(es), 0) == (es, false),
{
    let b = spec_frames(es);
    assert(b.subrange(0, b.len() as int) =~= b);
    lemma_read_log_of_frames(b, 0, es);
}

} // verus!
