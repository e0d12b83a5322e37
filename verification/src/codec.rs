//! Self-framing serialization of one captured event.
//!
//! A frame is a 4-byte big-endian unsigned length followed by exactly that
//! many bytes of UTF-8 text encoding the envelope. The text encoding is
//! fixed-width hexadecimal for numbers and counts, and length-prefixed raw
//! UTF-8 for strings, so the format is versionless and self-describing: a log
//! may be produced by many processes over time and read back without any
//! out-of-band schema.

use vstd::prelude::*;
use vstd::utf8::{encode_utf8, decode_utf8, valid_utf8};
use vstd::utf8::{encode_utf8_valid_utf8, encode_utf8_decode_utf8};
use crate::{Envelope, EnvelopeModel, Event, EventModel, Execution, ExecutionModel, ProcessId,
    ReporterId};

verus! {

/// Why one frame could not be written or read.
#[derive(Debug, Clone, PartialEq, Eq, Structural)]
pub enum CodecError {
    /// The payload does not fit behind a 32-bit length prefix.
    Oversize,
    /// Fewer than 4 bytes remain where a length prefix was expected.
    TruncatedLength,
    /// The length prefix promises more payload bytes than remain.
    TruncatedPayload,
    /// The payload bytes do not parse as an envelope.
    Malformed,
}

// ------------------------------------------------------------------
// Fixed-width hexadecimal numbers
// ------------------------------------------------------------------

/// ASCII code of one lower-case hexadecimal digit.
pub open spec fn spec_hex_digit(d: u8) -> u8 {
    if d < 10 {
        (0x30 + d) as u8
    } else {
        (0x61 + (d - 10)) as u8
    }
}

/// Numeric value of one ASCII character, if it is a lower-case hex digit.
pub open spec fn spec_hex_val(b: u8) -> Option<u8> {
    if 0x30 <= b && b <= 0x39 {
        Some((b - 0x30) as u8)
    } else if 0x61 <= b && b <= 0x66 {
        Some((b - 0x61 + 10) as u8)
    } else {
        None
    }
}

/// The `k` big-endian hexadecimal digits of `m`.
pub open spec fn spec_hex(m: nat, k: nat) -> Seq<u8>
    decreases k,
{
    if k == 0 {
        Seq::empty()
    } else {
        spec_hex(m / 16, (k - 1) as nat).push(spec_hex_digit((m % 16) as u8))
    }
}

/// 16 to the power `k`.
pub open spec fn pow16(k: nat) -> nat
    decreases k,
{
    if k == 0 {
        1
    } else {
        16 * pow16((k - 1) as nat)
    }
}

/// Value of the `k` hexadecimal digits found at `pos`, if all are digits.
pub open spec fn spec_parse_hex(b: Seq<u8>, pos: int, k: nat) -> Option<nat>
    decreases k,
{
    if k == 0 {
        Some(0)
    } else {
        match spec_parse_hex(b, pos, (k - 1) as nat) {
            None => None,
            Some(hi) => {
                let j = pos + k - 1;
                if 0 <= j < b.len() {
                    match spec_hex_val(b[j]) {
                        Some(d) => Some((hi * 16 + d) as nat),
                        None => None,
                    }
                } else {
                    None
                }
            },
        }
    }
}

pub proof fn lemma_hex_len(m: nat, k: nat)
    ensures
        spec_hex(m, k).len() == k,
    decreases k,
{
    if k > 0 {
        lemma_hex_len(m / 16, (k - 1) as nat);
    }
}

pub proof fn lemma_pow16_16()
    ensures
        pow16(16) == 0x10000000000000000,
        pow16(8) == 0x100000000,
{
    reveal_with_fuel(pow16, 17);
}

/// A parse that failed on `k1` digits fails on any longer run.
pub proof fn lemma_parse_hex_none_mono(b: Seq<u8>, pos: int, k1: nat, k2: nat)
    requires
        spec_parse_hex(b, pos, k1) is None,
        k1 <= k2,
    ensures
        spec_parse_hex(b, pos, k2) is None,
    decreases k2,
{
    if k2 > k1 {
        lemma_parse_hex_none_mono(b, pos, k1, (k2 - 1) as nat);
    }
}

/// Parsing the digits that `spec_hex` wrote recovers the number.
pub proof fn lemma_hex_round_trip(b: Seq<u8>, pos: int, m: nat, k: nat)
    requires
        m < pow16(k),
        0 <= pos,
        pos + k <= b.len(),
        b.subrange(pos, pos + k) == spec_hex(m, k),
    ensures
        spec_parse_hex(b, pos, k) == Some(m),
    decreases k,
{
    lemma_hex_len(m, k);
    if k > 0 {
        lemma_hex_len(m / 16, (k - 1) as nat);
        assert(m / 16 < pow16((k - 1) as nat)) by {
            assert(pow16(k) == 16 * pow16((k - 1) as nat));
            assert(m < 16 * pow16((k - 1) as nat) ==> m / 16 < pow16((k - 1) as nat))
                by (nonlinear_arith);
        }
        assert(b.subrange(pos, pos + k - 1) =~= spec_hex(m / 16, (k - 1) as nat)) by {
            assert(forall|i: int| 0 <= i < k - 1 ==> b.subrange(pos, pos + k)[i]
                == #[trigger] b.subrange(pos, pos + k - 1)[i]);
        }
        lemma_hex_round_trip(b, pos, m / 16, (k - 1) as nat);
        let d = (m % 16) as u8;
        assert(b[pos + k - 1] == spec_hex(m, k)[k - 1]);
        assert(spec_hex(m, k)[k - 1] == spec_hex_digit(d));
        assert(spec_hex_val(spec_hex_digit(d)) == Some(d));
        assert((m / 16) * 16 + (m % 16) == m) by (nonlinear_arith);
    }
}

/// Appends the `k` big-endian hexadecimal digits of `m`.
pub fn push_hex(out: &mut Vec<u8>, m: u64, k: usize)
    ensures
        final(out)@ == old(out)@ + spec_hex(m as nat, k as nat),
    decreases k,
{
    if k == 0 {
        assert(out@ =~= old(out)@ + spec_hex(m as nat, 0));
    } else {
        push_hex(out, m / 16, k - 1);
        let d: u8 = (m % 16) as u8;
        let c: u8 = if d < 10 {
            0x30 + d
        } else {
            0x61 + (d - 10)
        };
        out.push(c);
        assert(out@ =~= old(out)@ + spec_hex(m as nat, k as nat));
    }
}

/// Reads 16 hexadecimal digits at `pos` as a 64-bit number.
pub fn parse_hex16(b: &Vec<u8>, pos: usize) -> (r: Option<u64>)
    ensures
        match r {
            Some(n) => spec_parse_hex(b@, pos as int, 16) == Some(n as nat),
            None => spec_parse_hex(b@, pos as int, 16) is None,
        },
{
    proof {
        lemma_pow16_16();
    }
    if b.len() < 16 || pos > b.len() - 16 {
        proof {
            assert(spec_parse_hex(b@, pos as int, 16) is None) by {
                if spec_parse_hex(b@, pos as int, 15) is Some {
                    assert(!(0 <= pos + 15 < b@.len()));
                }
            }
        }
        return None;
    }
    let mut acc: u64 = 0;
    let mut i: usize = 0;
    while i < 16
        invariant
            0 <= i <= 16,
            pos + 16 <= b.len(),
            spec_parse_hex(b@, pos as int, i as nat) == Some(acc as nat),
            acc < pow16(i as nat),
            pow16(16) == 0x10000000000000000,
        decreases 16 - i,
    {
        let c: u8 = b[pos + i];
        let d: u8 = if 0x30 <= c && c <= 0x39 {
            c - 0x30
        } else if 0x61 <= c && c <= 0x66 {
            c - 0x61 + 10
        } else {
            proof {
                assert(spec_parse_hex(b@, pos as int, (i + 1) as nat) is None);
                lemma_parse_hex_none_mono(b@, pos as int, (i + 1) as nat, 16);
            }
            return None;
        };
        proof {
            assert(spec_hex_val(c) == Some(d));
            assert(pow16((i + 1) as nat) == 16 * pow16(i as nat));
            assert(16 * acc + d < 16 * pow16(i as nat)) by (nonlinear_arith)
                requires
                    acc < pow16(i as nat),
                    d < 16,
            ;
            assert(16 * pow16(i as nat) <= pow16(16)) by {
                lemma_pow16_mono((i + 1) as nat, 16);
            }
        }
        acc = acc * 16 + (d as u64);
        i = i + 1;
    }
    Some(acc)
}

/// 16^a divides into 16^b when `a <= b`.
pub proof fn lemma_pow16_mono(a: nat, b: nat)
    requires
        a <= b,
    ensures
        pow16(a) <= pow16(b),
    decreases b,
{
    if a < b {
        lemma_pow16_mono(a, (b - 1) as nat);
        assert(pow16((b - 1) as nat) <= 16 * pow16((b - 1) as nat)) by (nonlinear_arith)
            requires
                pow16((b - 1) as nat) >= 0,
        ;
    }
}

// ------------------------------------------------------------------
// The 4-byte big-endian frame length
// ------------------------------------------------------------------

/// The four big-endian bytes of a 32-bit length.
pub open spec fn spec_be32(n: u32) -> Seq<u8> {
    seq![
        ((n >> 24) & 0xff) as u8,
        ((n >> 16) & 0xff) as u8,
        ((n >> 8) & 0xff) as u8,
        (n & 0xff) as u8,
    ]
}

/// The 32-bit value read back from four big-endian bytes.
pub open spec fn spec_be32_val(b0: u8, b1: u8, b2: u8, b3: u8) -> u32 {
    ((b0 as u32) << 24) | ((b1 as u32) << 16) | ((b2 as u32) << 8) | (b3 as u32)
}

// ------------------------------------------------------------------
// Length-prefixed strings
// ------------------------------------------------------------------

/// A byte string, prefixed with its length as 16 hexadecimal digits.
pub open spec fn spec_enc_bytes(payload: Seq<u8>) -> Seq<u8> {
    spec_hex(payload.len(), 16) + payload
}

/// A string as UTF-8 bytes, prefixed with their count.
pub open spec fn spec_enc_str(s: Seq<char>) -> Seq<u8> {
    spec_enc_bytes(encode_utf8(s))
}

/// The string's UTF-8 encoding fits behind a 16-digit length prefix.
pub open spec fn wf_string(s: Seq<char>) -> bool {
    encode_utf8(s).len() < pow16(16)
}

/// A 64-bit number read as 16 hexadecimal digits, and the position after it.
pub open spec fn spec_parse_num(b: Seq<u8>, pos: int) -> Option<(nat, int)> {
    match spec_parse_hex(b, pos, 16) {
        Some(n) => Some((n, pos + 16)),
        None => None,
    }
}

/// A length-prefixed string read at `pos`, and the position after it.
pub open spec fn spec_parse_str(b: Seq<u8>, pos: int) -> Option<(Seq<char>, int)> {
    match spec_parse_num(b, pos) {
        None => None,
        Some((n, p)) => {
            if p + n <= b.len() {
                let payload = b.subrange(p, p + n);
                if valid_utf8(payload) {
                    Some((decode_utf8(payload), p + n))
                } else {
                    None
                }
            } else {
                None
            }
        },
    }
}

/// Relies on `String::from_utf8`: succeeds exactly on valid UTF-8 input and
/// returns the string whose characters are the UTF-8 decoding of the bytes.
#[verifier::external_body]
fn bytes_to_string(b: Vec<u8>) -> (r: Option<String>)
    ensures
        r is Some <==> valid_utf8(b@),
        r matches Some(s) ==> s@ == decode_utf8(b@),
{
    String::from_utf8(b).ok()
}

/// Appends one string's length-prefixed UTF-8 bytes.
pub fn push_str(out: &mut Vec<u8>, s: &String)
    ensures
        final(out)@ == old(out)@ + spec_enc_str(s@),
        wf_string(s@),
{
    let mut bytes = s.as_str().as_bytes_vec();
    proof {
        lemma_pow16_16();
    }
    push_hex(out, bytes.len() as u64, 16);
    out.append(&mut bytes);
    assert(final(out)@ =~= old(out)@ + spec_enc_str(s@));
}

/// Reads 16 hexadecimal digits at `pos` and steps past them.
pub fn parse_num(b: &Vec<u8>, pos: usize) -> (r: Option<(u64, usize)>)
    ensures
        match r {
            Some((n, p)) => spec_parse_num(b@, pos as int) == Some((n as nat, p as int))
                && pos < p <= b@.len(),
            None => spec_parse_num(b@, pos as int) is None,
        },
{
    match parse_hex16(b, pos) {
        Some(n) => {
            let len = b.len();
            assert(pos + 15 < len);
            Some((n, pos + 16))
        },
        None => None,
    }
}

/// Reads one length-prefixed string at `pos` and steps past it.
pub fn read_str(b: &Vec<u8>, pos: usize) -> (r: Option<(String, usize)>)
    ensures
        match r {
            Some((s, p)) => spec_parse_str(b@, pos as int) == Some((s@, p as int))
                && pos < p <= b@.len(),
            None => spec_parse_str(b@, pos as int) is None,
        },
{
    let (n64, p) = match parse_num(b, pos) {
        Some(x) => x,
        None => {
            return None;
        },
    };
    if n64 > (b.len() - p) as u64 {
        return None;
    }
    let n = n64 as usize;
    let mut payload: Vec<u8> = Vec::new();
    let mut i: usize = 0;
    while i < n
        invariant
            0 <= i <= n,
            p + n <= b@.len(),
            b@.len() <= usize::MAX,
            payload@ == b@.subrange(p as int, (p + i) as int),
        decreases n - i,
    {
        payload.push(b[p + i]);
        i = i + 1;
        assert(payload@ =~= b@.subrange(p as int, (p + i) as int));
    }
    match bytes_to_string(payload) {
        Some(s) => Some((s, p + n)),
        None => None,
    }
}

// ------------------------------------------------------------------
// Counted lists of strings and of string pairs
// ------------------------------------------------------------------

/// The concatenation of each string's length-prefixed encoding.
pub open spec fn spec_enc_strs(xs: Seq<Seq<char>>) -> Seq<u8>
    decreases xs.len(),
{
    if xs.len() == 0 {
        Seq::empty()
    } else {
        spec_enc_str(xs[0]) + spec_enc_strs(xs.drop_first())
    }
}

/// One key-value pair: two length-prefixed strings.
pub open spec fn spec_enc_pair(p: (Seq<char>, Seq<char>)) -> Seq<u8> {
    spec_enc_str(p.0) + spec_enc_str(p.1)
}

/// The concatenation of each pair's encoding.
pub open spec fn spec_enc_pairs(xs: Seq<(Seq<char>, Seq<char>)>) -> Seq<u8>
    decreases xs.len(),
{
    if xs.len() == 0 {
        Seq::empty()
    } else {
        spec_enc_pair(xs[0]) + spec_enc_pairs(xs.drop_first())
    }
}

pub proof fn lemma_enc_strs_push(xs: Seq<Seq<char>>, x: Seq<char>)
    ensures
        spec_enc_strs(xs.push(x)) == spec_enc_strs(xs) + spec_enc_str(x),
    decreases xs.len(),
{
    if xs.len() == 0 {
        assert(xs.push(x).drop_first() =~= xs);
        assert(spec_enc_str(x) + spec_enc_strs(xs) =~= spec_enc_str(x));
        assert(spec_enc_strs(xs) + spec_enc_str(x) =~= spec_enc_str(x));
    } else {
        assert(xs.push(x).drop_first() =~= xs.drop_first().push(x));
        lemma_enc_strs_push(xs.drop_first(), x);
        assert(spec_enc_str(xs[0]) + (spec_enc_strs(xs.drop_first()) + spec_enc_str(x)) =~= (
        spec_enc_str(xs[0]) + spec_enc_strs(xs.drop_first())) + spec_enc_str(x));
    }
}

pub proof fn lemma_enc_pairs_push(xs: Seq<(Seq<char>, Seq<char>)>, x: (Seq<char>, Seq<char>))
    ensures
        spec_enc_pairs(xs.push(x)) == spec_enc_pairs(xs) + spec_enc_pair(x),
    decreases xs.len(),
{
    if xs.len() == 0 {
        assert(xs.push(x).drop_first() =~= xs);
        assert(spec_enc_pair(x) + spec_enc_pairs(xs) =~= spec_enc_pair(x));
        assert(spec_enc_pairs(xs) + spec_enc_pair(x) =~= spec_enc_pair(x));
    } else {
        assert(xs.push(x).drop_first() =~= xs.drop_first().push(x));
        lemma_enc_pairs_push(xs.drop_first(), x);
        assert(spec_enc_pair(xs[0]) + (spec_enc_pairs(xs.drop_first()) + spec_enc_pair(x)) =~= (
        spec_enc_pair(xs[0]) + spec_enc_pairs(xs.drop_first())) + spec_enc_pair(x));
    }
}

/// `k` length-prefixed strings read from `pos`, and the position after them.
pub open spec fn spec_parse_strs(b: Seq<u8>, pos: int, k: nat) -> Option<(Seq<Seq<char>>, int)>
    decreases k,
{
    if k == 0 {
        Some((Seq::empty(), pos))
    } else {
        match spec_parse_str(b, pos) {
            None => None,
            Some((s, p)) => match spec_parse_strs(b, p, (k - 1) as nat) {
                None => None,
                Some((rest, q)) => Some((seq![s] + rest, q)),
            },
        }
    }
}

/// `k` pairs of length-prefixed strings read from `pos`.
pub open spec fn spec_parse_pairs(b: Seq<u8>, pos: int, k: nat) -> Option<
    (Seq<(Seq<char>, Seq<char>)>, int),
>
    decreases k,
{
    if k == 0 {
        Some((Seq::empty(), pos))
    } else {
        match spec_parse_str(b, pos) {
            None => None,
            Some((key, p)) => match spec_parse_str(b, p) {
                None => None,
                Some((value, q)) => match spec_parse_pairs(b, q, (k - 1) as nat) {
                    None => None,
                    Some((rest, end)) => Some((seq![(key, value)] + rest, end)),
                },
            },
        }
    }
}

/// Reading `i + j` strings is reading `i`, then `j` from where that stopped.
pub proof fn lemma_parse_strs_compose(b: Seq<u8>, pos: int, i: nat, j: nat)
    ensures
        spec_parse_strs(b, pos, i + j) == match spec_parse_strs(b, pos, i) {
            None => None::<(Seq<Seq<char>>, int)>,
            Some((u, p)) => match spec_parse_strs(b, p, j) {
                None => None,
                Some((v, q)) => Some((u + v, q)),
            },
        },
    decreases i,
{
    if i == 0 {
        match spec_parse_strs(b, pos, j) {
            Some((v, q)) => {
                assert(Seq::<Seq<char>>::empty() + v =~= v);
            },
            None => {
            },
        }
    } else {
        assert(i + j > 0);
        match spec_parse_str(b, pos) {
            None => {
            },
            Some((s, p)) => {
                lemma_parse_strs_compose(b, p, (i - 1) as nat, j);
                assert((i + j - 1) as nat == (i - 1) as nat + j);
                match spec_parse_strs(b, p, (i - 1) as nat) {
                    None => {
                    },
                    Some((u, q)) => {
                        match spec_parse_strs(b, q, j) {
                            None => {
                            },
                            Some((v, end)) => {
                                assert(seq![s] + (u + v) =~= (seq![s] + u) + v);
                            },
                        }
                    },
                }
            },
        }
    }
}

/// Reading `i + j` pairs is reading `i`, then `j` from where that stopped.
pub proof fn lemma_parse_pairs_compose(b: Seq<u8>, pos: int, i: nat, j: nat)
    ensures
        spec_parse_pairs(b, pos, i + j) == match spec_parse_pairs(b, pos, i) {
            None => None::<(Seq<(Seq<char>, Seq<char>)>, int)>,
            Some((u, p)) => match spec_parse_pairs(b, p, j) {
                None => None,
                Some((v, q)) => Some((u + v, q)),
            },
        },
    decreases i,
{
    if i == 0 {
        match spec_parse_pairs(b, pos, j) {
            Some((v, q)) => {
                assert(Seq::<(Seq<char>, Seq<char>)>::empty() + v =~= v);
            },
            None => {
            },
        }
    } else {
        assert(i + j > 0);
        match spec_parse_str(b, pos) {
            None => {
            },
            Some((key, p)) => {
                match spec_parse_str(b, p) {
                    None => {
                    },
                    Some((value, q)) => {
                        lemma_parse_pairs_compose(b, q, (i - 1) as nat, j);
                        assert((i + j - 1) as nat == (i - 1) as nat + j);
                        match spec_parse_pairs(b, q, (i - 1) as nat) {
                            None => {
                            },
                            Some((u, q2)) => {
                                match spec_parse_pairs(b, q2, j) {
                                    None => {
                                    },
                                    Some((v, end)) => {
                                        assert(seq![(key, value)] + (u + v) =~= (seq![
                                            (key, value),
                                        ] + u) + v);
                                    },
                                }
                            },
                        }
                    },
                }
            },
        }
    }
}

/// Reads `n` length-prefixed strings from `pos`.
pub fn read_strs(b: &Vec<u8>, pos: usize, n: u64) -> (r: Option<(Vec<String>, usize)>)
    ensures
        match r {
            Some((v, p)) => spec_parse_strs(b@, pos as int, n as nat) == Some(
                (v.deep_view(), p as int),
            ) && pos <= p,
            None => spec_parse_strs(b@, pos as int, n as nat) is None,
        },
{
    let mut acc: Vec<String> = Vec::new();
    let mut p = pos;
    let mut i: u64 = 0;
    while i < n
        invariant
            i <= n,
            pos <= p,
            spec_parse_strs(b@, pos as int, i as nat) == Some((acc.deep_view(), p as int)),
        decreases n - i,
    {
        let ghost prev = acc.deep_view();
        match read_str(b, p) {
            Some((s, q)) => {
                proof {
                    lemma_parse_strs_compose(b@, pos as int, i as nat, 1);
                    assert(spec_parse_strs(b@, p as int, 1) == Some((seq![s@], q as int))) by {
                        reveal_with_fuel(spec_parse_strs, 2);
                        assert(seq![s@] + Seq::<Seq<char>>::empty() =~= seq![s@]);
                    }
                }
                acc.push(s);
                assert(acc.deep_view() =~= prev + seq![s@]);
                p = q;
            },
            None => {
                proof {
                    lemma_parse_strs_compose(b@, pos as int, i as nat, (n - i) as nat);
                }
                return None;
            },
        }
        i = i + 1;
    }
    Some((acc, p))
}

/// Reads `n` pairs of length-prefixed strings from `pos`.
pub fn read_pairs(b: &Vec<u8>, pos: usize, n: u64) -> (r: Option<(Vec<(String, String)>, usize)>)
    ensures
        match r {
            Some((v, p)) => spec_parse_pairs(b@, pos as int, n as nat) == Some(
                (v.deep_view(), p as int),
            ) && pos <= p,
            None => spec_parse_pairs(b@, pos as int, n as nat) is None,
        },
{
    let mut acc: Vec<(String, String)> = Vec::new();
    let mut p = pos;
    let mut i: u64 = 0;
    while i < n
        invariant
            i <= n,
            pos <= p,
            spec_parse_pairs(b@, pos as int, i as nat) == Some((acc.deep_view(), p as int)),
        decreases n - i,
    {
        let ghost prev = acc.deep_view();
        match read_str(b, p) {
            Some((key, q1)) => {
                match read_str(b, q1) {
                    Some((value, q2)) => {
                        proof {
                            lemma_parse_pairs_compose(b@, pos as int, i as nat, 1);
                            assert(spec_parse_pairs(b@, p as int, 1) == Some(
                                (seq![(key@, value@)], q2 as int),
                            )) by {
                                reveal_with_fuel(spec_parse_pairs, 2);
                                assert(seq![(key@, value@)] + Seq::<(Seq<char>, Seq<char>)>::empty()
                                    =~= seq![(key@, value@)]);
                            }
                        }
                        acc.push((key, value));
                        assert(acc.deep_view() =~= prev + seq![(key@, value@)]);
                        p = q2;
                    },
                    None => {
                        proof {
                            lemma_parse_pairs_compose(b@, pos as int, i as nat, (n - i) as nat);
                        }
                        return None;
                    },
                }
            },
            None => {
                proof {
                    lemma_parse_pairs_compose(b@, pos as int, i as nat, (n - i) as nat);
                }
                return None;
            },
        }
        i = i + 1;
    }
    Some((acc, p))
}

// ------------------------------------------------------------------
// The envelope payload
// ------------------------------------------------------------------

/// Text encoding of one execution: executable, counted argument list,
/// working directory, counted environment mapping.
pub open spec fn spec_encode_execution(x: ExecutionModel) -> Seq<u8> {
    spec_enc_str(x.executable) + spec_hex(x.arguments.len(), 16) + spec_enc_strs(x.arguments)
        + spec_enc_str(x.working_dir) + spec_hex(x.environment.len(), 16) + spec_enc_pairs(
        x.environment,
    )
}

/// Every count and string length fits behind a 16-digit prefix. Values built
/// by executable code always satisfy this; it bounds the mathematical model.
pub open spec fn wf_execution(x: ExecutionModel) -> bool {
    &&& wf_string(x.executable)
    &&& x.arguments.len() < pow16(16)
    &&& (forall|i: int| 0 <= i < x.arguments.len() ==> wf_string(#[trigger] x.arguments[i]))
    &&& wf_string(x.working_dir)
    &&& x.environment.len() < pow16(16)
    &&& (forall|i: int|
        0 <= i < x.environment.len() ==> wf_string((#[trigger] x.environment[i]).0) && wf_string(
            x.environment[i].1,
        ))
}

pub open spec fn wf_envelope(e: EnvelopeModel) -> bool {
    wf_execution(e.event.execution)
}

/// Text encoding of one envelope: reporter id, timestamp, process id,
/// then the execution.
pub open spec fn spec_encode_envelope(e: EnvelopeModel) -> Seq<u8> {
    spec_hex(e.rid as nat, 16) + spec_hex(e.timestamp as nat, 16) + spec_hex(
        e.event.pid as nat,
        16,
    ) + spec_encode_execution(e.event.execution)
}

/// One execution read at `pos`, and the position after it.
pub open spec fn spec_parse_execution(b: Seq<u8>, pos: int) -> Option<(ExecutionModel, int)> {
    match spec_parse_str(b, pos) {
        None => None,
        Some((executable, p1)) => match spec_parse_num(b, p1) {
            None => None,
            Some((nargs, p2)) => match spec_parse_strs(b, p2, nargs) {
                None => None,
                Some((arguments, p3)) => match spec_parse_str(b, p3) {
                    None => None,
                    Some((working_dir, p4)) => match spec_parse_num(b, p4) {
                        None => None,
                        Some((nenv, p5)) => match spec_parse_pairs(b, p5, nenv) {
                            None => None,
                            Some((environment, p6)) => Some(
                                (
                                    ExecutionModel {
                                        executable,
                                        arguments,
                                        working_dir,
                                        environment,
                                    },
                                    p6,
                                ),
                            ),
                        },
                    },
                },
            },
        },
    }
}

/// The envelope encoded in exactly the whole of `b`, if `b` parses.
pub open spec fn spec_decode_envelope(b: Seq<u8>) -> Option<EnvelopeModel> {
    match spec_parse_num(b, 0) {
        None => None,
        Some((rid, p1)) => match spec_parse_num(b, p1) {
            None => None,
            Some((ts, p2)) => match spec_parse_num(b, p2) {
                None => None,
                Some((pid, p3)) => if pid < 0x100000000 {
                    match spec_parse_execution(b, p3) {
                        None => None,
                        Some((x, p4)) => if p4 == b.len() {
                            Some(
                                EnvelopeModel {
                                    rid: rid as u64,
                                    timestamp: ts as u64,
                                    event: EventModel { pid: pid as u32, execution: x },
                                },
                            )
                        } else {
                            None
                        },
                    }
                } else {
                    None
                },
            },
        },
    }
}

/// Serializes one execution into the output buffer.
pub fn encode_execution_into(out: &mut Vec<u8>, x: &Execution)
    ensures
        final(out)@ == old(out)@ + spec_encode_execution(x@),
        wf_execution(x@),
{
    proof {
        lemma_pow16_16();
    }
    push_str(out, &x.executable);
    push_hex(out, x.arguments.len() as u64, 16);
    let ghost base = out@;
    let mut i: usize = 0;
    while i < x.arguments.len()
        invariant
            0 <= i <= x.arguments.len(),
            out@ == base + spec_enc_strs(x@.arguments.take(i as int)),
            forall|j: int| 0 <= j < i ==> wf_string(#[trigger] x@.arguments[j]),
        decreases x.arguments.len() - i,
    {
        let ghost prefix = x@.arguments.take(i as int);
        push_str(out, &x.arguments[i]);
        proof {
            lemma_enc_strs_push(prefix, x@.arguments[i as int]);
            assert(x@.arguments.take(i + 1) =~= prefix.push(x@.arguments[i as int]));
            assert(out@ =~= base + spec_enc_strs(x@.arguments.take(i + 1)));
        }
        i = i + 1;
    }
    assert(x@.arguments.take(x.arguments.len() as int) =~= x@.arguments);
    push_str(out, &x.working_dir);
    push_hex(out, x.environment.len() as u64, 16);
    let ghost base2 = out@;
    let mut j: usize = 0;
    while j < x.environment.len()
        invariant
            0 <= j <= x.environment.len(),
            out@ == base2 + spec_enc_pairs(x@.environment.take(j as int)),
            forall|k: int|
                0 <= k < j ==> wf_string((#[trigger] x@.environment[k]).0) && wf_string(
                    x@.environment[k].1,
                ),
        decreases x.environment.len() - j,
    {
        let ghost prefix = x@.environment.take(j as int);
        push_str(out, &x.environment[j].0);
        push_str(out, &x.environment[j].1);
        proof {
            lemma_enc_pairs_push(prefix, x@.environment[j as int]);
            assert(x@.environment.take(j + 1) =~= prefix.push(x@.environment[j as int]));
            assert(out@ =~= base2 + spec_enc_pairs(x@.environment.take(j + 1)));
        }
        j = j + 1;
    }
    assert(x@.environment.take(x.environment.len() as int) =~= x@.environment);
    assert(final(out)@ =~= old(out)@ + spec_encode_execution(x@));
}

/// Serializes one envelope to its payload text.
pub fn encode_payload(e: &Envelope) -> (r: Vec<u8>)
    ensures
        r@ == spec_encode_envelope(e@),
        wf_envelope(e@),
{
    let mut out: Vec<u8> = Vec::new();
    push_hex(&mut out, e.rid.0, 16);
    push_hex(&mut out, e.timestamp, 16);
    push_hex(&mut out, e.event.pid.0 as u64, 16);
    encode_execution_into(&mut out, &e.event.execution);
    assert(out@ =~= spec_encode_envelope(e@));
    out
}

/// Reads one execution at `pos`.
pub fn read_execution(b: &Vec<u8>, pos: usize) -> (r: Option<(Execution, usize)>)
    ensures
        match r {
            Some((x, p)) => spec_parse_execution(b@, pos as int) == Some((x@, p as int)),
            None => spec_parse_execution(b@, pos as int) is None,
        },
{
    let (executable, p1) = match read_str(b, pos) {
        Some(x) => x,
        None => {
            return None;
        },
    };
    let (nargs, p2) = match parse_num(b, p1) {
        Some(x) => x,
        None => {
            return None;
        },
    };
    let (arguments, p3) = match read_strs(b, p2, nargs) {
        Some(x) => x,
        None => {
            return None;
        },
    };
    let (working_dir, p4) = match read_str(b, p3) {
        Some(x) => x,
        None => {
            return None;
        },
    };
    let (nenv, p5) = match parse_num(b, p4) {
        Some(x) => x,
        None => {
            return None;
        },
    };
    let (environment, p6) = match read_pairs(b, p5, nenv) {
        Some(x) => x,
        None => {
            return None;
        },
    };
    Some((Execution { executable, arguments, working_dir, environment }, p6))
}

/// Parses one whole payload as an envelope.
pub fn decode_payload(b: &Vec<u8>) -> (r: Option<Envelope>)
    ensures
        match r {
            Some(env) => spec_decode_envelope(b@) == Some(env@),
            None => spec_decode_envelope(b@) is None,
        },
{
    let (rid, p1) = match parse_num(b, 0) {
        Some(x) => x,
        None => {
            return None;
        },
    };
    let (ts, p2) = match parse_num(b, p1) {
        Some(x) => x,
        None => {
            return None;
        },
    };
    let (pid64, p3) = match parse_num(b, p2) {
        Some(x) => x,
        None => {
            return None;
        },
    };
    if pid64 > 0xffffffffu64 {
        return None;
    }
    let (execution, p4) = match read_execution(b, p3) {
        Some(x) => x,
        None => {
            return None;
        },
    };
    if p4 != b.len() {
        return None;
    }
    Some(
        Envelope {
            rid: ReporterId(rid),
            timestamp: ts,
            event: Event { pid: ProcessId(pid64 as u32), execution },
        },
    )
}

// ------------------------------------------------------------------
// Round trips
// ------------------------------------------------------------------

/// The bytes of `whole` sit in `b` at `pos`; a piece of `whole` at `off`
/// then equals the matching subrange of `b`.
pub proof fn lemma_piece_at(b: Seq<u8>, pos: int, whole: Seq<u8>, off: int, piece: Seq<u8>)
    requires
        0 <= pos,
        pos + whole.len() <= b.len(),
        b.subrange(pos, pos + whole.len()) == whole,
        0 <= off,
        off + piece.len() <= whole.len(),
        forall|i: int| 0 <= i < piece.len() ==> whole[off + i] == #[trigger] piece[i],
    ensures
        b.subrange(pos + off, pos + off + piece.len()) == piece,
{
    assert forall|i: int| 0 <= i < piece.len() implies b.subrange(
        pos + off,
        pos + off + piece.len(),
    )[i] == piece[i] by {
        assert(b[pos + off + i] == b.subrange(pos, pos + whole.len())[off + i]);
    }
    assert(b.subrange(pos + off, pos + off + piece.len()) =~= piece);
}

/// A string encoded at `pos` parses back to itself.
pub proof fn lemma_parse_str_at(b: Seq<u8>, pos: int, s: Seq<char>)
    requires
        wf_string(s),
        0 <= pos,
        pos + spec_enc_str(s).len() <= b.len(),
        b.subrange(pos, pos + spec_enc_str(s).len()) == spec_enc_str(s),
    ensures
        spec_parse_str(b, pos) == Some((s, pos + spec_enc_str(s).len())),
{
    let u = encode_utf8(s);
    let l = u.len();
    let h = spec_hex(l, 16);
    let whole = spec_enc_str(s);
    lemma_hex_len(l, 16);
    assert(whole.len() == 16 + l);
    assert(forall|i: int| 0 <= i < 16 ==> whole[i] == #[trigger] h[i]);
    lemma_piece_at(b, pos, whole, 0, h);
    lemma_hex_round_trip(b, pos, l, 16);
    assert(forall|i: int| 0 <= i < l ==> whole[16 + i] == #[trigger] u[i]);
    lemma_piece_at(b, pos, whole, 16, u);
    encode_utf8_valid_utf8(s);
    encode_utf8_decode_utf8(s);
}

/// A string list encoded at `pos` parses back to itself.
pub proof fn lemma_parse_strs_at(b: Seq<u8>, pos: int, xs: Seq<Seq<char>>)
    requires
        forall|i: int| 0 <= i < xs.len() ==> wf_string(#[trigger] xs[i]),
        0 <= pos,
        pos + spec_enc_strs(xs).len() <= b.len(),
        b.subrange(pos, pos + spec_enc_strs(xs).len()) == spec_enc_strs(xs),
    ensures
        spec_parse_strs(b, pos, xs.len()) == Some((xs, pos + spec_enc_strs(xs).len())),
    decreases xs.len(),
{
    if xs.len() > 0 {
        let e0 = spec_enc_str(xs[0]);
        let rest = spec_enc_strs(xs.drop_first());
        let all = spec_enc_strs(xs);
        assert(all == e0 + rest);
        assert(forall|i: int| 0 <= i < e0.len() ==> all[i] == #[trigger] e0[i]);
        lemma_piece_at(b, pos, all, 0, e0);
        lemma_parse_str_at(b, pos, xs[0]);
        assert(forall|i: int|
            0 <= i < rest.len() ==> all[e0.len() + i] == #[trigger] rest[i]);
        lemma_piece_at(b, pos, all, e0.len() as int, rest);
        lemma_parse_strs_at(b, pos + e0.len(), xs.drop_first());
        assert(seq![xs[0]] + xs.drop_first() =~= xs);
    }
}

/// A pair list encoded at `pos` parses back to itself.
pub proof fn lemma_parse_pairs_at(b: Seq<u8>, pos: int, xs: Seq<(Seq<char>, Seq<char>)>)
    requires
        forall|i: int|
            0 <= i < xs.len() ==> wf_string((#[trigger] xs[i]).0) && wf_string(xs[i].1),
        0 <= pos,
        pos + spec_enc_pairs(xs).len() <= b.len(),
        b.subrange(pos, pos + spec_enc_pairs(xs).len()) == spec_enc_pairs(xs),
    ensures
        spec_parse_pairs(b, pos, xs.len()) == Some((xs, pos + spec_enc_pairs(xs).len())),
    decreases xs.len(),
{
    if xs.len() > 0 {
        let k0 = spec_enc_str(xs[0].0);
        let v0 = spec_enc_str(xs[0].1);
        let rest = spec_enc_pairs(xs.drop_first());
        let all = spec_enc_pairs(xs);
        assert(all == (k0 + v0) + rest);
        assert(forall|i: int| 0 <= i < k0.len() ==> all[i] == #[trigger] k0[i]);
        lemma_piece_at(b, pos, all, 0, k0);
        lemma_parse_str_at(b, pos, xs[0].0);
        assert(forall|i: int| 0 <= i < v0.len() ==> all[k0.len() + i] == #[trigger] v0[i]);
        lemma_piece_at(b, pos, all, k0.len() as int, v0);
        lemma_parse_str_at(b, pos + k0.len(), xs[0].1);
        assert(forall|i: int|
            0 <= i < rest.len() ==> all[k0.len() + v0.len() + i] == #[trigger] rest[i]);
        lemma_piece_at(b, pos, all, k0.len() + v0.len() as int, rest);
        lemma_parse_pairs_at(b, pos + k0.len() + v0.len(), xs.drop_first());
        assert(seq![xs[0]] + xs.drop_first() =~= xs);
    }
}

/// An execution encoded at `pos` parses back to itself.
pub proof fn lemma_parse_execution_at(b: Seq<u8>, pos: int, x: ExecutionModel)
    requires
        wf_execution(x),
        0 <= pos,
        pos + spec_encode_execution(x).len() <= b.len(),
        b.subrange(pos, pos + spec_encode_execution(x).len()) == spec_encode_execution(x),
    ensures
        spec_parse_execution(b, pos) == Some((x, pos + spec_encode_execution(x).len())),
{
    lemma_pow16_16();
    let s0 = spec_enc_str(x.executable);
    let h0 = spec_hex(x.arguments.len(), 16);
    let s1 = spec_enc_strs(x.arguments);
    let s2 = spec_enc_str(x.working_dir);
    let h1 = spec_hex(x.environment.len(), 16);
    let s3 = spec_enc_pairs(x.environment);
    let all = spec_encode_execution(x);
    lemma_hex_len(x.arguments.len(), 16);
    lemma_hex_len(x.environment.len(), 16);
    assert(all == ((((s0 + h0) + s1) + s2) + h1) + s3);
    let o1 = s0.len() as int;
    let o2 = o1 + 16;
    let o3 = o2 + s1.len();
    let o4 = o3 + s2.len();
    let o5 = o4 + 16;
    assert(forall|i: int| 0 <= i < s0.len() ==> all[i] == #[trigger] s0[i]);
    lemma_piece_at(b, pos, all, 0, s0);
    lemma_parse_str_at(b, pos, x.executable);
    assert(forall|i: int| 0 <= i < 16 ==> all[o1 + i] == #[trigger] h0[i]);
    lemma_piece_at(b, pos, all, o1, h0);
    lemma_hex_round_trip(b, pos + o1, x.arguments.len(), 16);
    assert(forall|i: int| 0 <= i < s1.len() ==> all[o2 + i] == #[trigger] s1[i]);
    lemma_piece_at(b, pos, all, o2, s1);
    lemma_parse_strs_at(b, pos + o2, x.arguments);
    assert(forall|i: int| 0 <= i < s2.len() ==> all[o3 + i] == #[trigger] s2[i]);
    lemma_piece_at(b, pos, all, o3, s2);
    lemma_parse_str_at(b, pos + o3, x.working_dir);
    assert(forall|i: int| 0 <= i < 16 ==> all[o4 + i] == #[trigger] h1[i]);
    lemma_piece_at(b, pos, all, o4, h1);
    lemma_hex_round_trip(b, pos + o4, x.environment.len(), 16);
    assert(forall|i: int| 0 <= i < s3.len() ==> all[o5 + i] == #[trigger] s3[i]);
    lemma_piece_at(b, pos, all, o5, s3);
    lemma_parse_pairs_at(b, pos + o5, x.environment);
}

/// Law: decoding an encoded envelope reproduces an equal value.
pub proof fn lemma_envelope_round_trip(e: EnvelopeModel)
    requires
        wf_envelope(e),
    ensures
        spec_decode_envelope(spec_encode_envelope(e)) == Some(e),
{
    lemma_pow16_16();
    let b = spec_encode_envelope(e);
    let h0 = spec_hex(e.rid as nat, 16);
    let h1 = spec_hex(e.timestamp as nat, 16);
    let h2 = spec_hex(e.event.pid as nat, 16);
    let ex = spec_encode_execution(e.event.execution);
    lemma_hex_len(e.rid as nat, 16);
    lemma_hex_len(e.timestamp as nat, 16);
    lemma_hex_len(e.event.pid as nat, 16);
    assert(b == ((h0 + h1) + h2) + ex);
    assert(b.subrange(0, b.len() as int) =~= b);
    assert(forall|i: int| 0 <= i < 16 ==> b[i] == #[trigger] h0[i]);
    lemma_piece_at(b, 0, b, 0, h0);
    lemma_hex_round_trip(b, 0, e.rid as nat, 16);
    assert(forall|i: int| 0 <= i < 16 ==> b[16 + i] == #[trigger] h1[i]);
    lemma_piece_at(b, 0, b, 16, h1);
    lemma_hex_round_trip(b, 16, e.timestamp as nat, 16);
    assert(forall|i: int| 0 <= i < 16 ==> b[32 + i] == #[trigger] h2[i]);
    lemma_piece_at(b, 0, b, 32, h2);
    lemma_hex_round_trip(b, 32, e.event.pid as nat, 16);
    assert(forall|i: int| 0 <= i < ex.len() ==> b[48 + i] == #[trigger] ex[i]);
    lemma_piece_at(b, 0, b, 48, ex);
    lemma_parse_execution_at(b, 48, e.event.execution);
}

pub proof fn lemma_be32_round_trip(n: u32)
    ensures
        spec_be32_val(
            ((n >> 24) & 0xff) as u8,
            ((n >> 16) & 0xff) as u8,
            ((n >> 8) & 0xff) as u8,
            (n & 0xff) as u8,
        ) == n,
{
    assert(

        ((((n >> 24) & 0xff) as u8 as u32) << 24)
        | ((((n >> 16) & 0xff) as u8 as u32) << 16)
        | ((((n >> 8) & 0xff) as u8 as u32) << 8)
        | ((n & 0xff) as u8 as u32) == n
    ) by (bit_vector);
}

// ------------------------------------------------------------------
// Frames
// ------------------------------------------------------------------

/// One frame: a 4-byte big-endian length, then exactly that many payload
/// bytes.
pub open spec fn spec_frame(payload: Seq<u8>) -> Seq<u8>
    recommends
        payload.len() <= u32::MAX,
{
    spec_be32(payload.len() as u32) + payload
}

/// The payload length announced by the frame at `pos`.
pub open spec fn spec_frame_len(b: Seq<u8>, pos: int) -> nat
    recommends
        0 <= pos,
        pos + 4 <= b.len(),
{
    spec_be32_val(b[pos], b[pos + 1], b[pos + 2], b[pos + 3]) as nat
}

/// The envelope framed at `pos`, and the position after its frame.
pub open spec fn spec_read_frame(b: Seq<u8>, pos: int) -> Option<(EnvelopeModel, int)> {
    if pos < 0 || pos + 4 > b.len() {
        None
    } else {
        let n = spec_frame_len(b, pos);
        let end = pos + 4 + n;
        if end > b.len() {
            None
        } else {
            match spec_decode_envelope(b.subrange(pos + 4, end)) {
                Some(e) => Some((e, end)),
                None => None,
            }
        }
    }
}

/// Which failure `read_from` reports when no frame can be read at `pos`.
pub open spec fn spec_frame_error(b: Seq<u8>, pos: int) -> CodecError {
    if pos + 4 > b.len() {
        CodecError::TruncatedLength
    } else if pos + 4 + spec_frame_len(b, pos) > b.len() {
        CodecError::TruncatedPayload
    } else {
        CodecError::Malformed
    }
}

impl Envelope {
    /// Serializes this envelope and appends one frame: the payload's length
    /// as 4 big-endian bytes, then the payload itself. Returns the number of
    /// payload bytes written; fails, writing nothing, only when the payload
    /// cannot fit behind a 32-bit length prefix.
    pub fn write_into(&self, out: &mut Vec<u8>) -> (r: Result<u32, CodecError>)
        ensures
            match r {
                Ok(n) => {
                    &&& spec_encode_envelope(self@).len() <= u32::MAX
                    &&& n as nat == spec_encode_envelope(self@).len()
                    &&& final(out)@ == old(out)@ + spec_frame(spec_encode_envelope(self@))
                    &&& wf_envelope(self@)
                },
                Err(e) => {
                    &&& e == CodecError::Oversize
                    &&& spec_encode_envelope(self@).len() > u32::MAX
                    &&& final(out)@ == old(out)@
                },
            },
    {
        let mut payload = encode_payload(self);
        if payload.len() > (u32::MAX as usize) {
            return Err(CodecError::Oversize);
        }
        let n: u32 = payload.len() as u32;
        out.push(((n >> 24) & 0xff) as u8);
        out.push(((n >> 16) & 0xff) as u8);
        out.push(((n >> 8) & 0xff) as u8);
        out.push((n & 0xff) as u8);
        assert(out@ =~= old(out)@ + spec_be32(n));
        out.append(&mut payload);
        assert(out@ =~= old(out)@ + spec_frame(spec_encode_envelope(self@)));
        Ok(n)
    }

    /// Reads one frame at `pos`: exactly 4 length bytes, exactly that many
    /// payload bytes, then the payload parsed as an envelope. No partial
    /// frame is tolerated: a short length or short payload is an error.
    pub fn read_from(b: &Vec<u8>, pos: usize) -> (r: Result<(Envelope, usize), CodecError>)
        ensures
            match r {
                Ok((env, p)) => spec_read_frame(b@, pos as int) == Some((env@, p as int)) && pos
                    < p <= b@.len(),
                Err(e) => spec_read_frame(b@, pos as int) is None && e == spec_frame_error(
                    b@,
                    pos as int,
                ),
            },
    {
        let len = b.len();
        if pos > len || len - pos < 4 {
            return Err(CodecError::TruncatedLength);
        }
        let n32: u32 = ((b[pos] as u32) << 24) | ((b[pos + 1] as u32) << 16) | ((b[pos + 2]
            as u32) << 8) | (b[pos + 3] as u32);
        let n = n32 as usize;
        if n > len - (pos + 4) {
            return Err(CodecError::TruncatedPayload);
        }
        let start = pos + 4;
        let mut payload: Vec<u8> = Vec::new();
        let mut i: usize = 0;
        while i < n
            invariant
                0 <= i <= n,
                start + n <= b@.len(),
                b@.len() <= usize::MAX,
                payload@ == b@.subrange(start as int, (start + i) as int),
            decreases n - i,
        {
            payload.push(b[start + i]);
            i = i + 1;
            assert(payload@ =~= b@.subrange(start as int, (start + i) as int));
        }
        match decode_payload(&payload) {
            Some(env) => Ok((env, start + n)),
            None => Err(CodecError::Malformed),
        }
    }
}

/// Law: a frame written at `pos` reads back as the same envelope, stepping
/// to the end of the frame.
pub proof fn lemma_frame_round_trip(b: Seq<u8>, pos: int, e: EnvelopeModel)
    requires
        wf_envelope(e),
        spec_encode_envelope(e).len() <= u32::MAX,
        0 <= pos,
        pos + spec_frame(spec_encode_envelope(e)).len() <= b.len(),
        b.subrange(pos, pos + spec_frame(spec_encode_envelope(e)).len()) == spec_frame(
            spec_encode_envelope(e),
        ),
    ensures
        spec_read_frame(b, pos) == Some((e, pos + 4 + spec_encode_envelope(e).len())),
{
    let payload = spec_encode_envelope(e);
    let n: u32 = payload.len() as u32;
    let whole = spec_frame(payload);
    let h = spec_be32(n);
    assert(whole == h + payload);
    assert(forall|i: int| 0 <= i < 4 ==> whole[i] == #[trigger] h[i]);
    lemma_piece_at(b, pos, whole, 0, h);
    assert(b[pos] == h[0] && b[pos + 1] == h[1] && b[pos + 2] == h[2] && b[pos + 3] == h[3]) by {
        assert(b.subrange(pos, pos + 4)[0] == h[0]);
        assert(b.subrange(pos, pos + 4)[1] == h[1]);
        assert(b.subrange(pos, pos + 4)[2] == h[2]);
        assert(b.subrange(pos, pos + 4)[3] == h[3]);
    }
    lemma_be32_round_trip(n);
    assert(spec_frame_len(b, pos) == payload.len());
    assert(forall|i: int| 0 <= i < payload.len() ==> whole[4 + i] == #[trigger] payload[i]);
    lemma_piece_at(b, pos, whole, 4, payload);
    lemma_envelope_round_trip(e);
}

} // verus!
