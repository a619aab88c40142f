//! Idempotent requests: the key a client sends, the hash of a request's payload, how long a
//! request may stay in progress, and what a repeated request is answered.
use vstd::prelude::*;
use vstd::string::{StrSliceExecFns, StringSliceAdditionalSpecFns};

use crate::number::{parse_i64, parse_i64_str};
use crate::text::{opt_trim_nonempty, opt_view, trim, trimmed_chars, trimmed_nonempty_opt};

verus! {

/// The header that carries the key.
pub const IDEMPOTENCY_KEY_HEADER: &'static str = "Idempotency-Key";

/// How long a request may stay in progress when nothing else is configured (one hour).
pub const DEFAULT_IDEMPOTENCY_IN_PROGRESS_TTL_SECS: i64 = 3600;

/// The environment variable that sets it.
pub const IDEMPOTENCY_IN_PROGRESS_TTL_ENV: &'static str = "VK_IDEMPOTENCY_IN_PROGRESS_TTL_SECS";

/// The SHA-256 digest of some bytes.
pub uninterp spec fn sha256_of(data: Seq<u8>) -> Seq<u8>;

/// Calls `sha2::Sha256::digest`. Claimed: the result is the digest of exactly `data`, and
/// has the 32 bytes of SHA-256's output. Nothing is claimed of its value beyond that.
#[verifier::external_body]
fn sha256(data: &[u8]) -> (r: Vec<u8>)
    ensures
        r@ == sha256_of(data@),
        r@.len() == 32,
{
    <sha2::Sha256 as sha2::Digest>::digest(data).to_vec()
}

/// The lower-case hexadecimal digit of `d` (below 16).
pub open spec fn hex_digit(d: u8) -> char {
    if d < 10 {
        ((d + 48) as u8) as char
    } else {
        ((d + 87) as u8) as char
    }
}

/// Bytes in lower-case hexadecimal, two digits each, as `{:x}` writes a digest.
pub open spec fn hex_of(bytes: Seq<u8>) -> Seq<char>
    decreases bytes.len(),
{
    if bytes.len() == 0 {
        seq![]
    } else {
        let b = bytes.last();
        hex_of(bytes.drop_last()).push(hex_digit(b / 16)).push(hex_digit(b % 16))
    }
}

pub fn hex_char(d: u8) -> (c: char)
    requires
        d < 16,
    ensures
        c == hex_digit(d),
{
    if d < 10 {
        (d + 48) as char
    } else {
        (d + 87) as char
    }
}

/// Writes bytes in lower-case hexadecimal.
pub fn lower_hex(bytes: &Vec<u8>) -> (r: String)
    ensures
        r@ == hex_of(bytes@),
{
    let mut out = String::new();
    let mut i: usize = 0;
    proof {
        assert(bytes@.take(0) =~= Seq::<u8>::empty());
    }
    while i < bytes.len()
        invariant
            i <= bytes.len(),
            out@ == hex_of(bytes@.take(i as int)),
        decreases bytes.len() - i,
    {
        let b = bytes[i];
        out.push(hex_char(b / 16));
        out.push(hex_char(b % 16));
        proof {
            assert(bytes@.take(i + 1).drop_last() =~= bytes@.take(i as int));
            assert(bytes@.take(i + 1).last() == b);
        }
        i = i + 1;
    }
    proof {
        assert(bytes@.take(i as int) =~= bytes@);
    }
    out
}

/// The hash a request is recognized by: SHA-256 of its serialized payload, in hexadecimal.
pub fn request_hash(payload: &Vec<u8>) -> (r: String)
    ensures
        r@ == hex_of(sha256_of(payload@)),
{
    let digest = sha256(payload.as_slice());
    lower_hex(&digest)
}

/// The key of a request: the header's value, trimmed; none when it is absent or blank.
pub fn idempotency_key(header_value: Option<String>) -> (r: Option<String>)
    ensures
        opt_view(r) == opt_trim_nonempty(opt_view(header_value)),
{
    trimmed_nonempty_opt(&header_value)
}

/// How long, in seconds, a request may stay in progress, given the variable's value: the
/// default when it is unset, blank or not an integer; none (no limit) when it is zero or
/// less; else the value.
pub open spec fn in_progress_ttl(raw: Option<Seq<char>>) -> Option<int> {
    match raw {
        None => Some(DEFAULT_IDEMPOTENCY_IN_PROGRESS_TTL_SECS as int),
        Some(v) => {
            let t = trim(v);
            if t.len() == 0 {
                Some(DEFAULT_IDEMPOTENCY_IN_PROGRESS_TTL_SECS as int)
            } else {
                match parse_i64(t) {
                    Some(n) => if n <= 0 {
                        None
                    } else {
                        Some(n)
                    },
                    None => Some(DEFAULT_IDEMPOTENCY_IN_PROGRESS_TTL_SECS as int),
                }
            }
        },
    }
}

/// How long, in seconds, a request may stay in progress (see `in_progress_ttl`).
pub fn idempotency_in_progress_ttl(raw: Option<String>) -> (r: Option<i64>)
    ensures
        match in_progress_ttl(opt_view(raw)) {
            Some(n) => r == Some(n as i64),
            None => r is None,
        },
{
    match &raw {
        None => Some(DEFAULT_IDEMPOTENCY_IN_PROGRESS_TTL_SECS),
        Some(v) => {
            let t = crate::text::trimmed(v.as_str());
            if t.as_str().is_empty() {
                Some(DEFAULT_IDEMPOTENCY_IN_PROGRESS_TTL_SECS)
            } else {
                match parse_i64_str(t.as_str()) {
                    Some(n) => if n <= 0 {
                        None
                    } else {
                        Some(n)
                    },
                    None => Some(DEFAULT_IDEMPOTENCY_IN_PROGRESS_TTL_SECS),
                }
            }
        },
    }
}

/// A stored record's state: the request finished, and its response is kept.
pub const IDEMPOTENCY_STATE_COMPLETED: &'static str = "completed";

/// A stored record's state: the request is still running.
pub const IDEMPOTENCY_STATE_IN_PROGRESS: &'static str = "in_progress";

/// What a request whose key was seen before is answered.
#[derive(Clone, Debug, PartialEq, Eq)]
pub enum ReplayOutcome {
    /// The stored response, sent again.
    Replay(String),
    /// "Idempotency key already used with different request parameters".
    HashMismatch,
    /// "Request with this idempotency key is in progress. Retry shortly."
    InProgress,
    /// "Idempotency record is completed but has no stored response".
    MissingResponse,
    /// "Unknown idempotency record state: ...".
    UnknownState(String),
}

/// A replay outcome over character sequences.
pub enum ReplayOutcomeView {
    Replay(Seq<char>),
    HashMismatch,
    InProgress,
    MissingResponse,
    UnknownState(Seq<char>),
}

impl View for ReplayOutcome {
    type V = ReplayOutcomeView;

    open spec fn view(&self) -> ReplayOutcomeView {
        match self {
            ReplayOutcome::Replay(r) => ReplayOutcomeView::Replay(r@),
            ReplayOutcome::HashMismatch => ReplayOutcomeView::HashMismatch,
            ReplayOutcome::InProgress => ReplayOutcomeView::InProgress,
            ReplayOutcome::MissingResponse => ReplayOutcomeView::MissingResponse,
            ReplayOutcome::UnknownState(s) => ReplayOutcomeView::UnknownState(s@),
        }
    }
}

/// What a request with a known key is answered: a conflict when its hash differs from the
/// stored one; else by the record's state: the stored response when completed (an internal
/// error when there is none), a conflict while in progress, an internal error otherwise.
pub open spec fn replay_outcome(
    stored_hash: Seq<char>,
    request_hash: Seq<char>,
    state: Seq<char>,
    response: Option<Seq<char>>,
) -> ReplayOutcomeView {
    if stored_hash != request_hash {
        ReplayOutcomeView::HashMismatch
    } else if state == IDEMPOTENCY_STATE_COMPLETED@ {
        match response {
            Some(r) => ReplayOutcomeView::Replay(r),
            None => ReplayOutcomeView::MissingResponse,
        }
    } else if state == IDEMPOTENCY_STATE_IN_PROGRESS@ {
        ReplayOutcomeView::InProgress
    } else {
        ReplayOutcomeView::UnknownState(state)
    }
}

/// Decides what a request with a known key is answered (see `replay_outcome`).
pub fn existing_record_outcome(
    stored_hash: &String,
    request_hash: &String,
    state: &String,
    response_json: Option<String>,
) -> (r: ReplayOutcome)
    ensures
        r@ == replay_outcome(stored_hash@, request_hash@, state@, opt_view(response_json)),
{
    if *stored_hash != *request_hash {
        return ReplayOutcome::HashMismatch;
    }
    let completed = IDEMPOTENCY_STATE_COMPLETED.to_owned();
    let in_progress = IDEMPOTENCY_STATE_IN_PROGRESS.to_owned();
    if *state == completed {
        match response_json {
            Some(r) => ReplayOutcome::Replay(r),
            None => ReplayOutcome::MissingResponse,
        }
    } else if *state == in_progress {
        ReplayOutcome::InProgress
    } else {
        ReplayOutcome::UnknownState(state.clone())
    }
}

/// A request retried with the same payload under the same key, after the first run
/// completed with response `response`, is answered with that response, whatever the state
/// of any other record.
pub proof fn law_completed_retry_replays(payload: Seq<u8>, response: Seq<char>)
    ensures
        replay_outcome(
            hex_of(sha256_of(payload)),
            hex_of(sha256_of(payload)),
            IDEMPOTENCY_STATE_COMPLETED@,
            Some(response),
        ) == ReplayOutcomeView::Replay(response),
{
}

/// A key reused for a request whose hash differs from the stored one is refused as a
/// conflict, whatever state the stored record is in and whatever response it holds.
pub proof fn law_changed_request_conflicts(
    stored_hash: Seq<char>,
    request_hash: Seq<char>,
    state: Seq<char>,
    response: Option<Seq<char>>,
)
    requires
        stored_hash != request_hash,
    ensures
        replay_outcome(stored_hash, request_hash, state, response) == ReplayOutcomeView::HashMismatch,
{
}

/// The bytes an edge's id is hashed from: `from`, a newline, `to`, a newline, then the data
/// flow if there is one.
pub open spec fn edge_id_bytes(from: Seq<char>, to: Seq<char>, data_flow: Option<Seq<char>>) -> Seq<u8> {
    vstd::utf8::encode_utf8(from) + seq![10u8] + vstd::utf8::encode_utf8(to) + seq![10u8] + match data_flow {
        Some(d) => vstd::utf8::encode_utf8(d),
        None => seq![],
    }
}

/// The id of a plan edge: `edge-` and the first sixteen hexadecimal digits of the SHA-256 of
/// its endpoints and data flow.
pub fn edge_id_for_key(key: &crate::milestone_plan::MilestonePlanEdgeKeyV1) -> (r: String)
    ensures
        r@ == "edge-"@ + hex_of(sha256_of(edge_id_bytes(key.from@, key.to@, opt_view(key.data_flow)))).take(16),
{
    let mut bytes: Vec<u8> = key.from.as_str().as_bytes_vec();
    bytes.push(10u8);
    let mut to_bytes = key.to.as_str().as_bytes_vec();
    bytes.append(&mut to_bytes);
    bytes.push(10u8);
    match &key.data_flow {
        Some(d) => {
            let mut d_bytes = d.as_str().as_bytes_vec();
            bytes.append(&mut d_bytes);
        },
        None => {},
    }
    proof {
        assert(bytes@ =~= edge_id_bytes(key.from@, key.to@, opt_view(key.data_flow)));
    }
    let digest = sha256(bytes.as_slice());
    let hex = lower_hex(&digest);
    let hv = crate::text::chars_of(hex.as_str());
    proof {
        lemma_hex_len(digest@);
        reveal_strlit("edge-");
    }
    let mut out = "edge-".to_owned();
    crate::text::push_range(&mut out, &hv, 0, 16);
    proof {
        assert(hv@.subrange(0, 16) =~= hex_of(digest@).take(16));
    }
    out
}

proof fn lemma_hex_len(bytes: Seq<u8>)
    ensures
        hex_of(bytes).len() == 2 * bytes.len(),
    decreases bytes.len(),
{
    if bytes.len() > 0 {
        lemma_hex_len(bytes.drop_last());
    }
}

} // verus!
