//! The life of an idempotency key's record across a request: a new key starts the work, a
//! success stores the response, a failure frees the key, and a repeated request is answered
//! from the record without doing the work again.
use vstd::prelude::*;

use crate::idempotency::{
    existing_record_outcome, replay_outcome, ReplayOutcome, ReplayOutcomeView,
    IDEMPOTENCY_STATE_COMPLETED, IDEMPOTENCY_STATE_IN_PROGRESS,
};

verus! {

/// The record of one idempotency key.
#[derive(Clone, Debug, PartialEq, Eq)]
pub enum KeyRecord {
    /// No request has claimed the key (or the one that did failed).
    Absent,
    /// A request with this hash is being carried out.
    InProgress { hash: String },
    /// A request with this hash succeeded with this response.
    Completed { hash: String, response: String },
}

pub enum KeyRecordView {
    Absent,
    InProgress { hash: Seq<char> },
    Completed { hash: Seq<char>, response: Seq<char> },
}

impl View for KeyRecord {
    type V = KeyRecordView;

    open spec fn view(&self) -> KeyRecordView {
        match self {
            KeyRecord::Absent => KeyRecordView::Absent,
            KeyRecord::InProgress { hash } => KeyRecordView::InProgress { hash: hash@ },
            KeyRecord::Completed { hash, response } => KeyRecordView::Completed { hash: hash@, response: response@ },
        }
    }
}

/// What happens to a key: a request arrives with its hash, or the work it started ends.
#[derive(Clone, Debug)]
pub enum KeyEvent {
    Request { hash: String },
    Succeeded { response: String },
    Failed,
}

pub enum KeyEventView {
    Request { hash: Seq<char> },
    Succeeded { response: Seq<char> },
    Failed,
}

impl View for KeyEvent {
    type V = KeyEventView;

    open spec fn view(&self) -> KeyEventView {
        match self {
            KeyEvent::Request { hash } => KeyEventView::Request { hash: hash@ },
            KeyEvent::Succeeded { response } => KeyEventView::Succeeded { response: response@ },
            KeyEvent::Failed => KeyEventView::Failed,
        }
    }
}

/// What the server does on an event.
#[derive(Debug, PartialEq, Eq)]
pub enum KeyAction {
    /// Carry out the request's work.
    Execute,
    /// Answer from the record without doing the work (see `replay_outcome`).
    Answer(ReplayOutcome),
    /// Answer with the response the work just gave.
    Respond(String),
    /// Pass on the work's error.
    PassOnError,
    /// The event does not belong to the record's state; nothing happens.
    Ignore,
}

pub enum KeyActionView {
    Execute,
    Answer(ReplayOutcomeView),
    Respond(Seq<char>),
    PassOnError,
    Ignore,
}

impl View for KeyAction {
    type V = KeyActionView;

    open spec fn view(&self) -> KeyActionView {
        match self {
            KeyAction::Execute => KeyActionView::Execute,
            KeyAction::Answer(o) => KeyActionView::Answer(o@),
            KeyAction::Respond(r) => KeyActionView::Respond(r@),
            KeyAction::PassOnError => KeyActionView::PassOnError,
            KeyAction::Ignore => KeyActionView::Ignore,
        }
    }
}

/// The next record and the action for an event: a request claims a free key and is carried
/// out; on a claimed key it is answered as the stored record says; a success stores its
/// response; a failure frees the key so that a retry can proceed.
pub open spec fn key_step(record: KeyRecordView, event: KeyEventView) -> (KeyRecordView, KeyActionView) {
    match (record, event) {
        (KeyRecordView::Absent, KeyEventView::Request { hash }) => (
            KeyRecordView::InProgress { hash },
            KeyActionView::Execute,
        ),
        (KeyRecordView::InProgress { hash }, KeyEventView::Request { hash: h }) => (
            record,
            KeyActionView::Answer(replay_outcome(hash, h, IDEMPOTENCY_STATE_IN_PROGRESS@, None)),
        ),
        (KeyRecordView::Completed { hash, response }, KeyEventView::Request { hash: h }) => (
            record,
            KeyActionView::Answer(replay_outcome(hash, h, IDEMPOTENCY_STATE_COMPLETED@, Some(response))),
        ),
        (KeyRecordView::InProgress { hash }, KeyEventView::Succeeded { response }) => (
            KeyRecordView::Completed { hash, response },
            KeyActionView::Respond(response),
        ),
        (KeyRecordView::InProgress { .. }, KeyEventView::Failed) => (
            KeyRecordView::Absent,
            KeyActionView::PassOnError,
        ),
        _ => (record, KeyActionView::Ignore),
    }
}

/// Takes one event for a key (see `key_step`).
pub fn step_key(record: KeyRecord, event: KeyEvent) -> (r: (KeyRecord, KeyAction))
    ensures
        (r.0@, r.1@) == key_step(record@, event@),
{
    match (record, event) {
        (KeyRecord::Absent, KeyEvent::Request { hash }) => (KeyRecord::InProgress { hash }, KeyAction::Execute),
        (KeyRecord::InProgress { hash }, KeyEvent::Request { hash: h }) => {
            let state = IDEMPOTENCY_STATE_IN_PROGRESS.to_owned();
            let outcome = existing_record_outcome(&hash, &h, &state, None);
            (KeyRecord::InProgress { hash }, KeyAction::Answer(outcome))
        },
        (KeyRecord::Completed { hash, response }, KeyEvent::Request { hash: h }) => {
            let state = IDEMPOTENCY_STATE_COMPLETED.to_owned();
            let outcome = existing_record_outcome(&hash, &h, &state, Some(response.clone()));
            (KeyRecord::Completed { hash, response }, KeyAction::Answer(outcome))
        },
        (KeyRecord::InProgress { hash }, KeyEvent::Succeeded { response }) => {
            let answer = response.clone();
            (KeyRecord::Completed { hash, response }, KeyAction::Respond(answer))
        },
        (KeyRecord::InProgress { .. }, KeyEvent::Failed) => (KeyRecord::Absent, KeyAction::PassOnError),
        (record, _) => (record, KeyAction::Ignore),
    }
}

/// A request repeated after the first one succeeded is answered with the stored response and
/// does not carry out the work again (so, for a plan, creates no task twice); the record
/// stays as it was.
pub proof fn law_repeated_request_is_replayed(hash: Seq<char>, response: Seq<char>)
    ensures
        ({
            let (s1, a1) = key_step(KeyRecordView::Absent, KeyEventView::Request { hash });
            let (s2, a2) = key_step(s1, KeyEventView::Succeeded { response });
            let (s3, a3) = key_step(s2, KeyEventView::Request { hash });
            &&& a1 == KeyActionView::Execute
            &&& a2 == KeyActionView::Respond(response)
            &&& a3 == KeyActionView::Answer(ReplayOutcomeView::Replay(response))
            &&& s3 == s2
        }),
{
}

/// Once a key is claimed, no request carries out the work again: a request with another hash
/// is refused as a conflict, one with the same hash waits or replays, and the record does
/// not change.
pub proof fn law_claimed_key_never_executes_again(record: KeyRecordView, hash: Seq<char>)
    requires
        !(record is Absent),
    ensures
        key_step(record, KeyEventView::Request { hash }).1 != KeyActionView::Execute,
        key_step(record, KeyEventView::Request { hash }).0 == record,
        (match record {
            KeyRecordView::InProgress { hash: h } => h != hash,
            KeyRecordView::Completed { hash: h, .. } => h != hash,
            KeyRecordView::Absent => false,
        }) ==> key_step(record, KeyEventView::Request { hash }).1 == KeyActionView::Answer(
            ReplayOutcomeView::HashMismatch,
        ),
{
}

/// A failed attempt frees the key: a retry with the same hash carries out the work.
pub proof fn law_failure_frees_the_key(hash: Seq<char>)
    ensures
        ({
            let (s1, _) = key_step(KeyRecordView::Absent, KeyEventView::Request { hash });
            let (s2, a2) = key_step(s1, KeyEventView::Failed);
            &&& a2 == KeyActionView::PassOnError
            &&& key_step(s2, KeyEventView::Request { hash }).1 == KeyActionView::Execute
        }),
{
}

} // verus!
