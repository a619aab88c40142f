//! Resumable event streams: where a client resumes, and the sequence numbers of the
//! snapshots sent over a websocket.
use vstd::prelude::*;

use crate::number::{parse_u64_trimmed, parse_unsigned};
use crate::text::{opt_view, trim};

verus! {

/// Query of the event stream: resume after this sequence number.
#[derive(Clone, Copy, Debug, PartialEq, Eq, Structural)]
pub struct EventsQuery {
    pub after_seq: Option<u64>,
}

/// Query of the projects stream: resume after this sequence number.
#[derive(Clone, Copy, Debug, PartialEq, Eq, Structural)]
pub struct ProjectsStreamQuery {
    pub after_seq: Option<u64>,
}

/// The sequence number in a `Last-Event-ID` header: its trimmed value as a `u64`, if it is
/// one.
pub open spec fn last_event_id(header: Option<Seq<char>>) -> Option<u64> {
    match header {
        Some(v) => match parse_unsigned(trim(v), u64::MAX as nat) {
            Some(n) => Some(n as u64),
            None => None,
        },
        None => None,
    }
}

/// Reads a `Last-Event-ID` header's value (see `last_event_id`).
pub fn parse_last_event_id(header: Option<String>) -> (r: Option<u64>)
    ensures
        r == last_event_id(opt_view(header)),
{
    match &header {
        Some(v) => parse_u64_trimmed(v.as_str()),
        None => None,
    }
}

/// Where the event stream resumes: after the query's sequence number, or else after the
/// `Last-Event-ID` header's.
pub fn resume_after_seq(query: &EventsQuery, last_event_id_header: Option<String>) -> (r: Option<u64>)
    ensures
        r == match query.after_seq {
            Some(n) => Some(n),
            None => last_event_id(opt_view(last_event_id_header)),
        },
{
    match query.after_seq {
        Some(n) => Some(n),
        None => parse_last_event_id(last_event_id_header),
    }
}

/// The next snapshot number: one more than the last (saturating), or the current time in
/// milliseconds when that is later.
pub open spec fn next_seq(last: u64, now_millis: u64) -> u64 {
    let inc = if last == u64::MAX {
        last
    } else {
        (last + 1) as u64
    };
    if now_millis > inc {
        now_millis
    } else {
        inc
    }
}

/// Advances the sequence to its next number at time `now_millis` and gives it.
pub fn next_ws_seq_at(last_seq: &mut u64, now_millis: u64) -> (r: u64)
    ensures
        r == next_seq(*old(last_seq), now_millis),
        *final(last_seq) == r,
{
    let inc = last_seq.saturating_add(1);
    let next = if now_millis > inc {
        now_millis
    } else {
        inc
    };
    *last_seq = next;
    next
}

/// Advances the sequence to its next number by the system clock and gives it: later than
/// the last number unless that was already the largest.
pub fn next_ws_seq(last_seq: &mut u64) -> (r: u64)
    ensures
        *final(last_seq) == r,
        *old(last_seq) < u64::MAX ==> r > *old(last_seq),
        *old(last_seq) == u64::MAX ==> r == u64::MAX,
{
    let now = crate::clock::now_unix_millis();
    next_ws_seq_at(last_seq, now)
}

/// Snapshot numbers only grow: each is later than the one before, unless that was the
/// largest number, which then repeats.
pub proof fn law_next_seq_increases(last: u64, now_millis: u64)
    ensures
        last < u64::MAX ==> next_seq(last, now_millis) > last,
        last == u64::MAX ==> next_seq(last, now_millis) == last,
        next_seq(last, now_millis) >= now_millis,
{
}

/// How a record changed, as an outbox event says.
#[derive(Clone, Copy, Debug, PartialEq, Eq, Structural)]
pub enum PatchKind {
    Add,
    Replace,
    Remove,
}

/// The patch an event turns into: a removal always (the record is gone, nothing is looked
/// up); an addition or replacement only when the record is still found.
pub fn patch_for(kind: PatchKind, found: bool) -> (r: Option<PatchKind>)
    ensures
        r == (if kind == PatchKind::Remove {
            Some(PatchKind::Remove)
        } else if found {
            Some(kind)
        } else {
            None::<PatchKind>
        }),
{
    match kind {
        PatchKind::Remove => Some(PatchKind::Remove),
        _ => if found {
            Some(kind)
        } else {
            None
        },
    }
}

} // verus!
