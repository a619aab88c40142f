//! Follow-up messages queued per session until the running execution finishes, with
//! expiry and idempotent retries.
//!
//! Times are nanoseconds since the Unix epoch; a message expires once more than the
//! time-to-live has passed since it was queued.
use std::collections::HashMap;

use vstd::prelude::*;

verus! {

broadcast use vstd::std_specs::hash::group_hash_axioms;

/// Largest time-to-live, in seconds, that the time arithmetic can represent; a longer one
/// is treated as zero length.
pub const MAX_TTL_SECS: u64 = 9223372036854775;

/// The follow-up to send: the message and an optional executor variant.
#[derive(Clone, Debug)]
pub struct DraftFollowUpData {
    pub message: String,
    pub variant: Option<String>,
}

/// A follow-up queued for a session.
#[derive(Clone, Debug)]
pub struct QueuedMessage {
    pub session_id: u128,
    pub data: DraftFollowUpData,
    pub queued_at: i128,
}

/// A queued message as plain values.
pub struct QueuedMessageView {
    pub session_id: u128,
    pub message: Seq<char>,
    pub variant: Option<Seq<char>>,
    pub queued_at: i128,
}

impl View for QueuedMessage {
    type V = QueuedMessageView;

    open spec fn view(&self) -> QueuedMessageView {
        QueuedMessageView {
            session_id: self.session_id,
            message: self.data.message@,
            variant: match self.data.variant {
                Some(v) => Some(v@),
                None => None,
            },
            queued_at: self.queued_at,
        }
    }
}

impl QueuedMessage {
    /// A copy of the message.
    pub fn duplicate(&self) -> (r: QueuedMessage)
        ensures
            r@ == self@,
    {
        QueuedMessage {
            session_id: self.session_id,
            data: DraftFollowUpData {
                message: self.data.message.clone(),
                variant: match &self.data.variant {
                    Some(v) => Some(v.clone()),
                    None => None,
                },
            },
            queued_at: self.queued_at,
        }
    }
}

/// What the frontend shows for a session's queue.
#[derive(Clone, Debug)]
pub enum QueueStatus {
    Empty,
    Queued { message: QueuedMessage },
}

/// A retry reused an idempotency key with a different payload.
#[derive(Clone, Copy, Debug, PartialEq, Eq, Structural)]
pub enum QueueMessageIdempotencyError {
    Conflict,
}

impl QueueMessageIdempotencyError {
    /// The message the API answers with.
    pub fn message(&self) -> (r: &'static str)
        ensures
            r@ == match *self {
                QueueMessageIdempotencyError::Conflict => "Idempotency key already used with different message payload"@,
            },
    {
        match self {
            QueueMessageIdempotencyError::Conflict => "Idempotency key already used with different message payload",
        }
    }
}

#[derive(Clone, Debug)]
struct QueueIdempotencyRecord {
    key: String,
    request_hash: String,
}

/// Queue contents as plain values.
pub struct QueueState {
    pub queue: Map<u128, QueuedMessageView>,
    pub idem: Map<u128, (Seq<char>, Seq<char>)>,
    pub ttl_secs: u64,
}

/// The time-to-live in nanoseconds (zero when it is too long to represent).
pub open spec fn ttl_nanos(ttl_secs: u64) -> int {
    if ttl_secs <= MAX_TTL_SECS {
        ttl_secs * 1_000_000_000
    } else {
        0
    }
}

/// A message queued at `queued_at` has expired at `now`. A zero time-to-live never expires.
pub open spec fn expired(ttl_secs: u64, queued_at: i128, now: i128) -> bool {
    ttl_secs != 0 && now - queued_at > ttl_nanos(ttl_secs)
}

/// Sessions whose message has expired at `now`.
pub open spec fn expired_sessions(st: QueueState, now: i128) -> Set<u128> {
    Set::new(|k: u128| st.queue.contains_key(k) && expired(st.ttl_secs, st.queue[k].queued_at, now))
}

/// All expired messages dropped, with their idempotency records.
pub open spec fn spec_prune(st: QueueState, now: i128) -> QueueState {
    QueueState {
        queue: st.queue.remove_keys(expired_sessions(st, now)),
        idem: st.idem.remove_keys(expired_sessions(st, now)),
        ttl_secs: st.ttl_secs,
    }
}

/// The session's message has expired.
pub open spec fn session_expired(st: QueueState, s: u128, now: i128) -> bool {
    st.queue.contains_key(s) && expired(st.ttl_secs, st.queue[s].queued_at, now)
}

/// The session's message dropped when it has expired.
pub open spec fn spec_prune_session(st: QueueState, s: u128, now: i128) -> QueueState {
    if session_expired(st, s, now) {
        QueueState { queue: st.queue.remove(s), idem: st.idem.remove(s), ttl_secs: st.ttl_secs }
    } else {
        st
    }
}

/// The message that `queue_message` queues.
pub open spec fn new_message(s: u128, data: DraftFollowUpData, now: i128) -> QueuedMessageView {
    QueuedMessageView {
        session_id: s,
        message: data.message@,
        variant: match data.variant {
            Some(v) => Some(v@),
            None => None,
        },
        queued_at: now,
    }
}

/// State after `queue_message`: expired messages pruned, then the session's message replaced
/// and its idempotency record dropped.
pub open spec fn spec_queue_message(st: QueueState, s: u128, data: DraftFollowUpData, now: i128) -> QueueState {
    let p = spec_prune(st, now);
    QueueState { queue: p.queue.insert(s, new_message(s, data, now)), idem: p.idem.remove(s), ttl_secs: p.ttl_secs }
}

/// Outcome of `queue_message_idempotent`: after pruning, a record with the same key either
/// conflicts (another payload hash) or returns the message already queued (state unchanged);
/// otherwise the message is queued and the key recorded.
pub open spec fn spec_queue_idempotent(
    st: QueueState,
    s: u128,
    key: Seq<char>,
    hash: Seq<char>,
    data: DraftFollowUpData,
    now: i128,
) -> (QueueState, Result<QueuedMessageView, QueueMessageIdempotencyError>) {
    let p = spec_prune(st, now);
    if p.idem.contains_key(s) && p.idem[s].0 == key && p.idem[s].1 != hash {
        (p, Err(QueueMessageIdempotencyError::Conflict))
    } else if p.idem.contains_key(s) && p.idem[s].0 == key && p.queue.contains_key(s) {
        (p, Ok(p.queue[s]))
    } else {
        (
            QueueState {
                queue: p.queue.insert(s, new_message(s, data, now)),
                idem: p.idem.insert(s, (key, hash)),
                ttl_secs: p.ttl_secs,
            },
            Ok(new_message(s, data, now)),
        )
    }
}

/// In-memory queue of follow-up messages, one per session.
pub struct QueuedMessageService {
    queue: HashMap<u128, QueuedMessage>,
    idempotency: HashMap<u128, QueueIdempotencyRecord>,
    ttl_secs: u64,
}

impl View for QueuedMessageService {
    type V = QueueState;

    closed spec fn view(&self) -> QueueState {
        QueueState {
            queue: self.queue@.map_values(|m: QueuedMessage| m@),
            idem: self.idempotency@.map_values(|r: QueueIdempotencyRecord| (r.key@, r.request_hash@)),
            ttl_secs: self.ttl_secs,
        }
    }
}

impl QueuedMessageService {
    /// An empty queue whose messages live for `ttl_secs` seconds (zero: forever).
    pub fn new(ttl_secs: u64) -> (r: Self)
        ensures
            r@.queue == Map::<u128, QueuedMessageView>::empty(),
            r@.idem == Map::<u128, (Seq<char>, Seq<char>)>::empty(),
            r@.ttl_secs == ttl_secs,
    {
        let r = QueuedMessageService { queue: HashMap::new(), idempotency: HashMap::new(), ttl_secs };
        proof {
            assert(r@.queue =~= Map::<u128, QueuedMessageView>::empty());
            assert(r@.idem =~= Map::<u128, (Seq<char>, Seq<char>)>::empty());
        }
        r
    }

    /// Number of queued messages.
    pub fn queue_len(&self) -> (r: usize)
        ensures
            r == self@.queue.len(),
    {
        proof {
            assert(self@.queue.dom() =~= self.queue@.dom());
        }
        self.queue.len()
    }

    /// Whether a message queued at `queued_at` has expired at `now`.
    pub fn is_expired(&self, queued_at: i128, now: i128) -> (r: bool)
        ensures
            r == expired(self@.ttl_secs, queued_at, now),
    {
        if self.ttl_secs == 0 {
            return false;
        }
        let ttl: i128 = if self.ttl_secs <= MAX_TTL_SECS {
            self.ttl_secs as i128 * 1_000_000_000
        } else {
            0
        };
        match now.checked_sub(queued_at) {
            Some(elapsed) => elapsed > ttl,
            // The difference does not fit: it is beyond any time-to-live when positive.
            None => now > queued_at,
        }
    }

    /// Drops every expired message (and its idempotency record); returns how many were dropped.
    pub fn prune_expired_at(&mut self, now: i128) -> (r: usize)
        ensures
            final(self)@ == spec_prune(old(self)@, now),
            r == expired_sessions(old(self)@, now).len(),
    {
        let ghost st = self@;
        let ghost gone = expired_sessions(st, now);
        let mut expired_keys: Vec<u128> = Vec::new();
        let ghost mut seen: Seq<u128> = seq![];
        for k in it: self.queue.keys()
            invariant
                st == self@,
                seen.len() == it.index(),
                forall|j: int| 0 <= j < it.index() ==> seen[j] == *it.seq()[j],
                it.index() == it.seq().len() ==> (forall|key: u128|
                    self.queue@.dom().contains(key) ==> #[trigger] seen.contains(key)),
                gone == expired_sessions(st, now),
                it.seq().no_duplicates(),
                it.seq().len() == self.queue@.dom().len(),
                it.seq().unref().to_set() == self.queue@.dom(),
                expired_keys@.no_duplicates(),
                seen.no_duplicates(),
                forall|i: int|
                    0 <= i < expired_keys.len() ==> #[trigger] gone.contains(expired_keys@[i]),
                forall|i: int| 0 <= i < expired_keys.len() ==> seen.contains(#[trigger] expired_keys@[i]),
                forall|j: int|
                    0 <= j < seen.len() && gone.contains(#[trigger] seen[j]) ==> expired_keys@.contains(seen[j]),
        {
            let ghost ek0 = expired_keys@;
            let key = *k;
            proof {
                assert(it.seq()[it.index() as int] == k);
                assert(self.queue@.dom().contains(key)) by {
                    assert(it.seq().unref()[it.index() as int] == key);
                    assert(it.seq().unref().to_set().contains(key));
                }
            }
            let msg = self.queue.get(&key).unwrap();
            if self.is_expired(msg.queued_at, now) {
                proof {
                    assert(self@.queue[key] == msg@);
                    assert(gone.contains(key));
                    assert(!expired_keys@.contains(key)) by {
                        if expired_keys@.contains(key) {
                            let i = choose|i: int| 0 <= i < expired_keys.len() && expired_keys@[i] == key;
                            assert(seen.contains(expired_keys@[i]));
                            let j = choose|j: int| 0 <= j < seen.len() && seen[j] == key;
                            assert(it.seq()[j] == it.seq()[it.index() as int]);
                        }
                    }
                }
                expired_keys.push(key);
            } else {
                proof {
                    assert(self@.queue[key] == msg@);
                    assert(!gone.contains(key));
                }
            }
            proof {
                assert(!seen.contains(key)) by {
                    if seen.contains(key) {
                        let j = choose|j: int| 0 <= j < seen.len() && seen[j] == key;
                        assert(it.seq()[j] == it.seq()[it.index() as int]);
                    }
                }
                let ghost old_seen = seen;
                assert(expired_keys@ == ek0 || expired_keys@ == ek0.push(key));
                assert forall|x: u128| ek0.contains(x) implies expired_keys@.contains(x) by {
                    let i = choose|i: int| 0 <= i < ek0.len() && ek0[i] == x;
                    assert(expired_keys@[i] == x);
                }
                seen = seen.push(key);
                assert forall|i: int| 0 <= i < expired_keys.len() implies seen.contains(#[trigger] expired_keys@[i]) by {
                    if expired_keys@[i] != key {
                        assert(old_seen.contains(expired_keys@[i]));
                        let j = choose|j: int| 0 <= j < old_seen.len() && old_seen[j] == expired_keys@[i];
                        assert(seen[j] == expired_keys@[i]);
                    } else {
                        assert(seen[old_seen.len() as int] == key);
                    }
                }
                assert forall|j: int|
                    0 <= j < seen.len() && gone.contains(#[trigger] seen[j]) implies expired_keys@.contains(seen[j]) by {
                    if j < old_seen.len() {
                        assert(seen[j] == old_seen[j]);
                        assert(ek0.contains(old_seen[j]));
                    } else {
                        assert(seen[j] == key);
                        assert(expired_keys@.last() == key);
                    }
                }
                assert forall|kk: u128|
                    it.index() + 1 == it.seq().len() && self.queue@.dom().contains(kk) implies #[trigger] seen.contains(kk) by {
                    assert(it.seq().unref().to_set().contains(kk));
                    let j = choose|j: int| 0 <= j < it.seq().unref().len() && it.seq().unref()[j] == kk;
                    assert(seen[j] == kk);
                }
            }
        }
        proof {
            assert(expired_keys@.to_set() =~= gone) by {
                assert forall|k: u128| gone.contains(k) implies expired_keys@.to_set().contains(k) by {
                    assert(self.queue@.dom().contains(k));
                    assert(seen.contains(k));
                }
                assert forall|k: u128| expired_keys@.to_set().contains(k) implies gone.contains(k) by {
                    let i = choose|i: int| 0 <= i < expired_keys.len() && expired_keys@[i] == k;
                    assert(gone.contains(expired_keys@[i]));
                }
            }
            expired_keys@.unique_seq_to_set();
        }
        let mut i: usize = 0;
        while i < expired_keys.len()
            invariant
                i <= expired_keys.len(),
                self.ttl_secs == st.ttl_secs,
                self.queue@.map_values(|m: QueuedMessage| m@) == st.queue.remove_keys(
                    expired_keys@.take(i as int).to_set(),
                ),
                self.idempotency@.map_values(|r: QueueIdempotencyRecord| (r.key@, r.request_hash@))
                    == st.idem.remove_keys(expired_keys@.take(i as int).to_set()),
            decreases expired_keys.len() - i,
        {
            let key = expired_keys[i];
            let ghost q0 = self.queue@;
            let ghost i0 = self.idempotency@;
            self.queue.remove(&key);
            self.idempotency.remove(&key);
            proof {
                assert(self.queue@ == q0.remove(key));
                assert(self.idempotency@ == i0.remove(key));
                let sset = expired_keys@.take(i as int).to_set();
                assert(q0.dom() =~= st.queue.remove_keys(sset).dom()) by {
                    assert(q0.map_values(|m: QueuedMessage| m@).dom() == q0.dom());
                }
                assert(i0.dom() =~= st.idem.remove_keys(sset).dom()) by {
                    assert(i0.map_values(|r: QueueIdempotencyRecord| (r.key@, r.request_hash@)).dom() == i0.dom());
                }
                assert forall|kk: u128| #[trigger] q0.contains_key(kk) implies q0[kk]@ == st.queue[kk] by {
                    assert(q0.map_values(|m: QueuedMessage| m@)[kk] == q0[kk]@);
                }
                assert forall|kk: u128| #[trigger] i0.contains_key(kk) implies (i0[kk].key@, i0[kk].request_hash@) == st.idem[kk] by {
                    assert(i0.map_values(|r: QueueIdempotencyRecord| (r.key@, r.request_hash@))[kk] == (i0[kk].key@, i0[kk].request_hash@));
                }
                assert(expired_keys@.take(i + 1).to_set() =~= expired_keys@.take(i as int).to_set().insert(key)) by {
                    assert(expired_keys@.take(i + 1) =~= expired_keys@.take(i as int).push(key));
                    expired_keys@.take(i as int).lemma_push_to_set_commute(key);
                }
                assert(self.queue@.map_values(|m: QueuedMessage| m@) =~= st.queue.remove_keys(
                    expired_keys@.take(i + 1).to_set(),
                ));
                assert(self.idempotency@.map_values(|r: QueueIdempotencyRecord| (r.key@, r.request_hash@))
                    =~= st.idem.remove_keys(expired_keys@.take(i + 1).to_set()));
            }
            i = i + 1;
        }
        proof {
            assert(expired_keys@.take(i as int) =~= expired_keys@);
            assert(self@.queue =~= spec_prune(st, now).queue);
            assert(self@.idem =~= spec_prune(st, now).idem);
        }
        expired_keys.len()
    }


    /// Drops the session's message (and idempotency record) when it has expired; tells
    /// whether it did.
    pub fn prune_if_expired_at(&mut self, session_id: u128, now: i128) -> (r: bool)
        ensures
            r == session_expired(old(self)@, session_id, now),
            final(self)@ == spec_prune_session(old(self)@, session_id, now),
    {
        let expired = match self.queue.get(&session_id) {
            Some(entry) => self.is_expired(entry.queued_at, now),
            None => false,
        };
        if expired {
            let ghost q0 = self.queue@;
            let ghost i0 = self.idempotency@;
            self.queue.remove(&session_id);
            self.idempotency.remove(&session_id);
            proof {
                assert(self@.queue =~= old(self)@.queue.remove(session_id));
                assert(self@.idem =~= old(self)@.idem.remove(session_id));
            }
            return true;
        }
        false
    }

    /// Queues a message for a session at time `now`, replacing any queued one.
    pub fn queue_message_at(&mut self, session_id: u128, data: DraftFollowUpData, now: i128) -> (r: QueuedMessage)
        ensures
            final(self)@ == spec_queue_message(old(self)@, session_id, data, now),
            r@ == new_message(session_id, data, now),
    {
        self.prune_expired_at(now);
        let ghost p = self@;
        self.idempotency.remove(&session_id);
        let ghost dv = data;
        let queued = QueuedMessage { session_id, data, queued_at: now };
        let copy = queued.duplicate();
        self.queue.insert(session_id, queued);
        proof {
            assert(self@.queue =~= p.queue.insert(session_id, new_message(session_id, dv, now)));
            assert(self@.idem =~= p.idem.remove(session_id));
        }
        copy
    }

    /// Queues a message under an idempotency key at time `now`: a retry with the same key
    /// and payload hash returns the message already queued, one with another hash conflicts.
    pub fn queue_message_idempotent_at(
        &mut self,
        session_id: u128,
        idempotency_key: String,
        request_hash: String,
        data: DraftFollowUpData,
        now: i128,
    ) -> (r: Result<QueuedMessage, QueueMessageIdempotencyError>)
        ensures
            ({
                let (st, out) = spec_queue_idempotent(
                    old(self)@,
                    session_id,
                    idempotency_key@,
                    request_hash@,
                    data,
                    now,
                );
                &&& final(self)@ == st
                &&& match out {
                    Ok(m) => r matches Ok(q) && q@ == m,
                    Err(e) => r == Err::<QueuedMessage, QueueMessageIdempotencyError>(e),
                }
            }),
    {
        self.prune_expired_at(now);
        let ghost p = self@;
        let mut same_key = false;
        match self.idempotency.get(&session_id) {
            Some(entry) => {
                proof {
                    assert(p.idem[session_id] == (entry.key@, entry.request_hash@));
                }
                if entry.key == idempotency_key {
                    if entry.request_hash != request_hash {
                        return Err(QueueMessageIdempotencyError::Conflict);
                    }
                    same_key = true;
                }
            },
            None => {},
        }
        if same_key {
            match self.queue.get(&session_id) {
                Some(existing) => {
                    proof {
                        assert(p.queue[session_id] == existing@);
                    }
                    return Ok(existing.duplicate());
                },
                None => {},
            }
        }
        let ghost kv = idempotency_key@;
        let ghost hv = request_hash@;
        let ghost dv = data;
        let queued = QueuedMessage { session_id, data, queued_at: now };
        let copy = queued.duplicate();
        self.queue.insert(session_id, queued);
        self.idempotency.insert(
            session_id,
            QueueIdempotencyRecord { key: idempotency_key, request_hash },
        );
        proof {
            assert(self@.queue =~= p.queue.insert(session_id, new_message(session_id, dv, now)));
            assert(self@.idem =~= p.idem.insert(session_id, (kv, hv)));
        }
        Ok(copy)
    }

    /// Removes and returns the session's queued message, with its idempotency record.
    pub fn cancel_queued(&mut self, session_id: u128) -> (r: Option<QueuedMessage>)
        ensures
            final(self)@ == (QueueState {
                queue: old(self)@.queue.remove(session_id),
                idem: old(self)@.idem.remove(session_id),
                ttl_secs: old(self)@.ttl_secs,
            }),
            match r {
                Some(m) => old(self)@.queue.contains_key(session_id) && m@ == old(self)@.queue[session_id],
                None => !old(self)@.queue.contains_key(session_id),
            },
    {
        self.idempotency.remove(&session_id);
        let r = self.queue.remove(&session_id);
        proof {
            assert(self@.queue =~= old(self)@.queue.remove(session_id));
            assert(self@.idem =~= old(self)@.idem.remove(session_id));
        }
        r
    }

    /// The session's queued message at time `now`; an expired one is dropped and not returned.
    pub fn get_queued_at(&mut self, session_id: u128, now: i128) -> (r: Option<QueuedMessage>)
        ensures
            final(self)@ == spec_prune_session(old(self)@, session_id, now),
            match r {
                Some(m) => !session_expired(old(self)@, session_id, now) && old(self)@.queue.contains_key(
                    session_id,
                ) && m@ == old(self)@.queue[session_id],
                None => session_expired(old(self)@, session_id, now) || !old(self)@.queue.contains_key(
                    session_id,
                ),
            },
    {
        if self.prune_if_expired_at(session_id, now) {
            return None;
        }
        match self.queue.get(&session_id) {
            Some(m) => Some(m.duplicate()),
            None => None,
        }
    }

    /// Removes and returns the session's queued message at time `now`, unless it has expired
    /// (then it is dropped and nothing is returned).
    pub fn take_queued_at(&mut self, session_id: u128, now: i128) -> (r: Option<QueuedMessage>)
        ensures
            session_expired(old(self)@, session_id, now) ==> r is None && final(self)@
                == spec_prune_session(old(self)@, session_id, now),
            !session_expired(old(self)@, session_id, now) ==> {
                &&& final(self)@ == (QueueState {
                    queue: old(self)@.queue.remove(session_id),
                    idem: old(self)@.idem.remove(session_id),
                    ttl_secs: old(self)@.ttl_secs,
                })
                &&& match r {
                    Some(m) => old(self)@.queue.contains_key(session_id) && m@ == old(self)@.queue[session_id],
                    None => !old(self)@.queue.contains_key(session_id),
                }
            },
    {
        if self.prune_if_expired_at(session_id, now) {
            return None;
        }
        self.cancel_queued(session_id)
    }

    /// Whether the session has a message queued that has not expired at time `now`.
    pub fn has_queued_at(&mut self, session_id: u128, now: i128) -> (r: bool)
        ensures
            final(self)@ == spec_prune_session(old(self)@, session_id, now),
            r == (old(self)@.queue.contains_key(session_id) && !session_expired(
                old(self)@,
                session_id,
                now,
            )),
    {
        if self.prune_if_expired_at(session_id, now) {
            return false;
        }
        self.queue.contains_key(&session_id)
    }

    /// The queue status of a session at time `now`.
    pub fn get_status_at(&mut self, session_id: u128, now: i128) -> (r: QueueStatus)
        ensures
            final(self)@ == spec_prune_session(old(self)@, session_id, now),
            match r {
                QueueStatus::Queued { message } => !session_expired(old(self)@, session_id, now)
                    && old(self)@.queue.contains_key(session_id) && message@ == old(self)@.queue[session_id],
                QueueStatus::Empty => session_expired(old(self)@, session_id, now) || !old(
                    self,
                )@.queue.contains_key(session_id),
            },
    {
        if self.prune_if_expired_at(session_id, now) {
            return QueueStatus::Empty;
        }
        match self.get_queued_at(session_id, now) {
            Some(message) => QueueStatus::Queued { message },
            None => QueueStatus::Empty,
        }
    }

    /// Queues a message for a session now (see `queue_message_at`).
    pub fn queue_message(&mut self, session_id: u128, data: DraftFollowUpData) -> (r: QueuedMessage)
        ensures
            exists|now: i128|
                final(self)@ == spec_queue_message(old(self)@, session_id, data, now) && r@
                    == new_message(session_id, data, now),
    {
        let now = crate::clock::now_nanos();
        self.queue_message_at(session_id, data, now)
    }

    /// Queues a message under an idempotency key now (see `queue_message_idempotent_at`).
    pub fn queue_message_idempotent(
        &mut self,
        session_id: u128,
        idempotency_key: String,
        request_hash: String,
        data: DraftFollowUpData,
    ) -> (r: Result<QueuedMessage, QueueMessageIdempotencyError>)
        ensures
            exists|now: i128|
                {
                    let (st, out) = #[trigger] spec_queue_idempotent(
                        old(self)@,
                        session_id,
                        idempotency_key@,
                        request_hash@,
                        data,
                        now,
                    );
                    &&& final(self)@ == st
                    &&& match out {
                        Ok(m) => r matches Ok(q) && q@ == m,
                        Err(e) => r == Err::<QueuedMessage, QueueMessageIdempotencyError>(e),
                    }
                },
    {
        let now = crate::clock::now_nanos();
        self.queue_message_idempotent_at(session_id, idempotency_key, request_hash, data, now)
    }

    /// The session's queued message, unless it has expired by now: what `get_queued_at`
    /// gives at the time the clock reads.
    pub fn get_queued(&mut self, session_id: u128) -> (r: Option<QueuedMessage>)
        ensures
            exists|now: i128|
                {
                    &&& final(self)@ == #[trigger] spec_prune_session(old(self)@, session_id, now)
                    &&& match r {
                        Some(m) => !session_expired(old(self)@, session_id, now)
                            && old(self)@.queue.contains_key(session_id) && m@ == old(self)@.queue[session_id],
                        None => session_expired(old(self)@, session_id, now)
                            || !old(self)@.queue.contains_key(session_id),
                    }
                },
    {
        let now = crate::clock::now_nanos();
        self.get_queued_at(session_id, now)
    }

    /// Removes and returns the session's queued message, unless it has expired by now.
    pub fn take_queued(&mut self, session_id: u128) -> (r: Option<QueuedMessage>)
        ensures
            !final(self)@.queue.contains_key(session_id),
            match r {
                Some(m) => old(self)@.queue.contains_key(session_id) && m@ == old(self)@.queue[session_id],
                None => true,
            },
    {
        let now = crate::clock::now_nanos();
        self.take_queued_at(session_id, now)
    }

    /// Whether the session has a message queued that has not expired by now.
    pub fn has_queued(&mut self, session_id: u128) -> (r: bool)
        ensures
            r ==> old(self)@.queue.contains_key(session_id),
            r <==> final(self)@.queue.contains_key(session_id),
    {
        let now = crate::clock::now_nanos();
        self.has_queued_at(session_id, now)
    }

    /// The queue status of a session now.
    pub fn get_status(&mut self, session_id: u128) -> (r: QueueStatus)
        ensures
            match r {
                QueueStatus::Queued { message } => old(self)@.queue.contains_key(session_id) && message@
                    == old(self)@.queue[session_id],
                QueueStatus::Empty => !final(self)@.queue.contains_key(session_id),
            },
    {
        let now = crate::clock::now_nanos();
        self.get_status_at(session_id, now)
    }

}

} // verus!

verus! {

/// Retrying a successful idempotent queue request with the same key and payload hash, while
/// the message has not expired, returns the very same message and changes nothing more than
/// pruning does.
pub proof fn law_idempotent_retry_returns_same_message(
    st: QueueState,
    s: u128,
    key: Seq<char>,
    hash: Seq<char>,
    data: DraftFollowUpData,
    retry_data: DraftFollowUpData,
    now: i128,
    later: i128,
)
    requires
        spec_queue_idempotent(st, s, key, hash, data, now).1 is Ok,
        !expired(st.ttl_secs, spec_queue_idempotent(st, s, key, hash, data, now).1->Ok_0.queued_at, later),
    ensures
        ({
            let (st1, r1) = spec_queue_idempotent(st, s, key, hash, data, now);
            let (st2, r2) = spec_queue_idempotent(st1, s, key, hash, retry_data, later);
            &&& r2 == r1
            &&& st2 == spec_prune(st1, later)
        }),
{
    let (st1, r1) = spec_queue_idempotent(st, s, key, hash, data, now);
    assert(st1.idem.contains_key(s) && st1.idem[s] == (key, hash));
    assert(st1.queue.contains_key(s) && st1.queue[s] == r1->Ok_0);
    let p = spec_prune(st1, later);
    assert(!expired_sessions(st1, later).contains(s));
    assert(p.idem.contains_key(s) && p.idem[s] == (key, hash));
    assert(p.queue.contains_key(s) && p.queue[s] == r1->Ok_0);
}

/// Reusing an idempotency key with another payload hash, while the first message has not
/// expired, is refused as a conflict.
pub proof fn law_idempotent_key_reuse_conflicts(
    st: QueueState,
    s: u128,
    key: Seq<char>,
    hash: Seq<char>,
    other_hash: Seq<char>,
    data: DraftFollowUpData,
    other_data: DraftFollowUpData,
    now: i128,
    later: i128,
)
    requires
        spec_queue_idempotent(st, s, key, hash, data, now).1 is Ok,
        !expired(st.ttl_secs, spec_queue_idempotent(st, s, key, hash, data, now).1->Ok_0.queued_at, later),
        other_hash != hash,
    ensures
        spec_queue_idempotent(
            spec_queue_idempotent(st, s, key, hash, data, now).0,
            s,
            key,
            other_hash,
            other_data,
            later,
        ).1 == Err::<QueuedMessageView, QueueMessageIdempotencyError>(QueueMessageIdempotencyError::Conflict),
{
    let (st1, r1) = spec_queue_idempotent(st, s, key, hash, data, now);
    assert(st1.idem.contains_key(s) && st1.idem[s] == (key, hash));
    assert(st1.queue.contains_key(s) && st1.queue[s] == r1->Ok_0);
    assert(!expired_sessions(st1, later).contains(s));
    let p = spec_prune(st1, later);
    assert(p.idem.contains_key(s) && p.idem[s] == (key, hash));
}

/// A message queued for a session is what taking it returns while it has not expired, and
/// afterwards the session has nothing queued.
pub proof fn law_take_returns_queued_message(
    st: QueueState,
    s: u128,
    data: DraftFollowUpData,
    now: i128,
    later: i128,
)
    requires
        !expired(st.ttl_secs, now, later),
    ensures
        ({
            let st1 = spec_queue_message(st, s, data, now);
            &&& st1.queue.contains_key(s)
            &&& st1.queue[s] == new_message(s, data, now)
            &&& !session_expired(st1, s, later)
            &&& !st1.queue.remove(s).contains_key(s)
        }),
{
}

} // verus!
