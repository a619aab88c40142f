use vibe_kanban::queued_message::{
    DraftFollowUpData, QueueMessageIdempotencyError, QueueStatus, QueuedMessageService,
};

const SECOND: i128 = 1_000_000_000;
const DEFAULT_TTL_SECS: u64 = 86400;

fn hello() -> DraftFollowUpData {
    DraftFollowUpData {
        message: "hello".to_string(),
        variant: None,
    }
}

#[test]
fn queued_message_expires_on_access() {
    let mut service = QueuedMessageService::new(DEFAULT_TTL_SECS);
    let session_id: u128 = 0x1234;
    let queued_at: i128 = 1_700_000_000 * SECOND;
    service.queue_message_at(session_id, hello(), queued_at);
    assert_eq!(service.queue_len(), 1);

    let later = queued_at + (DEFAULT_TTL_SECS as i128 + 1) * SECOND;
    assert!(service.get_queued_at(session_id, later).is_none());
    assert_eq!(service.queue_len(), 0);
}

#[test]
fn queue_message_idempotent_reuses_existing_message() {
    let mut service = QueuedMessageService::new(DEFAULT_TTL_SECS);
    let session_id: u128 = 42;
    let t0: i128 = 1_700_000_000 * SECOND;

    let queued1 = service
        .queue_message_idempotent_at(
            session_id,
            "req-1".to_string(),
            "hash-1".to_string(),
            hello(),
            t0,
        )
        .unwrap();

    let queued2 = service
        .queue_message_idempotent_at(
            session_id,
            "req-1".to_string(),
            "hash-1".to_string(),
            hello(),
            t0 + 5 * SECOND,
        )
        .unwrap();

    assert_eq!(queued1.queued_at, queued2.queued_at);
    assert_eq!(queued1.data.message, queued2.data.message);
}

#[test]
fn queue_message_idempotent_conflicts_on_payload_change() {
    let mut service = QueuedMessageService::new(DEFAULT_TTL_SECS);
    let session_id: u128 = 42;
    let t0: i128 = 1_700_000_000 * SECOND;
    let data2 = DraftFollowUpData {
        message: "different".to_string(),
        variant: None,
    };

    let _ = service
        .queue_message_idempotent_at(session_id, "req-1".to_string(), "hash-1".to_string(), hello(), t0)
        .unwrap();

    let err = service
        .queue_message_idempotent_at(
            session_id,
            "req-1".to_string(),
            "hash-2".to_string(),
            data2,
            t0 + SECOND,
        )
        .expect_err("expected conflict");

    assert!(matches!(err, QueueMessageIdempotencyError::Conflict));
}

#[test]
fn clock_based_calls_queue_and_take() {
    let mut service = QueuedMessageService::new(DEFAULT_TTL_SECS);
    service.queue_message(9, hello());
    assert!(service.has_queued(9));
    assert!(matches!(service.get_status(9), QueueStatus::Queued { .. }));
    let taken = service.take_queued(9).expect("queued message");
    assert_eq!(taken.data.message, "hello");
    assert!(!service.has_queued(9));
    assert!(matches!(service.get_status(9), QueueStatus::Empty));
}

#[test]
fn zero_ttl_never_expires() {
    let mut service = QueuedMessageService::new(0);
    service.queue_message_at(1, hello(), 0);
    assert!(service.get_queued_at(1, i128::MAX / 2).is_some());
}

#[test]
fn new_message_replaces_and_cancel_removes() {
    let mut service = QueuedMessageService::new(DEFAULT_TTL_SECS);
    service.queue_message_at(1, hello(), 10);
    service.queue_message_at(
        1,
        DraftFollowUpData {
            message: "second".to_string(),
            variant: Some("PLAN".to_string()),
        },
        20,
    );
    let q = service.get_queued_at(1, 30).unwrap();
    assert_eq!(q.data.message, "second");
    assert_eq!(q.data.variant.as_deref(), Some("PLAN"));
    assert_eq!(q.queued_at, 20);
    let cancelled = service.cancel_queued(1).unwrap();
    assert_eq!(cancelled.data.message, "second");
    assert!(service.cancel_queued(1).is_none());
}

#[test]
fn prune_removes_only_expired_sessions() {
    let mut service = QueuedMessageService::new(10);
    service.queue_message_at(1, hello(), 0);
    service.queue_message_at(2, hello(), 5 * SECOND);
    assert_eq!(service.queue_len(), 2);
    let removed = service.prune_expired_at(12 * SECOND);
    assert_eq!(removed, 1);
    assert_eq!(service.queue_len(), 1);
    assert!(service.has_queued_at(2, 12 * SECOND));
    service.queue_message_at(3, hello(), 16 * SECOND);
    assert_eq!(service.queue_len(), 1);
}

#[test]
fn idempotency_conflict_has_its_message() {
    assert_eq!(
        QueueMessageIdempotencyError::Conflict.message(),
        "Idempotency key already used with different message payload"
    );
}
