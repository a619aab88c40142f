use vibe_kanban::idempotency::ReplayOutcome;
use vibe_kanban::idempotent_flow::{step_key, KeyAction, KeyEvent, KeyRecord};

fn request(hash: &str) -> KeyEvent {
    KeyEvent::Request { hash: hash.to_string() }
}

#[test]
fn repeated_request_is_replayed_without_executing() {
    let (record, action) = step_key(KeyRecord::Absent, request("h1"));
    assert_eq!(action, KeyAction::Execute);
    let (record, action) = step_key(record, KeyEvent::Succeeded { response: "{\"ok\":1}".to_string() });
    assert_eq!(action, KeyAction::Respond("{\"ok\":1}".to_string()));
    let (record, action) = step_key(record.clone(), request("h1"));
    assert_eq!(action, KeyAction::Answer(ReplayOutcome::Replay("{\"ok\":1}".to_string())));
    let (_, action) = step_key(record, request("h2"));
    assert_eq!(action, KeyAction::Answer(ReplayOutcome::HashMismatch));
}

#[test]
fn in_progress_key_is_not_executed_twice_and_failure_frees_it() {
    let (record, _) = step_key(KeyRecord::Absent, request("h"));
    let (record, action) = step_key(record, request("h"));
    assert_eq!(action, KeyAction::Answer(ReplayOutcome::InProgress));
    let (record, action) = step_key(record, KeyEvent::Failed);
    assert_eq!(action, KeyAction::PassOnError);
    assert_eq!(record, KeyRecord::Absent);
    let (_, action) = step_key(record, request("h"));
    assert_eq!(action, KeyAction::Execute);
    let (_, action) = step_key(KeyRecord::Absent, KeyEvent::Failed);
    assert_eq!(action, KeyAction::Ignore);
}
