//! Domain logic of the kanban orchestration server, verified with Verus.
pub mod text;
pub mod clock;
pub mod number;
pub mod sorting;
pub mod turn_continuation;
pub mod frontend;
pub mod dag;
pub mod milestone_plan;
pub mod milestone_preview;
pub mod idempotency;
pub mod idempotent_flow;
pub mod cache_budget;
pub mod file_ranker;
pub mod translation;
pub mod config_schema;
pub mod log_entries;
pub mod paths;
pub mod graph;
pub mod queued_message;
pub mod redaction;
pub mod shell;
pub mod streams;
pub mod log_history;
pub mod ids;
pub mod images;
pub mod task_lifecycle;
pub mod api_types;
pub mod execution_plan;
pub mod approvals;
pub mod attempt_state;
pub mod attempt_artifacts;
pub mod archive_plan;
pub mod milestone_apply;
pub mod branch_ops;
pub mod reorder;
