//! The crash-safe plan journal.
//!
//! Before anything on disk changes, the full plan is recorded as
//! `<id>.plan`. Each completed operation appends a record to `<id>.progress`.
//! Once every operation has settled, `<id>.COMMIT` is written and the other two
//! files are deleted. `<id>.ROLLED_BACK` closes an apply that was reversed.

pub mod disposition;
pub mod error;
pub mod format;
pub mod history;
pub mod ids;
pub mod names;
pub mod plan;
pub mod probe;
pub mod progress;
pub mod record;
pub mod recovery;
pub mod removal;
pub mod render;
pub mod sync;

pub use crate::clock::timestamp_to_rfc3339;
pub use disposition::Disposition;
pub use error::JournalError;
pub use history::checkpoint_record;
pub use history::discards_backups;
pub use history::HistoryPrune;
pub use history::orphan_plans;
pub use history::prune_cycles;
pub use history::prune_history;
pub use history::read_latest_commit;
pub use history::unrolled_commit_timestamps;
pub use ids::next_operation_id;
pub use ids::operation_id_at;
pub use ids::operation_id_parts;
pub use names::COMMIT_SUFFIX;
pub use names::journal_file;
pub use names::PLAN_SUFFIX;
pub use names::PROGRESS_SUFFIX;
pub use names::ROLLED_BACK_SUFFIX;
pub use plan::FILE_MAJOR_VERSION;
pub use plan::operation_models;
pub use plan::OperationModel;
pub use plan::Plan;
pub use plan::PlannedOperation;
pub use probe::classify_target;
pub use probe::mirror_backup_path;
pub use probe::mirror_components;
pub use probe::operation_target;
pub use probe::Probe;
pub use progress::ProgressCursor;
pub use progress::RECORD_LEN;
pub use record::ApplyRecord;
pub use record::blake3_hash;
pub use record::content_hash;
pub use record::ExpectedTarget;
pub use record::LastApply;
pub use recovery::RecoveryReport;
pub use recovery::Reversal;
pub use recovery::reverse_operation;
pub use recovery::reverse_steps;
pub use recovery::ReverseStep;
pub use removal::pending_removal;
pub use removal::Removal;
pub use removal::RemovalStep;
pub use render::describe;
pub use render::load_commit_file;
pub use render::load_plan_file;
pub use render::PlanRenderError;
pub use render::render_plan;
pub use render::render_plan_at;
pub use render::render_record;
pub use render::render_record_at;
pub use render::timestamp_from_path;
pub use sync::is_unsupported_dir_sync;
pub use sync::OsSyncer;
