//! Core library of patina, a dotfile manager.
//!
//! A repository of dotfiles holds modules. The manifest of a module declares
//! what stands where: links, copies, trees and rendered templates. Planning
//! turns the manifests into a list of operations. Applying a plan journals it,
//! backs up what it overwrites, carries it out and commits a record. An apply
//! that is cut off is reversed from the journal and the backups.
//!
//! What this library decides is a function of plain values: the names in a
//! directory, the bytes of a file, the outcome of a system call. Its callers
//! read the disk, ask, and do what the answer says.

pub mod apply;
pub mod backups;
pub mod caseless;
pub mod clock;
pub mod config;
pub mod discovery;
pub mod error;
pub mod host;
pub mod ignore_rules;
pub mod io_failure;
pub mod journal;
pub mod laws;
pub mod lock;
pub mod number;
pub mod options;
pub mod path_order;
pub mod paths;
pub mod status;
pub mod text;
pub mod utf8_path;
pub mod variables;
pub mod version_envelope;
pub mod wire;

pub use apply::classify::ClassifyError;
pub use apply::executors::is_content_materialization;
pub use apply::executors::materialize;
pub use apply::executors::CompletionRecord;
pub use apply::executors::ExecutorError;
pub use apply::executors::Materialization;
pub use apply::hooks::resolve_shells;
pub use apply::hooks::should_run;
pub use apply::hooks::ForceDeploy;
pub use apply::hooks::HookError;
pub use apply::hooks::HookOutcome;
pub use apply::hooks::ResolvedHook;
pub use apply::managed::plan_is_full_noop;
pub use apply::resolved_plan::ResolvedPlan;
pub use apply::run::ApplyRequest;
pub use apply::run::ApplyResult;
pub use apply::run::LockPolicy;
pub use backups::backup_before_overwrite;
pub use backups::gc_retain;
pub use backups::BackupError;
pub use backups::RETENTION_COUNT;
pub use clock::current_timestamp;
pub use config::append_file_entry;
pub use config::remove_file_entry;
pub use config::scaffold_root_manifest;
pub use config::ConfigParseError;
pub use config::ConfigWriteError;
pub use config::FileEntry;
pub use config::FileMode;
pub use config::HookEntry;
pub use config::HookEvent;
pub use config::ModuleConfig;
pub use config::RootConfig;
pub use config::RootConfigError;
pub use discovery::discover_modules;
pub use discovery::ModuleDiscoveryError;
pub use discovery::ModuleHandle;
pub use discovery::RepoDiscoveryError;
pub use discovery::PERSISTED_DEFAULT_FILENAME;
pub use error::EngineError;
pub use host::HostOs;
pub use journal::content_hash;
pub use journal::load_plan_file;
pub use journal::prune_cycles;
pub use journal::read_latest_commit;
pub use journal::render_plan;
pub use journal::ApplyRecord;
pub use journal::Disposition;
pub use journal::ExpectedTarget;
pub use journal::JournalError;
pub use journal::LastApply;
pub use journal::Plan;
pub use journal::PlanRenderError;
pub use journal::PlannedOperation;
pub use journal::RecoveryReport;
pub use journal::FILE_MAJOR_VERSION;
pub use lock::exclusive_timeout;
pub use lock::LockError;
pub use lock::LockKind;
pub use lock::EXCLUSIVE_TIMEOUT;
pub use lock::EXCLUSIVE_TIMEOUT_ENV;
pub use lock::SHARED_TIMEOUT;
pub use options::ApplyOptions;
pub use options::RollbackOptions;
pub use options::StatusOptions;
pub use paths::expand_tilde;
pub use paths::PathError;
pub use status::TargetState;
pub use variables::VariableError;
pub use version_envelope::decode_envelope;
pub use version_envelope::encode_with_envelope;
pub use version_envelope::EnvelopeError;
pub use version_envelope::ENVELOPE_LEN;
