//! Backups of what an apply overwrites, and how many of them are kept.

pub mod mirror;
pub mod retention;

pub use mirror::backup_before_overwrite;
pub use mirror::BackupError;
pub use retention::gc_retain;
pub use retention::retain_newest;
pub use retention::RETENTION_COUNT;
