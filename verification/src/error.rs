//! What can go wrong in an apply.

use crate::apply::classify::ClassifyError;
use crate::apply::collisions::CollisionError;
use crate::apply::executors::ExecutorError;
use crate::apply::hooks::HookError;
use crate::apply::registry::RemoteError;
use crate::backups::BackupError;
use crate::config::module::ConfigParseError;
use crate::config::root::RootConfigError;
use crate::config::writer::ConfigWriteError;
use crate::discovery::ModuleDiscoveryError;
use crate::discovery::RepoDiscoveryError;
use crate::journal::JournalError;
use crate::lock::LockError;
use crate::lock::duration_words;
use crate::paths::PathError;
use crate::text::around;
use crate::text::put_around;
use crate::variables::VariableError;
use vstd::prelude::*;

verus! {

/// Errors of the engine.
#[derive(Debug, Clone, PartialEq, Eq)]
#[non_exhaustive]
pub enum EngineError {
    /// The repository was not found.
    RepoDiscovery(RepoDiscoveryError),
    /// The modules of the repository could not be told.
    ModuleDiscovery(ModuleDiscoveryError),
    /// The manifest of a module breaks a rule.
    ConfigParse(ConfigParseError),
    /// A manifest could not be edited.
    ConfigWrite(ConfigWriteError),
    /// The root manifest breaks a rule.
    RootConfig(RootConfigError),
    /// A variable breaks a rule.
    Variable(VariableError),
    /// A remote could not be used.
    Remote(RemoteError),
    /// A template or a condition could not be evaluated.
    Template {
        /// What went wrong.
        message: String,
    },
    /// A path could not be made canonical.
    Path(PathError),
    /// The journal could not be written or read.
    Journal(JournalError),
    /// A backup could not be made or removed.
    Backup(BackupError),
    /// The lock could not be had.
    Lock(LockError),
    /// A target could not be written.
    Executor(ExecutorError),
    /// A target could not be classified.
    Classify(ClassifyError),
    /// Two entries fight over a target.
    Collision(CollisionError),
    /// A hook could not be run.
    Hook(HookError),
    /// Symbolic links need Developer Mode or an elevated process.
    DevModeRequired,
    /// The kind of a source is not that of the table that declares it.
    SourceKindMismatch {
        /// The source.
        path: String,
        /// What the source is.
        found: &'static str,
        /// The table that declares it.
        declared_table: &'static str,
        /// The table that it belongs in.
        expected_table: &'static str,
    },
    /// A source is not there.
    SourceNotFound {
        /// The source.
        path: String,
    },
}

/// The words for a host without Developer Mode.
pub const DEV_MODE: &'static str =
    "Developer Mode is disabled; creating symbolic links requires it. Run `patina doctor --fix` to enable Developer Mode, or re-run `patina apply` and accept the elevation prompt";

impl EngineError {
    /// The error in words.
    pub open spec fn words(self) -> Seq<char> {
        match self {
            EngineError::RepoDiscovery(e) => e@.words(),
            EngineError::ModuleDiscovery(e) => e@.words(),
            EngineError::ConfigParse(e) => e.words(),
            EngineError::ConfigWrite(e) => e.words(),
            EngineError::RootConfig(e) => e.words(),
            EngineError::Variable(e) => e.words(),
            EngineError::Remote(e) => e.words(),
            EngineError::Template { message } => message@,
            EngineError::Path(e) => e.words(),
            EngineError::Journal(e) => e.words(),
            EngineError::Backup(e) => "backup filesystem operation failed"@,
            EngineError::Lock(e) => e@.words(duration_words(e@.waited_ms())),
            EngineError::Executor(e) => e@.words(),
            EngineError::Classify(e) => e.words(),
            EngineError::Collision(e) => e.words(),
            EngineError::Hook(e) => e.words(),
            EngineError::DevModeRequired => DEV_MODE@,
            EngineError::SourceKindMismatch { path, found, declared_table, expected_table } =>
                around(
                "the source "@,
                path@,
                around(
                    " is a "@,
                    found@,
                    around(
                        ", but it is declared under a "@,
                        declared_table@,
                        around(" table; move it to a "@, expected_table@, " entry"@),
                    ),
                ),
            ),
            EngineError::SourceNotFound { path } => around(
                "the source "@,
                path@,
                " declared by a managed entry does not exist"@,
            ),
        }
    }

    /// The error in words.
    pub fn message(&self) -> (r: String)
        ensures
            r@ == self.words(),
    {
        match self {
            EngineError::RepoDiscovery(e) => e.message(),
            EngineError::ModuleDiscovery(e) => e.message(),
            EngineError::ConfigParse(e) => e.message(),
            EngineError::ConfigWrite(e) => e.message(),
            EngineError::RootConfig(e) => e.message(),
            EngineError::Variable(e) => e.message(),
            EngineError::Remote(e) => e.message(),
            EngineError::Template { message } => message.clone(),
            EngineError::Path(e) => e.message(),
            EngineError::Journal(e) => e.message(),
            EngineError::Backup(e) => e.message(),
            EngineError::Lock(e) => e.message(),
            EngineError::Executor(e) => e.message(),
            EngineError::Classify(e) => e.message(),
            EngineError::Collision(e) => e.message(),
            EngineError::Hook(e) => e.message(),
            EngineError::DevModeRequired => DEV_MODE.to_owned(),
            EngineError::SourceKindMismatch { path, found, declared_table, expected_table } => {
                let place: String = put_around(" table; move it to a ", expected_table, " entry");
                let table: String = put_around(
                    ", but it is declared under a ",
                    declared_table,
                    place.as_str(),
                );
                let kind: String = put_around(" is a ", found, table.as_str());
                put_around("the source ", path.as_str(), kind.as_str())
            },
            EngineError::SourceNotFound { path } => put_around(
                "the source ",
                path.as_str(),
                " declared by a managed entry does not exist",
            ),
        }
    }
}

} // verus!
