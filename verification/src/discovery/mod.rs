//! Finding the repository and its modules.

pub mod modules;
pub mod repo;

pub use modules::check_no_deep_manifests;
pub use modules::discover_modules;
pub use modules::ModuleDiscoveryError;
pub use modules::ModuleHandle;
pub use repo::ENV_VAR;
pub use repo::PERSISTED_DEFAULT_FILENAME;
pub use repo::persisted_default_repo_path;
pub use repo::RepoDiscoveryError;
pub use repo::resolve_repository_root_with;
pub use repo::state_dir_root;
