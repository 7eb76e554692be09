//! Manifests: what a `patina.toml` may declare.

pub mod document;
pub mod entry_words;
pub mod file_entry;
pub mod hook_entry;
pub mod module;
pub mod remote;
pub mod root;
pub mod writer;

pub use file_entry::EntryKind;
pub use file_entry::FileEntry;
pub use file_entry::FileEntryError;
pub use file_entry::FileMode;
pub use file_entry::ManagedEntry;
pub use file_entry::RawEntry;
pub use hook_entry::HookEntry;
pub use hook_entry::HookEntryError;
pub use hook_entry::HookEvent;
pub use hook_entry::RawHookEntry;
pub use module::ConfigParseError;
pub use module::ModuleConfig;
pub use module::RawModule;
pub use root::ProfileVariables;
pub use root::RawProfile;
pub use root::RawRoot;
pub use root::RootConfig;
pub use root::RootConfigError;
pub use writer::append_file_entry;
pub use writer::ConfigWriteError;
pub use writer::remove_file_entry;
pub use writer::scaffold_root_manifest;
