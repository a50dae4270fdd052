//! Locates XDG desktop entry files matching a name or path, cleans the
//! placeholder tokens out of their command templates, and prepares them for
//! launching, attached to or detached from the invoking terminal.

pub mod config;
pub mod entry;
pub mod search;
pub mod select;
pub mod text;

pub use config::Config;
pub use config::ConfigError;
pub use config::Search;
pub use entry::launch_exit_code;
pub use entry::CleanPlaceholders;
pub use entry::CommandLine;
pub use entry::DesktopEntryError;
pub use entry::Entry;
pub use entry::LaunchOutcome;
pub use search::search_for_entries;
