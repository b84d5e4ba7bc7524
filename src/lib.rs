//! A dotfile manager: mirrors a source tree into a destination directory as
//! symbolic links, and removes exactly those links again.
//!
//! The library holds the decisions: which entries are visited, what is done
//! for each of them, and which failures end a run. The caller reads the file
//! system, hands the library what it saw, and performs the actions it gets back.

pub mod dotr;
pub mod entry;
pub mod laws;
pub mod opts;
pub mod path;
pub mod walk;

pub use dotr::Dotr;
pub use entry::{Action, EntryError, FileKind, Outcome, Plan, Probe};
pub use opts::{Command, Options};
pub use path::FsPath;
pub use walk::{check_destination, level_for_verbosity, should_traverse, DestinationError, LogLevel};
