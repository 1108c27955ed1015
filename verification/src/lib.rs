//! A file organizer's verified core: rules that match files by name,
//! extension and size; the history of moves and its undo; scheduled
//! deletions; and the watcher's decisions (debouncing, back-off, files to
//! leave alone, what follows each action).

pub mod file_name;
pub mod history;
pub mod path;
pub mod path_map;
pub mod rules;
pub mod scheduler;
pub mod settings;
pub mod text;
pub mod watcher;

