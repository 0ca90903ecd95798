//! A personal task tracker kept as fixed-width text lines.
//!
//! A day's tasks live in two mirrored line files: a main file and a backup.
//! Each file starts with a header line (the date) followed by record lines,
//! one task per line, numbered densely from 1. This crate holds the record
//! codec and the mutation engine over in-memory line sequences; reading and
//! writing the files themselves is left to the caller.

pub mod codec;
pub mod engine;
pub mod input;
pub mod laws;

pub use engine::Entry;
pub use engine::Todo;
pub use engine::TodoError;
pub use engine::lines_all_blank;
pub use engine::parse_index;
