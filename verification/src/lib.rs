//! Orphan cleanup for a directory of companion files.
//!
//! Files that belong together share a stem and differ in their extension: a raw
//! photograph and its preview, say. Of the entries of one directory whose extension is
//! among the configured ones, a run deletes those whose stem no other such entry shares.
//!
//! The library decides and never touches a file system. Its driver lists the directory,
//! asks the operator, probes and removes files, and hands each result to a [`Cleanup`].

pub mod cleanup;
pub mod confirm;
pub mod directory;
pub mod laws;
pub mod listing;
pub mod matcher;
pub mod name;
pub mod plan;
pub mod select;
pub mod text;

pub use cleanup::{Action, Cleanup, Ending, Phase, Record};
pub use confirm::is_affirmative;
pub use listing::{Entry, StartError};
pub use matcher::{eq_ignore_ascii_case, match_extension};
pub use name::{file_extension, file_stem};
pub use plan::{candidate_name, deletion_plan};
pub use select::{collect_stems, count_occurrences, select_orphans};
