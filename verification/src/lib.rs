//! Link completion for a vault of interlinked notes.
//!
//! A partially typed link (a file-name fragment with an optional heading or
//! block-index fragment) is turned into one query string, every file, heading
//! and indexed block of the vault is given a match string of the same shape,
//! and the entities whose match string the query fuzzily matches are returned
//! best first.

pub mod candidate;
pub mod entity;
pub mod fuzzy;
pub mod link_query;
pub mod matcher;
pub mod querier;
pub mod ranking;
pub mod vault;
