//! Management of an SSH known_hosts trust file: listing the recorded host
//! entries grouped by host field, and removing the entries that match a
//! given host identifier.
//!
//! The file is modelled as a sequence of bytes. All parsing, grouping,
//! matching and rewriting logic lives here and is verified; reading and
//! writing the file itself is left to the caller.

pub mod entry;
pub mod listing;
pub mod matching;
pub mod path;
pub mod removal;
pub mod text;
