//! The library's error values.
//!
//! Every variant carries the offending paths, patterns or causes as plain
//! byte strings, so that callers can render them as they see fit.

use vstd::prelude::*;

verus! {

/// What can go wrong while validating paths, expanding patterns, planning,
/// or applying a plan.
#[derive(Debug, Clone, PartialEq, Eq)]
pub enum DotrError {
    /// A failure with no more precise class; the field carries the message.
    Generic(Vec<u8>),
    /// The carried path should exist but does not.
    PathNotFound(Vec<u8>),
    /// A match of the carried pattern could not be accessed; the second
    /// field carries the cause.
    PathAccess(Vec<u8>, Vec<u8>),
    /// The carried path should be a regular file but is not.
    NotFile(Vec<u8>),
    /// The carried path should be a directory but is not.
    NotDir(Vec<u8>),
    /// The carried pattern is not a well-formed glob; the second field
    /// carries the cause.
    BadGlob(Vec<u8>, Vec<u8>),
    /// The file at the carried path could not be removed; the second field
    /// carries the cause.
    RemoveFile(Vec<u8>, Vec<u8>),
    /// The directory at the carried path could not be created; the second
    /// field carries the cause.
    CreateDir(Vec<u8>, Vec<u8>),
    /// The file at the first path could not be copied to the second; the
    /// third field carries the cause.
    CopyFile(Vec<u8>, Vec<u8>, Vec<u8>),
    /// Another input or output failure; the field carries the cause.
    IO(Vec<u8>),
}

} // verus!
