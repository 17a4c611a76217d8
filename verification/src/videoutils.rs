//! What the library reads off a replay file: its name, size and dates.
//!
//! The file system is read by the caller; the metadata that it read (or the error
//! that reading gave) comes in as plain values.
use vstd::prelude::*;

use crate::path::{file_stem, path_file_stem};

verus! {

/// A failure to read something from the file system, as the operating system worded it.
pub struct FsError {
    pub message: String,
}

/// A point in time, as nanoseconds after the Unix epoch (negative before it).
#[derive(Clone, Copy, PartialEq, Eq, Structural)]
pub struct Timestamp {
    pub nanos: i128,
}

/// The metadata of one file: its length in bytes and the two dates that the file
/// system may or may not record.
pub struct FileMetadata {
    pub len: u64,
    pub created: Result<Timestamp, FsError>,
    pub modified: Result<Timestamp, FsError>,
}

/// The reason a path has no name to show.
#[derive(Clone, Copy, PartialEq, Eq, Structural)]
pub enum NameError {
    /// The path ends in the root, `.` or `..`, or is empty: it has no file stem.
    NoFileStem,
}

impl NameError {
    /// The text that reports the error: the stem that was looked for, printed as `None`.
    pub fn message(&self) -> (r: &'static str)
        ensures
            r@ == "None"@,
    {
        "None"
    }
}

/// The creation date that the metadata read from the file system records.
pub fn get_creation_date(metadata: Result<FileMetadata, FsError>) -> (r: Result<Timestamp, FsError>)
    ensures
        r == match metadata {
            Ok(m) => m.created,
            Err(e) => Err(e),
        },
{
    match metadata {
        Ok(m) => m.created,
        Err(e) => Err(e),
    }
}

/// The modification date that the metadata read from the file system records.
pub fn get_mod_date(metadata: Result<FileMetadata, FsError>) -> (r: Result<Timestamp, FsError>)
    ensures
        r == match metadata {
            Ok(m) => m.modified,
            Err(e) => Err(e),
        },
{
    match metadata {
        Ok(m) => m.modified,
        Err(e) => Err(e),
    }
}

/// The name under which a replay is shown: the file stem of its path.
pub fn get_name(video_path: &str) -> (r: Result<String, NameError>)
    ensures
        match r {
            Ok(name) => file_stem(video_path@) == Some(name@),
            Err(_) => file_stem(video_path@) is None,
        },
{
    match path_file_stem(video_path) {
        Some(name) => Ok(name),
        None => Err(NameError::NoFileStem),
    }
}

/// The size in bytes that the metadata read from the file system records.
pub fn get_size(metadata: Result<FileMetadata, FsError>) -> (r: Result<u64, FsError>)
    ensures
        r == match metadata {
            Ok(m) => Ok::<u64, FsError>(m.len),
            Err(e) => Err(e),
        },
{
    match metadata {
        Ok(m) => Ok(m.len),
        Err(e) => Err(e),
    }
}

} // verus!
