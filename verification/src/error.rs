//! The errors of the server, how they read, and the HTTP status each maps to.

use vstd::prelude::*;
use crate::text::push_str;

verus! {

/// An error of the server. Errors of lower layers (database, migrations,
/// I/O) are held as their rendered messages.
#[derive(Debug)]
pub enum ReelcastError {
    Db(String),
    Migration(String),
    Io(String),
    MediaNotFound { id: String },
    Ffprobe { path: String, reason: String },
    Scanner(String),
}

/// The message of an error.
pub open spec fn message_text(e: ReelcastError) -> Seq<char> {
    match e {
        ReelcastError::Db(m) => "Database error: "@ + m@,
        ReelcastError::Migration(m) => "Database migration error: "@ + m@,
        ReelcastError::Io(m) => "IO error: "@ + m@,
        ReelcastError::MediaNotFound { id } => "Media file not found: "@ + id@,
        ReelcastError::Ffprobe { path, reason } => "FFprobe failed for "@ + path@ + ": "@ + reason@,
        ReelcastError::Scanner(m) => "Scanner error: "@ + m@,
    }
}

impl ReelcastError {
    /// The message of the error, as the server reports it.
    pub fn message(&self) -> (r: String)
        ensures
            r@ == message_text(*self),
    {
        let mut r = String::new();
        match self {
            ReelcastError::Db(m) => {
                push_str(&mut r, "Database error: ");
                push_str(&mut r, m.as_str());
            },
            ReelcastError::Migration(m) => {
                push_str(&mut r, "Database migration error: ");
                push_str(&mut r, m.as_str());
            },
            ReelcastError::Io(m) => {
                push_str(&mut r, "IO error: ");
                push_str(&mut r, m.as_str());
            },
            ReelcastError::MediaNotFound { id } => {
                push_str(&mut r, "Media file not found: ");
                push_str(&mut r, id.as_str());
            },
            ReelcastError::Ffprobe { path, reason } => {
                push_str(&mut r, "FFprobe failed for ");
                push_str(&mut r, path.as_str());
                push_str(&mut r, ": ");
                push_str(&mut r, reason.as_str());
            },
            ReelcastError::Scanner(m) => {
                push_str(&mut r, "Scanner error: ");
                push_str(&mut r, m.as_str());
            },
        }
        r
    }

    /// The HTTP status of the error: 404 when a media file is not found,
    /// 500 otherwise.
    pub fn status_code(&self) -> (r: u16)
        ensures
            r == (if *self is MediaNotFound {
                404u16
            } else {
                500u16
            }),
    {
        match self {
            ReelcastError::MediaNotFound { .. } => 404,
            _ => 500,
        }
    }
}

} // verus!
