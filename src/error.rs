//! Errors of the library.
use vstd::prelude::*;

verus! {

/// What went wrong in an operation of the library.
#[derive(Clone, Debug, PartialEq, Eq)]
pub enum Error {
    /// A configuration value could not be resolved or is invalid.
    Config(String),
    /// No configuration file was found at any of the searched paths.
    ConfigNotFound { searched: Vec<String> },
    /// A configuration file could not be parsed.
    ConfigParse { path: String, message: String },
    /// A content item could not be parsed.
    Content { path: String, message: String },
    /// No post has the slug.
    PostNotFound(String),
    /// No series has the slug.
    SeriesNotFound(String),
    /// The object store failed.
    Storage(String),
    /// The Git backend failed.
    Git(String),
    /// The CGI header block grew past its limit.
    CgiHeadersTooLarge { max: usize },
    /// The CGI header block is not valid UTF-8.
    CgiHeadersInvalid,
    /// A request body grew past the configured limit.
    BodyTooLarge { received: u64, max: u64 },
    /// The Git backend did not finish within its time limit.
    GitTimeout,
    /// An I/O operation failed.
    Io(String),
    /// An S3 call failed.
    S3(String),
}

} // verus!
