use vstd::prelude::*;

use crate::strutil::push_str;

verus! {

/// The error taxonomy of a search call.
///
/// Validation errors (`InvalidOutputMode`, `UnknownFileType`,
/// `InvalidTypeConfig`, `InvalidPattern`, `InvalidGlob`) arise before any
/// traversal begins and are fatal. `PathNotFound` is raised before traversal
/// when the root path does not exist. `Traversal` is a fatal failure of the
/// file-tree enumerator that aborts the whole call. `Timeout` is the distinct
/// signal raised when the deadline is exceeded at a file boundary; partial
/// results are discarded.
#[derive(Debug)]
pub enum SearchError {
    /// The requested output mode string is not one of the known modes.
    InvalidOutputMode(String),
    /// A requested file-type name is not in the alias table.
    UnknownFileType(String),
    /// The file-type matcher could not be built from the selected names.
    InvalidTypeConfig(String),
    /// The pattern failed to compile.
    InvalidPattern(String),
    /// The glob override failed to parse.
    InvalidGlob(String),
    /// The root path does not exist.
    PathNotFound(String),
    /// The enumerator failed on a directory entry; the whole call aborts.
    Traversal(String),
    /// The deadline passed; partial results are discarded.
    Timeout,
}

impl SearchError {
    /// True exactly for the dedicated timeout signal.
    pub fn is_timeout(&self) -> (r: bool)
        ensures
            r == (self is Timeout),
    {
        match self {
            SearchError::Timeout => true,
            _ => false,
        }
    }

    /// The descriptive message of this error: a fixed prefix naming the
    /// error class, followed by the offending value or underlying cause.
    pub fn message(&self) -> (r: String)
        ensures
            self matches SearchError::InvalidOutputMode(s) ==> r@ == "Invalid output mode: "@
                + s@,
            self matches SearchError::UnknownFileType(s) ==> r@ == "Unknown file type: "@ + s@,
            self matches SearchError::InvalidTypeConfig(s) ==> r@
                == "Invalid file type configuration: "@ + s@,
            self matches SearchError::InvalidPattern(s) ==> r@ == "Invalid pattern: "@ + s@,
            self matches SearchError::InvalidGlob(s) ==> r@ == "Invalid glob: "@ + s@,
            self matches SearchError::PathNotFound(s) ==> r@ == "Path not found: "@ + s@,
            self matches SearchError::Traversal(s) ==> r@ == "Walk error: "@ + s@,
            self is Timeout ==> r@ == "search timed out"@,
    {
        match self {
            SearchError::InvalidOutputMode(s) => {
                let mut m = "Invalid output mode: ".to_owned();
                push_str(&mut m, s.as_str());
                m
            },
            SearchError::UnknownFileType(s) => {
                let mut m = "Unknown file type: ".to_owned();
                push_str(&mut m, s.as_str());
                m
            },
            SearchError::InvalidTypeConfig(s) => {
                let mut m = "Invalid file type configuration: ".to_owned();
                push_str(&mut m, s.as_str());
                m
            },
            SearchError::InvalidPattern(s) => {
                let mut m = "Invalid pattern: ".to_owned();
                push_str(&mut m, s.as_str());
                m
            },
            SearchError::InvalidGlob(s) => {
                let mut m = "Invalid glob: ".to_owned();
                push_str(&mut m, s.as_str());
                m
            },
            SearchError::PathNotFound(s) => {
                let mut m = "Path not found: ".to_owned();
                push_str(&mut m, s.as_str());
                m
            },
            SearchError::Traversal(s) => {
                let mut m = "Walk error: ".to_owned();
                push_str(&mut m, s.as_str());
                m
            },
            SearchError::Timeout => "search timed out".to_owned(),
        }
    }
}

} // verus!
