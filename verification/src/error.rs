//! The errors of the engine.

use vstd::prelude::*;
use vstd::string::StringExecFns;
use crate::path::{shown, NotePath, PathView};

verus! {

/// What can go wrong in the engine.
#[derive(Debug, PartialEq, Eq)]
pub enum SovError {
    /// A front matter block is not YAML, or not of the expected shape.
    Yaml(String),
    /// A stored time is not an RFC 3339 date.
    Chrono(String),
    /// There is no directory for the configuration.
    NoConfigDir,
    /// The configuration names no notes directory.
    NoNotesDir,
    /// A script ended with a failure.
    ScriptFailed(String),
    /// A path is not valid text.
    InvalidPath(NotePath),
    /// A file's change time is outside the range of representable dates.
    InvalidTime,
    /// The notes directory is not absolute or does not exist.
    InvalidNotesDir(NotePath),
    /// No script has the given name.
    ScriptNotFound(String),
}

/// What an error holds, as mathematical values.
pub enum ErrorView {
    Yaml(Seq<char>),
    Chrono(Seq<char>),
    NoConfigDir,
    NoNotesDir,
    ScriptFailed(Seq<char>),
    InvalidPath(PathView),
    InvalidTime,
    InvalidNotesDir(PathView),
    ScriptNotFound(Seq<char>),
}

impl View for SovError {
    type V = ErrorView;

    open spec fn view(&self) -> ErrorView {
        match self {
            SovError::Yaml(m) => ErrorView::Yaml(m@),
            SovError::Chrono(m) => ErrorView::Chrono(m@),
            SovError::NoConfigDir => ErrorView::NoConfigDir,
            SovError::NoNotesDir => ErrorView::NoNotesDir,
            SovError::ScriptFailed(m) => ErrorView::ScriptFailed(m@),
            SovError::InvalidPath(p) => ErrorView::InvalidPath(p@),
            SovError::InvalidTime => ErrorView::InvalidTime,
            SovError::InvalidNotesDir(p) => ErrorView::InvalidNotesDir(p@),
            SovError::ScriptNotFound(m) => ErrorView::ScriptNotFound(m@),
        }
    }
}

/// The text that describes an error.
pub open spec fn message_of(e: ErrorView) -> Seq<char> {
    match e {
        ErrorView::Yaml(m) => "yaml error: "@ + m,
        ErrorView::Chrono(m) => "chrono error: "@ + m,
        ErrorView::NoConfigDir => "no config dir"@,
        ErrorView::NoNotesDir => "no notes dir, please set `notes_dir` in sov.toml"@,
        ErrorView::ScriptFailed(m) => "script failed: "@ + m,
        ErrorView::InvalidPath(p) => "invalid path: "@ + shown(p),
        ErrorView::InvalidTime => "file time error"@,
        ErrorView::InvalidNotesDir(p) => "invalid notes dir: "@ + shown(p),
        ErrorView::ScriptNotFound(m) => "script not found: "@ + m,
    }
}

impl SovError {
    /// The text that describes the error.
    pub fn message(&self) -> (text: String)
        ensures
            text@ == message_of(self@),
    {
        match self {
            SovError::Yaml(m) => String::from_str("yaml error: ").concat(m.as_str()),
            SovError::Chrono(m) => String::from_str("chrono error: ").concat(m.as_str()),
            SovError::NoConfigDir => String::from_str("no config dir"),
            SovError::NoNotesDir => String::from_str(
                "no notes dir, please set `notes_dir` in sov.toml",
            ),
            SovError::ScriptFailed(m) => String::from_str("script failed: ").concat(m.as_str()),
            SovError::InvalidPath(p) => String::from_str("invalid path: ").concat(p.display()),
            SovError::InvalidTime => String::from_str("file time error"),
            SovError::InvalidNotesDir(p) => String::from_str("invalid notes dir: ").concat(
                p.display(),
            ),
            SovError::ScriptNotFound(m) => String::from_str("script not found: ").concat(
                m.as_str(),
            ),
        }
    }
}

} // verus!
