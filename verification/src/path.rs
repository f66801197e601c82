//! Paths of notes as plain values.

use vstd::prelude::*;

verus! {

/// A filesystem path as the engine sees it.
///
/// A path that is valid text is held as that text. One that is not cannot
/// name a stored note; it carries the text that is shown in its place.
#[derive(Debug, PartialEq, Eq)]
pub enum NotePath {
    Text(String),
    Opaque(String),
}

/// What a `NotePath` holds, as mathematical values.
pub enum PathView {
    Text(Seq<char>),
    Opaque(Seq<char>),
}

impl View for NotePath {
    type V = PathView;

    open spec fn view(&self) -> PathView {
        match self {
            NotePath::Text(s) => PathView::Text(s@),
            NotePath::Opaque(s) => PathView::Opaque(s@),
        }
    }
}

impl NotePath {
    /// A copy of the path.
    pub fn duplicate(&self) -> (copy: NotePath)
        ensures
            copy@ == self@,
    {
        match self {
            NotePath::Text(s) => NotePath::Text(s.clone()),
            NotePath::Opaque(s) => NotePath::Opaque(s.clone()),
        }
    }

    /// The path as text, when it is text.
    pub fn to_str(&self) -> (text: Option<&str>)
        ensures
            match text {
                Some(t) => self@ == PathView::Text(t@),
                None => self@ is Opaque,
            },
    {
        match self {
            NotePath::Text(s) => Some(s.as_str()),
            NotePath::Opaque(_) => None,
        }
    }

    /// The text to show for the path.
    pub fn display(&self) -> (text: &str)
        ensures
            text@ == shown(self@),
    {
        match self {
            NotePath::Text(s) => s.as_str(),
            NotePath::Opaque(s) => s.as_str(),
        }
    }
}

/// The text shown for a path.
pub open spec fn shown(path: PathView) -> Seq<char> {
    match path {
        PathView::Text(s) => s,
        PathView::Opaque(s) => s,
    }
}

/// The path that `std::path::Path::join` makes of `base` and `rest`.
pub uninterp spec fn joined(base: Seq<char>, rest: Seq<char>) -> Seq<char>;

/// Whether `std::path::Path::is_absolute` holds of `path`.
pub uninterp spec fn is_absolute(path: Seq<char>) -> bool;

/// The path that `std::path::Path::with_extension` makes of `path` and
/// `extension`.
pub uninterp spec fn with_extension(path: Seq<char>, extension: Seq<char>) -> Seq<char>;

/// Whether `a` and `b` are equal as `std::path::Path` values.
pub uninterp spec fn same_path(a: Seq<char>, b: Seq<char>) -> bool;

/// Joins two paths with `std::path::Path::join`. The contract claims only
/// that the outcome is the same every time.
#[verifier::external_body]
pub(crate) fn join_paths(base: &str, rest: &str) -> (path: String)
    ensures
        path@ == joined(base@, rest@),
{
    std::path::Path::new(base).join(rest).to_string_lossy().into_owned()
}

/// Asks `std::path::Path::is_absolute` of a path. The contract claims only
/// that the answer is the same every time.
#[verifier::external_body]
pub(crate) fn path_is_absolute(path: &str) -> (absolute: bool)
    ensures
        absolute == is_absolute(path@),
{
    std::path::Path::new(path).is_absolute()
}

/// Sets a path's extension with `std::path::Path::with_extension`, which
/// takes no extension that holds a path separator. The contract claims
/// only that the outcome is the same every time.
#[verifier::external_body]
pub(crate) fn path_with_extension(path: &str, extension: &str) -> (changed: String)
    requires
        forall|i: int| 0 <= i < extension@.len() ==> extension@[i] != '/' && extension@[i] != '\\',
    ensures
        changed@ == with_extension(path@, extension@),
{
    std::path::Path::new(path).with_extension(extension).to_string_lossy().into_owned()
}

/// Compares two paths with the `==` of `std::path::Path`. The contract
/// claims only that the answer is the same every time.
#[verifier::external_body]
pub(crate) fn paths_equal(a: &str, b: &str) -> (same: bool)
    ensures
        same == same_path(a@, b@),
{
    std::path::Path::new(a) == std::path::Path::new(b)
}

} // verus!
