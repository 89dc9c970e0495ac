//! The failures that the pipeline reports.

use vstd::prelude::*;

verus! {

/// A failure of one unit of work (the manifest, one link, one file).
///
/// Gathering and transforming collect these rather than stopping at the
/// first one.
#[derive(Debug, Clone, PartialEq, Eq)]
pub enum Error {
    /// No ancestor of the starting directory holds the manifest.
    ManifestNotFound { start: String },
    /// The manifest could not be read or parsed.
    ManifestParse { message: String },
    /// The platform's base directories (home, config, ...) could not be found.
    BaseDirsUnavailable,
    /// Fetching a link failed.
    Fetch { url: String, message: String },
    /// A fetched link does not have the digest that the manifest expects.
    HashMismatch { url: String, expected: String, actual: String },
    /// Walking a declared input directory failed at some entry.
    Walk { message: String },
    /// A file found in an input directory could not be read.
    Read { path: String, message: String },
    /// A gathered file does not lie under the input directory it came from.
    NotUnderInput { path: String, input: String },
}

/// What an [`Error`] holds, as text.
pub ghost enum ErrorView {
    ManifestNotFound { start: Seq<char> },
    ManifestParse { message: Seq<char> },
    BaseDirsUnavailable,
    Fetch { url: Seq<char>, message: Seq<char> },
    HashMismatch { url: Seq<char>, expected: Seq<char>, actual: Seq<char> },
    Walk { message: Seq<char> },
    Read { path: Seq<char>, message: Seq<char> },
    NotUnderInput { path: Seq<char>, input: Seq<char> },
}

impl View for Error {
    type V = ErrorView;

    open spec fn view(&self) -> ErrorView {
        match self {
            Error::ManifestNotFound { start } => ErrorView::ManifestNotFound { start: start@ },
            Error::ManifestParse { message } => ErrorView::ManifestParse { message: message@ },
            Error::BaseDirsUnavailable => ErrorView::BaseDirsUnavailable,
            Error::Fetch { url, message } => ErrorView::Fetch { url: url@, message: message@ },
            Error::HashMismatch { url, expected, actual } => ErrorView::HashMismatch {
                url: url@,
                expected: expected@,
                actual: actual@,
            },
            Error::Walk { message } => ErrorView::Walk { message: message@ },
            Error::Read { path, message } => ErrorView::Read { path: path@, message: message@ },
            Error::NotUnderInput { path, input } => ErrorView::NotUnderInput {
                path: path@,
                input: input@,
            },
        }
    }
}

/// The views of a sequence of errors.
pub open spec fn error_views(es: Seq<Error>) -> Seq<ErrorView> {
    es.map_values(|e: Error| e@)
}

} // verus!
