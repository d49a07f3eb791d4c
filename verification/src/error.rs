//! The errors that the library reports.

use vstd::prelude::*;
use vstd::string::StringExecFns;

verus! {

/// What went wrong.
#[derive(Clone, Copy, Debug, PartialEq, Eq, Structural)]
pub enum ErrorKind {
    /// The manifest could not be read as a manifest.
    ManifestParse,
    /// The manifest breaks a rule: a repeated id, name or tag prefix, an illegal tag prefix,
    /// excludes without includes, or a dependency that leads nowhere or back to its start.
    ManifestInvalid,
    /// A commit is of a kind that the manifest gives no size, and there is no fallback.
    UnknownCommitKind,
    /// A picker found no value in the text it was given.
    PickerNotFound,
    /// A version is not a dotted triple of numbers.
    VersionParse,
    /// The size to apply is `Fail`.
    SizeFail,
    /// The repository refused an operation.
    RepoError,
    /// Reading or writing a file failed.
    IoError,
    /// A release is paused, and the command is not one that ends the pause.
    PauseFileExists,
    /// There is no paused release to resume.
    PauseFileMissing,
    /// The branch is not the one that the release was started on.
    BranchMismatch,
    /// No project has the given id or name.
    NoSuchProject,
    /// More than one project matches the given name.
    AmbiguousProjectName,
    /// An include pattern covers no file.
    CoverageEmpty,
}

/// An error: its kind, and a description for the reader.
#[derive(Debug)]
pub struct Error {
    kind: ErrorKind,
    description: String,
}

impl Error {
    /// The kind of the error, as contracts speak of it.
    pub closed spec fn spec_kind(&self) -> ErrorKind {
        self.kind
    }

    /// The description of the error, as contracts speak of it.
    pub closed spec fn spec_description(&self) -> Seq<char> {
        self.description@
    }

    /// An error of the given kind.
    pub fn new(kind: ErrorKind, description: String) -> (e: Error)
        ensures
            e.spec_kind() == kind,
            e.spec_description() == description@,
    {
        Error { kind, description }
    }

    /// The kind of the error.
    #[verifier::when_used_as_spec(spec_kind)]
    pub fn kind(&self) -> (k: ErrorKind)
        ensures
            k == self.spec_kind(),
    {
        self.kind
    }

    /// The description of the error.
    pub fn description(&self) -> (d: &str)
        ensures
            d@ == self.spec_description(),
    {
        self.description.as_str()
    }
}

/// The text that the standard library gives for an error in a number.
///
/// Trusted: `ParseIntError::to_string` gives a text; nothing is claimed of it.
#[verifier::external_body]
fn number_error_text(err: &std::num::ParseIntError) -> String {
    err.to_string()
}

/// The text that the standard library gives for an error of reading or writing.
///
/// Trusted: formatting a `std::io::Error` for debugging gives a text; nothing is claimed of it.
#[verifier::external_body]
fn io_error_text(err: &std::io::Error) -> String {
    format!("{:?}", err)
}

impl From<std::num::ParseIntError> for Error {
    /// A text that is no number is an error of parsing a version.
    fn from(err: std::num::ParseIntError) -> (e: Error)
        ensures
            e.spec_kind() == ErrorKind::VersionParse,
    {
        Error { kind: ErrorKind::VersionParse, description: number_error_text(&err) }
    }
}

impl vstd::std_specs::convert::FromSpecImpl<std::num::ParseIntError> for Error {
    open spec fn obeys_from_spec() -> bool {
        false
    }

    open spec fn from_spec(err: std::num::ParseIntError) -> Error {
        arbitrary()
    }
}

impl From<std::io::Error> for Error {
    /// A failure to read or write is an error of reading or writing.
    fn from(err: std::io::Error) -> (e: Error)
        ensures
            e.spec_kind() == ErrorKind::IoError,
    {
        let mut description = String::from_str("io ");
        description.append(io_error_text(&err).as_str());
        Error { kind: ErrorKind::IoError, description }
    }
}

impl vstd::std_specs::convert::FromSpecImpl<std::io::Error> for Error {
    open spec fn obeys_from_spec() -> bool {
        false
    }

    open spec fn from_spec(err: std::io::Error) -> Error {
        arbitrary()
    }
}

} // verus!
