//! The ways in which a run can fail.

use vstd::prelude::*;

verus! {

/// Why a run failed.
#[derive(Clone, Copy, Debug, PartialEq, Eq, Structural)]
pub enum ErrorKind {
    /// No particular reason.
    Unknown,
    /// The header sets no projects, or the list of projects is empty, or an
    /// interval was asked for before the projects were loaded.
    NoProjectsDefinedInConfig,
    /// No tag of an interval is a project.
    IntervalWithNoProjects,
    /// More than one tag of an interval is a project.
    IntervalWithMoreThanOneProject,
    /// The value of the projects entry is not a JSON array.
    FailedToParseConfig,
    /// A line of the header has no colon.
    FailedToParseConfigLine,
    /// A line of the body is not a JSON object of the expected shape.
    FailedToParseInclusions,
    /// A start or end is not a timestamp of the fixed format.
    FailedToParseTimestamp,
}

/// What an outside decoder reported of the text that it refused.
#[derive(Debug)]
enum SubError {
    /// The report of the JSON decoder.
    JsonError(String),
    /// The report of the timestamp parser.
    ChronoParseError(String),
}

/// A failed run.
#[derive(Debug)]
pub struct Error {
    kind: ErrorKind,
    msg: &'static str,
    sub_error: Option<SubError>,
}

impl View for Error {
    type V = ErrorKind;

    closed spec fn view(&self) -> ErrorKind {
        self.kind
    }
}

impl Default for Error {
    fn default() -> (r: Error)
        ensures
            r@ == ErrorKind::Unknown,
    {
        Error { kind: ErrorKind::Unknown, msg: "Unknown", sub_error: None }
    }
}

impl Error {
    /// A failure of the given kind.
    pub fn new(kind: ErrorKind) -> (r: Error)
        ensures
            r@ == kind,
            r.report() is None,
    {
        Error { kind, msg: "Unknown", sub_error: None }
    }

    /// A failure of the given kind, with what the JSON decoder reported.
    pub fn from_json(kind: ErrorKind, report: String) -> (r: Error)
        ensures
            r@ == kind,
            r.report() == Some(report@),
    {
        Error { kind, msg: "Unknown", sub_error: Some(SubError::JsonError(report)) }
    }

    /// A failure of the given kind, with what the timestamp parser reported.
    pub fn from_timestamp(kind: ErrorKind, report: String) -> (r: Error)
        ensures
            r@ == kind,
            r.report() == Some(report@),
    {
        Error { kind, msg: "Unknown", sub_error: Some(SubError::ChronoParseError(report)) }
    }

    /// What the outside decoder reported, where one refused a text.
    pub closed spec fn report(&self) -> Option<Seq<char>> {
        match self.sub_error {
            Some(SubError::JsonError(report)) => Some(report@),
            Some(SubError::ChronoParseError(report)) => Some(report@),
            None => None,
        }
    }

    /// What the outside decoder reported, where one refused a text.
    pub fn cause(&self) -> (r: Option<&str>)
        ensures
            match r {
                Some(report) => self.report() == Some(report@),
                None => self.report() is None,
            },
    {
        match &self.sub_error {
            Some(SubError::JsonError(report)) => Some(report.as_str()),
            Some(SubError::ChronoParseError(report)) => Some(report.as_str()),
            None => None,
        }
    }

    /// Why the run failed.
    pub fn kind(&self) -> (r: ErrorKind)
        ensures
            r == self@,
    {
        self.kind
    }
}

} // verus!
