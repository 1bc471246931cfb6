//! Error values reported by the analysis builder and the data channel.
//!
//! Every error carries its one-line description as a string, so that a caller
//! can surface it without any further formatting.

use vstd::prelude::*;

verus! {

/// A raw byte buffer for a matrix did not hold a whole number of rows:
/// its length was not a multiple of eight bytes per value times the column
/// count.
#[derive(Debug)]
pub struct DataLengthError {
    details: String,
}

impl View for DataLengthError {
    type V = Seq<char>;

    closed spec fn view(&self) -> Seq<char> {
        self.details@
    }
}

impl DataLengthError {
    pub fn new() -> (e: DataLengthError)
        ensures
            e@ == "Length of data was not a multiple of 8 * columns"@,
    {
        DataLengthError {
            details: "Length of data was not a multiple of 8 * columns".to_owned(),
        }
    }

    /// The one-line description of this error.
    pub fn message(&self) -> (m: &str)
        ensures
            m@ == self@,
    {
        self.details.as_str()
    }
}

/// The analysis was asked to calculate before a required piece (its data or
/// its estimator) had been supplied.
#[derive(Debug)]
pub struct MissingElementError {
    details: String,
}

impl View for MissingElementError {
    type V = Seq<char>;

    closed spec fn view(&self) -> Seq<char> {
        self.details@
    }
}

impl MissingElementError {
    pub fn new(what: &str) -> (e: MissingElementError)
        ensures
            e@ == "Analysis is missing some element: "@ + what@,
    {
        let mut details = "Analysis is missing some element: ".to_owned();
        details.append(what);
        MissingElementError { details }
    }

    /// The one-line description of this error.
    pub fn message(&self) -> (m: &str)
        ensures
            m@ == self@,
    {
        self.details.as_str()
    }
}

/// Two inputs of the analysis do not fit together, for example a weight
/// vector whose length differs from the data's row count.
#[derive(Debug)]
pub struct InconsistencyError {
    details: String,
}

impl View for InconsistencyError {
    type V = Seq<char>;

    closed spec fn view(&self) -> Seq<char> {
        self.details@
    }
}

impl InconsistencyError {
    pub fn new(what: &str) -> (e: InconsistencyError)
        ensures
            e@ == "Inconsistency in analysis: "@ + what@,
    {
        let mut details = "Inconsistency in analysis: ".to_owned();
        details.append(what);
        InconsistencyError { details }
    }

    /// The one-line description of this error.
    pub fn message(&self) -> (m: &str)
        ensures
            m@ == self@,
    {
        self.details.as_str()
    }
}

} // verus!

verus! {

/// Either failure the analysis builder's calculation can report.
#[derive(Debug)]
pub enum AnalysisError {
    /// A required piece is missing; see [`MissingElementError`].
    Missing(MissingElementError),
    /// Two inputs do not fit together; see [`InconsistencyError`].
    Inconsistent(InconsistencyError),
}

impl View for AnalysisError {
    type V = Seq<char>;

    open spec fn view(&self) -> Seq<char> {
        match self {
            AnalysisError::Missing(e) => e@,
            AnalysisError::Inconsistent(e) => e@,
        }
    }
}

impl AnalysisError {
    /// The one-line description of this error.
    pub fn message(&self) -> (m: &str)
        ensures
            m@ == self@,
    {
        match self {
            AnalysisError::Missing(e) => e.message(),
            AnalysisError::Inconsistent(e) => e.message(),
        }
    }
}

} // verus!
