//! The one error type of the server, tagged by where a failure arose.

use vstd::prelude::*;
use vstd::std_specs::cmp::PartialEqSpecImpl;

verus! {

/// Every internal failure, by origin.
#[derive(Debug)]
pub enum ChimeraError {
    /// A template did not compile or render, or a required one is missing.
    TemplateParsing(String),
    /// Reading or writing a file failed.
    IOError(String),
    /// The search engine failed.
    TantivyError,
    /// A search query did not parse.
    QueryError,
    /// A channel was closed.
    TokioChannel,
    /// A lock was poisoned.
    RwLock,
    /// The directory watcher failed.
    NotifyError,
    /// The configuration did not parse.
    TomlError(String),
}

/// Mathematical value of a [`ChimeraError`].
pub enum ChimeraErrorView {
    TemplateParsing(Seq<char>),
    IOError(Seq<char>),
    TantivyError,
    QueryError,
    TokioChannel,
    RwLock,
    NotifyError,
    TomlError(Seq<char>),
}

impl View for ChimeraError {
    type V = ChimeraErrorView;

    open spec fn view(&self) -> ChimeraErrorView {
        match *self {
            ChimeraError::TemplateParsing(s) => ChimeraErrorView::TemplateParsing(s@),
            ChimeraError::IOError(s) => ChimeraErrorView::IOError(s@),
            ChimeraError::TantivyError => ChimeraErrorView::TantivyError,
            ChimeraError::QueryError => ChimeraErrorView::QueryError,
            ChimeraError::TokioChannel => ChimeraErrorView::TokioChannel,
            ChimeraError::RwLock => ChimeraErrorView::RwLock,
            ChimeraError::NotifyError => ChimeraErrorView::NotifyError,
            ChimeraError::TomlError(s) => ChimeraErrorView::TomlError(s@),
        }
    }
}

impl PartialEq for ChimeraError {
    fn eq(&self, other: &Self) -> (r: bool) {
        match (self, other) {
            (ChimeraError::TemplateParsing(a), ChimeraError::TemplateParsing(b)) => *a == *b,
            (ChimeraError::IOError(a), ChimeraError::IOError(b)) => *a == *b,
            (ChimeraError::TantivyError, ChimeraError::TantivyError) => true,
            (ChimeraError::QueryError, ChimeraError::QueryError) => true,
            (ChimeraError::TokioChannel, ChimeraError::TokioChannel) => true,
            (ChimeraError::RwLock, ChimeraError::RwLock) => true,
            (ChimeraError::NotifyError, ChimeraError::NotifyError) => true,
            (ChimeraError::TomlError(a), ChimeraError::TomlError(b)) => *a == *b,
            _ => false,
        }
    }
}

impl PartialEqSpecImpl for ChimeraError {
    open spec fn obeys_eq_spec() -> bool {
        true
    }

    open spec fn eq_spec(&self, other: &Self) -> bool {
        self@ == other@
    }
}

impl ChimeraError {
    /// HTTP status that the failure is answered with: a missing file is not
    /// found, anything else is an internal error.
    pub open spec fn status_of(e: ChimeraErrorView) -> u16 {
        match e {
            ChimeraErrorView::IOError(_) => 404,
            _ => 500,
        }
    }

    /// HTTP status that the failure is answered with.
    pub fn status(&self) -> (r: u16)
        ensures
            r == Self::status_of(self@),
    {
        match self {
            ChimeraError::IOError(_) => 404,
            _ => 500,
        }
    }
}

/// Body of the answer of last resort, sent when rendering the error page
/// fails as well.
pub const LAST_CHANCE_MESSAGE: &'static str =
    "Chimera internal server error, and then a second failure attempting to render that error";

} // verus!
