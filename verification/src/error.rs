//! Errors that the application hands to its frontend.
use vstd::prelude::*;
use vstd::std_specs::cmp::PartialEqSpecImpl;
use crate::reader::{ReaderError, reader_error_kind_name};
use crate::text::str_equal;

verus! {

/// What went wrong outside the reader.
#[derive(Debug)]
pub enum GeneralErrorKind {
    IncorrectProject(String),
    Unknown,
}

/// The mathematical value of a [`GeneralErrorKind`].
pub enum GeneralErrorKindView {
    IncorrectProject(Seq<char>),
    Unknown,
}

impl View for GeneralErrorKind {
    type V = GeneralErrorKindView;

    open spec fn view(&self) -> GeneralErrorKindView {
        match self {
            GeneralErrorKind::IncorrectProject(p) => GeneralErrorKindView::IncorrectProject(p@),
            GeneralErrorKind::Unknown => GeneralErrorKindView::Unknown,
        }
    }
}

impl PartialEq for GeneralErrorKind {
    fn eq(&self, other: &Self) -> (r: bool) {
        match (self, other) {
            (GeneralErrorKind::IncorrectProject(a), GeneralErrorKind::IncorrectProject(b)) => {
                str_equal(a.as_str(), b.as_str())
            },
            (GeneralErrorKind::Unknown, GeneralErrorKind::Unknown) => true,
            _ => false,
        }
    }
}

impl PartialEqSpecImpl for GeneralErrorKind {
    open spec fn obeys_eq_spec() -> bool {
        true
    }

    open spec fn eq_spec(&self, other: &GeneralErrorKind) -> bool {
        self@ == other@
    }
}

impl Clone for GeneralErrorKind {
    fn clone(&self) -> (r: Self)
        ensures
            r@ == self@,
    {
        match self {
            GeneralErrorKind::IncorrectProject(p) => GeneralErrorKind::IncorrectProject(p.clone()),
            GeneralErrorKind::Unknown => GeneralErrorKind::Unknown,
        }
    }
}

/// The name of a general error kind.
pub open spec fn general_error_kind_name(k: GeneralErrorKindView) -> Seq<char> {
    match k {
        GeneralErrorKindView::IncorrectProject(_) => "IncorrectProject"@,
        GeneralErrorKindView::Unknown => "Unknown"@,
    }
}

impl GeneralErrorKind {
    /// The name of the kind, as the frontend receives it.
    pub fn to_string(&self) -> (r: String)
        ensures
            r@ == general_error_kind_name(self@),
    {
        match self {
            GeneralErrorKind::IncorrectProject(_) => String::from_str("IncorrectProject"),
            GeneralErrorKind::Unknown => String::from_str("Unknown"),
        }
    }
}

/// An error outside the reader, with a message that explains it.
#[derive(Debug)]
pub struct GeneralError {
    pub kind: GeneralErrorKind,
    pub message: String,
}

impl Clone for GeneralError {
    fn clone(&self) -> (r: Self)
        ensures
            r.kind@ == self.kind@,
            r.message == self.message,
    {
        GeneralError { kind: self.kind.clone(), message: self.message.clone() }
    }
}

/// The text that describes a general error.
pub open spec fn general_error_text(kind: GeneralErrorKindView, message: Seq<char>) -> Seq<char> {
    match kind {
        GeneralErrorKindView::IncorrectProject(p) => "Could not find project "@ + p,
        GeneralErrorKindView::Unknown => "Encountered an unexpected error. Message: "@ + message,
    }
}

impl GeneralError {
    /// The text that describes the error.
    pub fn to_string(&self) -> (r: String)
        ensures
            r@ == general_error_text(self.kind@, self.message@),
    {
        match &self.kind {
            GeneralErrorKind::IncorrectProject(p) => {
                let mut s = String::from_str("Could not find project ");
                s.append(p.as_str());
                s
            },
            GeneralErrorKind::Unknown => {
                let mut s = String::from_str("Encountered an unexpected error. Message: ");
                s.append(self.message.as_str());
                s
            },
        }
    }
}

/// Where an error that reaches the frontend comes from.
#[derive(Debug, Clone, Copy, PartialEq, Eq, Structural)]
pub enum CirclesErrorType {
    GeneralError,
    ReaderError,
}

/// An error as the frontend receives it: its origin, the name of its kind,
/// and its message.
#[derive(Debug)]
pub struct CirclesError {
    pub error_type: CirclesErrorType,
    pub kind: String,
    pub message: String,
}

impl CirclesError {
    /// The frontend's form of a reader error.
    pub fn from_reader_error(error: ReaderError) -> (r: CirclesError)
        ensures
            r.error_type == CirclesErrorType::ReaderError,
            r.kind@ == reader_error_kind_name(error.kind@),
            r.message == error.message,
    {
        let kind = error.kind.to_string();
        CirclesError { error_type: CirclesErrorType::ReaderError, kind, message: error.message }
    }

    /// The frontend's form of a general error.
    pub fn from_general_error(error: GeneralError) -> (r: CirclesError)
        ensures
            r.error_type == CirclesErrorType::GeneralError,
            r.kind@ == general_error_kind_name(error.kind@),
            r.message == error.message,
    {
        let kind = error.kind.to_string();
        CirclesError { error_type: CirclesErrorType::GeneralError, kind, message: error.message }
    }
}

} // verus!
