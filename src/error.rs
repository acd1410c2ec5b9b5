//! The failures of the pipeline.

use vstd::prelude::*;

verus! {

#[derive(Debug, PartialEq, Eq, Clone)]
pub enum EmlError {
    /// The `# eml: MAJOR.MINOR.PATCH` header is missing or malformed.
    BadVersion,
    /// The text does not follow the grammar at this character offset.
    SyntaxError(usize),
    /// A `use` body or a flow names an id that no earlier card has.
    UnresolvedReference(String),
    /// An arrow would join these two cards against the event-modeling cycle.
    IllegalArrow(String, String),
    /// A form, job, command or event whose body is not a list of fields.
    InvalidBody(String),
    /// Two construction lines of an arrow's curve are parallel.
    DegenerateGeometry,
}

pub enum ErrorModel {
    BadVersion,
    SyntaxError(nat),
    UnresolvedReference(Seq<char>),
    IllegalArrow(Seq<char>, Seq<char>),
    InvalidBody(Seq<char>),
    DegenerateGeometry,
}

impl View for EmlError {
    type V = ErrorModel;

    open spec fn view(&self) -> ErrorModel {
        match self {
            EmlError::BadVersion => ErrorModel::BadVersion,
            EmlError::SyntaxError(p) => ErrorModel::SyntaxError(*p as nat),
            EmlError::UnresolvedReference(id) => ErrorModel::UnresolvedReference(id@),
            EmlError::IllegalArrow(a, b) => ErrorModel::IllegalArrow(a@, b@),
            EmlError::InvalidBody(id) => ErrorModel::InvalidBody(id@),
            EmlError::DegenerateGeometry => ErrorModel::DegenerateGeometry,
        }
    }
}

} // verus!
