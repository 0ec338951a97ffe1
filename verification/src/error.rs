//! The error taxonomy of policy evaluation.
//!
//! Every failure surfaces to the caller as one of these variants; evaluation
//! never continues past an error to produce a partial decision.

use vstd::prelude::*;

use crate::op::Op;
use crate::value::ValueKind;

verus! {

/// Why a policy could not be evaluated.
#[derive(Clone, Debug, PartialEq)]
pub enum Error {
    /// An entity could not be projected into an attribute map.
    SerializationError(String),
    /// A textual policy string is malformed; carries the offending fragment.
    Parse(String),
    /// A clause referenced a field absent from the subject or object.
    UnknownField(String),
    /// A comparison was applied across incompatible value kinds, or an
    /// ordering operator to a kind that has no order.
    TypeMismatch { lhs: ValueKind, rhs: ValueKind, op: Op },
    /// A resource name had no registered adapter.
    AdapterNotFound,
    /// An adapter's required provider type had no registered instance.
    ProviderNotFound,
    /// A subject reference carried no id.
    SubjectNotFound,
    /// A backend failure while an adapter loaded an entity.
    LoadError(String),
}

/// The mathematical model of an [`Error`].
pub enum ErrorView {
    SerializationError(Seq<char>),
    Parse(Seq<char>),
    UnknownField(Seq<char>),
    TypeMismatch { lhs: ValueKind, rhs: ValueKind, op: Op },
    AdapterNotFound,
    ProviderNotFound,
    SubjectNotFound,
    LoadError(Seq<char>),
}

impl View for Error {
    type V = ErrorView;

    open spec fn view(&self) -> ErrorView {
        match self {
            Error::SerializationError(s) => ErrorView::SerializationError(s@),
            Error::Parse(s) => ErrorView::Parse(s@),
            Error::UnknownField(s) => ErrorView::UnknownField(s@),
            Error::TypeMismatch { lhs, rhs, op } => (ErrorView::TypeMismatch {
                lhs: *lhs,
                rhs: *rhs,
                op: *op,
            }),
            Error::AdapterNotFound => ErrorView::AdapterNotFound,
            Error::ProviderNotFound => ErrorView::ProviderNotFound,
            Error::SubjectNotFound => ErrorView::SubjectNotFound,
            Error::LoadError(s) => ErrorView::LoadError(s@),
        }
    }
}

/// Views a fallible result by viewing both sides.
pub open spec fn res_view<T: View>(r: Result<T, Error>) -> Result<T::V, ErrorView> {
    match r {
        Ok(t) => Ok(t@),
        Err(e) => Err(e@),
    }
}

impl Error {
    /// Wraps a backend failure, stringified by the caller, as a load error.
    pub fn load_error(msg: String) -> (r: Self)
        ensures
            r@ == ErrorView::LoadError(msg@),
    {
        Error::LoadError(msg)
    }
}

} // verus!
