//! Error types for registry operations and template rendering.

use vstd::prelude::*;

verus! {

/// An error from a registry operation.
#[derive(Debug, Clone, PartialEq, Eq)]
pub enum RepoError {
    /// The current directory is not inside any registered repo.
    NoEnclosingRepo,
    /// The repo already carries the label that was to be added.
    DuplicateLabel { label: String },
    /// The repo does not carry the label that was to be removed.
    MissingLabel { label: String },
    /// A repo with this path is already registered.
    AlreadyRegistered,
}

/// The reason a template failed to render, at the specification level:
/// field values are character sequences.
pub enum RenderFailure {
    /// A `{{` with no closing `}}` after it.
    Unterminated,
    /// A placeholder key that the variable mapping does not define.
    Undefined { key: Seq<char> },
}

/// An error from rendering a template string.
#[derive(Debug, Clone, PartialEq, Eq)]
pub enum RenderError {
    /// A `{{` with no closing `}}` after it.
    UnterminatedPlaceholder,
    /// A placeholder key that the variable mapping does not define.
    UndefinedPlaceholder { key: String },
}

impl View for RenderError {
    type V = RenderFailure;

    open spec fn view(&self) -> RenderFailure {
        match self {
            RenderError::UnterminatedPlaceholder => RenderFailure::Unterminated,
            RenderError::UndefinedPlaceholder { key } => RenderFailure::Undefined { key: key@ },
        }
    }
}

} // verus!
