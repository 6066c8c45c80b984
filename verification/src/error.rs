//! The error taxonomy of the library.

use vstd::prelude::*;

verus! {

/// Why a frontmatter instance was rejected by the validator.
#[derive(Clone, Copy, Debug, PartialEq, Eq, Structural)]
pub enum ValidationKind {
    /// The property name is not declared in the schema.
    UnknownProperty,
    /// The value is null but the declared property is not nullable.
    NullNotAllowed,
    /// The value's dynamic kind disagrees with the declared property type.
    TypeMismatch,
}

/// A validation failure, naming the offending property and the broken rule.
#[derive(Clone, Debug)]
pub struct ValidationError {
    pub property: String,
    pub kind: ValidationKind,
}

/// The typed failures of the library's fallible operations.
#[derive(Clone, Debug)]
pub enum PinkyError {
    /// Library or schema configuration is missing or malformed.
    Config,
    /// A schema name, library or page could not be resolved.
    NotFound,
    /// Malformed frontmatter delimiters, an undecodable block, or malformed
    /// schema text.
    Format,
    /// The identity encoded in a page's filename disagrees with the identity
    /// in its frontmatter.
    Consistency,
    /// The frontmatter does not satisfy its schema.
    Validation(ValidationError),
    /// A relational operation failed in the embedding application.
    Storage,
}

} // verus!
