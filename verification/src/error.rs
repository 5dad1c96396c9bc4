//! Errors that can arise while decoding or validating an EBML document.

use vstd::prelude::*;

verus! {

/// The ways reading an EBML document can fail. Every error is terminal for
/// the reader that produced it.
#[derive(Debug, Clone, Copy, PartialEq, Eq, Structural)]
pub enum EbmlError {
    /// The byte source ended in the middle of a token or payload.
    TruncatedInput,
    /// An element ID had an invalid width or a value outside its width class.
    IdOutOfRange,
    /// A VINT or a value payload violates the format.
    MalformedDocument,
    /// The first ID of the document was not the expected root ID.
    WrongId,
    /// An ID that is not legal as a child appeared in a finite-sized
    /// container.
    UnexpectedChild,
    /// A child the schema requires once or more did not occur before its
    /// container closed.
    MissingRequiredChild,
    /// A value failed the restriction its element type declares.
    RestrictionViolated,
    /// A schema declares constraints that cannot be satisfied together, or
    /// clashing names or IDs.
    SchemaConflict,
}

impl EbmlError {
    /// A short description of the error.
    pub fn describe(&self) -> (r: &'static str)
        ensures
            r@.len() > 0,
    {
        let r: &'static str = match self {
            EbmlError::TruncatedInput => "unexpected end of input",
            EbmlError::IdOutOfRange => "an id was out of range",
            EbmlError::MalformedDocument => "malformed EBML document",
            EbmlError::WrongId => "the wrong id was read",
            EbmlError::UnexpectedChild => "an id is not legal as a child here",
            EbmlError::MissingRequiredChild => "a required child did not occur",
            EbmlError::RestrictionViolated => "a value failed its restriction",
            EbmlError::SchemaConflict => "the schema contradicts itself",
        };
        proof {
            reveal_strlit("unexpected end of input");
            reveal_strlit("an id was out of range");
            reveal_strlit("malformed EBML document");
            reveal_strlit("the wrong id was read");
            reveal_strlit("an id is not legal as a child here");
            reveal_strlit("a required child did not occur");
            reveal_strlit("a value failed its restriction");
            reveal_strlit("the schema contradicts itself");
        }
        r
    }
}

/// A `Result` whose error type is [`EbmlError`].
pub type EbmlResult<T> = Result<T, EbmlError>;

} // verus!
