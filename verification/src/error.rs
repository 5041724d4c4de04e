use vstd::prelude::*;

verus! {

/// The closed set of decode failures. Every fallible operation in this crate
/// reports one of these kinds; none is ever recovered from locally.
#[derive(Debug, Copy, Clone, PartialEq, Eq, Structural)]
pub enum Error {
    /// The input ended before the bytes a value declared were available.
    EOF,
    /// A long-form length field claims more length bytes than a `usize` can hold.
    OverlongLength,
    /// A length field is not in canonical (minimal) form.
    InvalidLengthEncoding,
    /// A tag byte outside the recognized set.
    UnrecognizedType,
    /// A recognized tag whose decoding is deliberately not provided.
    NotImplemented,
    /// A declared length that a fixed-shape type cannot have.
    IncorrectLength,
    /// Content bytes that violate the rules of their type.
    Malformed,
    /// Object identifier content that breaks the packing or continuation rules.
    MalformedObjectIdentifier,
    /// An object identifier digit wide enough to overflow its 32-bit decoding.
    ObjectIdentifierTooLarge,
    /// String content that is not valid UTF-8.
    InvalidUTF8,
    /// String content outside the printable repertoire.
    InvalidPrintableString,
    /// A nested value ran past the declared end of its container.
    StructureOverrun,
}

} // verus!
