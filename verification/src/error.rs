use crate::encoding::kind::Kind;
use vstd::prelude::*;

verus! {

/// A failure to allocate an identifier or to make sense of stored bytes.
#[derive(Clone, Copy, Debug, PartialEq, Eq, Structural)]
pub enum EncodingError {
    /// Every identifier of the kind is already taken.
    TypeIdsExhausted { kind: Kind },
    /// Every value type identifier has been handed out.
    ValueTypeIdsExhausted,
    /// Stored bytes do not have the shape their key promises.
    MalformedBytes,
    /// A vertex of one kind was handed where a vertex of another kind belongs.
    UnexpectedKind { expected: Kind, actual: Kind },
}

/// A failure to read a schema fact.
#[derive(Clone, Copy, Debug, PartialEq, Eq, Structural)]
pub enum ConceptReadError {
    /// A stored payload could not be decoded.
    Encoding { source: EncodingError },
    /// A type has more than one direct supertype of its own kind.
    AmbiguousSupertype,
    /// Walking the hierarchy did not end within the number of types a kind can have.
    HierarchyTooDeep,
    /// A stored annotation is not legal for the kind of type it is attached to.
    InvalidAnnotationForKind,
    /// A value was unwrapped as a value type it does not hold.
    ValueTypeMismatch,
}

/// A failure to change the schema.
#[derive(Clone, Copy, Debug, PartialEq, Eq, Structural)]
pub enum ConceptWriteError {
    /// The label or supertype of a root type was about to be changed.
    RootModification,
    /// An identifier could not be allocated or bytes could not be encoded.
    Encoding { source: EncodingError },
    /// The annotation is not legal for the kind of type it was meant for.
    InvalidAnnotationForKind,
    /// Another type already carries the label.
    LabelInUse,
    /// The schema could not be read while preparing the change.
    Read { cause: ConceptReadError },
}

} // verus!
