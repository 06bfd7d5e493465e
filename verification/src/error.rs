//! The errors that end the production of a document.
use vstd::prelude::*;

verus! {

/// Why a document could not be produced.
#[derive(Debug)]
pub enum KrillaError {
    /// A fragment could not be produced; the message comes from its producer.
    Fragment(String),
    /// Two fragments define an object under the same reference.
    DuplicateReference(i32),
    /// A fragment refers to an object that no fragment defines.
    UnknownReference(i32),
    /// No reference is left to hand out.
    OutOfReferences,
    /// A fragment holds an object that cannot be carried over into the document.
    MalformedObject,
    /// The data of a stream is longer than a stream can hold.
    StreamTooLong,
}

/// The result of an operation that can end the production of a document.
pub type KrillaResult<T> = Result<T, KrillaError>;

impl KrillaError {
    /// A copy of the error.
    pub fn duplicate(&self) -> (copy: KrillaError)
        ensures
            copy == *self,
    {
        match self {
            KrillaError::Fragment(message) => KrillaError::Fragment(message.clone()),
            KrillaError::DuplicateReference(id) => KrillaError::DuplicateReference(*id),
            KrillaError::UnknownReference(id) => KrillaError::UnknownReference(*id),
            KrillaError::OutOfReferences => KrillaError::OutOfReferences,
            KrillaError::MalformedObject => KrillaError::MalformedObject,
            KrillaError::StreamTooLong => KrillaError::StreamTooLong,
        }
    }
}

} // verus!
