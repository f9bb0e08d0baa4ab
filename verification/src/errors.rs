use vstd::prelude::*;

verus! {

/// A value could not be encoded for the wire: some element exceeds the
/// largest length the wire format can carry.
#[derive(Debug, Clone, PartialEq, Eq, Structural)]
pub enum SerializationError {
    Oversize,
}

/// The leading bytes of a read buffer do not form one complete, well-formed
/// encoded message.
#[derive(Debug, Clone, PartialEq, Eq, Structural)]
pub enum ProtocolDecodeError {
    /// Too few bytes so far to finish one message: more input may complete it.
    Incomplete,
    /// The leading bytes can never begin a well-formed message.
    Malformed,
}

/// An evaluation payload did not have the expected shape; recovered locally
/// as a no-op, never propagated.
#[derive(Debug, Clone, PartialEq, Eq, Structural)]
pub enum PayloadShapeError {
    /// The payload blob does not hold a text element.
    ValueNotText,
    /// The payload text is not a JSON object with a string `taskContextId`.
    NoTaskContextId,
}

} // verus!
