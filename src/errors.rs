//! The errors of the library.
use vstd::prelude::*;

verus! {

/// Every error that the library reports.
#[derive(Debug, Clone, PartialEq, Eq)]
pub enum TalktoSCError {
    /// When we failed to create a context to talk to the smartcard.
    ContextError(String),
    /// When we fail to list the readers in the system.
    ReaderError(String),
    /// When no card reader is attached to the system.
    MissingReaderError,
    /// When no smartcard is attached to the reader.
    MissingSmartCardError,
    /// When we can not connect to the smartcard.
    SmartCardConnectionError(String),
    /// A reply of the card that is too short to hold the two status bytes;
    /// carries the length of the reply.
    TooShortReply(usize),
    /// A tag that claims a third tag byte; only one- and two-byte tags exist.
    BadTagExtension,
    /// A length field in a long form other than `0x81` or `0x82`.
    BadLength,
    /// A data object that runs past the end of its buffer.
    TruncatedTlv,
}

} // verus!
