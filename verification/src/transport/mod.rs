//! Transport backends for message passing.

use vstd::prelude::*;
use vstd::string::*;

pub mod shm;

verus! {

/// Why a transport operation failed.
#[derive(Debug, Clone)]
pub enum TransportError {
    /// The shared-memory ring has no free slot.
    RingFull,
    /// The transport is not available or not initialized.
    NotAvailable,
    /// An I/O operation failed; the text says which.
    IoError(String),
    /// The topic is not known to the transport.
    TopicNotFound,
}

/// Result type of transport operations.
pub type TransportResult<T> = Result<T, TransportError>;

impl TransportError {
    /// The text shown for the error.
    pub open spec fn message_spec(&self) -> Seq<char> {
        match self {
            TransportError::RingFull => "shared memory ring is full"@,
            TransportError::NotAvailable => "transport not available"@,
            TransportError::IoError(e) => "transport IO error: "@ + e@,
            TransportError::TopicNotFound => "topic not found in transport"@,
        }
    }

    /// The human-readable description of the error.
    pub fn message(&self) -> (r: String)
        ensures
            r@ == self.message_spec(),
    {
        match self {
            TransportError::RingFull => String::from_str("shared memory ring is full"),
            TransportError::NotAvailable => String::from_str("transport not available"),
            TransportError::IoError(e) => {
                let mut s = String::from_str("transport IO error: ");
                s.append(e.as_str());
                s
            },
            TransportError::TopicNotFound => String::from_str("topic not found in transport"),
        }
    }
}

} // verus!
