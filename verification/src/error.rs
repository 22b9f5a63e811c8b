//! The error types of the crate.
use vstd::prelude::*;

verus! {

/// A collection was too small for what should have gone into it.
#[derive(Debug, Clone, Copy, PartialEq, Eq, Structural)]
pub enum CapacityError {
    /// A text did not fit into its string buffer.
    Str,
    /// Bytes did not fit into their buffer.
    Bytes,
    /// There was no room for another subscription.
    Subscriptions,
}

/// Why JSON could not be read.
#[verifier::external_type_specification]
#[verifier::external_body]
pub struct ExDeserError(serde_json_core::de::Error);

/// Why a value could not be written as JSON.
#[verifier::external_type_specification]
#[verifier::external_body]
pub struct ExSerError(serde_json_core::ser::Error);

/// Where bytes are not UTF-8.
#[verifier::external_type_specification]
#[verifier::external_body]
pub struct ExUtf8Error(core::str::Utf8Error);

/// Why no frame could be read; `R` is the error of the reader.
#[derive(Debug)]
pub enum FramerError<R> {
    /// The reader is at its end.
    Disconnected,
    /// The reader failed.
    Read(R),
    /// A buffer was too small for the frame.
    Capacity(CapacityError),
    /// The body of an INFO message could not be read.
    Deser(serde_json_core::de::Error),
    /// The header is not UTF-8.
    Utf8,
    /// The header is none that this client knows.
    Header,
}

/// Why a step of the runner failed; `R` is the error of the connection.
#[derive(Debug)]
pub enum RunnerError<R> {
    /// Bytes could not be written to the connection.
    Write(R),
    /// No frame could be read from the connection.
    Framer(FramerError<R>),
    /// A collection was too small.
    Capacity(CapacityError),
    /// The body of a CONNECT message could not be written.
    Ser(serde_json_core::ser::Error),
}

impl<R> From<core::str::Utf8Error> for FramerError<R> {
    fn from(e: core::str::Utf8Error) -> (r: Self) {
        FramerError::Utf8
    }
}

impl<R> vstd::std_specs::convert::FromSpecImpl<core::str::Utf8Error> for FramerError<R> {
    open spec fn obeys_from_spec() -> bool {
        true
    }

    open spec fn from_spec(e: core::str::Utf8Error) -> Self {
        FramerError::Utf8
    }
}

} // verus!
