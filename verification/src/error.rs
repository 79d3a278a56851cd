//! The failure kinds shared by the storage engine, the wire protocol and the
//! server.

use vstd::prelude::*;
use vstd::std_specs::convert::FromSpecImpl;

verus! {

/// The I/O error of the standard library, carried through as an opaque value.
#[verifier::external_type_specification]
#[verifier::external_body]
pub struct ExIoError(std::io::Error);

/// The error `String::from_utf8` reports for bytes that are not UTF-8.
#[verifier::external_type_specification]
#[verifier::external_body]
pub struct ExFromUtf8Error(std::string::FromUtf8Error);

/// The error type of `serde_json`, carried through as an opaque value.
#[verifier::external_type_specification]
#[verifier::external_body]
pub struct ExJsonError(serde_json::Error);

/// The error type of `sled`, carried through as an opaque value.
#[verifier::external_type_specification]
#[verifier::external_body]
pub struct ExSledError(sled::Error);

/// Everything that can go wrong in the store, the protocol or a backend.
#[derive(Debug, Clone, Copy, PartialEq, Eq, Structural)]
pub enum KVSError {
    /// A failure that fits no other kind, such as a record that does not
    /// hold what the index says it holds.
    GeneralKVSError,
    /// The key has no value.
    KeyNotFoundError,
    /// Reading or writing failed, or a frame ended before its full length.
    IOError,
    /// A record could not be serialised.
    SerdeJsonError,
    /// Stored bytes are not valid UTF-8.
    FromUtf8Error,
    /// The B-tree backend reported a failure of its own.
    SledError,
    /// A frame does not start with the magic head.
    ProtocolHeadMismatch,
    /// The trailer of a frame is not the checksum of the bytes before it.
    ProtocolChecksumMismatch,
    /// The opcode or status byte of a frame is not one the protocol knows.
    ProtocolUnknownOpcode,
}

/// The result of an operation that can fail with a [`KVSError`].
pub type Result<T> = std::result::Result<T, KVSError>;

impl KVSError {
    /// The text that describes each kind of failure.
    pub open spec fn message_text(self) -> Seq<char> {
        match self {
            KVSError::GeneralKVSError => "Unknown error"@,
            KVSError::KeyNotFoundError => "Key not found"@,
            KVSError::IOError => "Imput output error"@,
            KVSError::SerdeJsonError => "Json serialization error"@,
            KVSError::FromUtf8Error => "Cant converct to string"@,
            KVSError::SledError => "Sled engine error"@,
            KVSError::ProtocolHeadMismatch => "Protocol head mismatch"@,
            KVSError::ProtocolChecksumMismatch => "Protocol checksum mismatch"@,
            KVSError::ProtocolUnknownOpcode => "Protocol opcode unknown"@,
        }
    }

    /// A short description of this failure, for people to read.
    pub fn message(&self) -> (text: String)
        ensures
            text@ == self.message_text(),
    {
        let text: &str = match self {
            KVSError::GeneralKVSError => "Unknown error",
            KVSError::KeyNotFoundError => "Key not found",
            KVSError::IOError => "Imput output error",
            KVSError::SerdeJsonError => "Json serialization error",
            KVSError::FromUtf8Error => "Cant converct to string",
            KVSError::SledError => "Sled engine error",
            KVSError::ProtocolHeadMismatch => "Protocol head mismatch",
            KVSError::ProtocolChecksumMismatch => "Protocol checksum mismatch",
            KVSError::ProtocolUnknownOpcode => "Protocol opcode unknown",
        };
        text.to_owned()
    }

    /// The one-line description shared by every kind.
    pub fn description(&self) -> (text: &'static str)
        ensures
            text@ == "KVS error .. please get some help"@,
    {
        "KVS error .. please get some help"
    }
}

impl From<std::io::Error> for KVSError {
    fn from(_err: std::io::Error) -> (e: KVSError) {
        KVSError::IOError
    }
}

impl FromSpecImpl<std::io::Error> for KVSError {
    open spec fn obeys_from_spec() -> bool {
        true
    }

    open spec fn from_spec(v: std::io::Error) -> KVSError {
        KVSError::IOError
    }
}

impl From<serde_json::Error> for KVSError {
    fn from(_err: serde_json::Error) -> (e: KVSError) {
        KVSError::SerdeJsonError
    }
}

impl FromSpecImpl<serde_json::Error> for KVSError {
    open spec fn obeys_from_spec() -> bool {
        true
    }

    open spec fn from_spec(v: serde_json::Error) -> KVSError {
        KVSError::SerdeJsonError
    }
}

impl From<std::string::FromUtf8Error> for KVSError {
    fn from(_err: std::string::FromUtf8Error) -> (e: KVSError) {
        KVSError::FromUtf8Error
    }
}

impl FromSpecImpl<std::string::FromUtf8Error> for KVSError {
    open spec fn obeys_from_spec() -> bool {
        true
    }

    open spec fn from_spec(v: std::string::FromUtf8Error) -> KVSError {
        KVSError::FromUtf8Error
    }
}

impl From<sled::Error> for KVSError {
    fn from(_err: sled::Error) -> (e: KVSError) {
        KVSError::SledError
    }
}

impl FromSpecImpl<sled::Error> for KVSError {
    open spec fn obeys_from_spec() -> bool {
        true
    }

    open spec fn from_spec(v: sled::Error) -> KVSError {
        KVSError::SledError
    }
}

impl From<String> for KVSError {
    fn from(_err: String) -> (e: KVSError) {
        KVSError::GeneralKVSError
    }
}

impl FromSpecImpl<String> for KVSError {
    open spec fn obeys_from_spec() -> bool {
        true
    }

    open spec fn from_spec(v: String) -> KVSError {
        KVSError::GeneralKVSError
    }
}

} // verus!
