//! Error types, one per layer: wire decoding, node RPC, storage,
//! ingestion streaming, backfill, and the query front end.

use vstd::prelude::*;

verus! {

/// Malformed consensus-encoded bytes; fatal to the record being processed.
#[derive(Clone, Copy, Debug, PartialEq, Eq, Structural)]
pub struct DecodeError;

/// A node RPC transport or protocol failure, with the transport's message.
#[derive(Clone, Debug)]
pub struct ClientError {
    pub message: String,
}

/// A local storage failure.
#[derive(Clone, Copy, Debug, PartialEq, Eq, Structural)]
pub struct StoreError;

/// Failure of a hex decode of a caller-supplied string.
#[derive(Clone, Copy, Debug, PartialEq, Eq, Structural)]
pub enum HexDecodeError {
    /// The string has an odd number of digits.
    OddLength,
    /// The string holds a byte that is no hex digit.
    InvalidCharacter,
}

/// Failure of an ingestion pipeline: its feed, a decode, or a node call.
#[derive(Clone, Debug)]
pub enum StreamError {
    /// The push feed failed, with the transport's message.
    Subscription(String),
    /// A message or block body did not decode.
    Deserialization(DecodeError),
    /// A node RPC call failed.
    Client(ClientError),
}

/// Failure to start a backfill run.
#[derive(Clone, Copy, Debug, PartialEq, Eq, Structural)]
pub enum ScrapeError {
    /// A backfill run is already in progress; the new request is refused.
    AlreadyScraping,
}

/// A query-path failure, surfaced to the caller with a typed reason.
#[derive(Clone, Debug)]
pub enum ServerError {
    /// No stored fingerprint starts with the given prefix.
    PrefixNotFound,
    /// The given prefix is shorter than the configured minimum.
    PrefixTooShort,
    /// The given prefix is not valid hex.
    InvalidHex(HexDecodeError),
    /// A node RPC call failed while enriching results.
    Client(ClientError),
    /// The backing ingestion stream failed.
    Streaming(StreamError),
}

impl ServerError {
    /// A short description of the failure, for logs and responses.
    pub fn message(&self) -> (r: &'static str)
        ensures
            r@ == self.message_spec(),
    {
        match self {
            ServerError::PrefixNotFound => "prefix not found",
            ServerError::PrefixTooShort => "prefix too short",
            ServerError::InvalidHex(_) => "invalid hex",
            ServerError::Client(_) => "client error",
            ServerError::Streaming(_) => "stream error",
        }
    }

    /// What `message` returns for each variant.
    pub open spec fn message_spec(&self) -> Seq<char> {
        match self {
            ServerError::PrefixNotFound => "prefix not found"@,
            ServerError::PrefixTooShort => "prefix too short"@,
            ServerError::InvalidHex(_) => "invalid hex"@,
            ServerError::Client(_) => "client error"@,
            ServerError::Streaming(_) => "stream error"@,
        }
    }
}

impl From<HexDecodeError> for ServerError {
    /// Hex failures surface on the query path as `InvalidHex`.
    fn from(err: HexDecodeError) -> (r: ServerError) {
        ServerError::InvalidHex(err)
    }
}

impl vstd::std_specs::convert::FromSpecImpl<HexDecodeError> for ServerError {
    open spec fn obeys_from_spec() -> bool {
        true
    }

    open spec fn from_spec(err: HexDecodeError) -> ServerError {
        ServerError::InvalidHex(err)
    }
}

impl From<ClientError> for ServerError {
    /// Node RPC failures surface on the query path as `Client`.
    fn from(err: ClientError) -> (r: ServerError) {
        ServerError::Client(err)
    }
}

impl vstd::std_specs::convert::FromSpecImpl<ClientError> for ServerError {
    open spec fn obeys_from_spec() -> bool {
        true
    }

    open spec fn from_spec(err: ClientError) -> ServerError {
        ServerError::Client(err)
    }
}

} // verus!
