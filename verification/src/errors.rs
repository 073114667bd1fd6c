//! Error types of the wire protocol and the codec.

use vstd::prelude::*;

verus! {

/// Errors raised while encoding or decoding wire frames.
#[derive(Debug, Clone, Copy, PartialEq, Eq, Structural)]
pub enum WireError {
    /// The buffer does not yet hold a complete frame.
    Incomplete,
    /// Unsupported protocol version.
    Version(u8),
    /// TTL is zero or would reach zero.
    Ttl,
    /// A size limit was exceeded; carries the offending size.
    Size(usize),
    /// Malformed crypto section.
    Crypto,
    /// Invalid metadata.
    Meta,
    /// Header checksum mismatch.
    HdrCsum,
    /// Reserved bits are nonzero or a flag bit is unknown.
    Reserved,
    /// Unknown frame type byte.
    Type(u8),
    /// Unknown status code byte.
    Code(u8),
    /// Malformed frame structure.
    Malformed,
}

impl WireError {
    /// A short description of the error.
    pub fn describe(&self) -> (r: &'static str)
        ensures
            true,
    {
        match self {
            WireError::Incomplete => "incomplete frame",
            WireError::Version(_) => "version unsupported",
            WireError::Ttl => "invalid ttl",
            WireError::Size(_) => "size limit exceeded",
            WireError::Crypto => "malformed crypto section",
            WireError::Meta => "cbor meta invalid",
            WireError::HdrCsum => "hdr checksum mismatch",
            WireError::Reserved => "reserved bits nonzero",
            WireError::Type(_) => "unknown type",
            WireError::Code(_) => "unknown code",
            WireError::Malformed => "malformed frame",
        }
    }
}

/// Errors raised by the metadata codec and the frame builder.
#[derive(Debug, Clone, Copy, PartialEq, Eq, Structural)]
pub enum CodecError {
    /// Underlying wire protocol error.
    Wire(WireError),
    /// Metadata encoding failed.
    MetaEncode,
    /// Metadata decoding failed.
    MetaDecode,
    /// Crypto operation failed.
    Crypto,
}

impl CodecError {
    /// A short description of the error.
    pub fn describe(&self) -> (r: &'static str)
        ensures
            true,
    {
        match self {
            CodecError::Wire(w) => w.describe(),
            CodecError::MetaEncode => "metadata encoding failed",
            CodecError::MetaDecode => "metadata decoding failed",
            CodecError::Crypto => "crypto error",
        }
    }
}

} // verus!
