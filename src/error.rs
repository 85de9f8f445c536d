//! The errors that parsing reports.
use vstd::prelude::*;

verus! {

/// Why a buffer was not accepted as a packet.
#[derive(Debug, Clone, Copy, PartialEq, Eq)]
pub enum RtpError {
    /// The buffer ends before a field that the named stage reads.
    NotEnoughBuffer { expect: usize, actual: usize, origin: &'static str },
    /// The first byte is outside the range that RTP and RTCP share with other protocols on one port.
    UnknownFirst(u8),
    /// The version field is not 2.
    UnknownVersion(u8),
    /// An RTCP payload type outside 192..=223.
    UnknownPayloadType(u8),
    /// An extension profile id that is neither the one-byte nor the two-byte one.
    UnknownExtFormat(u16),
    /// The padding flag is set but the padding length byte is 0.
    InvalidPaddingLength(u8),
}

/// A truncation error, built in spec code.
pub open spec fn short(expect: int, actual: int, origin: &'static str) -> RtpError {
    RtpError::NotEnoughBuffer { expect: expect as usize, actual: actual as usize, origin }
}

} // verus!
