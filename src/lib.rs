//! Zero-copy parsing, validation and construction of RTP and RTCP packets,
//! with the header-extension profiles and wraparound-aware counters.
use vstd::prelude::*;

pub mod audio_level;
pub mod buf_mut;
pub mod builder;
pub mod error;
pub mod extension;
pub mod rtcp;
pub mod round_trip;
pub mod rtp;
pub mod wire;
pub mod wrapping;

pub use builder::{ExtBuilder, ExtItemBuilder, PayloadBuilder, RtpBuilder, build_header};
pub use error::RtpError;
pub use extension::{ExtFormat, ExtIter, WriteExtFns};
pub use rtcp::{RefRtcpHeader, RefRtcpPacket, RefRtcpPackets, RtcpTryIter, RtcpUncheckIter};
pub use rtp::{CsrcIter, RefRtpHeader, RefRtpPacket};
pub use wrapping::{SeqNum, SeqNumIter, Timestamp, TimestampIter};

verus! {

} // verus!
