//! RTP packets: a header view, a validated packet view and their accessors.
use vstd::prelude::*;
use crate::error::{RtpError, short};
use crate::extension::{
    ExtFormat, ExtIter, ONE_BYTE_PROFILE, TWO_BYTE_PROFILE, ext_check, ext_items,
};
use crate::wire::{be16, be32, lemma_byte_fields, read_be16, read_be32};
use crate::wrapping::{SeqNum, Timestamp};

verus! {

/// Bytes of the fixed RTP header.
pub const RTP_MIN_LEN: usize = 12;

/// Bytes of the extension header: profile id and word count.
pub const EXTENSION_HEADER_LEN: usize = 4;

/// The version field: the top two bits of the first byte.
pub open spec fn rtp_version(s: Seq<u8>) -> u8 {
    (s[0] / 64) as u8
}

/// The padding flag: the third bit of the first byte.
pub open spec fn rtp_padding_flag(s: Seq<u8>) -> bool {
    (s[0] / 32) % 2 == 1
}

/// The extension flag: the fourth bit of the first byte.
pub open spec fn rtp_extension_flag(s: Seq<u8>) -> bool {
    (s[0] / 16) % 2 == 1
}

/// The CSRC count: the low four bits of the first byte.
pub open spec fn rtp_csrc_count(s: Seq<u8>) -> u8 {
    (s[0] % 16) as u8
}

/// The marker bit: the top bit of the second byte.
pub open spec fn rtp_marker(s: Seq<u8>) -> bool {
    s[1] >= 128
}

/// The payload type: the low seven bits of the second byte.
pub open spec fn rtp_payload_type(s: Seq<u8>) -> u8 {
    (s[1] % 128) as u8
}

/// The sequence number: bytes 2 and 3.
pub open spec fn rtp_seq(s: Seq<u8>) -> u16 {
    be16(s, 2) as u16
}

/// The timestamp: bytes 4 to 7.
pub open spec fn rtp_timestamp(s: Seq<u8>) -> u32 {
    be32(s, 4) as u32
}

/// The SSRC: bytes 8 to 11.
pub open spec fn rtp_ssrc(s: Seq<u8>) -> u32 {
    be32(s, 8) as u32
}

/// Where the CSRC list ends: the fixed header and four bytes per CSRC.
pub open spec fn rtp_header_end(s: Seq<u8>) -> int {
    RTP_MIN_LEN + 4 * rtp_csrc_count(s)
}

/// The CSRC list.
pub open spec fn rtp_csrcs(s: Seq<u8>) -> Seq<u32> {
    Seq::new(rtp_csrc_count(s) as nat, |i: int| be32(s, RTP_MIN_LEN + 4 * i) as u32)
}

/// The profile id of the extension header.
pub open spec fn rtp_ext_profile(s: Seq<u8>) -> u16 {
    be16(s, rtp_header_end(s)) as u16
}

/// The length in bytes of the extension body: four per word.
pub open spec fn rtp_ext_len(s: Seq<u8>) -> int {
    4 * be16(s, rtp_header_end(s) + 2)
}

/// Where the extension body starts: after the extension header.
pub open spec fn rtp_ext_start(s: Seq<u8>) -> int {
    rtp_header_end(s) + EXTENSION_HEADER_LEN
}

/// The extension body.
pub open spec fn rtp_ext_body(s: Seq<u8>) -> Seq<u8> {
    s.subrange(rtp_ext_start(s), rtp_ext_start(s) + rtp_ext_len(s))
}

/// The format that a known profile id selects.
pub open spec fn format_of(profile: u16) -> ExtFormat {
    if profile == ONE_BYTE_PROFILE {
        ExtFormat::OneByte
    } else {
        ExtFormat::TwoByte
    }
}

/// Whether `profile` selects one of the two extension formats.
pub open spec fn is_known_profile(profile: u16) -> bool {
    profile == ONE_BYTE_PROFILE || profile == TWO_BYTE_PROFILE
}

/// Where the payload starts: after the CSRC list and the extension, if any.
pub open spec fn rtp_payload_offset(s: Seq<u8>) -> int {
    if rtp_extension_flag(s) {
        rtp_ext_start(s) + rtp_ext_len(s)
    } else {
        rtp_header_end(s)
    }
}

/// The padding length: the last byte when the padding flag is set, else 0.
pub open spec fn rtp_padding_len(s: Seq<u8>) -> int {
    if rtp_padding_flag(s) {
        s.last() as int
    } else {
        0
    }
}

/// The payload: what lies between the header (with extension) and the padding.
pub open spec fn rtp_payload(s: Seq<u8>) -> Seq<u8> {
    s.subrange(rtp_payload_offset(s), s.len() - rtp_padding_len(s))
}

/// Whether the first byte lies in the range kept for RTP and RTCP when other
/// protocols (STUN, DTLS, TURN channels) share the port.
pub open spec fn first_byte_in_range(b: u8) -> bool {
    127 < b < 192
}

/// The validation pipeline of an RTP packet, stage by stage: `Ok` when the
/// buffer is a valid packet, else the error of the first stage that fails.
/// With `strict`, the first byte must also lie in the RTP/RTCP range.
pub open spec fn rtp_check(s: Seq<u8>, strict: bool) -> Result<(), RtpError> {
    if s.len() < RTP_MIN_LEN {
        Err(short(RTP_MIN_LEN as int, s.len() as int, "Rtp header length"))
    } else if strict && !first_byte_in_range(s[0]) {
        Err(RtpError::UnknownFirst(s[0]))
    } else if rtp_version(s) != 2 {
        Err(RtpError::UnknownVersion(rtp_version(s)))
    } else if rtp_extension_flag(s) && rtp_ext_start(s) > s.len() {
        Err(short(rtp_ext_start(s), s.len() as int, "Rtp extension start"))
    } else if rtp_extension_flag(s) && !is_known_profile(rtp_ext_profile(s)) {
        Err(RtpError::UnknownExtFormat(rtp_ext_profile(s)))
    } else if rtp_extension_flag(s) && rtp_ext_start(s) + rtp_ext_len(s) > s.len() {
        Err(short(rtp_ext_start(s) + rtp_ext_len(s), s.len() as int, "Rtp extension end"))
    } else if rtp_extension_flag(s) && ext_check(
        format_of(rtp_ext_profile(s)),
        rtp_ext_body(s),
    ) is Err {
        ext_check(format_of(rtp_ext_profile(s)), rtp_ext_body(s))
    } else if rtp_payload_offset(s) > s.len() {
        Err(short(rtp_payload_offset(s), s.len() as int, "Rtp payload offset"))
    } else if rtp_padding_flag(s) && s.len() == rtp_payload_offset(s) {
        Err(short(rtp_payload_offset(s), s.len() - 1, "Rtp padding field"))
    } else if rtp_padding_flag(s) && s.last() == 0 {
        Err(RtpError::InvalidPaddingLength(0))
    } else if rtp_padding_flag(s) && rtp_payload_offset(s) + s.last() > s.len() {
        Err(short(rtp_payload_offset(s) + s.last(), s.len() as int, "Rtp padding length"))
    } else {
        Ok(())
    }
}

/// A valid RTP packet, whether or not its first byte was held to the
/// demultiplexing range.
pub open spec fn rtp_valid(s: Seq<u8>) -> bool {
    rtp_check(s, false) is Ok
}

/// What the header's own parse checks: length, first byte (in strict mode) and version.
pub open spec fn rtp_header_check(s: Seq<u8>, strict: bool) -> Result<(), RtpError> {
    if s.len() < RTP_MIN_LEN {
        Err(short(RTP_MIN_LEN as int, s.len() as int, "Rtp header length"))
    } else if strict && !first_byte_in_range(s[0]) {
        Err(RtpError::UnknownFirst(s[0]))
    } else if rtp_version(s) != 2 {
        Err(RtpError::UnknownVersion(rtp_version(s)))
    } else {
        Ok(())
    }
}

/// A borrowed view of the fixed RTP header.
pub struct RefRtpHeader<'a> {
    buf: &'a [u8],
}

impl<'a> View for RefRtpHeader<'a> {
    type V = Seq<u8>;

    closed spec fn view(&self) -> Seq<u8> {
        self.buf@
    }
}

impl<'a> RefRtpHeader<'a> {
    #[verifier::type_invariant]
    closed spec fn long_enough(&self) -> bool {
        self.buf@.len() >= RTP_MIN_LEN
    }

    /// A header view over `buf`, which holds at least the fixed header.
    pub fn new(buf: &'a [u8]) -> (r: Self)
        requires
            buf@.len() >= RTP_MIN_LEN,
        ensures
            r@ == buf@,
    {
        RefRtpHeader { buf }
    }

    /// Checks the header stages: length, then (in strict mode) the first
    /// byte's range, then the version.
    pub fn parse(buf: &'a [u8], strict: bool) -> (r: Result<Self, RtpError>)
        ensures
            r is Ok <==> rtp_header_check(buf@, strict) is Ok,
            r is Ok ==> r->Ok_0@ == buf@,
            r is Err ==> r == Err::<Self, RtpError>(rtp_header_check(buf@, strict)->Err_0),
    {
        if buf.len() < RTP_MIN_LEN {
            return Err(RtpError::NotEnoughBuffer {
                expect: RTP_MIN_LEN,
                actual: buf.len(),
                origin: "Rtp header length",
            });
        }
        let first = buf[0];
        if strict && !(first > 127 && first < 192) {
            return Err(RtpError::UnknownFirst(first));
        }
        let header = Self::new(buf);
        if header.version() != 2 {
            return Err(RtpError::UnknownVersion(header.version()));
        }
        Ok(header)
    }

    /// The version field.
    pub fn version(&self) -> (r: u8)
        ensures
            r == rtp_version(self@),
    {
        proof {
            use_type_invariant(self);
            lemma_byte_fields(self.buf@[0]);
        }
        self.buf[0] >> 6
    }

    /// Whether the padding flag is set.
    pub fn padding_flag(&self) -> (r: bool)
        ensures
            r == rtp_padding_flag(self@),
    {
        proof {
            use_type_invariant(self);
            lemma_byte_fields(self.buf@[0]);
        }
        (self.buf[0] & 0b0010_0000) != 0
    }

    /// Whether the extension flag is set.
    pub fn extension_flag(&self) -> (r: bool)
        ensures
            r == rtp_extension_flag(self@),
    {
        proof {
            use_type_invariant(self);
            lemma_byte_fields(self.buf@[0]);
        }
        (self.buf[0] & 0b0001_0000) != 0
    }

    /// Whether the marker bit is set.
    pub fn mark_flag(&self) -> (r: bool)
        ensures
            r == rtp_marker(self@),
    {
        proof {
            use_type_invariant(self);
            lemma_byte_fields(self.buf@[1]);
        }
        (self.buf[1] & 0b1000_0000) != 0
    }

    /// The payload type.
    pub fn payload_type(&self) -> (r: u8)
        ensures
            r == rtp_payload_type(self@),
    {
        proof {
            use_type_invariant(self);
            lemma_byte_fields(self.buf@[1]);
        }
        self.buf[1] & 0b0111_1111
    }

    /// The sequence number.
    pub fn seq(&self) -> (r: SeqNum)
        ensures
            r.0 == rtp_seq(self@),
    {
        proof {
            use_type_invariant(self);
        }
        SeqNum(read_be16(self.buf, 2))
    }

    /// The timestamp.
    pub fn timestamp(&self) -> (r: Timestamp)
        ensures
            r.0 == rtp_timestamp(self@),
    {
        proof {
            use_type_invariant(self);
        }
        Timestamp(read_be32(self.buf, 4))
    }

    /// The SSRC.
    pub fn ssrc(&self) -> (r: u32)
        ensures
            r == rtp_ssrc(self@),
    {
        proof {
            use_type_invariant(self);
        }
        read_be32(self.buf, 8)
    }

    /// The number of CSRCs.
    pub fn csrc_count(&self) -> (r: u8)
        ensures
            r == rtp_csrc_count(self@),
    {
        proof {
            use_type_invariant(self);
            lemma_byte_fields(self.buf@[0]);
        }
        self.buf[0] & 0b0000_1111
    }

    /// Where the CSRC list ends.
    pub fn header_end(&self) -> (r: usize)
        ensures
            r == rtp_header_end(self@),
    {
        RTP_MIN_LEN + 4 * (self.csrc_count() as usize)
    }
}

/// A borrowed view of a valid RTP packet.
#[derive(Clone, Copy)]
pub struct RefRtpPacket<'a> {
    buf: &'a [u8],
}

impl<'a> View for RefRtpPacket<'a> {
    type V = Seq<u8>;

    closed spec fn view(&self) -> Seq<u8> {
        self.buf@
    }
}

impl<'a> RefRtpPacket<'a> {
    #[verifier::type_invariant]
    closed spec fn valid(&self) -> bool {
        rtp_valid(self.buf@)
    }

    /// Validates `buf` as an RTP packet, with the first byte held to the
    /// RTP/RTCP demultiplexing range.
    pub fn parse(buf: &'a [u8]) -> (r: Result<RefRtpPacket<'a>, RtpError>)
        ensures
            r is Ok <==> rtp_check(buf@, true) is Ok,
            r is Ok ==> r->Ok_0@ == buf@,
            r is Err ==> r == Err::<Self, RtpError>(rtp_check(buf@, true)->Err_0),
    {
        Self::parse_with(buf, true)
    }

    /// Validates `buf` as an RTP packet, stage by stage. With `strict`, the
    /// first byte must lie in the RTP/RTCP range; without it, only the version
    /// is checked, for transports that carry RTP alone.
    pub fn parse_with(buf: &'a [u8], strict: bool) -> (r: Result<RefRtpPacket<'a>, RtpError>)
        ensures
            r is Ok <==> rtp_check(buf@, strict) is Ok,
            r is Ok ==> r->Ok_0@ == buf@,
            r is Err ==> r == Err::<Self, RtpError>(rtp_check(buf@, strict)->Err_0),
    {
        let header = match RefRtpHeader::parse(buf, strict) {
            Ok(h) => h,
            Err(e) => return Err(e),
        };
        let ghost s = buf@;
        let header_end = header.header_end();
        if header.extension_flag() {
            let extension_start = header_end + EXTENSION_HEADER_LEN;
            if extension_start > buf.len() {
                return Err(RtpError::NotEnoughBuffer {
                    expect: extension_start,
                    actual: buf.len(),
                    origin: "Rtp extension start",
                });
            }
            let profile = read_be16(buf, header_end);
            let ext_fmt = match ExtFormat::from_num(profile) {
                Ok(f) => f,
                Err(_) => return Err(RtpError::UnknownExtFormat(profile)),
            };
            let ext_len = extension_len(buf, header_end);
            let extension_end = extension_start + ext_len;
            if extension_end > buf.len() {
                return Err(RtpError::NotEnoughBuffer {
                    expect: extension_end,
                    actual: buf.len(),
                    origin: "Rtp extension end",
                });
            }
            let (_, ext_buf) = extension_uncheck(buf, header_end);
            match ext_fmt.check(ext_buf) {
                Ok(()) => {},
                Err(e) => return Err(e),
            }
        }
        let payload_offset = payload_offset_of(buf, header.extension_flag(), header_end);
        if payload_offset > buf.len() {
            return Err(RtpError::NotEnoughBuffer {
                expect: payload_offset,
                actual: buf.len(),
                origin: "Rtp payload offset",
            });
        }
        if header.padding_flag() {
            let post_header_bytes = buf.len() - payload_offset;
            if post_header_bytes == 0 {
                return Err(RtpError::NotEnoughBuffer {
                    expect: payload_offset,
                    actual: buf.len() - 1,
                    origin: "Rtp padding field",
                });
            }
            let pad_len = match parse_padding_len(buf) {
                Ok(l) => l,
                Err(e) => return Err(e),
            };
            if payload_offset + pad_len as usize > buf.len() {
                return Err(RtpError::NotEnoughBuffer {
                    expect: payload_offset + pad_len as usize,
                    actual: buf.len(),
                    origin: "Rtp padding length",
                });
            }
        }
        Ok(RefRtpPacket { buf })
    }

    /// A packet view over `buf` without checks; `buf` must already be a valid packet.
    pub fn uncheck(buf: &'a [u8]) -> (r: RefRtpPacket<'a>)
        requires
            rtp_valid(buf@),
        ensures
            r@ == buf@,
    {
        RefRtpPacket { buf }
    }

    /// The bytes of the whole packet.
    pub fn inner(&self) -> (r: &'a [u8])
        ensures
            r@ == self@,
    {
        self.buf
    }

    /// The header of this packet.
    pub fn header(&self) -> (r: RefRtpHeader<'a>)
        ensures
            r@ == self@,
    {
        proof {
            use_type_invariant(self);
        }
        RefRtpHeader::new(self.buf)
    }

    /// The padding length, when the padding flag is set.
    pub fn padding(&self) -> (r: Option<u8>)
        ensures
            rtp_padding_flag(self@) ==> r == Some(self@.last()),
            !rtp_padding_flag(self@) ==> r is None,
    {
        proof {
            use_type_invariant(self);
        }
        if self.header().padding_flag() {
            Some(self.padding_len_uncheck())
        } else {
            None
        }
    }

    fn padding_len_uncheck(&self) -> (r: u8)
        ensures
            r == self@.last(),
    {
        proof {
            use_type_invariant(self);
        }
        self.buf[self.buf.len() - 1]
    }

    /// The CSRC list, one at a time.
    pub fn csrc_iter(&self) -> (r: CsrcIter<'a>)
        ensures
            r.items() == rtp_csrcs(self@),
    {
        proof {
            use_type_invariant(self);
        }
        let end = self.header().header_end();
        let r = CsrcIter { buf: &self.buf[RTP_MIN_LEN..end] };
        assert(r.items() =~= rtp_csrcs(self@));
        r
    }

    /// Where the payload starts.
    pub fn payload_offset(&self) -> (r: usize)
        ensures
            r == rtp_payload_offset(self@),
    {
        proof {
            use_type_invariant(self);
        }
        let header = self.header();
        payload_offset_of(self.buf, header.extension_flag(), header.header_end())
    }

    /// The payload, without header, extension and padding.
    pub fn payload(&self) -> (r: &'a [u8])
        ensures
            r@ == rtp_payload(self@),
    {
        proof {
            use_type_invariant(self);
        }
        let pad = match self.padding() {
            Some(p) => p as usize,
            None => 0,
        };
        &self.buf[self.payload_offset()..self.buf.len() - pad]
    }

    /// The extension items, or `None` when the packet has no extension.
    pub fn extension_iter(&self) -> (r: Option<ExtIter<'a>>)
        ensures
            !rtp_extension_flag(self@) ==> r is None,
            rtp_extension_flag(self@) ==> (r matches Some(it) && it.items() == ext_items(
                format_of(rtp_ext_profile(self@)),
                rtp_ext_body(self@),
            )),
    {
        proof {
            use_type_invariant(self);
        }
        match self.extension() {
            Some((profile, ext_buf)) => Some(ExtFormat::from_num_uncheck(profile).iter(ext_buf)),
            None => None,
        }
    }

    /// The extension's profile id and body, when the packet has an extension.
    pub fn extension(&self) -> (r: Option<(u16, &'a [u8])>)
        ensures
            !rtp_extension_flag(self@) ==> r is None,
            rtp_extension_flag(self@) ==> (r matches Some((profile, body)) && profile
                == rtp_ext_profile(self@) && body@ == rtp_ext_body(self@) && is_known_profile(
                profile,
            )),
    {
        proof {
            use_type_invariant(self);
        }
        let header = self.header();
        if header.extension_flag() {
            Some(extension_uncheck(self.buf, header.header_end()))
        } else {
            None
        }
    }
}

/// The extension body length, four bytes per word, of the extension header at `offset`.
fn extension_len(buf: &[u8], offset: usize) -> (r: usize)
    requires
        buf@.len() >= RTP_MIN_LEN,
        offset == rtp_header_end(buf@),
        offset + EXTENSION_HEADER_LEN <= buf@.len(),
    ensures
        r == rtp_ext_len(buf@),
{
    4 * (read_be16(buf, offset + 2) as usize)
}

/// The profile id and body of the extension whose header is at `offset`.
fn extension_uncheck(buf: &[u8], offset: usize) -> (r: (u16, &[u8]))
    requires
        buf@.len() >= RTP_MIN_LEN,
        offset == rtp_header_end(buf@),
        rtp_ext_start(buf@) + rtp_ext_len(buf@) <= buf@.len(),
    ensures
        r.0 == rtp_ext_profile(buf@),
        r.1@ == rtp_ext_body(buf@),
{
    let profile = read_be16(buf, offset);
    let start = offset + EXTENSION_HEADER_LEN;
    let len = extension_len(buf, offset);
    (profile, &buf[start..start + len])
}

/// Where the payload starts, given the extension flag and the header end.
fn payload_offset_of(buf: &[u8], extension_flag: bool, header_end: usize) -> (r: usize)
    requires
        buf@.len() >= RTP_MIN_LEN,
        header_end == rtp_header_end(buf@),
        extension_flag == rtp_extension_flag(buf@),
        extension_flag ==> rtp_ext_start(buf@) <= buf@.len(),
    ensures
        r == rtp_payload_offset(buf@),
{
    if extension_flag {
        header_end + EXTENSION_HEADER_LEN + extension_len(buf, header_end)
    } else {
        header_end
    }
}

/// The padding length in the last byte, which must not be 0.
fn parse_padding_len(buf: &[u8]) -> (r: Result<u8, RtpError>)
    requires
        buf@.len() > 0,
    ensures
        buf@.last() == 0 ==> r == Err::<u8, RtpError>(RtpError::InvalidPaddingLength(0)),
        buf@.last() != 0 ==> r == Ok::<u8, RtpError>(buf@.last()),
{
    match buf[buf.len() - 1] {
        0 => Err(RtpError::InvalidPaddingLength(0)),
        l => Ok(l),
    }
}

/// The CSRC list of a packet, yielded one at a time.
pub struct CsrcIter<'a> {
    buf: &'a [u8],
}

impl<'a> CsrcIter<'a> {
    /// The CSRCs still to come.
    pub closed spec fn items(&self) -> Seq<u32> {
        Seq::new(self.buf@.len() / 4, |i: int| be32(self.buf@, 4 * i) as u32)
    }

    /// The next CSRC, or `None` when none is left.
    pub fn next(&mut self) -> (r: Option<u32>)
        ensures
            old(self).items().len() == 0 ==> r is None && final(self).items().len() == 0,
            old(self).items().len() > 0 ==> {
                &&& r == Some(old(self).items()[0])
                &&& final(self).items() == old(self).items().drop_first()
            },
    {
        if self.buf.len() < 4 {
            None
        } else {
            let v = read_be32(self.buf, 0);
            let ghost before = self.items();
            self.buf = &self.buf[4..self.buf.len()];
            assert(self.items() =~= before.drop_first());
            Some(v)
        }
    }
}

} // verus!
