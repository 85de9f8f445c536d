//! RTCP packets: the generic header, single packets and compound sequences.
use vstd::prelude::*;
use crate::error::{RtpError, short};
use crate::wire::{be16, be32, lemma_byte_fields, read_be16, read_be32};

verus! {

/// Bytes of the generic RTCP header.
pub const RTCP_MIN_LEN: usize = 8;

/// Lowest RTCP payload type.
pub const RTCP_PT_MIN: u8 = 192;

/// Highest RTCP payload type.
pub const RTCP_PT_MAX: u8 = 223;

/// The version field: the top two bits of the first byte.
pub open spec fn rtcp_version(s: Seq<u8>) -> u8 {
    (s[0] / 64) as u8
}

/// The padding flag: the third bit of the first byte.
pub open spec fn rtcp_padding_flag(s: Seq<u8>) -> bool {
    (s[0] / 32) % 2 == 1
}

/// The reception report count: the low five bits of the first byte.
pub open spec fn rtcp_r_count(s: Seq<u8>) -> u8 {
    (s[0] % 32) as u8
}

/// The payload type: the second byte.
pub open spec fn rtcp_payload_type(s: Seq<u8>) -> u8 {
    s[1]
}

/// The length field: the packet length in 32-bit words, minus one.
pub open spec fn rtcp_words_minus_one(s: Seq<u8>) -> u16 {
    be16(s, 2) as u16
}

/// The sender SSRC: bytes 4 to 7.
pub open spec fn rtcp_ssrc(s: Seq<u8>) -> u32 {
    be32(s, 4) as u32
}

/// The packet's length in bytes as its header declares it.
pub open spec fn rtcp_packet_len(s: Seq<u8>) -> int {
    (be16(s, 2) + 1) * 4
}

/// The padding length: the packet's last byte when the padding flag is set, else 0.
pub open spec fn rtcp_padding_len(p: Seq<u8>) -> int {
    if rtcp_padding_flag(p) {
        p.last() as int
    } else {
        0
    }
}

/// The bytes that a packet view covers: the declared length, and never less
/// than the header.
pub open spec fn rtcp_view_len(s: Seq<u8>) -> int {
    if rtcp_packet_len(s) < RTCP_MIN_LEN {
        RTCP_MIN_LEN as int
    } else {
        rtcp_packet_len(s)
    }
}

/// The payload of a packet view `p`.
pub open spec fn rtcp_payload(p: Seq<u8>) -> Seq<u8> {
    p.subrange(RTCP_MIN_LEN as int, p.len() - rtcp_padding_len(p))
}

/// The header stages: length, version, payload type.
pub open spec fn rtcp_header_check(s: Seq<u8>) -> Result<(), RtpError> {
    if s.len() < RTCP_MIN_LEN {
        Err(short(RTCP_MIN_LEN as int, s.len() as int, "Rtcp header length"))
    } else if rtcp_version(s) != 2 {
        Err(RtpError::UnknownVersion(rtcp_version(s)))
    } else if rtcp_payload_type(s) < RTCP_PT_MIN || rtcp_payload_type(s) > RTCP_PT_MAX {
        Err(RtpError::UnknownPayloadType(rtcp_payload_type(s)))
    } else {
        Ok(())
    }
}

/// Validation of the packet at the front of `s`: its header, that the
/// declared length fits in `s`, then its padding, which must lie within the
/// declared length, after the header.
pub open spec fn rtcp_check(s: Seq<u8>) -> Result<(), RtpError> {
    if rtcp_header_check(s) is Err {
        rtcp_header_check(s)
    } else if rtcp_packet_len(s) > s.len() {
        Err(short(rtcp_packet_len(s), s.len() as int, "Rtcp packet length"))
    } else if rtcp_padding_flag(s) && rtcp_packet_len(s) <= RTCP_MIN_LEN {
        Err(short(RTCP_MIN_LEN as int, rtcp_packet_len(s) - 1, "Rtcp padding field"))
    } else if rtcp_padding_flag(s) && s[rtcp_packet_len(s) - 1] == 0 {
        Err(RtpError::InvalidPaddingLength(0))
    } else if rtcp_padding_flag(s) && RTCP_MIN_LEN + s[rtcp_packet_len(s) - 1] > rtcp_packet_len(
        s,
    ) {
        Err(
            short(
                RTCP_MIN_LEN + s[rtcp_packet_len(s) - 1],
                rtcp_packet_len(s),
                "Rtcp padding length",
            ),
        )
    } else {
        Ok(())
    }
}

/// A packet on its own: valid, and exactly as long as its header declares.
pub open spec fn rtcp_framed(p: Seq<u8>) -> bool {
    rtcp_check(p) is Ok && rtcp_packet_len(p) == p.len()
}

/// What a packet view holds: a valid packet, cut to the bytes the view covers.
pub open spec fn rtcp_view_ok(p: Seq<u8>) -> bool {
    rtcp_check(p) is Ok && p.len() == rtcp_view_len(p)
}

/// What the validating iterator yields over `s`: each packet in turn, until
/// the buffer ends or a packet fails, whose error is the last item.
pub open spec fn rtcp_scan(s: Seq<u8>) -> Seq<Result<Seq<u8>, RtpError>>
    decreases s.len(),
{
    if s.len() == 0 {
        Seq::empty()
    } else if rtcp_check(s) is Err {
        seq![Err(rtcp_check(s)->Err_0)]
    } else {
        seq![Ok(s.subrange(0, rtcp_view_len(s)))] + rtcp_scan(
            s.subrange(rtcp_packet_len(s), s.len() as int),
        )
    }
}

/// The first error that the validating iterator meets over `s`, if any.
pub open spec fn rtcp_scan_result(s: Seq<u8>) -> Result<(), RtpError>
    decreases s.len(),
{
    if s.len() == 0 {
        Ok(())
    } else if rtcp_check(s) is Err {
        rtcp_check(s)
    } else {
        rtcp_scan_result(s.subrange(rtcp_packet_len(s), s.len() as int))
    }
}

/// The packets of a buffer that holds valid packets back to back.
pub open spec fn rtcp_packets(s: Seq<u8>) -> Seq<Seq<u8>>
    decreases s.len(),
{
    if s.len() == 0 || rtcp_check(s) is Err {
        Seq::empty()
    } else {
        seq![s.subrange(0, rtcp_view_len(s))] + rtcp_packets(
            s.subrange(rtcp_packet_len(s), s.len() as int),
        )
    }
}

/// A borrowed view of a generic RTCP header.
pub struct RefRtcpHeader<'a> {
    buf: &'a [u8],
}

impl<'a> View for RefRtcpHeader<'a> {
    type V = Seq<u8>;

    closed spec fn view(&self) -> Seq<u8> {
        self.buf@
    }
}

impl<'a> RefRtcpHeader<'a> {
    #[verifier::type_invariant]
    closed spec fn long_enough(&self) -> bool {
        self.buf@.len() >= RTCP_MIN_LEN
    }

    /// A header view over `buf`, which holds at least the generic header.
    pub fn new(buf: &'a [u8]) -> (r: Self)
        requires
            buf@.len() >= RTCP_MIN_LEN,
        ensures
            r@ == buf@,
    {
        RefRtcpHeader { buf }
    }

    /// Checks the header stages: length, version, payload type.
    pub fn parse(buf: &'a [u8]) -> (r: Result<Self, RtpError>)
        ensures
            r is Ok <==> rtcp_header_check(buf@) is Ok,
            r is Ok ==> r->Ok_0@ == buf@,
            r is Err ==> r == Err::<Self, RtpError>(rtcp_header_check(buf@)->Err_0),
    {
        if buf.len() < RTCP_MIN_LEN {
            return Err(RtpError::NotEnoughBuffer {
                expect: RTCP_MIN_LEN,
                actual: buf.len(),
                origin: "Rtcp header length",
            });
        }
        let header = Self::new(buf);
        if header.version() != 2 {
            return Err(RtpError::UnknownVersion(header.version()));
        }
        if header.payload_type() < RTCP_PT_MIN || header.payload_type() > RTCP_PT_MAX {
            return Err(RtpError::UnknownPayloadType(header.payload_type()));
        }
        Ok(header)
    }

    /// The version field.
    pub fn version(&self) -> (r: u8)
        ensures
            r == rtcp_version(self@),
    {
        proof {
            use_type_invariant(self);
            lemma_byte_fields(self.buf@[0]);
        }
        self.buf[0] >> 6
    }

    /// Whether the padding flag is set.
    pub fn padding_flag(&self) -> (r: bool)
        ensures
            r == rtcp_padding_flag(self@),
    {
        proof {
            use_type_invariant(self);
            lemma_byte_fields(self.buf@[0]);
        }
        (self.buf[0] & 0b0010_0000) != 0
    }

    /// The reception report count.
    pub fn r_count(&self) -> (r: u8)
        ensures
            r == rtcp_r_count(self@),
    {
        proof {
            use_type_invariant(self);
            lemma_byte_fields(self.buf@[0]);
        }
        self.buf[0] & 0b0001_1111
    }

    /// The payload type.
    pub fn payload_type(&self) -> (r: u8)
        ensures
            r == rtcp_payload_type(self@),
    {
        proof {
            use_type_invariant(self);
        }
        self.buf[1]
    }

    /// The packet length in 32-bit words, minus one.
    pub fn words_minus_one(&self) -> (r: u16)
        ensures
            r == rtcp_words_minus_one(self@),
    {
        proof {
            use_type_invariant(self);
        }
        read_be16(self.buf, 2)
    }

    /// The sender SSRC.
    pub fn ssrc(&self) -> (r: u32)
        ensures
            r == rtcp_ssrc(self@),
    {
        proof {
            use_type_invariant(self);
        }
        read_be32(self.buf, 4)
    }
}

/// The bytes a packet view covers for a declared length `packet_len`.
fn view_len_of(packet_len: usize) -> (r: usize)
    ensures
        r == if packet_len < RTCP_MIN_LEN {
            RTCP_MIN_LEN
        } else {
            packet_len
        },
{
    if packet_len < RTCP_MIN_LEN {
        RTCP_MIN_LEN
    } else {
        packet_len
    }
}

/// The declared packet length of the header at the front of `buf`.
fn packet_len_of(buf: &[u8]) -> (r: usize)
    requires
        buf@.len() >= RTCP_MIN_LEN,
    ensures
        r == rtcp_packet_len(buf@),
        r >= 4,
{
    (read_be16(buf, 2) as usize + 1) * 4
}

/// A borrowed view of one valid RTCP packet: as long as its header declares,
/// and never shorter than the header itself.
pub struct RefRtcpPacket<'a> {
    buf: &'a [u8],
}

impl<'a> View for RefRtcpPacket<'a> {
    type V = Seq<u8>;

    closed spec fn view(&self) -> Seq<u8> {
        self.buf@
    }
}

impl<'a> RefRtcpPacket<'a> {
    #[verifier::type_invariant]
    closed spec fn framed(&self) -> bool {
        rtcp_view_ok(self.buf@)
    }

    /// Validates the packet at the front of `buf`; the view covers its
    /// declared length (at least the header), so that what follows in `buf`
    /// is left out.
    pub fn parse(buf: &'a [u8]) -> (r: Result<RefRtcpPacket<'a>, RtpError>)
        ensures
            r is Ok <==> rtcp_check(buf@) is Ok,
            r is Ok ==> r->Ok_0@ == buf@.subrange(0, rtcp_view_len(buf@)),
            r is Err ==> r == Err::<Self, RtpError>(rtcp_check(buf@)->Err_0),
    {
        let header = match RefRtcpHeader::parse(buf) {
            Ok(h) => h,
            Err(e) => return Err(e),
        };
        let packet_len = packet_len_of(buf);
        if buf.len() < packet_len {
            return Err(RtpError::NotEnoughBuffer {
                expect: packet_len,
                actual: buf.len(),
                origin: "Rtcp packet length",
            });
        }
        let view_len = view_len_of(packet_len);
        let packet = &buf[0..view_len];
        if header.padding_flag() {
            if packet_len <= RTCP_MIN_LEN {
                return Err(RtpError::NotEnoughBuffer {
                    expect: RTCP_MIN_LEN,
                    actual: packet_len - 1,
                    origin: "Rtcp padding field",
                });
            }
            let pad_len = match parse_padding_len(packet) {
                Ok(l) => l,
                Err(e) => return Err(e),
            };
            if RTCP_MIN_LEN + pad_len as usize > packet_len {
                return Err(RtpError::NotEnoughBuffer {
                    expect: RTCP_MIN_LEN + pad_len as usize,
                    actual: packet_len,
                    origin: "Rtcp padding length",
                });
            }
        }
        proof {
            lemma_prefix_keeps_check(buf@);
        }
        Ok(RefRtcpPacket { buf: packet })
    }

    /// The packet at the front of `buf` without checks; it must be valid.
    pub fn uncheck(buf: &'a [u8]) -> (r: RefRtcpPacket<'a>)
        requires
            rtcp_check(buf@) is Ok,
        ensures
            r@ == buf@.subrange(0, rtcp_view_len(buf@)),
    {
        let view_len = view_len_of(packet_len_of(buf));
        proof {
            lemma_prefix_keeps_check(buf@);
        }
        RefRtcpPacket { buf: &buf[0..view_len] }
    }

    /// The bytes of the packet.
    pub fn inner(&self) -> (r: &'a [u8])
        ensures
            r@ == self@,
    {
        self.buf
    }

    /// The header of this packet.
    pub fn header(&self) -> (r: RefRtcpHeader<'a>)
        ensures
            r@ == self@,
    {
        proof {
            use_type_invariant(self);
        }
        RefRtcpHeader::new(self.buf)
    }

    /// The padding length, when the padding flag is set.
    pub fn padding(&self) -> (r: Option<u8>)
        ensures
            rtcp_padding_flag(self@) ==> r == Some(self@.last()),
            !rtcp_padding_flag(self@) ==> r is None,
    {
        if self.header().padding_flag() {
            Some(self.padding_len_uncheck())
        } else {
            None
        }
    }

    fn padding_len_uncheck(&self) -> (r: u8)
        ensures
            r == self@.last(),
    {
        proof {
            use_type_invariant(self);
        }
        self.buf[self.buf.len() - 1]
    }

    /// Where the payload starts: right after the generic header.
    pub fn payload_offset(&self) -> (r: usize)
        ensures
            r == RTCP_MIN_LEN,
    {
        RTCP_MIN_LEN
    }

    /// The payload, without header and padding.
    pub fn payload(&self) -> (r: &'a [u8])
        ensures
            r@ == rtcp_payload(self@),
    {
        proof {
            use_type_invariant(self);
        }
        let pad = match self.padding() {
            Some(p) => p as usize,
            None => 0,
        };
        &self.buf[self.payload_offset()..self.buf.len() - pad]
    }

    /// The packet length that the header declares: how far the next packet
    /// of a compound buffer starts from this one.
    pub fn packet_len(&self) -> (r: usize)
        ensures
            r == rtcp_packet_len(self@),
    {
        proof {
            use_type_invariant(self);
        }
        packet_len_of(self.buf)
    }
}

/// The packet's own prefix passes the check that the whole buffer passed,
/// and is exactly as long as it declares.
proof fn lemma_prefix_keeps_check(s: Seq<u8>)
    requires
        rtcp_check(s) is Ok,
    ensures
        rtcp_view_ok(s.subrange(0, rtcp_view_len(s))),
        rtcp_packet_len(s.subrange(0, rtcp_view_len(s))) == rtcp_packet_len(s),
{
    let p = s.subrange(0, rtcp_view_len(s));
    assert(p[0] == s[0] && p[1] == s[1] && p[2] == s[2] && p[3] == s[3]);
    assert(rtcp_header_check(p) == rtcp_header_check(s));
    assert(rtcp_packet_len(p) == rtcp_packet_len(s));
    if rtcp_packet_len(s) >= RTCP_MIN_LEN {
        assert(p[rtcp_packet_len(s) - 1] == s[rtcp_packet_len(s) - 1]);
        assert(p.last() == s[rtcp_packet_len(s) - 1]);
    }
}

/// The padding length in the last byte, which must not be 0.
fn parse_padding_len(buf: &[u8]) -> (r: Result<u8, RtpError>)
    requires
        buf@.len() > 0,
    ensures
        buf@.last() == 0 ==> r == Err::<u8, RtpError>(RtpError::InvalidPaddingLength(0)),
        buf@.last() != 0 ==> r == Ok::<u8, RtpError>(buf@.last()),
{
    match buf[buf.len() - 1] {
        0 => Err(RtpError::InvalidPaddingLength(0)),
        l => Ok(l),
    }
}

/// What an item of the validating iterator stands for: the packet's bytes, or the error.
pub open spec fn try_item_view(x: Result<RefRtcpPacket, RtpError>) -> Result<Seq<u8>, RtpError> {
    match x {
        Ok(p) => Ok(p@),
        Err(e) => Err(e),
    }
}

/// The validating iterator over back-to-back RTCP packets: it checks each
/// packet, and after the first failure yields that error once and stops.
pub struct RtcpTryIter<'a> {
    buf: &'a [u8],
}

impl<'a> RtcpTryIter<'a> {
    /// The validating iterator over the packets of `buf`.
    pub fn new(buf: &'a [u8]) -> (r: Self)
        ensures
            r.items() == rtcp_scan(buf@),
    {
        RtcpTryIter { buf }
    }

    /// The items still to come.
    pub closed spec fn items(&self) -> Seq<Result<Seq<u8>, RtpError>> {
        rtcp_scan(self.buf@)
    }

    /// The next packet or the error that ends the scan; `None` once done.
    pub fn next(&mut self) -> (r: Option<Result<RefRtcpPacket<'a>, RtpError>>)
        ensures
            old(self).items().len() == 0 ==> r is None && final(self).items().len() == 0,
            old(self).items().len() > 0 ==> {
                &&& r matches Some(x) && try_item_view(x) == old(self).items()[0]
                &&& final(self).items() == old(self).items().drop_first()
            },
    {
        if self.buf.is_empty() {
            return None;
        }
        match RefRtcpPacket::parse(self.buf) {
            Ok(v) => {
                let ghost before = self.items();
                let len = v.packet_len();
                self.buf = &self.buf[len..self.buf.len()];
                assert(before =~= seq![Ok(v@)] + self.items());
                Some(Ok(v))
            },
            Err(e) => {
                self.buf = &self.buf[0..0];
                assert(self.items() =~= Seq::<Result<Seq<u8>, RtpError>>::empty());
                Some(Err(e))
            },
        }
    }
}

/// The iterator over a buffer whose packets were all validated: it slices
/// each packet by its declared length without checking again.
pub struct RtcpUncheckIter<'a> {
    buf: &'a [u8],
}

impl<'a> RtcpUncheckIter<'a> {
    #[verifier::type_invariant]
    closed spec fn all_valid(&self) -> bool {
        rtcp_scan_result(self.buf@) is Ok
    }

    /// The packets still to come.
    pub closed spec fn items(&self) -> Seq<Seq<u8>> {
        rtcp_packets(self.buf@)
    }

    /// The next packet, or `None` once the buffer is used up.
    pub fn next(&mut self) -> (r: Option<RefRtcpPacket<'a>>)
        ensures
            old(self).items().len() == 0 ==> r is None && final(self).items().len() == 0,
            old(self).items().len() > 0 ==> {
                &&& r matches Some(p) && p@ == old(self).items()[0]
                &&& final(self).items() == old(self).items().drop_first()
            },
    {
        proof {
            use_type_invariant(&*self);
        }
        if self.buf.is_empty() {
            return None;
        }
        let item = RefRtcpPacket::uncheck(self.buf);
        let len = item.packet_len();
        let ghost before = self.items();
        self.buf = &self.buf[len..self.buf.len()];
        assert(before =~= seq![item@] + self.items());
        Some(item)
    }
}

/// A borrowed buffer of RTCP packets back to back, all of them valid.
pub struct RefRtcpPackets<'a> {
    buf: &'a [u8],
}

impl<'a> View for RefRtcpPackets<'a> {
    type V = Seq<u8>;

    closed spec fn view(&self) -> Seq<u8> {
        self.buf@
    }
}

impl<'a> RefRtcpPackets<'a> {
    #[verifier::type_invariant]
    closed spec fn all_valid(&self) -> bool {
        rtcp_scan_result(self.buf@) is Ok
    }

    /// Validates every packet of `buf` in turn, failing with the first error.
    pub fn parse(buf: &'a [u8]) -> (r: Result<RefRtcpPackets<'a>, RtpError>)
        ensures
            r is Ok <==> rtcp_scan_result(buf@) is Ok,
            r is Ok ==> r->Ok_0@ == buf@,
            r is Err ==> r == Err::<Self, RtpError>(rtcp_scan_result(buf@)->Err_0),
    {
        let mut rest = buf;
        while !rest.is_empty()
            invariant
                rtcp_scan_result(rest@) == rtcp_scan_result(buf@),
            decreases rest@.len(),
        {
            match RefRtcpPacket::parse(rest) {
                Ok(v) => {
                    let len = v.packet_len();
                    rest = &rest[len..rest.len()];
                },
                Err(e) => return Err(e),
            }
        }
        Ok(RefRtcpPackets { buf })
    }

    /// The packets, sliced by their declared lengths without further checks.
    pub fn uncheck_iter(&self) -> (r: RtcpUncheckIter<'a>)
        ensures
            r.items() == rtcp_packets(self@),
    {
        proof {
            use_type_invariant(self);
        }
        RtcpUncheckIter { buf: self.buf }
    }

    /// The packets, each validated again.
    pub fn try_iter(&self) -> (r: RtcpTryIter<'a>)
        ensures
            r.items() == rtcp_scan(self@),
    {
        RtcpTryIter::new(self.buf)
    }
}

/// The bytes of `ps`, one after another.
pub open spec fn concat_all(ps: Seq<Seq<u8>>) -> Seq<u8>
    decreases ps.len(),
{
    if ps.len() == 0 {
        Seq::empty()
    } else {
        ps[0] + concat_all(ps.drop_first())
    }
}

/// What follows a framed packet does not change how it is checked.
proof fn lemma_framed_prefix(p: Seq<u8>, t: Seq<u8>)
    requires
        rtcp_framed(p),
    ensures
        rtcp_check(p + t) is Ok,
        rtcp_packet_len(p + t) == p.len(),
        (p + t).subrange(0, p.len() as int) == p,
        (p + t).subrange(p.len() as int, (p + t).len() as int) == t,
{
    let s = p + t;
    assert(s[0] == p[0] && s[1] == p[1] && s[2] == p[2] && s[3] == p[3]);
    assert(s[p.len() - 1] == p.last());
    assert(s.subrange(0, p.len() as int) =~= p);
    assert(s.subrange(p.len() as int, s.len() as int) =~= t);
}

/// A buffer made of framed packets back to back: the validating iterator
/// yields each of them, in order, with no error, and the unchecked iterator
/// yields the same packets.
pub proof fn lemma_compound_sequence(ps: Seq<Seq<u8>>)
    requires
        forall|i: int| 0 <= i < ps.len() ==> rtcp_framed(#[trigger] ps[i]),
    ensures
        rtcp_scan(concat_all(ps)) == ps.map_values(|p: Seq<u8>| Ok::<Seq<u8>, RtpError>(p)),
        rtcp_scan_result(concat_all(ps)) is Ok,
        rtcp_packets(concat_all(ps)) == ps,
    decreases ps.len(),
{
    let oks = ps.map_values(|p: Seq<u8>| Ok::<Seq<u8>, RtpError>(p));
    if ps.len() == 0 {
        assert(oks =~= Seq::empty());
    } else {
        let rest = ps.drop_first();
        assert forall|i: int| 0 <= i < rest.len() implies rtcp_framed(#[trigger] rest[i]) by {
            assert(rest[i] == ps[i + 1]);
        }
        lemma_compound_sequence(rest);
        let first = ps[0];
        let tail = concat_all(rest);
        let s = concat_all(ps);
        assert(s == first + tail);
        assert(rtcp_framed(first));
        lemma_framed_prefix(first, tail);
        let len = rtcp_packet_len(s);
        assert(len == first.len());
        assert(s.len() > 0);
        assert(rtcp_scan(s) == seq![Ok::<Seq<u8>, RtpError>(first)] + rtcp_scan(tail));
        assert(rtcp_scan_result(s) == rtcp_scan_result(tail));
        assert(rtcp_packets(s) == seq![first] + rtcp_packets(tail));
        assert(oks =~= seq![Ok::<Seq<u8>, RtpError>(first)] + rest.map_values(
            |p: Seq<u8>| Ok::<Seq<u8>, RtpError>(p),
        ));
        assert(ps =~= seq![first] + rest);
    }
}

/// A buffer cut after the first packet's header but before its declared
/// length: the validating iterator yields one truncation error and stops.
pub proof fn lemma_truncated_sequence(s: Seq<u8>, cut: int)
    requires
        rtcp_check(s) is Ok,
        RTCP_MIN_LEN <= cut < rtcp_packet_len(s),
    ensures
        rtcp_scan(s.subrange(0, cut)) == seq![
            Err::<Seq<u8>, RtpError>(short(rtcp_packet_len(s), cut, "Rtcp packet length")),
        ],
{
    let t = s.subrange(0, cut);
    assert(t[0] == s[0] && t[1] == s[1] && t[2] == s[2] && t[3] == s[3]);
    assert(rtcp_header_check(t) == rtcp_header_check(s));
    assert(rtcp_packet_len(t) == rtcp_packet_len(s));
}

} // verus!
