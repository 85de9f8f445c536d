//! Writing RTP packets in place into a caller's buffer.
//!
//! A packet is written in stages, each a type of its own: the fixed header
//! and CSRC list (`RtpBuilder`), then optionally the extension block
//! (`ExtBuilder`, with `ExtItemBuilder` for an item written piece by piece),
//! then the payload (`PayloadBuilder`). Each stage states the bytes written so
//! far as a function of the bytes before it.
use vstd::prelude::*;
use crate::buf_mut::{
    put_bytes_at, put_slice_at, put_u16_at, put_u32_at, put_u8_at, repeat, splice,
};
use crate::extension::{
    ExtFormat, WriteExtFns, begin_bytes, body_len_ok, item_header_len, profile_of,
};
use crate::rtp::RTP_MIN_LEN;
use crate::wire::{be16_bytes, be32_bytes, lemma_high_bit, lemma_nibbles};
use crate::wrapping::{SeqNum, Timestamp};

verus! {

/// The second header byte: marker bit and payload type.
pub open spec fn marker_byte(mark: bool, pt: u8) -> u8 {
    if mark {
        (128 + pt % 128) as u8
    } else {
        (pt % 128) as u8
    }
}

/// The CSRC list, four big-endian bytes each.
pub open spec fn csrc_bytes(c: Seq<u32>) -> Seq<u8>
    decreases c.len(),
{
    if c.len() == 0 {
        Seq::empty()
    } else {
        csrc_bytes(c.drop_last()) + be32_bytes(c.last() as int)
    }
}

/// The fixed header and CSRC list, with the padding and extension flags clear.
pub open spec fn header_bytes(
    mark: bool,
    pt: u8,
    seq: SeqNum,
    ts: Timestamp,
    ssrc: u32,
    csrcs: Seq<u32>,
) -> Seq<u8> {
    seq![(0x80 + csrcs.len()) as u8, marker_byte(mark, pt)] + be16_bytes(seq.0 as int) + be32_bytes(
        ts.0 as int,
    ) + be32_bytes(ssrc as int) + csrc_bytes(csrcs)
}

/// `w` with a flag bit set in its first byte.
pub open spec fn set_flag(w: Seq<u8>, bit: u8) -> Seq<u8> {
    w.update(0, w[0] | bit)
}

/// The extension header after `w`: profile id, and a word count left at 0
/// until the block is finished; the extension flag is set.
pub open spec fn start_ext(w: Seq<u8>, fmt: ExtFormat) -> Seq<u8> {
    set_flag(w, 0x10) + be16_bytes(profile_of(fmt) as int) + seq![0u8, 0u8]
}

/// One whole extension item: header, then body.
pub open spec fn item_bytes(fmt: ExtFormat, id: u8, body: Seq<u8>) -> Seq<u8> {
    match fmt {
        ExtFormat::OneByte => seq![((id % 16) * 16 + body.len() - 1) as u8] + body,
        ExtFormat::TwoByte => seq![id, body.len() as u8] + body,
    }
}

/// The zero bytes that bring `n` to a multiple of four.
pub open spec fn pad_to_word(n: int) -> int {
    if n % 4 == 0 {
        0
    } else {
        4 - n % 4
    }
}

/// The extension block whose header starts at `offset` closed: its body
/// padded with zeros to whole words, and the word count written.
pub open spec fn finish_ext(w: Seq<u8>, offset: int) -> Seq<u8> {
    let len = w.len() - offset - 4;
    let pad = pad_to_word(len);
    splice(w + repeat(0, pad as nat), offset + 2, be16_bytes((len + pad) / 4))
}

/// The payload after `w`, then, if asked for and the length is not a
/// multiple of four, the fewest padding bytes that make it one, the last of
/// them holding their count, with the padding flag set.
pub open spec fn add_payload(w: Seq<u8>, payload: Seq<u8>, padding: bool) -> Seq<u8> {
    let t = w + payload;
    let p = pad_to_word(t.len() as int);
    if padding && p > 0 {
        set_flag(t + repeat(0, (p - 1) as nat) + seq![p as u8], 0x20)
    } else {
        t
    }
}

/// The length of `add_payload(w, payload, padding)` for `w` of length `n`.
pub open spec fn payload_end(n: int, payload_len: int, padding: bool) -> int {
    if padding {
        n + payload_len + pad_to_word(n + payload_len)
    } else {
        n + payload_len
    }
}

fn pad_to_word_of(n: usize) -> (r: usize)
    ensures
        r == pad_to_word(n as int),
        r < 4,
{
    if n % 4 == 0 {
        0
    } else {
        4 - n % 4
    }
}

/// Writes the fixed header and the CSRC list at the start of `buf`, with the
/// padding and extension flags clear; returns their length.
pub fn build_header(
    buf: &mut Vec<u8>,
    mark_flag: bool,
    payload_type: u8,
    seq: SeqNum,
    timestamp: Timestamp,
    ssrc: u32,
    csrcs: &[u32],
) -> (r: usize)
    requires
        csrcs@.len() <= 15,
        RTP_MIN_LEN + 4 * csrcs@.len() <= old(buf)@.len(),
    ensures
        r == RTP_MIN_LEN + 4 * csrcs@.len(),
        final(buf)@.len() == old(buf)@.len(),
        final(buf)@.subrange(0, r as int) == header_bytes(
            mark_flag,
            payload_type,
            seq,
            timestamp,
            ssrc,
            csrcs@,
        ),
        final(buf)@.subrange(r as int, old(buf)@.len() as int) == old(buf)@.subrange(
            r as int,
            old(buf)@.len() as int,
        ),
{
    let mut csrc_count: u8 = 0;
    let mut ptr: usize = RTP_MIN_LEN;
    let n = csrcs.len();
    let mut i: usize = 0;
    while i < n
        invariant
            n == csrcs@.len(),
            n <= 15,
            0 <= i <= n,
            csrc_count == i,
            ptr == RTP_MIN_LEN + 4 * i,
            RTP_MIN_LEN + 4 * n <= buf@.len(),
            buf@.len() == old(buf)@.len(),
            buf@.subrange(RTP_MIN_LEN as int, ptr as int) == csrc_bytes(csrcs@.subrange(0, i as int)),
            forall|j: int| RTP_MIN_LEN + 4 * n <= j < buf@.len() ==> buf@[j] == old(buf)@[j],
        decreases n - i,
    {
        let ghost before = buf@;
        put_u32_at(buf, ptr, csrcs[i]);
        proof {
            let c = csrcs@.subrange(0, i + 1);
            assert(c.drop_last() =~= csrcs@.subrange(0, i as int));
            assert(buf@.subrange(RTP_MIN_LEN as int, ptr + 4) =~= before.subrange(
                RTP_MIN_LEN as int,
                ptr as int,
            ) + be32_bytes(csrcs@[i as int] as int));
        }
        csrc_count = csrc_count + 1;
        ptr = ptr + 4;
        i = i + 1;
    }
    assert(csrcs@.subrange(0, n as int) =~= csrcs@);
    let ghost csrc_part = buf@.subrange(RTP_MIN_LEN as int, ptr as int);
    proof {
        lemma_nibbles(8, csrc_count);
        lemma_high_bit(payload_type);
        crate::wire::lemma_byte_fields(payload_type);
    }
    buf[0] = 0b1000_0000 | csrc_count;
    buf[1] = if mark_flag {
        0b1000_0000 | payload_type
    } else {
        payload_type & 0b0111_1111
    };
    put_u16_at(buf, 2, seq.0);
    put_u32_at(buf, 4, timestamp.0);
    put_u32_at(buf, 8, ssrc);
    assert(buf@.subrange(RTP_MIN_LEN as int, ptr as int) =~= csrc_part);
    assert(buf@.subrange(ptr as int, buf@.len() as int) =~= old(buf)@.subrange(
        ptr as int,
        old(buf)@.len() as int,
    ));
    assert(buf@.subrange(2, 4) =~= be16_bytes(seq.0 as int));
    assert(buf@.subrange(4, 8) =~= be32_bytes(timestamp.0 as int));
    assert(buf@.subrange(8, 12) =~= be32_bytes(ssrc as int));
    assert(buf@.subrange(0, ptr as int) =~= header_bytes(
        mark_flag,
        payload_type,
        seq,
        timestamp,
        ssrc,
        csrcs@,
    ));
    ptr
}

/// Appends the payload after the first `total_len` bytes and, if asked for
/// and needed, the padding; returns the packet's length.
fn build_payload(buf: &mut Vec<u8>, total_len: usize, payload: &[u8], padding: bool) -> (r: usize)
    requires
        1 <= total_len,
        payload_end(total_len as int, payload@.len() as int, padding) <= old(buf).len(),
    ensures
        r == payload_end(total_len as int, payload@.len() as int, padding),
        final(buf)@.len() == old(buf)@.len(),
        final(buf)@.subrange(0, r as int) == add_payload(
            old(buf)@.subrange(0, total_len as int),
            payload@,
            padding,
        ),
        final(buf)@.subrange(r as int, old(buf)@.len() as int) == old(buf)@.subrange(
            r as int,
            old(buf)@.len() as int,
        ),
{
    let ghost w = buf@.subrange(0, total_len as int);
    put_slice_at(buf, total_len, payload);
    let mut total = total_len + payload.len();
    let ghost t = w + payload@;
    assert(buf@.subrange(0, total as int) =~= t);
    if padding {
        let padding_len = pad_to_word_of(total);
        if padding_len > 0 {
            put_bytes_at(buf, total, 0, padding_len - 1);
            put_u8_at(buf, total + padding_len - 1, padding_len as u8);
            total = total + padding_len;
            assert(buf@.subrange(0, total as int) =~= t + repeat(0, (padding_len - 1) as nat)
                + seq![padding_len as u8]);
            buf[0] = buf[0] | 0b0010_0000;
            assert(buf@.subrange(0, total as int) =~= add_payload(w, payload@, padding));
        }
    }
    total
}

/// The first stage of writing a packet: the fixed header and CSRC list are written.
pub struct RtpBuilder<'a> {
    pub buf: &'a mut Vec<u8>,
    pub len: usize,
}

impl<'a> RtpBuilder<'a> {
    /// The length of the buffer written into.
    pub open spec fn capacity(&self) -> nat {
        self.buf.len() as nat
    }

    /// The whole buffer as it stands.
    pub open spec fn bytes(&self) -> Seq<u8> {
        self.buf@
    }

    /// The bytes written so far.
    pub open spec fn written(&self) -> Seq<u8> {
        self.buf@.subrange(0, self.len as int)
    }

    /// The stage's own bookkeeping is consistent with its buffer.
    pub open spec fn wf(&self) -> bool {
        RTP_MIN_LEN <= self.len <= self.capacity()
    }

    /// Starts a packet in `buf` with the given header fields and CSRC list.
    pub fn from_basic(
        buf: &'a mut Vec<u8>,
        mark_flag: bool,
        payload_type: u8,
        seq: SeqNum,
        timestamp: Timestamp,
        ssrc: u32,
        csrcs: &[u32],
    ) -> (r: Self)
        requires
            csrcs@.len() <= 15,
            RTP_MIN_LEN + 4 * csrcs@.len() <= old(buf)@.len(),
        ensures
            r.wf(),
            r.len == RTP_MIN_LEN + 4 * csrcs@.len(),
            r.written() == header_bytes(mark_flag, payload_type, seq, timestamp, ssrc, csrcs@),
            r.capacity() == old(buf)@.len(),
            final(r.buf)@ == final(buf)@,
            r.bytes().subrange(r.len as int, r.capacity() as int) == old(buf)@.subrange(
                r.len as int,
                r.capacity() as int,
            ),
    {
        let len = build_header(buf, mark_flag, payload_type, seq, timestamp, ssrc, csrcs);
        RtpBuilder { buf, len }
    }

    /// The number of bytes written so far.
    pub fn len(&self) -> (r: usize)
        ensures
            r == self.len,
    {
        self.len
    }

    /// Writes a one-byte-profile extension block holding the single item
    /// `(id, ext)`, and moves on to the payload.
    pub fn extension_one(self, id: u8, ext: &[u8]) -> (r: PayloadBuilder<'a>)
        requires
            self.wf(),
            1 <= ext@.len() <= 16,
            self.len + 4 + 1 + ext@.len() + pad_to_word(1 + ext@.len() as int) <= self.capacity(),
        ensures
            r.wf(),
            r.written() == finish_ext(
                start_ext(self.written(), ExtFormat::OneByte) + item_bytes(
                    ExtFormat::OneByte,
                    id,
                    ext@,
                ),
                self.len as int,
            ),
            r.capacity() == self.capacity(),
            final(r.buf)@ == final(self.buf)@,
            r.bytes().subrange(r.total_len as int, r.capacity() as int) == self.bytes().subrange(
                r.total_len as int,
                r.capacity() as int,
            ),
    {
        let ghost b0 = self.bytes();
        let mut ext_builder = self.extension(ExtFormat::OneByte);
        let ghost b1 = ext_builder.bytes();
        let ghost e1 = ext_builder.total_len as int;
        ext_builder.write_ext(id, ext);
        let ghost b2 = ext_builder.bytes();
        let ghost e2 = ext_builder.total_len as int;
        let r = ext_builder.payload_builder();
        proof {
            let cap = b0.len() as int;
            let e3 = r.total_len as int;
            assert(e1 <= e2 <= e3 <= cap);
            assert forall|j: int| e3 <= j < cap implies r.bytes()[j] == b0[j] by {
                assert(r.bytes().subrange(e3, cap)[j - e3] == b2.subrange(e3, cap)[j - e3]);
                assert(b2.subrange(e2, cap)[j - e2] == b1.subrange(e2, cap)[j - e2]);
                assert(b1.subrange(e1, cap)[j - e1] == b0.subrange(e1, cap)[j - e1]);
            }
            assert(r.bytes().subrange(e3, cap) =~= b0.subrange(e3, cap));
        }
        r
    }

    /// Starts the extension block in profile `ext_fmt`: writes its header and
    /// sets the extension flag.
    pub fn extension(self, ext_fmt: ExtFormat) -> (r: ExtBuilder<'a>)
        requires
            self.wf(),
            self.len + 4 <= self.capacity(),
        ensures
            r.wf(),
            r.func.format == ext_fmt,
            r.offset == self.len,
            r.total_len == self.len + 4,
            r.written() == start_ext(self.written(), ext_fmt),
            r.capacity() == self.capacity(),
            final(r.buf)@ == final(self.buf)@,
            r.bytes().subrange(r.total_len as int, r.capacity() as int) == self.bytes().subrange(
                r.total_len as int,
                r.capacity() as int,
            ),
    {
        let ghost w = self.written();
        let offset = self.len;
        put_u16_at(self.buf, offset, ext_fmt.profile());
        put_u16_at(self.buf, offset + 2, 0);
        self.buf[0] = self.buf[0] | 0b0001_0000;
        assert(self.buf@.subrange(0, offset + 4) =~= start_ext(w, ext_fmt));
        ExtBuilder { func: ext_fmt.build_fn(), buf: self.buf, total_len: offset + 4, offset }
    }

    /// Writes the payload, with padding if asked for and needed, and returns
    /// the packet's length.
    pub fn payload(self, payload: &[u8], padding: bool) -> (r: usize)
        requires
            self.wf(),
            payload_end(self.len as int, payload@.len() as int, padding) <= self.capacity(),
        ensures
            r == payload_end(self.len as int, payload@.len() as int, padding),
            final(self.buf)@.len() == self.capacity(),
            final(self.buf)@.subrange(0, r as int) == add_payload(self.written(), payload@, padding),
            final(self.buf)@.subrange(r as int, self.capacity() as int) == self.bytes().subrange(
                r as int,
                self.capacity() as int,
            ),
    {
        build_payload(self.buf, self.len, payload, padding)
    }

    /// Moves on to the payload without an extension.
    pub fn payload_builder(self) -> (r: PayloadBuilder<'a>)
        requires
            self.wf(),
        ensures
            r.wf(),
            r.written() == self.written(),
            r.capacity() == self.capacity(),
            final(r.buf)@ == final(self.buf)@,
            r.bytes().subrange(r.total_len as int, r.capacity() as int) == self.bytes().subrange(
                r.total_len as int,
                r.capacity() as int,
            ),
    {
        PayloadBuilder { buf: self.buf, total_len: self.len }
    }
}

/// The extension stage: the extension header is written at `offset`, and
/// items follow it up to `total_len`.
pub struct ExtBuilder<'a> {
    pub func: WriteExtFns,
    pub buf: &'a mut Vec<u8>,
    pub total_len: usize,
    pub offset: usize,
}

impl<'a> ExtBuilder<'a> {
    /// The length of the buffer written into.
    pub open spec fn capacity(&self) -> nat {
        self.buf.len() as nat
    }

    /// The whole buffer as it stands.
    pub open spec fn bytes(&self) -> Seq<u8> {
        self.buf@
    }

    /// The bytes written so far.
    pub open spec fn written(&self) -> Seq<u8> {
        self.buf@.subrange(0, self.total_len as int)
    }

    /// The stage's own bookkeeping is consistent with its buffer.
    pub open spec fn wf(&self) -> bool {
        &&& RTP_MIN_LEN <= self.offset
        &&& self.offset + 4 <= self.total_len <= self.capacity()
    }

    /// Writes the item `(id, ext)` in one go.
    pub fn write_ext(&mut self, id: u8, ext: &[u8])
        requires
            old(self).wf(),
            body_len_ok(old(self).func.format, ext@.len() as int),
            old(self).total_len + item_header_len(old(self).func.format) + ext@.len() <= old(
                self,
            ).capacity(),
        ensures
            final(self).wf(),
            final(self).func == old(self).func,
            final(self).offset == old(self).offset,
            final(self).total_len == old(self).total_len + item_header_len(old(self).func.format)
                + ext@.len(),
            final(self).written() == old(self).written() + item_bytes(
                old(self).func.format,
                id,
                ext@,
            ),
            final(self).capacity() == old(self).capacity(),
            final(final(self).buf)@ == final(old(self).buf)@,
            final(self).bytes().subrange(final(self).total_len as int, final(self).capacity() as int) == old(
                self,
            ).bytes().subrange(final(self).total_len as int, old(self).capacity() as int),
    {
        let ghost w = self.written();
        let at = self.total_len;
        let header_len = self.func.begin(self.buf, at, id);
        put_slice_at(self.buf, at + header_len, ext);
        self.func.end(self.buf, at, ext.len());
        self.total_len = at + header_len + ext.len();
        proof {
            let fmt = self.func.format;
            if fmt == ExtFormat::OneByte {
                lemma_nibbles(id % 16, (ext@.len() - 1) as u8);
            }
        }
        assert(self.written() =~= w + item_bytes(self.func.format, id, ext@));
    }

    /// Starts an item with id `id` whose body is written piece by piece; the
    /// item is closed, and its length written, by its `finish`.
    pub fn ext(self, id: u8) -> (r: ExtItemBuilder<'a>)
        requires
            self.wf(),
            self.total_len + item_header_len(self.func.format) <= self.capacity(),
        ensures
            r.wf(),
            r.id == id,
            r.item_body_len == 0,
            r.offset == self.total_len,
            r.parent.total_len == self.total_len,
            r.parent.func == self.func,
            r.parent.offset == self.offset,
            r.parent.written() == self.written(),
            r.parent.capacity() == self.capacity(),
            final(r.parent.buf)@ == final(self.buf)@,
            r.parent.bytes().subrange(r.offset + r.header_len, r.parent.capacity() as int)
                == self.bytes().subrange(r.offset + r.header_len, self.capacity() as int),
    {
        let offset = self.total_len;
        let ghost w = self.written();
        let header_len = self.func.begin(self.buf, offset, id);
        let r = ExtItemBuilder { parent: self, id, offset, header_len, item_body_len: 0 };
        assert(r.parent.written() =~= w);
        assert(r.parent.buf@.subrange(offset as int, offset + header_len) =~= begin_bytes(
            r.parent.func.format,
            id,
        ));
        r
    }

    /// Closes the extension block and writes the payload; returns the packet's length.
    pub fn payload(self, payload: &[u8], padding: bool) -> (r: usize)
        requires
            self.wf(),
            self.total_len - self.offset - 4 <= 4 * 0xffff,
            payload_end(
                self.total_len + pad_to_word(self.total_len - self.offset - 4),
                payload@.len() as int,
                padding,
            ) <= self.capacity(),
        ensures
            r == payload_end(
                self.total_len + pad_to_word(self.total_len - self.offset - 4),
                payload@.len() as int,
                padding,
            ),
            final(self.buf)@.len() == self.capacity(),
            final(self.buf)@.subrange(0, r as int) == add_payload(
                finish_ext(self.written(), self.offset as int),
                payload@,
                padding,
            ),
            final(self.buf)@.subrange(r as int, self.capacity() as int) == self.bytes().subrange(
                r as int,
                self.capacity() as int,
            ),
    {
        let ghost b0 = self.bytes();
        let mut me = self;
        me.finish();
        let ghost b1 = me.bytes();
        let ghost e1 = me.total_len as int;
        let r = build_payload(me.buf, me.total_len, payload, padding);
        proof {
            let cap = b0.len() as int;
            let b2 = final(me.buf)@;
            assert forall|j: int| r <= j < cap implies b2[j] == b0[j] by {
                assert(b2.subrange(r as int, cap)[j - r] == b1.subrange(r as int, cap)[j - r]);
                assert(b1.subrange(e1, cap)[j - e1] == b0.subrange(e1, cap)[j - e1]);
            }
            assert(b2.subrange(r as int, cap) =~= b0.subrange(r as int, cap));
        }
        r
    }

    /// Closes the extension block and moves on to the payload.
    pub fn payload_builder(self) -> (r: PayloadBuilder<'a>)
        requires
            self.wf(),
            self.total_len - self.offset - 4 <= 4 * 0xffff,
            self.total_len + pad_to_word(self.total_len - self.offset - 4) <= self.capacity(),
        ensures
            r.wf(),
            r.written() == finish_ext(self.written(), self.offset as int),
            r.total_len == self.total_len + pad_to_word(self.total_len - self.offset - 4),
            r.capacity() == self.capacity(),
            final(r.buf)@ == final(self.buf)@,
            r.bytes().subrange(r.total_len as int, r.capacity() as int) == self.bytes().subrange(
                r.total_len as int,
                r.capacity() as int,
            ),
    {
        let mut me = self;
        me.finish();
        PayloadBuilder { buf: me.buf, total_len: me.total_len }
    }

    /// Pads the extension body with zeros to whole words and writes the word count.
    fn finish(&mut self)
        requires
            old(self).wf(),
            old(self).total_len - old(self).offset - 4 <= 4 * 0xffff,
            old(self).total_len + pad_to_word(old(self).total_len - old(self).offset - 4) <= old(
                self,
            ).capacity(),
        ensures
            final(self).wf(),
            final(self).offset == old(self).offset,
            final(self).func == old(self).func,
            final(self).total_len == old(self).total_len + pad_to_word(
                old(self).total_len - old(self).offset - 4,
            ),
            final(self).written() == finish_ext(old(self).written(), old(self).offset as int),
            final(self).capacity() == old(self).capacity(),
            final(final(self).buf)@ == final(old(self).buf)@,
            final(self).bytes().subrange(final(self).total_len as int, final(self).capacity() as int) == old(
                self,
            ).bytes().subrange(final(self).total_len as int, old(self).capacity() as int),
    {
        let ghost w = self.written();
        let len = self.total_len - self.offset - 4;
        let padding_len = pad_to_word_of(len);
        let words = (len + padding_len) / 4;
        if padding_len > 0 {
            put_bytes_at(self.buf, self.total_len, 0, padding_len);
            self.total_len = self.total_len + padding_len;
        }
        let ghost padded = self.written();
        assert(padded =~= w + repeat(0, padding_len as nat));
        put_u16_at(self.buf, self.offset + 2, words as u16);
        assert(self.written() =~= splice(padded, self.offset + 2, be16_bytes(words as int)));
    }
}

/// An item of the extension block whose body is written piece by piece.
pub struct ExtItemBuilder<'a> {
    pub parent: ExtBuilder<'a>,
    pub id: u8,
    pub offset: usize,
    pub header_len: usize,
    pub item_body_len: usize,
}

impl<'a> ExtItemBuilder<'a> {
    /// The body written so far.
    pub open spec fn body(&self) -> Seq<u8> {
        self.parent.buf@.subrange(
            self.offset + self.header_len,
            self.offset + self.header_len + self.item_body_len,
        )
    }

    /// The stage's own bookkeeping is consistent with its buffer.
    pub open spec fn wf(&self) -> bool {
        &&& self.parent.wf()
        &&& self.offset == self.parent.total_len
        &&& self.header_len == item_header_len(self.parent.func.format)
        &&& self.offset + self.header_len + self.item_body_len <= self.parent.capacity()
        &&& self.parent.buf@.subrange(self.offset as int, self.offset + self.header_len)
            == begin_bytes(self.parent.func.format, self.id)
    }

    /// Appends `value`, big-endian, to the body; returns the item builder,
    /// so that writes can be chained.
    pub fn write_u16(&mut self, value: u16) -> (r: &mut Self)
        requires
            old(self).wf(),
            old(self).offset + old(self).header_len + old(self).item_body_len + 2 <= old(
                self,
            ).parent.capacity(),
        ensures
            (*r).wf(),
            (*r).body() == old(self).body() + be16_bytes(value as int),
            (*r).id == old(self).id,
            (*r).offset == old(self).offset,
            (*r).item_body_len == old(self).item_body_len + 2,
            (*r).parent.func == old(self).parent.func,
            (*r).parent.offset == old(self).parent.offset,
            (*r).parent.written() == old(self).parent.written(),
            (*r).parent.capacity() == old(self).parent.capacity(),
            final(r.parent.buf)@ == final(old(self).parent.buf)@,
            (*r).parent.bytes().subrange(
                (*r).offset + (*r).header_len + (*r).item_body_len,
                (*r).parent.capacity() as int,
            ) == old(self).parent.bytes().subrange(
                (*r).offset + (*r).header_len + (*r).item_body_len,
                old(self).parent.capacity() as int,
            ),
            *final(self) == *final(r),
    {
        let ghost before = *self;
        let tail = self.tail();
        put_u16_at(self.parent.buf, tail, value);
        self.item_body_len = self.item_body_len + 2;
        assert(self.body() =~= before.body() + be16_bytes(value as int));
        assert(self.parent.written() =~= before.parent.written());
        assert(self.parent.buf@.subrange(self.offset as int, self.offset + self.header_len)
            =~= before.parent.buf@.subrange(self.offset as int, self.offset + self.header_len));
        self
    }

    /// Appends `value` to the body.
    pub fn write_slice(&mut self, value: &[u8])
        requires
            old(self).wf(),
            old(self).offset + old(self).header_len + old(self).item_body_len + value@.len() <= old(
                self,
            ).parent.capacity(),
        ensures
            final(self).wf(),
            final(self).body() == old(self).body() + value@,
            final(self).id == old(self).id,
            final(self).offset == old(self).offset,
            final(self).item_body_len == old(self).item_body_len + value@.len(),
            final(self).parent.func == old(self).parent.func,
            final(self).parent.offset == old(self).parent.offset,
            final(self).parent.written() == old(self).parent.written(),
            final(self).parent.capacity() == old(self).parent.capacity(),
            final(final(self).parent.buf)@ == final(old(self).parent.buf)@,
            final(self).parent.bytes().subrange(
                final(self).offset + final(self).header_len + final(self).item_body_len,
                final(self).parent.capacity() as int,
            ) == old(self).parent.bytes().subrange(
                final(self).offset + final(self).header_len + final(self).item_body_len,
                old(self).parent.capacity() as int,
            ),
    {
        let ghost before = *self;
        let tail = self.tail();
        put_slice_at(self.parent.buf, tail, value);
        self.item_body_len = self.item_body_len + value.len();
        assert(self.body() =~= before.body() + value@);
        assert(self.parent.written() =~= before.parent.written());
        assert(self.parent.buf@.subrange(self.offset as int, self.offset + self.header_len)
            =~= before.parent.buf@.subrange(self.offset as int, self.offset + self.header_len));
    }

    /// Where the next body byte goes.
    fn tail(&self) -> (r: usize)
        requires
            self.offset + self.header_len + self.item_body_len <= self.parent.capacity(),
        ensures
            r == self.offset + self.header_len + self.item_body_len,
    {
        self.offset + self.header_len + self.item_body_len
    }

    /// Closes the item: writes its length into its header and hands back the
    /// extension stage, which is the only way on to further items or the payload.
    pub fn finish(self) -> (r: ExtBuilder<'a>)
        requires
            self.wf(),
            body_len_ok(self.parent.func.format, self.item_body_len as int),
        ensures
            r.wf(),
            r.func == self.parent.func,
            r.offset == self.parent.offset,
            r.written() == self.parent.written() + item_bytes(
                self.parent.func.format,
                self.id,
                self.body(),
            ),
            r.capacity() == self.parent.capacity(),
            final(r.buf)@ == final(self.parent.buf)@,
            r.bytes().subrange(r.total_len as int, r.capacity() as int) == self.parent.bytes().subrange(
                r.total_len as int,
                r.capacity() as int,
            ),
    {
        let ghost w = self.parent.written();
        let ghost body = self.body();
        let ghost old_buf = self.parent.buf@;
        let ExtItemBuilder { parent, id, offset, header_len, item_body_len } = self;
        let mut parent = parent;
        let ghost fmt = parent.func.format;
        assert(old_buf.subrange(offset as int, offset + header_len) == begin_bytes(fmt, id));
        assert(old_buf[offset as int] == begin_bytes(fmt, id)[0]);
        parent.func.end(parent.buf, offset, item_body_len);
        parent.total_len = offset + header_len + item_body_len;
        proof {
            if fmt == ExtFormat::OneByte {
                lemma_nibbles(id % 16, (item_body_len - 1) as u8);
                assert(parent.buf@[offset as int] == item_bytes(fmt, id, body)[0]);
            } else {
                assert(old_buf[offset as int] == id);
                assert(parent.buf@[offset as int] == id);
            }
        }
        assert(parent.written() =~= w + item_bytes(fmt, id, body));
        parent
    }
}

/// The payload stage: header and extension are written.
pub struct PayloadBuilder<'a> {
    pub buf: &'a mut Vec<u8>,
    pub total_len: usize,
}

impl<'a> PayloadBuilder<'a> {
    /// The length of the buffer written into.
    pub open spec fn capacity(&self) -> nat {
        self.buf.len() as nat
    }

    /// The whole buffer as it stands.
    pub open spec fn bytes(&self) -> Seq<u8> {
        self.buf@
    }

    /// The bytes written so far.
    pub open spec fn written(&self) -> Seq<u8> {
        self.buf@.subrange(0, self.total_len as int)
    }

    /// The stage's own bookkeeping is consistent with its buffer.
    pub open spec fn wf(&self) -> bool {
        RTP_MIN_LEN <= self.total_len <= self.capacity()
    }

    /// Writes the payload, with padding if asked for and needed, and returns
    /// the packet's length.
    pub fn payload(self, payload: &[u8], padding: bool) -> (r: usize)
        requires
            self.wf(),
            payload_end(self.total_len as int, payload@.len() as int, padding) <= self.capacity(),
        ensures
            r == payload_end(self.total_len as int, payload@.len() as int, padding),
            final(self.buf)@.len() == self.capacity(),
            final(self.buf)@.subrange(0, r as int) == add_payload(self.written(), payload@, padding),
            final(self.buf)@.subrange(r as int, self.capacity() as int) == self.bytes().subrange(
                r as int,
                self.capacity() as int,
            ),
    {
        build_payload(self.buf, self.total_len, payload, padding)
    }
}

} // verus!
