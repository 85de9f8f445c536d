//! RTP header extensions: the one-byte and the two-byte profile.
//!
//! A profile fixes how each item of the extension block starts: one byte
//! (id in the high nibble, body length - 1 in the low one) or two bytes (id,
//! body length). A byte with id 0 where an item would start is a single
//! padding byte: a zero byte, or in the one-byte profile any byte whose high
//! nibble is 0.
use vstd::prelude::*;
use crate::buf_mut::splice;
use crate::error::{RtpError, short};

verus! {

/// Profile id of the one-byte extension format.
pub const ONE_BYTE_PROFILE: u16 = 0xBEDE;

/// Profile id of the two-byte extension format.
pub const TWO_BYTE_PROFILE: u16 = 0x1000;

/// The two extension profiles.
#[derive(Clone, Copy, PartialEq, Eq, Structural, Debug)]
pub enum ExtFormat {
    OneByte,
    TwoByte,
}

/// The profile id that selects `fmt`.
pub open spec fn profile_of(fmt: ExtFormat) -> u16 {
    match fmt {
        ExtFormat::OneByte => ONE_BYTE_PROFILE,
        ExtFormat::TwoByte => TWO_BYTE_PROFILE,
    }
}

/// The bytes an item header takes.
pub open spec fn item_header_len(fmt: ExtFormat) -> int {
    match fmt {
        ExtFormat::OneByte => 1,
        ExtFormat::TwoByte => 2,
    }
}

/// The id of the item that starts `s`.
pub open spec fn item_id(fmt: ExtFormat, s: Seq<u8>) -> u8 {
    match fmt {
        ExtFormat::OneByte => (s[0] / 16) as u8,
        ExtFormat::TwoByte => s[0],
    }
}

/// The body length of the item that starts `s`.
pub open spec fn item_body_len(fmt: ExtFormat, s: Seq<u8>) -> int {
    match fmt {
        ExtFormat::OneByte => s[0] % 16 + 1,
        ExtFormat::TwoByte => s[1] as int,
    }
}

/// Whether the byte that starts `s` is a padding byte: id 0, with no body.
pub open spec fn is_padding(fmt: ExtFormat, s: Seq<u8>) -> bool {
    match fmt {
        ExtFormat::OneByte => s[0] / 16 == 0,
        ExtFormat::TwoByte => s[0] == 0,
    }
}

/// Whether the item that starts `s` ends the block: id 15 of the one-byte profile.
pub open spec fn is_terminator(fmt: ExtFormat, s: Seq<u8>) -> bool {
    fmt == ExtFormat::OneByte && s[0] / 16 == 15
}

/// The stage named when an item's body does not fit.
pub open spec fn body_origin(fmt: ExtFormat) -> &'static str {
    match fmt {
        ExtFormat::OneByte => "OneByte ext body length",
        ExtFormat::TwoByte => "TwoByte ext body length",
    }
}

/// Whether the extension block `s` is well formed in profile `fmt`, and if
/// not, the first truncation met scanning it.
pub open spec fn ext_check(fmt: ExtFormat, s: Seq<u8>) -> Result<(), RtpError>
    decreases s.len(),
{
    if s.len() == 0 {
        Ok(())
    } else if is_padding(fmt, s) {
        ext_check(fmt, s.subrange(1, s.len() as int))
    } else if is_terminator(fmt, s) {
        Ok(())
    } else if s.len() < item_header_len(fmt) {
        Err(short(item_header_len(fmt), s.len() as int, "TwoByte ext header length"))
    } else {
        let rest = s.subrange(item_header_len(fmt), s.len() as int);
        let len = item_body_len(fmt, s);
        if rest.len() < len {
            Err(short(len, rest.len() as int, body_origin(fmt)))
        } else {
            ext_check(fmt, rest.subrange(len, rest.len() as int))
        }
    }
}

/// The items, `(id, body)`, of the extension block `s` in profile `fmt`, in
/// order: padding bytes are skipped, and the scan stops at a terminator or
/// at an item that does not fit.
pub open spec fn ext_items(fmt: ExtFormat, s: Seq<u8>) -> Seq<(u8, Seq<u8>)>
    decreases s.len(),
{
    if s.len() == 0 {
        Seq::empty()
    } else if is_padding(fmt, s) {
        ext_items(fmt, s.subrange(1, s.len() as int))
    } else if is_terminator(fmt, s) || s.len() < item_header_len(fmt) {
        Seq::empty()
    } else {
        let rest = s.subrange(item_header_len(fmt), s.len() as int);
        let len = item_body_len(fmt, s);
        if rest.len() < len {
            Seq::empty()
        } else {
            seq![(item_id(fmt, s), rest.subrange(0, len))] + ext_items(
                fmt,
                rest.subrange(len, rest.len() as int),
            )
        }
    }
}

impl ExtFormat {
    /// The profile id of this format.
    pub fn profile(&self) -> (r: u16)
        ensures
            r == profile_of(*self),
    {
        match self {
            ExtFormat::OneByte => ONE_BYTE_PROFILE,
            ExtFormat::TwoByte => TWO_BYTE_PROFILE,
        }
    }

    /// The format with profile id `num`, if there is one.
    pub fn from_num(num: u16) -> (r: Result<Self, ()>)
        ensures
            num == ONE_BYTE_PROFILE <==> r == Ok::<ExtFormat, ()>(ExtFormat::OneByte),
            num == TWO_BYTE_PROFILE <==> r == Ok::<ExtFormat, ()>(ExtFormat::TwoByte),
            r is Ok ==> profile_of(r->Ok_0) == num,
    {
        if num == ONE_BYTE_PROFILE {
            Ok(ExtFormat::OneByte)
        } else if num == TWO_BYTE_PROFILE {
            Ok(ExtFormat::TwoByte)
        } else {
            Err(())
        }
    }

    /// The format with profile id `num`, which must be one of the two.
    pub fn from_num_uncheck(num: u16) -> (r: Self)
        requires
            num == ONE_BYTE_PROFILE || num == TWO_BYTE_PROFILE,
        ensures
            profile_of(r) == num,
    {
        if num == ONE_BYTE_PROFILE {
            ExtFormat::OneByte
        } else {
            ExtFormat::TwoByte
        }
    }

    /// Scans the whole extension block, reporting the first truncation.
    pub fn check(&self, buf: &[u8]) -> (r: Result<(), RtpError>)
        ensures
            r == ext_check(*self, buf@),
    {
        check_ext(buf, *self)
    }

    /// The items of the extension block, one at a time.
    pub fn iter<'a>(&self, buf: &'a [u8]) -> (r: ExtIter<'a>)
        ensures
            r.items() == ext_items(*self, buf@),
    {
        ExtIter { buf, format: *self }
    }

    /// The primitives that write items of this format.
    pub fn build_fn(&self) -> (r: WriteExtFns)
        ensures
            r.format == *self,
    {
        WriteExtFns { format: *self }
    }
}

/// Reads the header of the item that starts `buf`, which is no padding byte:
/// `None` at a terminator, else what follows the header, the id and the body
/// length.
fn parse_item_header(buf: &[u8], fmt: ExtFormat) -> (r: Option<(&[u8], u8, usize)>)
    requires
        buf@.len() >= item_header_len(fmt),
    ensures
        is_terminator(fmt, buf@) <==> r is None,
        r matches Some((next, id, len)) ==> {
            &&& next@ == buf@.subrange(item_header_len(fmt), buf@.len() as int)
            &&& id == item_id(fmt, buf@)
            &&& len == item_body_len(fmt, buf@)
        },
{
    match fmt {
        ExtFormat::OneByte => parse_onebyte_uncheck(buf),
        ExtFormat::TwoByte => Some(parse_twobyte_uncheck(buf)),
    }
}

/// The one-byte item header at the front of `buf`; `None` for the reserved id 15.
fn parse_onebyte_uncheck(buf: &[u8]) -> (r: Option<(&[u8], u8, usize)>)
    requires
        buf@.len() >= 1,
    ensures
        buf@[0] / 16 == 15 <==> r is None,
        r matches Some((next, id, len)) ==> {
            &&& next@ == buf@.subrange(1, buf@.len() as int)
            &&& id == buf@[0] / 16
            &&& len == buf@[0] % 16 + 1
        },
{
    proof {
        crate::wire::lemma_byte_fields(buf@[0]);
    }
    let id = buf[0] >> 4;
    let len = (buf[0] & 0xf) as usize + 1;
    if id != 15 {
        Some((&buf[1..buf.len()], id, len))
    } else {
        None
    }
}

/// The two-byte item header at the front of `buf`.
fn parse_twobyte_uncheck(buf: &[u8]) -> (r: (&[u8], u8, usize))
    requires
        buf@.len() >= 2,
    ensures
        r.0@ == buf@.subrange(2, buf@.len() as int),
        r.1 == buf@[0],
        r.2 == buf@[1],
{
    let id = buf[0];
    let len = buf[1] as usize;
    (&buf[2..buf.len()], id, len)
}

/// Whether `b`, where an item would start, is a padding byte in profile `fmt`.
fn is_padding_byte(b: u8, fmt: ExtFormat) -> (r: bool)
    ensures
        r == is_padding(fmt, seq![b]),
{
    proof {
        crate::wire::lemma_byte_fields(b);
    }
    match fmt {
        ExtFormat::OneByte => b >> 4 == 0,
        ExtFormat::TwoByte => b == 0,
    }
}

/// Scans an extension block in profile `fmt` to its end or its terminator.
fn check_ext(buf: &[u8], fmt: ExtFormat) -> (r: Result<(), RtpError>)
    ensures
        r == ext_check(fmt, buf@),
{
    let ghost whole = buf@;
    let mut rest = buf;
    let hl: usize = match fmt {
        ExtFormat::OneByte => 1,
        ExtFormat::TwoByte => 2,
    };
    while !rest.is_empty()
        invariant
            ext_check(fmt, rest@) == ext_check(fmt, whole),
            whole == buf@,
            hl == item_header_len(fmt),
        decreases rest@.len(),
    {
        if is_padding_byte(rest[0], fmt) {
            rest = &rest[1..rest.len()];
            continue;
        }
        if rest.len() < hl {
            return Err(RtpError::NotEnoughBuffer {
                expect: hl,
                actual: rest.len(),
                origin: "TwoByte ext header length",
            });
        }
        let Some((next, _id, len)) = parse_item_header(rest, fmt) else {
            return Ok(());
        };
        if next.len() < len {
            return Err(RtpError::NotEnoughBuffer {
                expect: len,
                actual: next.len(),
                origin: match fmt {
                    ExtFormat::OneByte => "OneByte ext body length",
                    ExtFormat::TwoByte => "TwoByte ext body length",
                },
            });
        }
        rest = &next[len..next.len()];
    }
    Ok(())
}

/// The items of an extension block, yielded one at a time.
pub struct ExtIter<'a> {
    buf: &'a [u8],
    format: ExtFormat,
}

impl<'a> ExtIter<'a> {
    /// The items still to come.
    pub closed spec fn items(&self) -> Seq<(u8, Seq<u8>)> {
        ext_items(self.format, self.buf@)
    }

    /// The next item, `(id, body)`, or `None` when no item is left.
    pub fn next(&mut self) -> (r: Option<(u8, &'a [u8])>)
        ensures
            old(self).items().len() == 0 ==> r is None && final(self).items().len() == 0,
            old(self).items().len() > 0 ==> {
                &&& r matches Some((id, body)) && (id, body@) == old(self).items()[0]
                &&& final(self).items() == old(self).items().drop_first()
            },
    {
        let fmt = self.format;
        let hl: usize = match fmt {
            ExtFormat::OneByte => 1,
            ExtFormat::TwoByte => 2,
        };
        let ghost start = self.buf@;
        while !self.buf.is_empty()
            invariant
                ext_items(fmt, self.buf@) == ext_items(fmt, start),
                start == old(self).buf@,
                old(self).format == fmt,
                self.format == fmt,
                hl == item_header_len(fmt),
            decreases self.buf@.len(),
        {
            if is_padding_byte(self.buf[0], fmt) {
                self.buf = &self.buf[1..self.buf.len()];
                continue;
            }
            if self.buf.len() < hl {
                return None;
            }
            let Some((next, id, len)) = parse_item_header(self.buf, fmt) else {
                return None;
            };
            if next.len() < len {
                return None;
            }
            let body = &next[0..len];
            self.buf = &next[len..next.len()];
            return Some((id, body));
        }
        None
    }
}

/// The primitives that write extension items of one profile.
pub struct WriteExtFns {
    pub format: ExtFormat,
}


/// The item header that `begin` writes, its length field still clear.
pub open spec fn begin_bytes(fmt: ExtFormat, id: u8) -> Seq<u8> {
    match fmt {
        ExtFormat::OneByte => seq![((id % 16) * 16) as u8],
        ExtFormat::TwoByte => seq![id, 0u8],
    }
}

/// The body lengths that a format can state: 1 to 16 bytes, or 0 to 255.
pub open spec fn body_len_ok(fmt: ExtFormat, n: int) -> bool {
    match fmt {
        ExtFormat::OneByte => 1 <= n <= 16,
        ExtFormat::TwoByte => 0 <= n <= 255,
    }
}

impl WriteExtFns {
    /// Writes the header of an item with id `id` at `at`, its length left to
    /// `end`; returns the header's length.
    pub fn begin(&self, buf: &mut Vec<u8>, at: usize, id: u8) -> (r: usize)
        requires
            at + item_header_len(self.format) <= old(buf)@.len(),
        ensures
            r == item_header_len(self.format),
            final(buf)@ == splice(old(buf)@, at as int, begin_bytes(self.format, id)),
    {
        match self.format {
            ExtFormat::OneByte => write_onebyte_begin(buf, at, id),
            ExtFormat::TwoByte => write_twobyte_begin(buf, at, id),
        }
    }

    /// Fills in the length field of the item whose header `begin` wrote at `at`.
    pub fn end(&self, buf: &mut Vec<u8>, at: usize, body_len: usize)
        requires
            at + item_header_len(self.format) <= old(buf)@.len(),
            body_len_ok(self.format, body_len as int),
        ensures
            self.format == ExtFormat::OneByte ==> final(buf)@ == old(buf)@.update(
                at as int,
                old(buf)@[at as int] | ((body_len - 1) as u8),
            ),
            self.format == ExtFormat::TwoByte ==> final(buf)@ == old(buf)@.update(
                at + 1,
                body_len as u8,
            ),
    {
        match self.format {
            ExtFormat::OneByte => write_onebyte_end(buf, at, body_len),
            ExtFormat::TwoByte => write_twobyte_end(buf, at, body_len),
        }
    }
}

fn write_onebyte_begin(buf: &mut Vec<u8>, at: usize, id: u8) -> (r: usize)
    requires
        at + 1 <= old(buf)@.len(),
    ensures
        r == 1,
        final(buf)@ == splice(old(buf)@, at as int, begin_bytes(ExtFormat::OneByte, id)),
{
    proof {
        crate::wire::lemma_high_nibble(id);
    }
    buf[at] = id << 4;
    assert(buf@ =~= splice(old(buf)@, at as int, begin_bytes(ExtFormat::OneByte, id)));
    1
}

fn write_onebyte_end(buf: &mut Vec<u8>, at: usize, body_len: usize)
    requires
        at + 1 <= old(buf)@.len(),
        1 <= body_len <= 16,
    ensures
        final(buf)@ == old(buf)@.update(at as int, old(buf)@[at as int] | ((body_len - 1) as u8)),
{
    let len = body_len as u8;
    buf[at] = buf[at] | ((len - 1) & 0x0F);
    proof {
        crate::wire::lemma_byte_fields((len - 1) as u8);
    }
}

fn write_twobyte_begin(buf: &mut Vec<u8>, at: usize, id: u8) -> (r: usize)
    requires
        at + 2 <= old(buf).len(),
    ensures
        r == 2,
        final(buf)@ == splice(old(buf)@, at as int, begin_bytes(ExtFormat::TwoByte, id)),
{
    buf[at] = id;
    buf[at + 1] = 0;
    assert(buf@ =~= splice(old(buf)@, at as int, begin_bytes(ExtFormat::TwoByte, id)));
    2
}

fn write_twobyte_end(buf: &mut Vec<u8>, at: usize, body_len: usize)
    requires
        at + 2 <= old(buf).len(),
        body_len <= 255,
    ensures
        final(buf)@ == old(buf)@.update(at + 1, body_len as u8),
{
    buf[at + 1] = body_len as u8;
}

} // verus!
