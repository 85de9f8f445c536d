//! What the builder writes, the parser reads back.
use vstd::prelude::*;
use crate::buf_mut::{repeat, splice};
use crate::builder::{
    add_payload, csrc_bytes, finish_ext, header_bytes, item_bytes, marker_byte, pad_to_word,
    start_ext,
};
use crate::extension::{ExtFormat, body_len_ok, ext_check, ext_items, profile_of};
use crate::rtp::{
    format_of, rtp_check, rtp_csrcs, rtp_ext_body, rtp_ext_profile, rtp_extension_flag,
    rtp_marker, rtp_padding_flag, rtp_payload, rtp_payload_type, rtp_seq, rtp_ssrc,
    rtp_timestamp, rtp_version,
};
use crate::wire::{be16, be16_bytes, be32, be32_bytes, lemma_set_flag};
use crate::wrapping::{SeqNum, Timestamp};

verus! {

/// Extension items one after another, as `write_ext` lays them out.
pub open spec fn items_bytes(fmt: ExtFormat, items: Seq<(u8, Seq<u8>)>) -> Seq<u8>
    decreases items.len(),
{
    if items.len() == 0 {
        Seq::empty()
    } else {
        item_bytes(fmt, items[0].0, items[0].1) + items_bytes(fmt, items.drop_first())
    }
}

/// An item that reads back as itself: a body length the format can state,
/// and an id that is neither padding (0) nor, in the one-byte format, the
/// terminator (15) or too wide for a nibble.
pub open spec fn item_round_trips(fmt: ExtFormat, item: (u8, Seq<u8>)) -> bool {
    &&& body_len_ok(fmt, item.1.len() as int)
    &&& item.0 != 0
    &&& fmt == ExtFormat::OneByte ==> item.0 < 15
}

/// The packet that the builder stages write for these fields: header and
/// CSRC list, the extension block if any, then payload and padding.
pub open spec fn rtp_built(
    mark: bool,
    pt: u8,
    seq: SeqNum,
    ts: Timestamp,
    ssrc: u32,
    csrcs: Seq<u32>,
    ext: Option<(ExtFormat, Seq<(u8, Seq<u8>)>)>,
    payload: Seq<u8>,
    padding: bool,
) -> Seq<u8> {
    let h = header_bytes(mark, pt, seq, ts, ssrc, csrcs);
    let w = match ext {
        None => h,
        Some((fmt, items)) => finish_ext(
            start_ext(h, fmt) + items_bytes(fmt, items),
            h.len() as int,
        ),
    };
    add_payload(w, payload, padding)
}

proof fn lemma_be16_bytes(v: int)
    requires
        0 <= v < 0x1_0000,
    ensures
        be16(be16_bytes(v), 0) == v,
        be16_bytes(v).len() == 2,
{
}

proof fn lemma_be32_bytes(v: int)
    requires
        0 <= v < 0x1_0000_0000,
    ensures
        be32(be32_bytes(v), 0) == v,
        be32_bytes(v).len() == 4,
{
    let b = be32_bytes(v);
    lemma_be16_bytes(v / 0x1_0000);
    lemma_be16_bytes(v % 0x1_0000);
    assert(be16(b, 0) == be16(be16_bytes(v / 0x1_0000), 0));
    assert(be16(b, 2) == be16(be16_bytes(v % 0x1_0000), 0));
}

proof fn lemma_csrc_bytes(c: Seq<u32>)
    ensures
        csrc_bytes(c).len() == 4 * c.len(),
        forall|k: int| 0 <= k < c.len() ==> be32(csrc_bytes(c), 4 * k) == c[k],
    decreases c.len(),
{
    if c.len() > 0 {
        let init = c.drop_last();
        lemma_csrc_bytes(init);
        lemma_be32_bytes(c.last() as int);
        let b = csrc_bytes(c);
        assert forall|k: int| 0 <= k < c.len() implies be32(b, 4 * k) == c[k] by {
            if k < init.len() {
                assert(be32(b, 4 * k) == be32(csrc_bytes(init), 4 * k));
                assert(init[k] == c[k]);
            } else {
                assert(be32(b, 4 * k) == be32(be32_bytes(c.last() as int), 0));
            }
        }
    }
}

/// The fields of the header that `from_basic` writes.
proof fn lemma_header_fields(
    mark: bool,
    pt: u8,
    seq: SeqNum,
    ts: Timestamp,
    ssrc: u32,
    csrcs: Seq<u32>,
)
    requires
        csrcs.len() <= 15,
    ensures
        ({
            let h = header_bytes(mark, pt, seq, ts, ssrc, csrcs);
            &&& h.len() == 12 + 4 * csrcs.len()
            &&& h[0] == 0x80 + csrcs.len()
            &&& h[1] == marker_byte(mark, pt)
            &&& be16(h, 2) == seq.0
            &&& be32(h, 4) == ts.0
            &&& be32(h, 8) == ssrc
            &&& forall|k: int| 0 <= k < csrcs.len() ==> be32(h, 12 + 4 * k) == csrcs[k]
        }),
{
    let h = header_bytes(mark, pt, seq, ts, ssrc, csrcs);
    lemma_csrc_bytes(csrcs);
    lemma_be16_bytes(seq.0 as int);
    lemma_be32_bytes(ts.0 as int);
    lemma_be32_bytes(ssrc as int);
    let cb = csrc_bytes(csrcs);
    assert(be16(h, 2) == be16(be16_bytes(seq.0 as int), 0));
    assert(be32(h, 4) == be32(be32_bytes(ts.0 as int), 0));
    assert(be32(h, 8) == be32(be32_bytes(ssrc as int), 0));
    assert forall|k: int| 0 <= k < csrcs.len() implies be32(h, 12 + 4 * k) == csrcs[k] by {
        assert(be32(h, 12 + 4 * k) == be32(cb, 4 * k));
    }
}

/// A run of padding bytes holds no item and passes the check.
proof fn lemma_zero_run(fmt: ExtFormat, k: nat)
    ensures
        ext_check(fmt, repeat(0, k)) is Ok,
        ext_items(fmt, repeat(0, k)) == Seq::<(u8, Seq<u8>)>::empty(),
    decreases k,
{
    if k > 0 {
        lemma_zero_run(fmt, (k - 1) as nat);
        assert(repeat(0, k).subrange(1, k as int) =~= repeat(0, (k - 1) as nat));
    }
}

/// Items laid out by `write_ext`, in either profile, then any run of padding
/// bytes: the check passes and the scan reads back exactly those items, in
/// order.
pub proof fn lemma_items_read_back(fmt: ExtFormat, items: Seq<(u8, Seq<u8>)>, k: nat)
    requires
        forall|i: int| 0 <= i < items.len() ==> item_round_trips(fmt, #[trigger] items[i]),
    ensures
        ext_check(fmt, items_bytes(fmt, items) + repeat(0, k)) is Ok,
        ext_items(fmt, items_bytes(fmt, items) + repeat(0, k)) == items,
    decreases items.len(),
{
    if items.len() == 0 {
        lemma_zero_run(fmt, k);
        assert(items_bytes(fmt, items) + repeat(0, k) =~= repeat(0, k));
        assert(items =~= Seq::<(u8, Seq<u8>)>::empty());
    } else {
        let rest_items = items.drop_first();
        assert forall|i: int| 0 <= i < rest_items.len() implies item_round_trips(
            fmt,
            #[trigger] rest_items[i],
        ) by {
            assert(rest_items[i] == items[i + 1]);
        }
        lemma_items_read_back(fmt, rest_items, k);
        let (id, body) = items[0];
        assert(item_round_trips(fmt, items[0]));
        let rest = items_bytes(fmt, rest_items) + repeat(0, k);
        let s = items_bytes(fmt, items) + repeat(0, k);
        let hb = item_bytes(fmt, id, body);
        assert(s =~= hb + rest);
        let hl: int = match fmt {
            ExtFormat::OneByte => 1,
            ExtFormat::TwoByte => 2,
        };
        let len = body.len() as int;
        if fmt == ExtFormat::OneByte {
            let b: int = id * 16 + len - 1;
            assert(b / 16 == id && b % 16 == len - 1) by (nonlinear_arith)
                requires
                    1 <= id < 15,
                    1 <= len <= 16,
                    b == id * 16 + len - 1,
            ;
            assert(s[0] == b);
        } else {
            assert(s[0] == id && s[1] == len);
        }
        let after = s.subrange(hl, s.len() as int);
        assert(after =~= body + rest);
        assert(after.subrange(0, len) =~= body);
        assert(after.subrange(len, after.len() as int) =~= rest);
        assert(items =~= seq![(id, body)] + rest_items);
    }
}

proof fn lemma_pad_to_word(n: int)
    requires
        n >= 0,
    ensures
        0 <= pad_to_word(n) < 4,
        (n + pad_to_word(n)) % 4 == 0,
        4 * ((n + pad_to_word(n)) / 4) == n + pad_to_word(n),
{
}

/// The extension block that `extension`, `write_ext` and the closing step
/// write after the header `h`.
proof fn lemma_ext_block(h: Seq<u8>, fmt: ExtFormat, ib: Seq<u8>)
    requires
        h.len() >= 12,
        h.len() % 4 == 0,
        ib.len() <= 4 * 0xffff,
    ensures
        ({
            let o = h.len() as int;
            let pad = pad_to_word(ib.len() as int);
            let w = finish_ext(start_ext(h, fmt) + ib, o);
            &&& 0 <= pad < 4
            &&& w.len() == o + 4 + ib.len() + pad
            &&& w.len() % 4 == 0
            &&& forall|i: int| 1 <= i < o ==> w[i] == h[i]
            &&& w[0] == h[0] | 0x10
            &&& be16(w, o) == profile_of(fmt)
            &&& 4 * be16(w, o + 2) == ib.len() + pad
            &&& w.subrange(o + 4, o + 4 + ib.len() + pad) == ib + repeat(0, pad as nat)
        }),
{
    let o = h.len() as int;
    let u = start_ext(h, fmt) + ib;
    let len = u.len() - o - 4;
    assert(len == ib.len());
    let pad = pad_to_word(len);
    lemma_pad_to_word(len);
    let words = (len + pad) / 4;
    assert(words < 0x1_0000);
    let padded = u + repeat(0, pad as nat);
    let w = finish_ext(u, o);
    assert(w == splice(padded, o + 2, be16_bytes(words)));
    lemma_be16_bytes(profile_of(fmt) as int);
    lemma_be16_bytes(words);
    assert(be16(w, o) == be16(be16_bytes(profile_of(fmt) as int), 0));
    assert(be16(w, o + 2) == be16(be16_bytes(words), 0));
    assert(w.subrange(o + 4, o + 4 + ib.len() + pad) =~= ib + repeat(0, pad as nat));
}

/// The payload stage after `w`, a whole number of words.
proof fn lemma_payload_stage(w: Seq<u8>, payload: Seq<u8>, padding: bool)
    requires
        w.len() >= 1,
        w.len() % 4 == 0,
    ensures
        ({
            let s = add_payload(w, payload, padding);
            let padded = padding && payload.len() % 4 != 0;
            let p = pad_to_word(payload.len() as int);
            &&& s.len() == w.len() + payload.len() + (if padded {
                p
            } else {
                0
            })
            &&& forall|i: int| 1 <= i < w.len() ==> s[i] == w[i]
            &&& s[0] == (if padded {
                w[0] | 0x20
            } else {
                w[0]
            })
            &&& s.subrange(w.len() as int, (w.len() + payload.len()) as int) == payload
            &&& padded ==> s.last() == p && 0 < p < 4
        }),
{
    let t = w + payload;
    assert(pad_to_word(t.len() as int) == pad_to_word(payload.len() as int));
    let s = add_payload(w, payload, padding);
    assert(s.subrange(w.len() as int, (w.len() + payload.len()) as int) =~= payload);
}

/// Reads a packet back from what is known of its three stages: the header
/// `h`, the header with extension `w`, and the packet `s`.
#[verifier::rlimit(40)]
proof fn lemma_read_back(
    s: Seq<u8>,
    w: Seq<u8>,
    h: Seq<u8>,
    mark: bool,
    pt: u8,
    csrcs: Seq<u32>,
    ext_fmt: Option<ExtFormat>,
    ext_len: int,
    payload: Seq<u8>,
    padding: bool,
)
    requires
        pt < 128,
        csrcs.len() <= 15,
        h.len() == 12 + 4 * csrcs.len(),
        h[0] == 0x80 + csrcs.len(),
        h[1] == marker_byte(mark, pt),
        w.len() % 4 == 0,
        ext_fmt is None ==> w.len() == h.len() && w[0] == h[0],
        ext_fmt is Some ==> {
            &&& w.len() == h.len() + 4 + ext_len
            &&& w[0] == h[0] | 0x10
            &&& be16(w, h.len() as int) == profile_of(ext_fmt->Some_0)
            &&& 4 * be16(w, h.len() as int + 2) == ext_len
            &&& ext_check(
                ext_fmt->Some_0,
                w.subrange(h.len() as int + 4, h.len() as int + 4 + ext_len),
            ) is Ok
        },
        forall|i: int| 1 <= i < h.len() ==> w[i] == h[i],
        ({
            let padded = padding && payload.len() % 4 != 0;
            let p = pad_to_word(payload.len() as int);
            &&& s.len() == w.len() + payload.len() + (if padded {
                p
            } else {
                0
            })
            &&& forall|i: int| 1 <= i < w.len() ==> s[i] == w[i]
            &&& s[0] == (if padded {
                w[0] | 0x20
            } else {
                w[0]
            })
            &&& s.subrange(w.len() as int, (w.len() + payload.len()) as int) == payload
            &&& padded ==> s.last() == p && 0 < p < 4
        }),
    ensures
        rtp_check(s, true) is Ok,
        rtp_version(s) == 2,
        rtp_marker(s) == mark,
        rtp_payload_type(s) == pt,
        rtp_payload(s) == payload,
        rtp_padding_flag(s) == (padding && payload.len() % 4 != 0),
        rtp_extension_flag(s) == ext_fmt is Some,
        ext_fmt is Some ==> format_of(rtp_ext_profile(s)) == ext_fmt->Some_0 && rtp_ext_body(s)
            == w.subrange(h.len() as int + 4, h.len() as int + 4 + ext_len),
{
    let n = csrcs.len();
    let b0 = (0x80 + n) as u8;
    crate::wire::lemma_byte_fields(b0);
    lemma_set_flag(b0, 0x10);
    let wb0 = w[0];
    lemma_set_flag(wb0, 0x20);
    crate::wire::lemma_byte_fields(wb0);
    crate::wire::lemma_byte_fields(pt);
    assert(s[1] == h[1]);
    let o = h.len() as int;
    if ext_fmt is Some {
        assert(be16(s, o) == be16(w, o));
        assert(be16(s, o + 2) == be16(w, o + 2));
        assert(rtp_ext_body(s) =~= w.subrange(o + 4, o + 4 + ext_len));
    }
    assert(rtp_payload(s) =~= payload);
}

/// Parsing what the builder writes gives back every field: the packet is
/// valid (also in strict mode), its header fields and CSRC list are those
/// written, its extension items are those written in order, its payload is
/// the payload written, and its padding flag is set exactly when padding was
/// asked for and the payload's length is not a multiple of four.
#[verifier::rlimit(40)]
pub proof fn lemma_round_trip(
    mark: bool,
    pt: u8,
    seq: SeqNum,
    ts: Timestamp,
    ssrc: u32,
    csrcs: Seq<u32>,
    ext: Option<(ExtFormat, Seq<(u8, Seq<u8>)>)>,
    payload: Seq<u8>,
    padding: bool,
)
    requires
        pt < 128,
        csrcs.len() <= 15,
        ext matches Some((fmt, items)) ==> {
            &&& forall|i: int| 0 <= i < items.len() ==> item_round_trips(fmt, #[trigger] items[i])
            &&& items_bytes(fmt, items).len() <= 4 * 0xffff
        },
    ensures
        ({
            let s = rtp_built(mark, pt, seq, ts, ssrc, csrcs, ext, payload, padding);
            &&& rtp_check(s, true) is Ok
            &&& rtp_version(s) == 2
            &&& rtp_marker(s) == mark
            &&& rtp_payload_type(s) == pt
            &&& rtp_seq(s) == seq.0
            &&& rtp_timestamp(s) == ts.0
            &&& rtp_ssrc(s) == ssrc
            &&& rtp_csrcs(s) == csrcs
            &&& rtp_extension_flag(s) == ext is Some
            &&& ext matches Some((fmt, items)) ==> format_of(rtp_ext_profile(s)) == fmt && ext_items(
                fmt,
                rtp_ext_body(s),
            ) == items
            &&& rtp_payload(s) == payload
            &&& rtp_padding_flag(s) == (padding && payload.len() % 4 != 0)
        }),
{
    let h = header_bytes(mark, pt, seq, ts, ssrc, csrcs);
    lemma_header_fields(mark, pt, seq, ts, ssrc, csrcs);
    let o = h.len() as int;
    let w = match ext {
        None => h,
        Some((fmt, items)) => finish_ext(start_ext(h, fmt) + items_bytes(fmt, items), o),
    };
    let ext_fmt = match ext {
        None => None,
        Some((fmt, items)) => Some(fmt),
    };
    let ext_len = match ext {
        None => 0,
        Some((fmt, items)) => items_bytes(fmt, items).len() + pad_to_word(
            items_bytes(fmt, items).len() as int,
        ),
    };
    match ext {
        None => {},
        Some((fmt, items)) => {
            let ib = items_bytes(fmt, items);
            lemma_ext_block(h, fmt, ib);
            lemma_items_read_back(fmt, items, pad_to_word(ib.len() as int) as nat);
        },
    }
    lemma_payload_stage(w, payload, padding);
    let s = rtp_built(mark, pt, seq, ts, ssrc, csrcs, ext, payload, padding);
    assert(s == add_payload(w, payload, padding));
    lemma_read_back(s, w, h, mark, pt, csrcs, ext_fmt, ext_len, payload, padding);
    assert forall|i: int| 1 <= i < o implies s[i] == h[i] by {
        assert(w[i] == h[i]);
    }
    assert(rtp_seq(s) == be16(h, 2));
    assert(rtp_timestamp(s) == be32(h, 4));
    assert(rtp_ssrc(s) == be32(h, 8));
    assert(rtp_csrcs(s) =~= csrcs) by {
        assert forall|k: int| 0 <= k < csrcs.len() implies rtp_csrcs(s)[k] == csrcs[k] by {
            assert(be32(s, 12 + 4 * k) == be32(h, 12 + 4 * k));
        }
    }
}

/// In the one-byte profile, a byte with id 15 where an item would start ends
/// the block: the items before it are read, nothing after it is, and the
/// check passes whatever follows.
pub proof fn lemma_terminator_truncates(items: Seq<(u8, Seq<u8>)>, b: u8, rest: Seq<u8>)
    requires
        forall|i: int|
            0 <= i < items.len() ==> item_round_trips(ExtFormat::OneByte, #[trigger] items[i]),
        b / 16 == 15,
    ensures
        ext_check(ExtFormat::OneByte, items_bytes(ExtFormat::OneByte, items) + seq![b] + rest) is Ok,
        ext_items(ExtFormat::OneByte, items_bytes(ExtFormat::OneByte, items) + seq![b] + rest)
            == items,
    decreases items.len(),
{
    let fmt = ExtFormat::OneByte;
    let tail = seq![b] + rest;
    if items.len() == 0 {
        assert(items_bytes(fmt, items) + seq![b] + rest =~= tail);
        assert(items =~= Seq::<(u8, Seq<u8>)>::empty());
    } else {
        let rest_items = items.drop_first();
        assert forall|i: int| 0 <= i < rest_items.len() implies item_round_trips(
            fmt,
            #[trigger] rest_items[i],
        ) by {
            assert(rest_items[i] == items[i + 1]);
        }
        lemma_terminator_truncates(rest_items, b, rest);
        let (id, body) = items[0];
        assert(item_round_trips(fmt, items[0]));
        let after_item = items_bytes(fmt, rest_items) + seq![b] + rest;
        let s = items_bytes(fmt, items) + seq![b] + rest;
        assert(s =~= item_bytes(fmt, id, body) + after_item);
        let len = body.len() as int;
        let hb: int = id * 16 + len - 1;
        assert(hb / 16 == id && hb % 16 == len - 1) by (nonlinear_arith)
            requires
                1 <= id < 15,
                1 <= len <= 16,
                hb == id * 16 + len - 1,
        ;
        assert(s[0] == hb);
        let after = s.subrange(1, s.len() as int);
        assert(after =~= body + after_item);
        assert(after.subrange(0, len) =~= body);
        assert(after.subrange(len, after.len() as int) =~= after_item);
        assert(items =~= seq![(id, body)] + rest_items);
    }
}

} // verus!
