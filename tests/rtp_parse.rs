use media_rs::{RefRtpHeader, RefRtpPacket, RtpError};

fn basic(first: u8) -> Vec<u8> {
    vec![first, 96, 0, 1, 0, 0, 0, 2, 0, 0, 0, 3]
}

#[test]
fn demux_boundary() {
    let mut p = basic(200);
    assert!(matches!(RefRtpPacket::parse(&p), Err(RtpError::UnknownFirst(200))));
    assert!(matches!(RefRtpHeader::parse(&p, true), Err(RtpError::UnknownFirst(200))));
    assert!(matches!(RefRtpPacket::parse_with(&p, false), Err(RtpError::UnknownVersion(3))));
    p[0] = 160;
    // 160 has the padding flag set and no padding byte after the header
    assert!(matches!(
        RefRtpPacket::parse(&p),
        Err(RtpError::NotEnoughBuffer { expect: 12, actual: 11, .. })
    ));
    p.push(1);
    let ok = RefRtpPacket::parse(&p).unwrap();
    assert_eq!(ok.padding(), Some(1));
    assert_eq!(ok.payload(), &[] as &[u8]);
    assert!(RefRtpPacket::parse(&basic(128)).is_ok());
    assert!(matches!(RefRtpPacket::parse(&basic(192)), Err(RtpError::UnknownFirst(192))));
    assert!(matches!(RefRtpPacket::parse(&basic(127)), Err(RtpError::UnknownFirst(127))));
}

#[test]
fn rtp_error_stages() {
    assert!(matches!(
        RefRtpPacket::parse(&[0x80; 11]),
        Err(RtpError::NotEnoughBuffer { expect: 12, actual: 11, .. })
    ));
    assert!(matches!(RefRtpPacket::parse_with(&basic(0x40), false), Err(RtpError::UnknownVersion(1))));
    // extension flag but no room for the extension header
    assert!(matches!(
        RefRtpPacket::parse(&basic(0x90)),
        Err(RtpError::NotEnoughBuffer { expect: 16, actual: 12, .. })
    ));
    // extension body longer than the buffer
    let mut e = basic(0x90);
    e.extend_from_slice(&[0xBE, 0xDE, 0, 1, 0x10]);
    assert!(matches!(
        RefRtpPacket::parse(&e),
        Err(RtpError::NotEnoughBuffer { expect: 20, actual: 17, .. })
    ));
    // unknown profile
    let mut u = basic(0x90);
    u.extend_from_slice(&[0x12, 0x34, 0, 0]);
    assert!(matches!(RefRtpPacket::parse(&u), Err(RtpError::UnknownExtFormat(0x1234))));
    // one-byte item longer than the block
    let mut t = basic(0x90);
    t.extend_from_slice(&[0xBE, 0xDE, 0, 1, 0x15, 1, 2, 3]);
    assert!(matches!(
        RefRtpPacket::parse(&t),
        Err(RtpError::NotEnoughBuffer { expect: 6, actual: 3, .. })
    ));
    // CSRC list longer than the buffer
    assert!(matches!(
        RefRtpPacket::parse(&basic(0x81)),
        Err(RtpError::NotEnoughBuffer { expect: 16, actual: 12, .. })
    ));
    // zero padding length
    let mut z = basic(0xA0);
    z.push(0);
    assert!(matches!(RefRtpPacket::parse(&z), Err(RtpError::InvalidPaddingLength(0))));
    // padding longer than what follows the header
    let mut l = basic(0xA0);
    l.extend_from_slice(&[1, 5]);
    assert!(matches!(
        RefRtpPacket::parse(&l),
        Err(RtpError::NotEnoughBuffer { expect: 17, actual: 14, .. })
    ));
}

#[test]
fn rtp_header_accessors() {
    let p = [0x92, 0xE0, 0xAB, 0xCD, 1, 2, 3, 4, 5, 6, 7, 8, 0, 0, 0, 9, 0, 0, 0, 10, 0x10, 0, 0, 0, 42];
    let v = RefRtpPacket::parse(&p).unwrap();
    let h = v.header();
    assert_eq!(h.version(), 2);
    assert!(!h.padding_flag());
    assert!(h.extension_flag());
    assert!(h.mark_flag());
    assert_eq!(h.payload_type(), 0x60);
    assert_eq!(h.seq().0, 0xABCD);
    assert_eq!(h.timestamp().0, 0x0102_0304);
    assert_eq!(h.ssrc(), 0x0506_0708);
    assert_eq!(h.csrc_count(), 2);
    assert_eq!(h.header_end(), 20);
    assert_eq!(v.payload_offset(), 24);
    assert_eq!(v.payload(), &[42]);
    assert_eq!(v.inner().len(), 25);
    let mut it = v.extension_iter().unwrap();
    assert!(it.next().is_none());
    let mut c = v.csrc_iter();
    assert_eq!(c.next(), Some(9));
    assert_eq!(c.next(), Some(10));
    assert_eq!(c.next(), None);
    let u = RefRtpPacket::uncheck(&p);
    assert_eq!(u.payload(), &[42]);
    let raw = RefRtpHeader::new(&p);
    assert_eq!(raw.ssrc(), 0x0506_0708);
}

#[test]
fn unknown_profile_is_reported_before_extension_length() {
    let mut b = vec![0x90_u8];
    b.extend_from_slice(&[0; 11]);
    b.extend_from_slice(&[0x12, 0x34, 0xFF, 0xFF]);
    assert!(matches!(RefRtpPacket::parse(&b), Err(RtpError::UnknownExtFormat(0x1234))));
    let mut k = vec![0x90_u8];
    k.extend_from_slice(&[0; 11]);
    k.extend_from_slice(&[0xBE, 0xDE, 0xFF, 0xFF]);
    assert!(matches!(
        RefRtpPacket::parse(&k),
        Err(RtpError::NotEnoughBuffer { expect: 262156, actual: 16, .. })
    ));
}
