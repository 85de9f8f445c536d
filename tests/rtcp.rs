use media_rs::{RefRtcpHeader, RefRtcpPacket, RefRtcpPackets, RtcpTryIter, RtpError};

fn packet(pt: u8, ssrc: u32, body: &[u8], pad: u8) -> Vec<u8> {
    let mut p = vec![0x80 | if pad > 0 { 0x20 } else { 0 } | 1, pt, 0, 0];
    p.extend_from_slice(&ssrc.to_be_bytes());
    p.extend_from_slice(body);
    if pad > 0 {
        for _ in 1..pad {
            p.push(0);
        }
        p.push(pad);
    }
    let words = (p.len() / 4 - 1) as u16;
    p[2..4].copy_from_slice(&words.to_be_bytes());
    p
}

#[test]
fn rtcp_header_fields() {
    let p = packet(200, 0x0102_0304, &[9, 9, 9, 9], 0);
    let h = RefRtcpHeader::parse(&p).unwrap();
    assert_eq!(h.version(), 2);
    assert!(!h.padding_flag());
    assert_eq!(h.r_count(), 1);
    assert_eq!(h.payload_type(), 200);
    assert_eq!(h.words_minus_one(), 2);
    assert_eq!(h.ssrc(), 0x0102_0304);
}

#[test]
fn compound_sequence_yields_each_packet() {
    let a = packet(200, 1, &[1, 2, 3, 4], 0);
    let b = packet(201, 2, &[5, 6, 7, 8, 9, 10, 11, 12], 0);
    let c = packet(223, 3, &[7, 7], 2);
    let mut buf = a.clone();
    buf.extend_from_slice(&b);
    buf.extend_from_slice(&c);

    let mut it = RtcpTryIter::new(&buf);
    let mut seen = Vec::new();
    while let Some(item) = it.next() {
        let p = item.unwrap();
        seen.push((p.header().ssrc(), p.header().payload_type(), p.payload().len()));
    }
    assert_eq!(seen, vec![(1, 200, 4), (2, 201, 8), (3, 223, 2)]);

    let all = RefRtcpPackets::parse(&buf).unwrap();
    let mut un = all.uncheck_iter();
    let mut count = 0;
    while let Some(p) = un.next() {
        count += 1;
        assert_eq!(p.packet_len(), p.inner().len());
    }
    assert_eq!(count, 3);
    let mut again = all.try_iter();
    assert!(again.next().unwrap().is_ok());
}

#[test]
fn truncated_first_packet_gives_one_error() {
    let a = packet(200, 1, &[1, 2, 3, 4, 5, 6, 7, 8], 0);
    let cut = &a[..10];
    let mut it = RtcpTryIter::new(cut);
    match it.next() {
        Some(Err(RtpError::NotEnoughBuffer { expect, actual, .. })) => {
            assert_eq!(expect, 16);
            assert_eq!(actual, 10);
        }
        _ => panic!("expected a truncation error"),
    }
    assert!(it.next().is_none());
    assert!(RefRtcpPackets::parse(cut).is_err());
}

#[test]
fn rtcp_packet_errors() {
    assert!(matches!(
        RefRtcpPacket::parse(&[0x80, 200, 0]),
        Err(RtpError::NotEnoughBuffer { expect: 8, actual: 3, .. })
    ));
    let mut p = packet(200, 1, &[], 0);
    p[0] = 0x40;
    assert!(matches!(RefRtcpPacket::parse(&p), Err(RtpError::UnknownVersion(1))));
    let q = packet(100, 1, &[], 0);
    assert!(matches!(RefRtcpPacket::parse(&q), Err(RtpError::UnknownPayloadType(100))));
    let mut z = packet(200, 1, &[1, 2, 3, 4], 0);
    z[0] |= 0x20;
    z[11] = 0;
    assert!(matches!(RefRtcpPacket::parse(&z), Err(RtpError::InvalidPaddingLength(0))));
    z[11] = 9;
    assert!(matches!(
        RefRtcpPacket::parse(&z),
        Err(RtpError::NotEnoughBuffer { expect: 17, actual: 12, .. })
    ));
}

#[test]
fn rtcp_padding_and_payload() {
    let p = packet(204, 5, &[1, 2, 3, 4, 5], 3);
    let v = RefRtcpPacket::parse(&p).unwrap();
    assert_eq!(v.padding(), Some(3));
    assert_eq!(v.payload_offset(), 8);
    assert_eq!(v.payload(), &[1, 2, 3, 4, 5]);
    assert_eq!(v.packet_len(), 16);
    let u = RefRtcpPacket::uncheck(&p);
    assert_eq!(u.payload(), &[1, 2, 3, 4, 5]);
}

#[test]
fn empty_compound_buffer() {
    let all = RefRtcpPackets::parse(&[]).unwrap();
    assert!(all.uncheck_iter().next().is_none());
    assert!(RtcpTryIter::new(&[]).next().is_none());
}

#[test]
fn rtcp_packet_declaring_one_word_is_accepted() {
    let buf = [0x80, 200, 0, 0, 0, 0, 0, 7];
    let p = RefRtcpPacket::parse(&buf).unwrap();
    assert_eq!(p.packet_len(), 4);
    assert_eq!(p.header().ssrc(), 7);
    assert_eq!(p.payload(), &[] as &[u8]);
    // the next packet starts after the declared 4 bytes: 4 bytes are too few for a header
    let mut it = RtcpTryIter::new(&buf);
    assert!(it.next().unwrap().is_ok());
    assert!(matches!(
        it.next(),
        Some(Err(RtpError::NotEnoughBuffer { expect: 8, actual: 4, .. }))
    ));
    assert!(it.next().is_none());
}
