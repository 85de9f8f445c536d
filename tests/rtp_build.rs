use media_rs::{ExtFormat, PayloadBuilder, RefRtpPacket, RtpBuilder, SeqNum, Timestamp};

#[derive(Debug, Clone)]
struct Case {
    padding: bool,
    mark_flag: bool,
    payload_type: u8,
    seq: SeqNum,
    timestamp: Timestamp,
    ssrc: u32,
    csrc: Vec<u32>,
    ext_fmt: Option<ExtFormat>,
    exts: Vec<(u8, Vec<u8>)>,
    payload: Vec<u8>,
}

impl Default for Case {
    fn default() -> Self {
        Self {
            padding: true,
            mark_flag: true,
            payload_type: 111,
            seq: SeqNum::from(22),
            timestamp: 3333.into(),
            ssrc: 4444,
            csrc: vec![5555],
            ext_fmt: Some(ExtFormat::OneByte),
            exts: vec![(10, vec![7, 8_u8])],
            payload: vec![1, 2, 9, 8, 7_u8],
        }
    }
}

impl Case {
    fn build_and_check(&self, buf: &mut Vec<u8>) {
        self.build_with_and_check(buf, true);
        self.build_with_and_check(buf, false);
    }

    fn build_with_and_check(&self, buf: &mut Vec<u8>, whole_ext: bool) {
        let packet_len = {
            let builder = self.rtp_builder(buf);
            self.build_rtp_extensions(builder, whole_ext)
                .payload(&self.payload[..], self.padding)
        };
        self.check(&buf[..packet_len]);
    }

    fn rtp_builder<'a>(&self, buf: &'a mut Vec<u8>) -> RtpBuilder<'a> {
        RtpBuilder::from_basic(
            buf,
            self.mark_flag,
            self.payload_type,
            self.seq,
            self.timestamp,
            self.ssrc,
            &self.csrc,
        )
    }

    fn build_rtp_extensions<'a>(&self, builder: RtpBuilder<'a>, whole: bool) -> PayloadBuilder<'a> {
        match self.ext_fmt {
            Some(ext_fmt) => {
                let mut builder = builder.extension(ext_fmt);
                if whole {
                    for ext in self.exts.iter() {
                        builder.write_ext(ext.0, &ext.1);
                    }
                } else {
                    for ext in self.exts.iter() {
                        let mut item = builder.ext(ext.0);
                        item.write_slice(&ext.1);
                        builder = item.finish();
                    }
                }
                builder.payload_builder()
            }
            None => builder.payload_builder(),
        }
    }

    fn check(&self, buf: &[u8]) {
        let rtp = RefRtpPacket::parse(buf).unwrap();
        assert_eq!(rtp.header().version(), 2);

        if !self.padding {
            assert_eq!(rtp.header().padding_flag(), false);
        } else if self.payload.len() % 4 == 0 {
            assert_eq!(rtp.header().padding_flag(), false);
        } else {
            assert_eq!(rtp.header().padding_flag(), true);
        }

        assert_eq!(rtp.header().mark_flag(), self.mark_flag);
        assert_eq!(rtp.header().payload_type(), self.payload_type);
        assert_eq!(rtp.header().seq(), self.seq);
        assert_eq!(rtp.header().timestamp(), self.timestamp);
        assert_eq!(rtp.header().ssrc(), self.ssrc);

        {
            let mut csrcs = Vec::new();
            let mut iter = rtp.csrc_iter();
            while let Some(c) = iter.next() {
                csrcs.push(c);
            }
            assert_eq!(csrcs, self.csrc);
        }

        if self.ext_fmt.is_some() {
            let mut items = Vec::new();
            let mut iter = rtp.extension_iter().unwrap();
            while let Some((id, body)) = iter.next() {
                items.push((id, body.to_vec()));
            }
            assert_eq!(items, self.exts);
        } else {
            assert!(rtp.extension_iter().is_none());
        }

        assert_eq!(rtp.payload(), &self.payload[..]);
    }
}

#[test]
fn test_build_rtp() {
    let mut buf = vec![0_u8; 1700];

    // has extension
    {
        let mut caze = Case::default();
        caze.build_and_check(&mut buf);

        // extension onebyte format
        caze.ext_fmt = Some(ExtFormat::OneByte);
        caze.build_and_check(&mut buf);

        // extension twobyte format
        caze.ext_fmt = Some(ExtFormat::TwoByte);
        caze.build_and_check(&mut buf);

        // empty extension
        caze.ext_fmt = Some(ExtFormat::OneByte);
        caze.exts = vec![];
        caze.build_and_check(&mut buf);

        // no extension
        caze.ext_fmt = None;
        caze.build_and_check(&mut buf);
    }

    // payload padding
    {
        let mut caze = Case::default();

        for len in 1..=8 {
            caze.payload = vec![0; len];
            caze.build_and_check(&mut buf);
        }
    }
}

#[test]
fn round_trip_every_profile_length_and_padding() {
    let mut buf = vec![0_u8; 256];
    for ext_fmt in [None, Some(ExtFormat::OneByte), Some(ExtFormat::TwoByte)] {
        for len in 0..=8_usize {
            for padding in [false, true] {
                let mut caze = Case::default();
                caze.ext_fmt = ext_fmt;
                caze.padding = padding;
                caze.payload = (0..len as u8).map(|b| b + 40).collect();
                caze.csrc = vec![1, 0xdead_beef];
                caze.exts = vec![(3, vec![1, 2, 3]), (14, vec![9; 16])];
                caze.build_and_check(&mut buf);
            }
        }
    }
}

#[test]
fn concrete_scenario_one_byte_extension_and_padding() {
    let mut buf = vec![0_u8; 64];
    let len = RtpBuilder::from_basic(&mut buf, true, 111, SeqNum(22), Timestamp(3333), 4444, &[5555])
        .extension_one(10, &[7, 8])
        .payload(&[1, 2, 9, 8, 7], true);
    // 12 header + 4 csrc + 4 ext header + 4 ext body + 5 payload + 3 padding
    assert_eq!(len, 32);
    let rtp = RefRtpPacket::parse(&buf[..len]).unwrap();
    let h = rtp.header();
    assert!(h.padding_flag());
    assert!(h.extension_flag());
    assert_eq!(h.csrc_count(), 1);
    assert!(h.mark_flag());
    assert_eq!(h.payload_type(), 111);
    assert_eq!(h.seq(), SeqNum(22));
    assert_eq!(h.timestamp(), Timestamp(3333));
    assert_eq!(h.ssrc(), 4444);
    assert_eq!(rtp.padding(), Some(3));
    let mut it = rtp.csrc_iter();
    assert_eq!(it.next(), Some(5555));
    assert_eq!(it.next(), None);
    let mut ext = rtp.extension_iter().unwrap();
    assert_eq!(ext.next(), Some((10, &[7_u8, 8][..])));
    assert_eq!(ext.next(), None);
    assert_eq!(rtp.payload(), &[1, 2, 9, 8, 7]);
    // first byte: version 2, padding, extension, one CSRC
    assert_eq!(buf[0], 0b1011_0001);
    assert_eq!(&buf[12..16], &5555_u32.to_be_bytes());
    assert_eq!(&buf[16..20], &[0xBE, 0xDE, 0, 1]);
    assert_eq!(&buf[20..24], &[0xA1, 7, 8, 0]);
    assert_eq!(&buf[29..32], &[0, 0, 3]);
}

#[test]
fn builder_writes_header_bytes_big_endian() {
    let mut buf = vec![0xff_u8; 40];
    let n = media_rs::build_header(&mut buf, false, 0xff, SeqNum(0x0102), Timestamp(0x0304_0506), 0x0708_090a, &[0x0b0c_0d0e, 1]);
    assert_eq!(n, 20);
    assert_eq!(
        &buf[..20],
        &[0x82, 0x7f, 1, 2, 3, 4, 5, 6, 7, 8, 9, 10, 11, 12, 13, 14, 0, 0, 0, 1]
    );
    assert_eq!(buf[20], 0xff);
}

#[test]
fn aligned_payload_gets_no_padding() {
    let mut buf = vec![0_u8; 64];
    let n = RtpBuilder::from_basic(&mut buf, false, 8, SeqNum(1), Timestamp(2), 3, &[])
        .payload(&[1, 2, 3, 4], true);
    assert_eq!(n, 16);
    assert_eq!(buf[0] & 0x20, 0);
    let rtp = RefRtpPacket::parse(&buf[..n]).unwrap();
    assert_eq!(rtp.padding(), None);
    assert_eq!(rtp.payload(), &[1, 2, 3, 4]);
}

#[test]
fn incremental_item_with_u16_pieces() {
    let mut buf = vec![0_u8; 64];
    let mut ext = RtpBuilder::from_basic(&mut buf, false, 96, SeqNum(7), Timestamp(9), 11, &[])
        .extension(ExtFormat::TwoByte);
    let mut item = ext.ext(200);
    item.write_u16(0x1234).write_u16(0xabcd);
    ext = item.finish();
    ext.write_ext(5, &[]);
    let n = ext.payload(&[], false);
    assert_eq!(n, 12 + 4 + 8);
    assert_eq!(&buf[12..24], &[0x10, 0x00, 0, 2, 200, 4, 0x12, 0x34, 0xab, 0xcd, 5, 0]);
    let rtp = RefRtpPacket::parse(&buf[..n]).unwrap();
    let mut it = rtp.extension_iter().unwrap();
    assert_eq!(it.next(), Some((200, &[0x12_u8, 0x34, 0xab, 0xcd][..])));
    assert_eq!(it.next(), Some((5, &[][..])));
    assert_eq!(it.next(), None);
}

#[test]
fn padding_bytes_overwrite_old_buffer_contents() {
    let mut buf = vec![0xff_u8; 64];
    let n = RtpBuilder::from_basic(&mut buf, false, 0, SeqNum(0), Timestamp(0), 0, &[])
        .extension(ExtFormat::TwoByte)
        .payload(&[0xaa], true);
    // 12 header + 4 ext header + 0 ext body + 1 payload + 3 padding
    assert_eq!(n, 20);
    assert_eq!(&buf[12..16], &[0x10, 0x00, 0, 0]);
    assert_eq!(&buf[16..20], &[0xaa, 0, 0, 3]);
    assert_eq!(buf[20], 0xff);

    let mut buf2 = vec![0xff_u8; 64];
    let mut ext = RtpBuilder::from_basic(&mut buf2, false, 0, SeqNum(0), Timestamp(0), 0, &[])
        .extension(ExtFormat::OneByte);
    ext.write_ext(1, &[9]);
    let n2 = ext.payload(&[], false);
    assert_eq!(n2, 20);
    assert_eq!(&buf2[12..20], &[0xBE, 0xDE, 0, 1, 0x10, 9, 0, 0]);
}

#[test]
fn incremental_and_one_shot_items_leave_equal_buffers() {
    for fmt in [ExtFormat::OneByte, ExtFormat::TwoByte] {
        let mut a = vec![0x5a_u8; 48];
        let mut b = a.clone();
        let mut ea = RtpBuilder::from_basic(&mut a, true, 9, SeqNum(3), Timestamp(4), 5, &[6]).extension(fmt);
        let mut item = ea.ext(4);
        item.write_u16(0x0102);
        item.write_slice(&[3]);
        ea = item.finish();
        let na = ea.payload(&[8, 8], true);
        let mut eb = RtpBuilder::from_basic(&mut b, true, 9, SeqNum(3), Timestamp(4), 5, &[6]).extension(fmt);
        eb.write_ext(4, &[1, 2, 3]);
        let nb = eb.payload(&[8, 8], true);
        assert_eq!(na, nb);
        assert_eq!(a, b);
        assert_eq!(a[na], 0x5a);
    }
}
