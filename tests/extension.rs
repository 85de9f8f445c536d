use media_rs::{ExtFormat, RtpError};

fn items(fmt: ExtFormat, buf: &[u8]) -> Vec<(u8, Vec<u8>)> {
    let mut out = Vec::new();
    let mut it = fmt.iter(buf);
    while let Some((id, body)) = it.next() {
        out.push((id, body.to_vec()));
    }
    out
}

#[test]
fn one_item_round_trip_both_profiles() {
    for fmt in [ExtFormat::OneByte, ExtFormat::TwoByte] {
        let fns = fmt.build_fn();
        let mut buf = vec![0_u8; 8];
        let hl = fns.begin(&mut buf, 0, 10);
        buf[hl] = 7;
        buf[hl + 1] = 8;
        fns.end(&mut buf, 0, 2);
        assert!(fmt.check(&buf).is_ok());
        assert_eq!(items(fmt, &buf), vec![(10, vec![7, 8])]);
    }
}

#[test]
fn one_byte_reserved_id_stops_iteration() {
    let buf = [0x10, 1, 0, 0xF3, 2, 0x20, 5];
    assert!(ExtFormat::OneByte.check(&buf).is_ok());
    assert_eq!(items(ExtFormat::OneByte, &buf), vec![(1, vec![1])]);
    let first = [0xF0, 0x10, 1];
    assert!(ExtFormat::OneByte.check(&first).is_ok());
    assert_eq!(items(ExtFormat::OneByte, &first), vec![]);
}

#[test]
fn padding_bytes_are_skipped() {
    let buf = [0, 0, 0x21, 4, 5, 0, 0x30, 9];
    assert_eq!(items(ExtFormat::OneByte, &buf), vec![(2, vec![4, 5]), (3, vec![9])]);
    let two = [0, 7, 0, 0, 3, 3, 1, 2, 3, 0];
    assert_eq!(items(ExtFormat::TwoByte, &two), vec![(7, vec![]), (3, vec![1, 2, 3])]);
}

#[test]
fn truncated_blocks_are_rejected() {
    assert!(matches!(
        ExtFormat::OneByte.check(&[0x12, 1]),
        Err(RtpError::NotEnoughBuffer { expect: 3, actual: 1, .. })
    ));
    assert!(matches!(
        ExtFormat::TwoByte.check(&[5]),
        Err(RtpError::NotEnoughBuffer { expect: 2, actual: 1, .. })
    ));
    assert!(matches!(
        ExtFormat::TwoByte.check(&[5, 4, 1]),
        Err(RtpError::NotEnoughBuffer { expect: 4, actual: 1, .. })
    ));
}

#[test]
fn profile_ids() {
    assert_eq!(ExtFormat::from_num(0xBEDE), Ok(ExtFormat::OneByte));
    assert_eq!(ExtFormat::from_num(0x1000), Ok(ExtFormat::TwoByte));
    assert_eq!(ExtFormat::from_num(0x1001), Err(()));
    assert_eq!(ExtFormat::OneByte.profile(), 0xBEDE);
    assert_eq!(ExtFormat::TwoByte.profile(), 0x1000);
}

#[test]
fn one_byte_item_header_nibbles() {
    let fns = ExtFormat::OneByte.build_fn();
    let mut buf = vec![0xff_u8; 2];
    assert_eq!(fns.begin(&mut buf, 1, 14), 1);
    assert_eq!(buf, vec![0xff, 0xe0]);
    fns.end(&mut buf, 1, 16);
    assert_eq!(buf, vec![0xff, 0xef]);
}

#[test]
fn one_byte_id_zero_is_a_single_pad_byte() {
    assert!(ExtFormat::OneByte.check(&[0x05]).is_ok());
    assert_eq!(items(ExtFormat::OneByte, &[0x05]), vec![]);
    assert!(ExtFormat::OneByte.check(&[0x01, 7, 8]).is_ok());
    assert_eq!(items(ExtFormat::OneByte, &[0x01, 7, 8]), vec![]);
    assert_eq!(items(ExtFormat::OneByte, &[0x01, 0x0f, 0x10, 9]), vec![(1, vec![9])]);
    // in the two-byte profile only a zero byte is padding
    assert_eq!(items(ExtFormat::TwoByte, &[0x00, 0x05, 1, 6]), vec![(5, vec![6])]);
}
