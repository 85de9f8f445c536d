use media_rs::{SeqNum, Timestamp};

fn check_seq_delta(next: u16, current: u16, delta: i16, rdelta: i16) {
    assert_eq!(SeqNum::from(next).subtract(SeqNum::from(current)), delta);
    assert_eq!(SeqNum::from(current).subtract(SeqNum::from(next)), rdelta);
    assert_eq!(SeqNum::from(next) + rdelta, SeqNum::from(current));
    assert_eq!(SeqNum::from(current) + delta, SeqNum::from(next));
    assert_eq!(SeqNum::from(next).subtract(SeqNum::from(next)), 0);
    assert_eq!(SeqNum::from(current).subtract(SeqNum::from(current)), 0);
}

fn check_ts_delta(next: u32, current: u32, delta: i32, rdelta: i32) {
    assert_eq!(Timestamp::from(next).subtract(Timestamp::from(current)), delta);
    assert_eq!(Timestamp::from(current).subtract(Timestamp::from(next)), rdelta);
    assert_eq!(Timestamp::from(next) + rdelta, Timestamp::from(current));
    assert_eq!(Timestamp::from(current) + delta, Timestamp::from(next));
    assert_eq!(Timestamp::from(next).subtract(Timestamp::from(next)), 0);
    assert_eq!(Timestamp::from(current).subtract(Timestamp::from(current)), 0);
}

#[test]
fn seq_num_deltas() {
    const UMAX: u16 = u16::MAX;
    const IMAX: i16 = i16::MAX;
    const IMIN: i16 = i16::MIN;
    const UIMAX: u16 = IMAX as u16;
    check_seq_delta(10, 9, 1, -1);
    check_seq_delta(1, 0, 1, -1);
    check_seq_delta(0, UMAX, 1, -1);
    check_seq_delta(UMAX, UMAX - UIMAX + 1, IMAX - 1, -(IMAX - 1));
    check_seq_delta(UMAX, UMAX - UIMAX, IMAX, -IMAX);
    check_seq_delta(UMAX, UMAX - UIMAX - 1, IMIN, IMIN);
    check_seq_delta(UMAX, UMAX - UIMAX - 2, -IMAX, IMAX);
    check_seq_delta(UMAX, UMAX - UIMAX - 3, -(IMAX - 1), IMAX - 1);
}

#[test]
fn timestamp_deltas() {
    const UMAX: u32 = u32::MAX;
    const IMAX: i32 = i32::MAX;
    const IMIN: i32 = i32::MIN;
    const UIMAX: u32 = IMAX as u32;
    check_ts_delta(10, 9, 1, -1);
    check_ts_delta(1, 0, 1, -1);
    check_ts_delta(0, UMAX, 1, -1);
    check_ts_delta(UMAX, UMAX - UIMAX + 1, IMAX - 1, -(IMAX - 1));
    check_ts_delta(UMAX, UMAX - UIMAX, IMAX, -IMAX);
    check_ts_delta(UMAX, UMAX - UIMAX - 1, IMIN, IMIN);
    check_ts_delta(UMAX, UMAX - UIMAX - 2, -IMAX, IMAX);
    check_ts_delta(UMAX, UMAX - UIMAX - 3, -(IMAX - 1), IMAX - 1);
}

#[test]
fn half_ring_resolves_to_most_negative() {
    assert_eq!(SeqNum(32768).subtract(SeqNum(0)), -32768);
    assert_eq!(SeqNum(0).subtract(SeqNum(32768)), -32768);
    assert_eq!(SeqNum(100).subtract(SeqNum(100 + 32768)), -32768);
    assert_eq!(Timestamp(0x8000_0000).subtract(Timestamp(0)), i32::MIN);
}

#[test]
fn counter_algebra_on_pairs() {
    let samples: [u16; 7] = [0, 1, 100, 32767, 32768, 40000, 65535];
    for &a in samples.iter() {
        for &b in samples.iter() {
            let (a, b) = (SeqNum(a), SeqNum(b));
            assert_eq!(b + a.subtract(b), a);
            assert_eq!(a - b, a.subtract(b));
            assert_eq!(a.subtract(a), 0);
            assert_eq!(a.subtract(b), b.subtract(a).wrapping_neg());
        }
    }
}

#[test]
fn circular_order_and_next() {
    assert!(SeqNum(0) > SeqNum(65535));
    assert!(SeqNum(65535) < SeqNum(0));
    assert!(SeqNum(5) < SeqNum(6));
    assert!(Timestamp(1) > Timestamp(u32::MAX - 10));
    assert_eq!(SeqNum(65535).next(), SeqNum(0));
    assert!(SeqNum(65535).precedes(SeqNum(0)));
    assert!(!SeqNum(3).precedes(SeqNum(5)));
    assert_eq!(Timestamp(u32::MAX).next(), Timestamp(0));
}

#[test]
fn ranges_wrap_and_stop() {
    let mut it = SeqNum::range(SeqNum(65534), SeqNum(2));
    let mut got = Vec::new();
    while let Some(s) = it.next() {
        got.push(s.0);
    }
    assert_eq!(got, vec![65534, 65535, 0, 1]);
    let mut empty = SeqNum::range(SeqNum(5), SeqNum(5));
    assert_eq!(empty.next(), None);
    let mut backwards = Timestamp::range(Timestamp(9), Timestamp(3));
    assert_eq!(backwards.next(), None);
    let mut ts = Timestamp::range(Timestamp(7), Timestamp(9));
    assert_eq!(ts.next(), Some(Timestamp(7)));
    assert_eq!(ts.next(), Some(Timestamp(8)));
    assert_eq!(ts.next(), None);
}

#[test]
fn unsigned_steps_wrap() {
    assert_eq!(SeqNum(65530) + 10_u16, SeqNum(4));
    assert_eq!(Timestamp(u32::MAX) + 2_u32, Timestamp(1));
    assert_eq!(Timestamp(5) + (-6_i32), Timestamp(u32::MAX));
    assert_eq!(Timestamp(5) - Timestamp(u32::MAX), 6);
}

#[test]
fn range_over_half_the_ring() {
    let mut it = SeqNum::range(SeqNum(0), SeqNum(32768));
    let mut count = 0_u32;
    let mut last = None;
    while let Some(s) = it.next() {
        count += 1;
        last = Some(s);
    }
    assert_eq!(count, 32768);
    assert_eq!(last, Some(SeqNum(32767)));
    let mut past_half = SeqNum::range(SeqNum(0), SeqNum(32769));
    assert_eq!(past_half.next(), None);
}
