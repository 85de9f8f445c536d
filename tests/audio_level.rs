use media_rs::audio_level::{AudioLevelValue, AudioLevelVolume};
use media_rs::RtpError;

#[test]
fn test() {
    assert!(AudioLevelVolume(0) == AudioLevelVolume(0));
    assert!(AudioLevelVolume(0) > AudioLevelVolume::min());
    assert!(AudioLevelVolume::min() > AudioLevelVolume::inf_min());
}

#[test]
fn audio_level_parse_and_bytes() {
    let v = AudioLevelValue::parse(&[0x85]).unwrap();
    assert!(v.voice);
    assert_eq!(v.volume, AudioLevelVolume(5));
    assert_eq!(v.to_bytes(), [0x85]);
    let q = AudioLevelValue::parse(&[0x7f, 1]).unwrap();
    assert!(!q.voice);
    assert_eq!(q.volume, AudioLevelVolume(127));
    assert_eq!(q.to_bytes(), [0x7f]);
    assert!(matches!(
        AudioLevelValue::parse(&[]),
        Err(RtpError::NotEnoughBuffer { expect: 1, actual: 0, .. })
    ));
    let d = AudioLevelValue::default();
    assert!(!d.voice);
    assert_eq!(d.volume, AudioLevelVolume(127));
}

#[test]
fn audio_level_volume_arithmetic() {
    assert_eq!(AudioLevelVolume::from_i64(300), AudioLevelVolume(44));
    assert_eq!(AudioLevelVolume::from_i64(-1), AudioLevelVolume(127));
    assert_eq!(AudioLevelVolume(17).as_i64(), 17);
    assert_eq!(AudioLevelVolume(10) + 4, AudioLevelVolume(6));
    assert_eq!(AudioLevelVolume(3) + 4, AudioLevelVolume::max());
    assert_eq!(AudioLevelVolume(10) - 4, AudioLevelVolume(14));
    assert_eq!(AudioLevelVolume(120) - 200, AudioLevelVolume(127));
}
