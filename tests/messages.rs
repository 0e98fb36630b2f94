use evsync::messages::{pack_record, Event, SERIALIZED_EVENT_SIZE};
use evsync::time::Time;

fn unpack(b: &[u8]) -> (u32, u16, u16, bool) {
    (
        b[0] as u32 | (b[1] as u32) << 8 | (b[2] as u32) << 16,
        u16::from_le_bytes([b[3], b[4]]),
        u16::from_le_bytes([b[5], b[6]]),
        b[7] != 0,
    )
}

#[test]
fn msec_and_microsec_truncate() {
    let t = Time { sec: 12, nsec: 345_678_901 };
    assert_eq!(t.msec(), 12_345);
    assert_eq!(t.microsec(), 12_345_678);
    assert_eq!(Time { sec: 0, nsec: 999_999 }.msec(), 0);
    assert_eq!(Time { sec: -1, nsec: 0 }.msec(), 0);
    assert_eq!(Time { sec: -1, nsec: 0 }.microsec(), 0);
    assert_eq!(Time { sec: i32::MAX, nsec: 999_999_999 }.msec(), 2_147_483_647_999);
}

#[test]
fn millis_since_baseline() {
    let base = Time { sec: 10, nsec: 900_000_000 };
    assert_eq!(Time { sec: 11, nsec: 0 }.millis_since(&base), 100);
    assert_eq!(Time { sec: 10, nsec: 0 }.millis_since(&base), 0);
    assert!(Time { sec: 0, nsec: 0 }.is_zero());
    assert!(!Time { sec: 0, nsec: 1 }.is_zero());
}

#[test]
fn to_buffer_writes_eight_bytes() {
    let e = Event { x: 0x1234, y: 0xABCD, ts: Time { sec: 16_000, nsec: 123_456_789 }, polarity: true };
    let mut buf = vec![0x55u8; 20];
    let end = e.to_buffer(&mut buf, 4);
    assert_eq!(end, 4 + SERIALIZED_EVENT_SIZE);
    // 16_000_123 ms = 0xF4247B
    assert_eq!(&buf[4..12], &[0x7B, 0x24, 0xF4, 0x34, 0x12, 0xCD, 0xAB, 1]);
    assert_eq!(&buf[..4], &[0x55; 4]);
    assert_eq!(&buf[12..], &[0x55; 8]);
}

#[test]
fn pack_then_unpack() {
    let e = Event { x: 640, y: 1, ts: Time { sec: 1, nsec: 999_999 }, polarity: false };
    let mut buf = vec![0u8; 8];
    e.to_buffer(&mut buf, 0);
    assert_eq!(unpack(&buf), (1000, 640, 1, false));
    let mut buf = vec![0u8; 8];
    pack_record(0xFF_FFFF, 1, 2, true, &mut buf, 0);
    assert_eq!(unpack(&buf), (0xFF_FFFF, 1, 2, true));
}
