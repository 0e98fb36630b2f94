use evsync::codec::{read_event_array_from_bytes, read_events_from_raw_events_array_msg_to_buffer, DecodeError};
use evsync::messages::{Event, EventArray, Header};
use evsync::time::Time;

fn put_u32(out: &mut Vec<u8>, v: u32) {
    out.extend_from_slice(&v.to_le_bytes());
}

fn put_u16(out: &mut Vec<u8>, v: u16) {
    out.extend_from_slice(&v.to_le_bytes());
}

/// Raw events: (x, y, sec, nsec, polarity byte), written as they lie on the wire.
fn payload(seq: u32, frame_id: &[u8], height: u32, width: u32, raw: &[(u16, u16, i32, u32, u8)]) -> Vec<u8> {
    let mut out = Vec::new();
    put_u32(&mut out, seq);
    out.extend_from_slice(&7i32.to_le_bytes());
    put_u32(&mut out, 250);
    put_u32(&mut out, frame_id.len() as u32);
    out.extend_from_slice(frame_id);
    put_u32(&mut out, height);
    put_u32(&mut out, width);
    put_u32(&mut out, raw.len() as u32);
    for &(x, y, sec, nsec, p) in raw {
        put_u16(&mut out, x);
        put_u16(&mut out, y);
        out.extend_from_slice(&sec.to_le_bytes());
        put_u32(&mut out, nsec);
        out.push(p);
    }
    out
}

#[test]
fn full_decode_flips_coordinates() {
    let d = payload(9, b"cam0", 480, 640, &[(0, 0, 1, 500_000_000, 1), (639, 479, -2, 3, 0)]);
    let a = read_event_array_from_bytes(&d, false).unwrap();
    assert_eq!(a.header.seq, 9);
    assert_eq!(a.header.stamp, Time { sec: 7, nsec: 250 });
    assert_eq!(a.header.frame_id, "cam0");
    assert_eq!((a.width, a.height), (640, 480));
    assert_eq!(a.events.len(), 2);
    assert_eq!(a.events[0], Event { x: 639, y: 479, ts: Time { sec: 1, nsec: 500_000_000 }, polarity: true });
    assert_eq!(a.events[1], Event { x: 0, y: 0, ts: Time { sec: -2, nsec: 3 }, polarity: false });
}

#[test]
fn metadata_only_matches_full_decode() {
    let d = payload(1, b"frame", 260, 346, &[(10, 20, 0, 1, 1), (30, 40, 0, 2, 0)]);
    let meta = read_event_array_from_bytes(&d, true).unwrap();
    let full = read_event_array_from_bytes(&d, false).unwrap();
    assert_eq!((meta.width, meta.height), (full.width, full.height));
    assert_eq!((meta.width, meta.height), (346, 260));
    assert_eq!(meta.header, full.header);
    assert!(meta.events.is_empty());
    assert_eq!(meta.events.capacity(), 0);
    assert_eq!(full.events.len(), 2);
}

#[test]
fn metadata_only_ignores_missing_events() {
    let mut d = payload(1, b"", 10, 10, &[(1, 1, 0, 0, 1)]);
    d.truncate(d.len() - 5);
    assert!(read_event_array_from_bytes(&d, true).is_ok());
    assert_eq!(read_event_array_from_bytes(&d, false), Err(DecodeError::Truncated));
}

#[test]
fn round_trip_through_the_wire() {
    let sent = EventArray {
        header: Header { seq: 42, stamp: Time { sec: 7, nsec: 250 }, frame_id: String::from("héllo") },
        height: 100,
        width: 200,
        events: vec![
            Event { x: 5, y: 6, ts: Time { sec: 3, nsec: 4 }, polarity: true },
            Event { x: 199, y: 0, ts: Time { sec: -1, nsec: 999_999_999 }, polarity: false },
        ],
    };
    let raw: Vec<(u16, u16, i32, u32, u8)> = sent
        .events
        .iter()
        .map(|e| (200 - e.x - 1, 100 - e.y - 1, e.ts.sec, e.ts.nsec, e.polarity as u8))
        .collect();
    let d = payload(42, sent.header.frame_id.as_bytes(), 100, 200, &raw);
    assert_eq!(read_event_array_from_bytes(&d, false).unwrap(), sent);
}

#[test]
fn short_payloads_are_truncated() {
    assert_eq!(read_event_array_from_bytes(&[], false), Err(DecodeError::Truncated));
    assert_eq!(read_event_array_from_bytes(&[0u8; 15], true), Err(DecodeError::Truncated));
    let d = payload(1, b"abcdef", 1, 1, &[]);
    assert_eq!(read_event_array_from_bytes(&d[..19], true), Err(DecodeError::Truncated));
    assert_eq!(read_event_array_from_bytes(&d[..d.len() - 1], true), Err(DecodeError::Truncated));
    assert!(read_event_array_from_bytes(&d, false).is_ok());
}

#[test]
fn invalid_frame_id_is_rejected() {
    let d = payload(1, &[0xff, 0xfe], 4, 4, &[]);
    assert_eq!(read_event_array_from_bytes(&d, true), Err(DecodeError::InvalidFrameId));
}

#[test]
fn coordinate_outside_frame_is_rejected() {
    let d = payload(1, b"", 4, 4, &[(1, 1, 0, 0, 0), (4, 0, 0, 0, 0)]);
    assert_eq!(read_event_array_from_bytes(&d, false), Err(DecodeError::CoordinateOutOfRange));
    let d = payload(1, b"", 4, 4, &[(0, 4, 0, 0, 0)]);
    assert_eq!(read_event_array_from_bytes(&d, false), Err(DecodeError::CoordinateOutOfRange));
}

#[test]
fn message_packs_into_buffer() {
    let d = payload(1, b"id", 480, 640, &[(0, 0, 1, 2_000_000, 1), (639, 479, 0, 5_000_000, 0)]);
    let mut buf = vec![0xAAu8; 24];
    let end = read_events_from_raw_events_array_msg_to_buffer(&d, &mut buf, 4).unwrap();
    assert_eq!(end, 20);
    assert_eq!(&buf[..4], &[0xAA; 4]);
    // 1002 ms, x 639, y 479, on
    assert_eq!(&buf[4..12], &[0xEA, 0x03, 0x00, 0x7F, 0x02, 0xDF, 0x01, 1]);
    // 5 ms, x 0, y 0, off
    assert_eq!(&buf[12..20], &[5, 0, 0, 0, 0, 0, 0, 0]);
    assert_eq!(&buf[20..], &[0xAA; 4]);
}

#[test]
fn message_too_large_for_buffer() {
    let d = payload(1, b"", 10, 10, &[(0, 0, 0, 0, 1), (1, 1, 0, 0, 1)]);
    let mut buf = vec![0u8; 15];
    assert_eq!(read_events_from_raw_events_array_msg_to_buffer(&d, &mut buf, 0), Err(DecodeError::BufferFull));
    assert_eq!(buf, vec![0u8; 15]);
}

#[test]
fn message_time_past_24_bits_is_rejected() {
    // 16777 s = 16_777_000 ms fits; 16778 s does not
    let ok = payload(1, b"", 10, 10, &[(0, 0, 16777, 0, 1)]);
    let bad = payload(1, b"", 10, 10, &[(0, 0, 0, 0, 1), (0, 0, 16778, 0, 1)]);
    let mut buf = vec![0u8; 16];
    assert_eq!(read_events_from_raw_events_array_msg_to_buffer(&ok, &mut buf, 0), Ok(8));
    let mut buf2 = vec![0u8; 16];
    assert_eq!(
        read_events_from_raw_events_array_msg_to_buffer(&bad, &mut buf2, 0),
        Err(DecodeError::TimestampOutOfRange)
    );
    assert_eq!(buf2, vec![0u8; 16]);
}
