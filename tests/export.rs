use evsync::codec::DecodeError;
use evsync::export::{event_stream_trailer, frame_artifact_bytes, EventStreamExport};

fn payload(width: u32, height: u32, raw: &[(u16, u16, i32, u32, u8)]) -> Vec<u8> {
    let mut out = Vec::new();
    for v in [1u32, 0, 0, 0, height, width, raw.len() as u32] {
        out.extend_from_slice(&v.to_le_bytes());
    }
    for &(x, y, sec, nsec, p) in raw {
        out.extend_from_slice(&x.to_le_bytes());
        out.extend_from_slice(&y.to_le_bytes());
        out.extend_from_slice(&sec.to_le_bytes());
        out.extend_from_slice(&nsec.to_le_bytes());
        out.push(p);
    }
    out
}

#[test]
fn frame_artifact_layout() {
    let pixels = [1u8, 2, 3, 4, 5, 6];
    let events = [9u8; 24];
    let a = frame_artifact_bytes(2, 1, &pixels, &events, 16);
    let mut expected = vec![2, 0, 0, 0, 1, 0, 0, 0, 2, 0, 0, 0];
    expected.extend_from_slice(&pixels);
    expected.extend_from_slice(&[9u8; 16]);
    assert_eq!(a, expected);
    let b = frame_artifact_bytes(0x0102_0304, 0x0A0B_0C0D, &[], &events, 0);
    assert_eq!(b, vec![4, 3, 2, 1, 0x0D, 0x0C, 0x0B, 0x0A, 0, 0, 0, 0]);
}

#[test]
fn trailer_layout() {
    assert_eq!(event_stream_trailer(346, 260, 0x0102_0304), vec![0x5A, 0x01, 0x04, 0x01, 4, 3, 2, 1]);
    assert_eq!(event_stream_trailer(0x1_0005, 2, 0), vec![5, 0, 2, 0, 0, 0, 0, 0]);
}

#[test]
fn event_stream_totals() {
    let mut state = EventStreamExport::new();
    let mut buf = vec![0u8; 64];
    let first = payload(346, 260, &[(0, 0, 0, 1_000_000, 1), (1, 1, 0, 2_000_000, 0)]);
    assert_eq!(state.ingest_message(&first, &mut buf), Ok(16));
    assert_eq!(&buf[..8], &[1, 0, 0, 0x59, 0x01, 0x03, 0x01, 1]);
    let second = payload(10, 10, &[(2, 2, 0, 3_000_000, 1)]);
    assert_eq!(state.ingest_message(&second, &mut buf), Ok(8));
    assert_eq!((state.width, state.height, state.total_events), (346, 260, 3));
    assert_eq!(state.trailer(), vec![0x5A, 0x01, 0x04, 0x01, 3, 0, 0, 0]);
}

#[test]
fn event_stream_errors() {
    let mut state = EventStreamExport::new();
    let mut buf = vec![0u8; 64];
    assert_eq!(state.ingest_message(&[1, 2, 3], &mut buf), Err(DecodeError::Truncated));
    assert_eq!(state.width, 0);
    state.total_events = u32::MAX;
    let one = payload(4, 4, &[(0, 0, 0, 0, 1)]);
    assert_eq!(state.ingest_message(&one, &mut buf), Err(DecodeError::CountOverflow));
    assert_eq!(state.total_events, u32::MAX);
    assert_eq!(state.width, 0);
}
