use evsync::frames::{parse_next_frame, read_timestamp_ms_from_frame, FrameEvent, FrameStep, TimeBase};

const NTSC: TimeBase = TimeBase { numerator: 1, denominator: 30000 };

#[test]
fn timestamps_in_milliseconds() {
    assert_eq!(read_timestamp_ms_from_frame(3003, NTSC), 100);
    assert_eq!(read_timestamp_ms_from_frame(0, NTSC), 0);
    assert_eq!(read_timestamp_ms_from_frame(90_000, TimeBase { numerator: 1, denominator: 90_000 }), 1000);
    assert_eq!(read_timestamp_ms_from_frame(7, TimeBase { numerator: 1001, denominator: 24000 }), 291);
    assert_eq!(read_timestamp_ms_from_frame(-5, NTSC), 0);
    assert_eq!(read_timestamp_ms_from_frame(5, TimeBase { numerator: 1, denominator: 0 }), 0);
    assert_eq!(read_timestamp_ms_from_frame(-3, TimeBase { numerator: 1, denominator: -1 }), 3000);
    assert_eq!(read_timestamp_ms_from_frame(i64::MAX, TimeBase { numerator: i32::MAX, denominator: 1 }), u64::MAX);
}

#[test]
fn frame_pull_steps() {
    let s = FrameStep::PullPacket;
    assert_eq!(parse_next_frame(s, FrameEvent::Packet(None), 0, NTSC), FrameStep::Stop);
    assert_eq!(parse_next_frame(s, FrameEvent::Packet(Some(1)), 0, NTSC), FrameStep::PullPacket);
    assert_eq!(parse_next_frame(s, FrameEvent::Packet(Some(0)), 0, NTSC), FrameStep::SendPacket);
    assert_eq!(parse_next_frame(s, FrameEvent::Packet(Some(0)), -1, NTSC), FrameStep::PullPacket);
    assert_eq!(parse_next_frame(FrameStep::SendPacket, FrameEvent::Sent(true), 0, NTSC), FrameStep::ReceiveFrame);
    assert_eq!(parse_next_frame(FrameStep::SendPacket, FrameEvent::Sent(false), 0, NTSC), FrameStep::Stop);
    assert_eq!(parse_next_frame(FrameStep::ReceiveFrame, FrameEvent::Received(true), 0, NTSC), FrameStep::Rescale);
    assert_eq!(parse_next_frame(FrameStep::ReceiveFrame, FrameEvent::Received(false), 0, NTSC), FrameStep::Stop);
    assert_eq!(
        parse_next_frame(FrameStep::Rescale, FrameEvent::Rescaled(true, Some(6006)), 0, NTSC),
        FrameStep::Emit(200)
    );
    assert_eq!(parse_next_frame(FrameStep::Rescale, FrameEvent::Rescaled(false, Some(6006)), 0, NTSC), FrameStep::Stop);
    assert_eq!(parse_next_frame(FrameStep::Rescale, FrameEvent::Rescaled(true, None), 0, NTSC), FrameStep::Stop);
    assert_eq!(parse_next_frame(FrameStep::SendPacket, FrameEvent::Received(true), 0, NTSC), FrameStep::Stop);
}
