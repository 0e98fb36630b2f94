use vstd::prelude::*;

verus! {

/// A video stream's time base: one tick lasts `numerator / denominator` seconds.
#[derive(Debug, Clone, Copy, PartialEq, Eq, Structural)]
pub struct TimeBase {
    pub numerator: i32,
    pub denominator: i32,
}

/// Whole milliseconds of `ticks` ticks, rounded down; a time before zero
/// or a zero denominator gives zero, and a time past `u64::MAX`
/// milliseconds gives `u64::MAX`.
pub open spec fn timestamp_ms_of(ticks: i64, tb: TimeBase) -> int {
    let n = ticks * tb.numerator * 1000;
    let d = tb.denominator as int;
    if d == 0 {
        0
    } else {
        let (sn, sd) = if d < 0 { (-n, -d) } else { (n, d) };
        if sn <= 0 {
            0
        } else if sn / sd > u64::MAX {
            u64::MAX as int
        } else {
            sn / sd
        }
    }
}

/// Converts a frame's native timestamp to milliseconds with the stream's
/// time base, exactly in integers.
pub fn read_timestamp_ms_from_frame(timestamp: i64, time_base: TimeBase) -> (r: u64)
    ensures
        r == timestamp_ms_of(timestamp, time_base),
{
    let t = timestamp as i128;
    let num = time_base.numerator as i128;
    assert(-0x8000_0000_0000_0000 * 0x8000_0000 <= t * num <= 0x8000_0000_0000_0000 * 0x8000_0000) by (nonlinear_arith)
        requires
            -0x8000_0000_0000_0000 <= t <= 0x8000_0000_0000_0000,
            -0x8000_0000 <= num <= 0x8000_0000,
    ;
    let n = t * num * 1000;
    let d = time_base.denominator as i128;
    if d == 0 {
        return 0;
    }
    let (sn, sd) = if d < 0 {
        (-n, -d)
    } else {
        (n, d)
    };
    if sn <= 0 {
        return 0;
    }
    let q = (sn as u128) / (sd as u128);
    if q > u64::MAX as u128 {
        u64::MAX
    } else {
        q as u64
    }
}

/// The next thing to do while pulling one decoded frame.
#[derive(Debug, Clone, Copy, PartialEq, Eq, Structural)]
pub enum FrameStep {
    /// Take the next compressed packet from the container.
    PullPacket,
    /// Hand the packet to the decoder.
    SendPacket,
    /// Take a decoded frame from the decoder.
    ReceiveFrame,
    /// Rescale the decoded frame to the output size and pixel format.
    Rescale,
    /// No frame: the packets ran out or a step failed.
    Stop,
    /// A frame is ready, with its time in milliseconds.
    Emit(u64),
}

/// What came of the step last asked for.
#[derive(Debug, Clone, Copy, PartialEq, Eq, Structural)]
pub enum FrameEvent {
    /// A packet and the index of its stream, or none when the container is exhausted.
    Packet(Option<usize>),
    /// Whether the decoder took the packet.
    Sent(bool),
    /// Whether the decoder gave a frame.
    Received(bool),
    /// Whether rescaling succeeded, and the decoded frame's native timestamp.
    Rescaled(bool, Option<i64>),
}

/// The step that follows `step` once `event` came of it. Packets of other
/// streams are skipped; any failure ends the pull with no frame.
pub open spec fn frame_step(step: FrameStep, event: FrameEvent, stream_idx: i32, tb: TimeBase) -> FrameStep {
    match (step, event) {
        (FrameStep::PullPacket, FrameEvent::Packet(None)) => FrameStep::Stop,
        (FrameStep::PullPacket, FrameEvent::Packet(Some(i))) => if i == stream_idx {
            FrameStep::SendPacket
        } else {
            FrameStep::PullPacket
        },
        (FrameStep::SendPacket, FrameEvent::Sent(ok)) => if ok {
            FrameStep::ReceiveFrame
        } else {
            FrameStep::Stop
        },
        (FrameStep::ReceiveFrame, FrameEvent::Received(ok)) => if ok {
            FrameStep::Rescale
        } else {
            FrameStep::Stop
        },
        (FrameStep::Rescale, FrameEvent::Rescaled(ok, pts)) => match pts {
            Some(p) if ok => FrameStep::Emit(timestamp_ms_of(p, tb) as u64),
            _ => FrameStep::Stop,
        },
        _ => FrameStep::Stop,
    }
}

/// Decides the next step of pulling one frame from the selected video
/// stream, given what came of the current one.
pub fn parse_next_frame(step: FrameStep, event: FrameEvent, stream_idx: i32, time_base: TimeBase) -> (r: FrameStep)
    ensures
        r == frame_step(step, event, stream_idx, time_base),
{
    match (step, event) {
        (FrameStep::PullPacket, FrameEvent::Packet(None)) => FrameStep::Stop,
        (FrameStep::PullPacket, FrameEvent::Packet(Some(i))) => {
            if stream_idx >= 0 && i == stream_idx as usize {
                FrameStep::SendPacket
            } else {
                FrameStep::PullPacket
            }
        },
        (FrameStep::SendPacket, FrameEvent::Sent(ok)) => {
            if ok {
                FrameStep::ReceiveFrame
            } else {
                FrameStep::Stop
            }
        },
        (FrameStep::ReceiveFrame, FrameEvent::Received(ok)) => {
            if ok {
                FrameStep::Rescale
            } else {
                FrameStep::Stop
            }
        },
        (FrameStep::Rescale, FrameEvent::Rescaled(ok, pts)) => {
            match pts {
                Some(p) => {
                    if ok {
                        FrameStep::Emit(read_timestamp_ms_from_frame(p, time_base))
                    } else {
                        FrameStep::Stop
                    }
                },
                None => FrameStep::Stop,
            }
        },
        _ => FrameStep::Stop,
    }
}

} // verus!
