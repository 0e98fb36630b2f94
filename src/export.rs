use crate::bytes::{splice, u16_le_bytes, u32_le_bytes, write_le_u16, write_le_u32};
use crate::codec::{
    lemma_metadata_matches_full, pack_outcome, packed_events, parse_event_array, read_event_array_from_bytes,
    read_events_from_raw_events_array_msg_to_buffer, DecodeError,
};
use vstd::prelude::*;
use vstd::slice::slice_subrange;

verus! {

/// The artifact written for one frame: width, height and the number of
/// packed records (u32, little-endian each), the raw pixels, then the
/// records themselves.
pub open spec fn frame_artifact(width: u32, height: u32, pixels: Seq<u8>, records: Seq<u8>) -> Seq<u8> {
    u32_le_bytes(width) + u32_le_bytes(height) + u32_le_bytes((records.len() / 8) as u32) + pixels
        + records
}

/// The trailer of an event-only artifact: width and height (u16 each) and
/// the total event count (u32), little-endian.
pub open spec fn stream_trailer(width: u32, height: u32, total: u32) -> Seq<u8> {
    u16_le_bytes(width as u16) + u16_le_bytes(height as u16) + u32_le_bytes(total)
}

fn append(out: &mut Vec<u8>, b: &[u8])
    ensures
        final(out)@ == old(out)@ + b@,
{
    out.extend_from_slice(b);
    assert(out@ =~= old(out)@ + b@);
}

/// The bytes of one frame's artifact: the header, the pixels, and the first
/// `used_event_bytes` bytes of `events_buffer`.
pub fn frame_artifact_bytes(
    width: u32,
    height: u32,
    pixels: &[u8],
    events_buffer: &[u8],
    used_event_bytes: u32,
) -> (r: Vec<u8>)
    requires
        used_event_bytes <= events_buffer@.len(),
    ensures
        r@ == frame_artifact(
            width,
            height,
            pixels@,
            events_buffer@.subrange(0, used_event_bytes as int),
        ),
{
    let mut out: Vec<u8> = vec![0u8; 12];
    write_le_u32(&mut out, 0, width);
    write_le_u32(&mut out, 4, height);
    write_le_u32(&mut out, 8, used_event_bytes / 8);
    let records = slice_subrange(events_buffer, 0, used_event_bytes as usize);
    assert(out@ =~= u32_le_bytes(width) + u32_le_bytes(height) + u32_le_bytes(used_event_bytes / 8));
    append(&mut out, pixels);
    append(&mut out, records);
    out
}

/// The trailer that closes an event-only artifact.
pub fn event_stream_trailer(width: u32, height: u32, total_events: u32) -> (r: Vec<u8>)
    ensures
        r@ == stream_trailer(width, height, total_events),
{
    let mut out: Vec<u8> = vec![0u8; 8];
    write_le_u16(&mut out, 0, #[verifier::truncate] (width as u16));
    write_le_u16(&mut out, 2, #[verifier::truncate] (height as u16));
    write_le_u32(&mut out, 4, total_events);
    assert(out@ =~= stream_trailer(width, height, total_events));
    out
}

/// Running totals of an event-only export: the frame size, taken from the
/// first message that declares a nonzero width, and the events packed so far.
pub struct EventStreamExport {
    pub width: u32,
    pub height: u32,
    pub total_events: u32,
}

impl EventStreamExport {
    /// Nothing seen yet.
    pub fn new() -> (r: EventStreamExport)
        ensures
            r.width == 0 && r.height == 0 && r.total_events == 0,
    {
        EventStreamExport { width: 0, height: 0, total_events: 0 }
    }

    /// Takes one message: while no width is known, reads the size from the
    /// payload's metadata; then packs the payload's events at the start of
    /// `events_buffer` and returns the bytes packed.
    ///
    /// Fails, leaving the totals as they were, when the payload does not
    /// decode or pack (the buffer is then untouched too), or when the total
    /// count would pass `u32::MAX`.
    pub fn ingest_message(&mut self, data: &[u8], events_buffer: &mut Vec<u8>) -> (r: Result<u32, DecodeError>)
        ensures
            match pack_outcome(data@, old(events_buffer)@.len() as int, 0) {
                Err(e) => r == Err::<u32, DecodeError>(e),
                Ok(end) => if old(self).total_events + end / 8 > u32::MAX {
                    r == Err::<u32, DecodeError>(DecodeError::CountOverflow)
                } else {
                    r == Ok::<u32, DecodeError>(end as u32)
                },
            },
            r is Ok ==> final(events_buffer)@ == splice(
                old(events_buffer)@,
                0,
                packed_events(parse_event_array(data@, false)->Ok_0.events),
            ),
            r is Ok ==> final(self).total_events == old(self).total_events + r->Ok_0 / 8,
            r is Ok && old(self).width == 0 ==> final(self).width == parse_event_array(data@, true)->Ok_0.width
                && final(self).height == parse_event_array(data@, true)->Ok_0.height,
            r is Ok && old(self).width != 0 ==> final(self).width == old(self).width
                && final(self).height == old(self).height,
            r is Err ==> *final(self) == *old(self),
            r is Err && r != Err::<u32, DecodeError>(DecodeError::CountOverflow) ==> final(events_buffer)@ == old(events_buffer)@,
    {
        let used = match read_events_from_raw_events_array_msg_to_buffer(data, events_buffer, 0) {
            Ok(u) => u,
            Err(e) => {
                return Err(e);
            },
        };
        if used / 8 > u32::MAX - self.total_events {
            return Err(DecodeError::CountOverflow);
        }
        if self.width == 0 {
            proof {
                lemma_metadata_matches_full(data@);
            }
            match read_event_array_from_bytes(data, true) {
                Ok(meta) => {
                    self.width = meta.width;
                    self.height = meta.height;
                },
                Err(_) => {},
            }
        }
        self.total_events = self.total_events + used / 8;
        Ok(used)
    }

    /// The trailer for the messages taken so far.
    pub fn trailer(&self) -> (r: Vec<u8>)
        ensures
            r@ == stream_trailer(self.width, self.height, self.total_events),
    {
        event_stream_trailer(self.width, self.height, self.total_events)
    }
}

} // verus!
