use crate::bytes::splice;
use crate::time::{msec_of, Time};
use vstd::prelude::*;

verus! {

/// Bytes taken by one packed event record.
pub const SERIALIZED_EVENT_SIZE: u32 = 8;

/// Largest millisecond value (exclusive) that a packed record can hold.
pub const MAX_PACKED_MS: u64 = 0x100_0000;

/// One brightness change at a pixel.
#[derive(Debug, Clone, Copy, PartialEq, Eq, Structural)]
pub struct Event {
    pub x: u16,
    pub y: u16,
    pub ts: Time,
    pub polarity: bool,
}

/// The header that opens every event-array message.
#[derive(Debug, Clone, PartialEq, Eq)]
pub struct Header {
    pub seq: u32,
    pub stamp: Time,
    pub frame_id: String,
}

/// One decoded message: its header, the sensor size and its events.
#[derive(Debug, Clone, PartialEq, Eq)]
pub struct EventArray {
    pub header: Header,
    pub height: u32,
    pub width: u32,
    pub events: Vec<Event>,
}

/// What a header holds, with the frame id as characters.
pub struct HeaderView {
    pub seq: u32,
    pub stamp: Time,
    pub frame_id: Seq<char>,
}

/// What an event array holds.
pub struct EventArrayView {
    pub header: HeaderView,
    pub height: u32,
    pub width: u32,
    pub events: Seq<Event>,
}

impl View for Header {
    type V = HeaderView;

    open spec fn view(&self) -> HeaderView {
        HeaderView { seq: self.seq, stamp: self.stamp, frame_id: self.frame_id@ }
    }
}

impl View for EventArray {
    type V = EventArrayView;

    open spec fn view(&self) -> EventArrayView {
        EventArrayView {
            header: self.header@,
            height: self.height,
            width: self.width,
            events: self.events@,
        }
    }
}

/// The eight bytes of a packed record: a 24-bit millisecond time, x and y
/// (16 bits each), all little-endian, then the polarity as 1 or 0.
pub open spec fn record_bytes(ms: int, x: u16, y: u16, polarity: bool) -> Seq<u8> {
    seq![
        (ms % 256) as u8,
        ((ms / 256) % 256) as u8,
        ((ms / 65536) % 256) as u8,
        (x % 256) as u8,
        (x / 256) as u8,
        (y % 256) as u8,
        (y / 256) as u8,
        if polarity { 1u8 } else { 0u8 },
    ]
}

/// The packed record of an event, stamped with its own time.
pub open spec fn event_record(e: Event) -> Seq<u8> {
    record_bytes(msec_of(e.ts), e.x, e.y, e.polarity)
}

/// The fields read back from the record at `b[i..i + 8]`:
/// (milliseconds, x, y, polarity).
pub open spec fn unpack_record(b: Seq<u8>, i: int) -> (int, int, int, bool) {
    (
        b[i] + 256 * b[i + 1] + 65536 * b[i + 2],
        b[i + 3] + 256 * b[i + 4],
        b[i + 5] + 256 * b[i + 6],
        b[i + 7] != 0,
    )
}

/// Writes the record of (`ms`, `x`, `y`, `polarity`) at `offset`.
pub fn pack_record(ms: u32, x: u16, y: u16, polarity: bool, buffer: &mut Vec<u8>, offset: usize)
    requires
        offset + 8 <= old(buffer)@.len(),
        ms < MAX_PACKED_MS,
    ensures
        final(buffer)@ == splice(old(buffer)@, offset as int, record_bytes(ms as int, x, y, polarity)),
{
    let len = buffer.len();
    assert(offset + 8 <= len);
    buffer.set(offset, (ms % 256) as u8);
    buffer.set(offset + 1, ((ms / 256) % 256) as u8);
    buffer.set(offset + 2, ((ms / 65536) % 256) as u8);
    buffer.set(offset + 3, (x % 256) as u8);
    buffer.set(offset + 4, (x / 256) as u8);
    buffer.set(offset + 5, (y % 256) as u8);
    buffer.set(offset + 6, (y / 256) as u8);
    buffer.set(offset + 7, if polarity { 1u8 } else { 0u8 });
    assert(buffer@ =~= splice(old(buffer)@, offset as int, record_bytes(ms as int, x, y, polarity)));
}

impl Event {
    /// Packs this event into `buffer` at `buffer_offset` and returns the
    /// offset just past the record.
    ///
    /// The event's time must fit the 24-bit field, and the record must fit
    /// the buffer; nothing but those eight bytes changes.
    pub fn to_buffer(&self, buffer: &mut Vec<u8>, buffer_offset: u32) -> (r: u32)
        requires
            buffer_offset + 8 <= old(buffer)@.len(),
            buffer_offset + 8 <= u32::MAX,
            msec_of(self.ts) < MAX_PACKED_MS,
        ensures
            r == buffer_offset + 8,
            final(buffer)@ == splice(old(buffer)@, buffer_offset as int, event_record(*self)),
    {
        let msec = self.ts.msec();
        pack_record(msec as u32, self.x, self.y, self.polarity, buffer, buffer_offset as usize);
        buffer_offset + SERIALIZED_EVENT_SIZE
    }
}

/// Packing then reading back a record whose time fits 24 bits gives the
/// time masked to 24 bits, x, y and the polarity.
pub proof fn lemma_unpack_of_pack(e: Event)
    requires
        msec_of(e.ts) < MAX_PACKED_MS,
    ensures
        unpack_record(event_record(e), 0) == (
            msec_of(e.ts) % 0x100_0000,
            e.x as int,
            e.y as int,
            e.polarity,
        ),
{
    let ms = msec_of(e.ts);
    let b = event_record(e);
    assert(b[0] + 256 * b[1] + 65536 * b[2] == ms % 0x100_0000) by (nonlinear_arith)
        requires
            0 <= ms < 0x100_0000,
            b[0] == ms % 256,
            b[1] == (ms / 256) % 256,
            b[2] == (ms / 65536) % 256,
    ;
    assert(b[3] + 256 * b[4] == e.x) by (nonlinear_arith)
        requires
            b[3] == e.x % 256,
            b[4] == e.x / 256,
            0 <= e.x < 65536,
    ;
    assert(b[5] + 256 * b[6] == e.y) by (nonlinear_arith)
        requires
            b[5] == e.y % 256,
            b[6] == e.y / 256,
            0 <= e.y < 65536,
    ;
}

} // verus!
