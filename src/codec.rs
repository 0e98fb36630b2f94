use crate::bytes::{le_u16, le_u32, read_le_u16, read_le_u32, splice};
use crate::messages::{
    event_record, Event, EventArray, EventArrayView, Header, HeaderView, MAX_PACKED_MS,
};
use crate::time::{msec_of, Time};
use vstd::prelude::*;
use vstd::slice::slice_subrange;
use vstd::utf8::{decode_utf8, valid_utf8};

verus! {

/// Bytes taken by one event on the wire: x, y (u16 each), seconds (i32),
/// nanoseconds (u32), polarity (u8).
pub const WIRE_EVENT_SIZE: usize = 13;

/// Why a message payload could not be turned into events.
#[derive(Debug, Clone, Copy, PartialEq, Eq, Structural)]
pub enum DecodeError {
    /// The payload ends before the fields it declares.
    Truncated,
    /// The frame id is not valid UTF-8.
    InvalidFrameId,
    /// A raw coordinate is not below the declared frame dimension.
    CoordinateOutOfRange,
    /// An event's time does not fit the 24-bit packed field.
    TimestampOutOfRange,
    /// The packed events do not fit the destination buffer.
    BufferFull,
    /// A running event count would pass `u32::MAX`.
    CountOverflow,
}

/// Length of the frame id, read at byte 12.
pub open spec fn id_len(d: Seq<u8>) -> int {
    le_u32(d, 12)
}

/// Offset just past the frame id.
pub open spec fn id_end(d: Seq<u8>) -> int {
    16 + id_len(d)
}

/// Offset of the first event, just past height, width and the event count.
pub open spec fn events_start(d: Seq<u8>) -> int {
    id_end(d) + 12
}

/// Declared number of events.
pub open spec fn num_events(d: Seq<u8>) -> int {
    le_u32(d, id_end(d) + 8)
}

/// Offset of the `i`-th event on the wire.
pub open spec fn event_pos(d: Seq<u8>, i: int) -> int {
    events_start(d) + 13 * i
}

/// The frame dimension that coordinates are flipped against: its low 16 bits.
pub open spec fn dim16(dim: u32) -> int {
    (dim % 65536) as int
}

/// Whether the raw coordinates of the `i`-th event lie inside the frame.
pub open spec fn coords_ok(d: Seq<u8>, w: u32, h: u32, i: int) -> bool {
    &&& le_u16(d, event_pos(d, i)) < dim16(w)
    &&& le_u16(d, event_pos(d, i) + 2) < dim16(h)
}

/// The `i`-th event, with both coordinates flipped as `dim - raw - 1`.
pub open spec fn decode_event(d: Seq<u8>, w: u32, h: u32, i: int) -> Event {
    let p = event_pos(d, i);
    Event {
        x: (dim16(w) - le_u16(d, p) - 1) as u16,
        y: (dim16(h) - le_u16(d, p + 2) - 1) as u16,
        ts: Time { sec: (le_u32(d, p + 4) as u32) as i32, nsec: le_u32(d, p + 8) as u32 },
        polarity: d[p + 12] != 0,
    }
}

/// The header of a payload whose fixed fields are all present.
pub open spec fn decode_header(d: Seq<u8>) -> HeaderView {
    HeaderView {
        seq: le_u32(d, 0) as u32,
        stamp: Time { sec: (le_u32(d, 4) as u32) as i32, nsec: le_u32(d, 8) as u32 },
        frame_id: decode_utf8(d.subrange(16, id_end(d))),
    }
}

/// What a payload decodes to, field by field: header (sequence, stamp,
/// length-prefixed UTF-8 frame id), height, width, event count, events.
/// In metadata-only mode the events are not read and the list is empty.
pub open spec fn parse_event_array(d: Seq<u8>, meta_only: bool) -> Result<EventArrayView, DecodeError> {
    if d.len() < 16 || d.len() < id_end(d) {
        Err(DecodeError::Truncated)
    } else if !valid_utf8(d.subrange(16, id_end(d))) {
        Err(DecodeError::InvalidFrameId)
    } else if d.len() < events_start(d) {
        Err(DecodeError::Truncated)
    } else {
        let h = le_u32(d, id_end(d)) as u32;
        let w = le_u32(d, id_end(d) + 4) as u32;
        let n = num_events(d);
        if meta_only {
            Ok(EventArrayView { header: decode_header(d), height: h, width: w, events: Seq::empty() })
        } else if d.len() < event_pos(d, n) {
            Err(DecodeError::Truncated)
        } else if exists|i: int| 0 <= i < n && !#[trigger] coords_ok(d, w, h, i) {
            Err(DecodeError::CoordinateOutOfRange)
        } else {
            Ok(
                EventArrayView {
                    header: decode_header(d),
                    height: h,
                    width: w,
                    events: Seq::new(n as nat, |i: int| decode_event(d, w, h, i)),
                },
            )
        }
    }
}

/// The view of a decode result.
pub open spec fn decoded_view(r: Result<EventArray, DecodeError>) -> Result<EventArrayView, DecodeError> {
    match r {
        Ok(a) => Ok(a@),
        Err(e) => Err(e),
    }
}

/// Relies on std's `str::from_utf8`: it accepts exactly the byte strings that
/// are valid UTF-8, and the result holds the characters they encode.
#[verifier::external_body]
fn utf8_str<'a>(b: &'a [u8]) -> (r: Option<&'a str>)
    ensures
        r is Some <==> valid_utf8(b@),
        r matches Some(s) ==> s@ == decode_utf8(b@),
{
    std::str::from_utf8(b).ok()
}

/// Decodes one message payload. In metadata-only mode the header, height
/// and width are read and no event is.
pub fn read_event_array_from_bytes(data: &[u8], meta_only: bool) -> (r: Result<EventArray, DecodeError>)
    ensures
        decoded_view(r) == parse_event_array(data@, meta_only),
{
    let len = data.len();
    if len < 16 {
        return Err(DecodeError::Truncated);
    }
    let seq = read_le_u32(data, 0);
    let sec = #[verifier::truncate] (read_le_u32(data, 4) as i32);
    let nsec = read_le_u32(data, 8);
    let idl = read_le_u32(data, 12) as usize;
    if len - 16 < idl {
        return Err(DecodeError::Truncated);
    }
    let idend = 16 + idl;
    let frame_id = match utf8_str(slice_subrange(data, 16, idend)) {
        Some(s) => s.to_owned(),
        None => {
            return Err(DecodeError::InvalidFrameId);
        },
    };
    if len - idend < 12 {
        return Err(DecodeError::Truncated);
    }
    let height = read_le_u32(data, idend);
    let width = read_le_u32(data, idend + 4);
    let num = read_le_u32(data, idend + 8);
    let header = Header { seq, stamp: Time { sec, nsec }, frame_id };
    if meta_only {
        return Ok(EventArray { header, height, width, events: Vec::new() });
    }
    let start = idend + 12;
    if ((len - start) as u64) < (num as u64) * 13 {
        return Err(DecodeError::Truncated);
    }
    let w16 = (width % 65536) as u16;
    let h16 = (height % 65536) as u16;
    let mut events: Vec<Event> = Vec::new();
    let mut i: usize = 0;
    let mut pos: usize = start;
    while i < num as usize
        invariant
            len == data@.len(),
            !meta_only,
            16 <= id_end(data@) <= len,
            valid_utf8(data@.subrange(16, id_end(data@))),
            start == events_start(data@),
            num == num_events(data@),
            width == le_u32(data@, id_end(data@) + 4),
            height == le_u32(data@, id_end(data@)),
            w16 == dim16(width),
            h16 == dim16(height),
            start + 13 * num <= len,
            i <= num,
            pos == start + 13 * i,
            events@.len() == i,
            forall|j: int| 0 <= j < i ==> #[trigger] coords_ok(data@, width, height, j),
            forall|j: int| 0 <= j < i ==> events@[j] == decode_event(data@, width, height, j),
        decreases num - i,
    {
        let rx = read_le_u16(data, pos);
        let ry = read_le_u16(data, pos + 2);
        if rx >= w16 || ry >= h16 {
            assert(!coords_ok(data@, width, height, i as int));
            return Err(DecodeError::CoordinateOutOfRange);
        }
        let esec = #[verifier::truncate] (read_le_u32(data, pos + 4) as i32);
        let ensec = read_le_u32(data, pos + 8);
        let pol = data[pos + 12] != 0;
        let ev = Event { x: w16 - rx - 1, y: h16 - ry - 1, ts: Time { sec: esec, nsec: ensec }, polarity: pol };
        assert(ev == decode_event(data@, width, height, i as int));
        events.push(ev);
        i = i + 1;
        pos = pos + WIRE_EVENT_SIZE;
    }
    let r = EventArray { header, height, width, events };
    assert(r@.events =~= Seq::new(num as nat, |i: int| decode_event(data@, width, height, i)));
    Ok(r)
}

/// The packed records of `es`, one after another.
pub open spec fn packed_events(es: Seq<Event>) -> Seq<u8>
    decreases es.len(),
{
    if es.len() == 0 {
        Seq::empty()
    } else {
        packed_events(es.drop_last()) + event_record(es.last())
    }
}

/// What packing a payload's events at `offset` into a buffer of `buf_len`
/// bytes gives: the offset past the last record, or the reason it fails.
pub open spec fn pack_outcome(d: Seq<u8>, buf_len: int, offset: int) -> Result<int, DecodeError> {
    match parse_event_array(d, false) {
        Err(e) => Err(e),
        Ok(a) => {
            let end = offset + 8 * a.events.len();
            if end > buf_len || end > u32::MAX {
                Err(DecodeError::BufferFull)
            } else if exists|i: int| 0 <= i < a.events.len() && msec_of(#[trigger] a.events[i].ts) >= MAX_PACKED_MS {
                Err(DecodeError::TimestampOutOfRange)
            } else {
                Ok(end)
            }
        },
    }
}

/// Decodes a payload and packs each of its events into `events_buffer`,
/// starting at `used_event_bytes`; returns the offset past the last record.
/// On failure the buffer is left as it was.
pub fn read_events_from_raw_events_array_msg_to_buffer(
    data: &[u8],
    events_buffer: &mut Vec<u8>,
    used_event_bytes: u32,
) -> (r: Result<u32, DecodeError>)
    requires
        used_event_bytes <= old(events_buffer)@.len(),
    ensures
        match r {
            Ok(end) => pack_outcome(data@, old(events_buffer)@.len() as int, used_event_bytes as int) == Ok::<int, DecodeError>(end as int),
            Err(e) => pack_outcome(data@, old(events_buffer)@.len() as int, used_event_bytes as int) == Err::<int, DecodeError>(e),
        },
        r is Ok ==> final(events_buffer)@ == splice(
            old(events_buffer)@,
            used_event_bytes as int,
            packed_events(parse_event_array(data@, false)->Ok_0.events),
        ),
        r is Err ==> final(events_buffer)@ == old(events_buffer)@,
{
    let arr = match read_event_array_from_bytes(data, false) {
        Ok(a) => a,
        Err(e) => {
            return Err(e);
        },
    };
    let ghost es = arr.events@;
    let n = arr.events.len();
    let blen = events_buffer.len();
    let end: u64 = (used_event_bytes as u64) + 8 * (n as u64);
    if end > blen as u64 || end > u32::MAX as u64 {
        return Err(DecodeError::BufferFull);
    }
    let mut k: usize = 0;
    while k < n
        invariant
            n == es.len(),
            es == arr.events@,
            parse_event_array(data@, false) == Ok::<EventArrayView, DecodeError>(arr@),
            end == used_event_bytes + 8 * n,
            end <= blen,
            end <= u32::MAX,
            blen == old(events_buffer)@.len(),
            events_buffer@ == old(events_buffer)@,
            k <= n,
            forall|j: int| 0 <= j < k ==> msec_of(#[trigger] es[j].ts) < MAX_PACKED_MS,
        decreases n - k,
    {
        if arr.events[k].ts.msec() >= MAX_PACKED_MS {
            assert(msec_of(es[k as int].ts) >= MAX_PACKED_MS);
            return Err(DecodeError::TimestampOutOfRange);
        }
        k = k + 1;
    }
    let mut offset = used_event_bytes;
    let mut i: usize = 0;
    while i < n
        invariant
            n == es.len(),
            es == arr.events@,
            parse_event_array(data@, false) == Ok::<EventArrayView, DecodeError>(arr@),
            i <= n,
            end == used_event_bytes + 8 * n,
            end <= blen,
            end <= u32::MAX,
            blen == old(events_buffer)@.len(),
            offset == used_event_bytes + 8 * i,
            forall|j: int| 0 <= j < n ==> msec_of(#[trigger] es[j].ts) < MAX_PACKED_MS,
            events_buffer@ == splice(old(events_buffer)@, used_event_bytes as int, packed_events(es.take(i as int))),
        decreases n - i,
    {
        proof {
            lemma_packed_events_len(es.take(i as int));
            crate::bytes::lemma_splice_after(
                old(events_buffer)@,
                used_event_bytes as int,
                packed_events(es.take(i as int)),
                event_record(es[i as int]),
            );
            assert(es.take(i as int + 1).drop_last() =~= es.take(i as int));
        }
        offset = arr.events[i].to_buffer(events_buffer, offset);
        i = i + 1;
    }
    assert(es.take(n as int) =~= es);
    Ok(offset)
}

/// A metadata-only decode reads the same header, width and height as a full
/// decode of the same payload, succeeds whenever the full decode does, and
/// holds no events.
pub proof fn lemma_metadata_matches_full(d: Seq<u8>)
    ensures
        parse_event_array(d, true) is Ok ==> parse_event_array(d, true)->Ok_0.events.len() == 0,
        parse_event_array(d, false) is Ok ==> {
            &&& parse_event_array(d, true) is Ok
            &&& parse_event_array(d, true)->Ok_0.header == parse_event_array(d, false)->Ok_0.header
            &&& parse_event_array(d, true)->Ok_0.width == parse_event_array(d, false)->Ok_0.width
            &&& parse_event_array(d, true)->Ok_0.height == parse_event_array(d, false)->Ok_0.height
        },
{
}

/// `packed_events` takes eight bytes per event.
pub proof fn lemma_packed_events_len(es: Seq<Event>)
    ensures
        packed_events(es).len() == 8 * es.len(),
    decreases es.len(),
{
    if es.len() > 0 {
        lemma_packed_events_len(es.drop_last());
    }
}

} // verus!
