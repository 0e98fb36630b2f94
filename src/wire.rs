use crate::bytes::{
    le_u16, le_u32, lemma_le_u16_of_bytes, lemma_le_u32_of_bytes, u16_le_bytes, u32_le_bytes,
};
use crate::codec::{
    coords_ok, decode_event, decode_header, dim16, event_pos, events_start, id_len,
    num_events, parse_event_array, DecodeError,
};
use crate::messages::{Event, EventArrayView};
use vstd::prelude::*;
use vstd::utf8::{encode_utf8, encode_utf8_decode_utf8, encode_utf8_valid_utf8};

verus! {

/// The wire bytes of one event whose coordinates are given flipped: the raw
/// coordinates written are `dim - c - 1`.
#[verifier::opaque]
pub open spec fn wire_event_bytes(e: Event, w: u32, h: u32) -> Seq<u8> {
    u16_le_bytes((dim16(w) - e.x - 1) as u16) + u16_le_bytes((dim16(h) - e.y - 1) as u16)
        + u32_le_bytes(e.ts.sec as u32) + u32_le_bytes(e.ts.nsec) + seq![
        if e.polarity {
            1u8
        } else {
            0u8
        },
    ]
}

/// The wire bytes of a list of events, one after another.
pub open spec fn wire_events(es: Seq<Event>, w: u32, h: u32) -> Seq<u8>
    decreases es.len(),
{
    if es.len() == 0 {
        Seq::empty()
    } else {
        wire_events(es.drop_last(), w, h) + wire_event_bytes(es.last(), w, h)
    }
}

/// The fields before the frame id: sequence, stamp and the id's length.
#[verifier::opaque]
pub open spec fn wire_head(a: EventArrayView) -> Seq<u8> {
    u32_le_bytes(a.header.seq) + u32_le_bytes(a.header.stamp.sec as u32) + u32_le_bytes(
        a.header.stamp.nsec,
    ) + u32_le_bytes(encode_utf8(a.header.frame_id).len() as u32)
}

/// The fields after the frame id: height, width and the event count.
#[verifier::opaque]
pub open spec fn wire_meta(a: EventArrayView) -> Seq<u8> {
    u32_le_bytes(a.height) + u32_le_bytes(a.width) + u32_le_bytes(a.events.len() as u32)
}

/// The payload that carries `a`: head, UTF-8 frame id, sizes, events.
pub open spec fn wire_bytes(a: EventArrayView) -> Seq<u8> {
    wire_head(a) + encode_utf8(a.header.frame_id) + wire_meta(a) + wire_events(
        a.events,
        a.width,
        a.height,
    )
}

/// Whether `a` can travel on the wire: lengths fit their 32-bit fields and
/// every coordinate lies inside the frame.
pub open spec fn encodable(a: EventArrayView) -> bool {
    &&& encode_utf8(a.header.frame_id).len() <= u32::MAX
    &&& a.events.len() <= u32::MAX
    &&& forall|i: int|
        0 <= i < a.events.len() ==> #[trigger] a.events[i].x < dim16(a.width) && a.events[i].y
            < dim16(a.height)
}

proof fn lemma_sub(x: Seq<u8>, y: Seq<u8>, a: int, b: int)
    requires
        0 <= a <= b <= x.len() + y.len(),
    ensures
        b <= x.len() ==> (x + y).subrange(a, b) == x.subrange(a, b),
        x.len() <= a ==> (x + y).subrange(a, b) == y.subrange(a - x.len(), b - x.len()),
{
    if b <= x.len() {
        assert((x + y).subrange(a, b) =~= x.subrange(a, b));
    }
    if x.len() <= a {
        assert((x + y).subrange(a, b) =~= y.subrange(a - x.len(), b - x.len()));
    }
}

proof fn lemma_sub_of_sub(x: Seq<u8>, a: int, b: int, c: int, e: int)
    requires
        0 <= a <= b <= x.len(),
        0 <= c <= e <= b - a,
    ensures
        x.subrange(a, b).subrange(c, e) == x.subrange(a + c, a + e),
{
    assert(x.subrange(a, b).subrange(c, e) =~= x.subrange(a + c, a + e));
}

proof fn lemma_head(a: EventArrayView)
    ensures
        wire_head(a).len() == 16,
        wire_head(a).subrange(0, 4) == u32_le_bytes(a.header.seq),
        wire_head(a).subrange(4, 8) == u32_le_bytes(a.header.stamp.sec as u32),
        wire_head(a).subrange(8, 12) == u32_le_bytes(a.header.stamp.nsec),
        wire_head(a).subrange(12, 16) == u32_le_bytes(encode_utf8(a.header.frame_id).len() as u32),
{
    reveal(wire_head);
    let x = wire_head(a);
    assert(x.subrange(0, 4) =~= u32_le_bytes(a.header.seq));
    assert(x.subrange(4, 8) =~= u32_le_bytes(a.header.stamp.sec as u32));
    assert(x.subrange(8, 12) =~= u32_le_bytes(a.header.stamp.nsec));
    assert(x.subrange(12, 16) =~= u32_le_bytes(encode_utf8(a.header.frame_id).len() as u32));
}

proof fn lemma_meta(a: EventArrayView)
    ensures
        wire_meta(a).len() == 12,
        wire_meta(a).subrange(0, 4) == u32_le_bytes(a.height),
        wire_meta(a).subrange(4, 8) == u32_le_bytes(a.width),
        wire_meta(a).subrange(8, 12) == u32_le_bytes(a.events.len() as u32),
{
    reveal(wire_meta);
    let x = wire_meta(a);
    assert(x.subrange(0, 4) =~= u32_le_bytes(a.height));
    assert(x.subrange(4, 8) =~= u32_le_bytes(a.width));
    assert(x.subrange(8, 12) =~= u32_le_bytes(a.events.len() as u32));
}

proof fn lemma_event_bytes(e: Event, w: u32, h: u32)
    ensures
        wire_event_bytes(e, w, h).len() == 13,
        wire_event_bytes(e, w, h).subrange(0, 2) == u16_le_bytes((dim16(w) - e.x - 1) as u16),
        wire_event_bytes(e, w, h).subrange(2, 4) == u16_le_bytes((dim16(h) - e.y - 1) as u16),
        wire_event_bytes(e, w, h).subrange(4, 8) == u32_le_bytes(e.ts.sec as u32),
        wire_event_bytes(e, w, h).subrange(8, 12) == u32_le_bytes(e.ts.nsec),
        wire_event_bytes(e, w, h)[12] == (if e.polarity {
            1u8
        } else {
            0u8
        }),
{
    reveal(wire_event_bytes);
    let x = wire_event_bytes(e, w, h);
    assert(x.subrange(0, 2) =~= u16_le_bytes((dim16(w) - e.x - 1) as u16));
    assert(x.subrange(2, 4) =~= u16_le_bytes((dim16(h) - e.y - 1) as u16));
    assert(x.subrange(4, 8) =~= u32_le_bytes(e.ts.sec as u32));
    assert(x.subrange(8, 12) =~= u32_le_bytes(e.ts.nsec));
}

proof fn lemma_u32_at(d: Seq<u8>, k: int, v: u32)
    requires
        0 <= k,
        k + 4 <= d.len(),
        d.subrange(k, k + 4) == u32_le_bytes(v),
    ensures
        le_u32(d, k) == v,
{
    lemma_le_u32_of_bytes(v);
    let s = d.subrange(k, k + 4);
    assert(d[k] == s[0] && d[k + 1] == s[1] && d[k + 2] == s[2] && d[k + 3] == s[3]);
}

proof fn lemma_u16_at(d: Seq<u8>, k: int, v: u16)
    requires
        0 <= k,
        k + 2 <= d.len(),
        d.subrange(k, k + 2) == u16_le_bytes(v),
    ensures
        le_u16(d, k) == v,
{
    lemma_le_u16_of_bytes(v);
    let s = d.subrange(k, k + 2);
    assert(d[k] == s[0] && d[k + 1] == s[1]);
}

proof fn lemma_wire_events(es: Seq<Event>, w: u32, h: u32, i: int)
    requires
        0 <= i < es.len(),
    ensures
        wire_events(es, w, h).len() == 13 * es.len(),
        wire_events(es, w, h).subrange(13 * i, 13 * i + 13) == wire_event_bytes(es[i], w, h),
    decreases es.len(),
{
    let init = es.drop_last();
    let whole = wire_events(es, w, h);
    lemma_event_bytes(es.last(), w, h);
    if init.len() > 0 {
        lemma_wire_events(init, w, h, if i < es.len() - 1 { i } else { 0 });
    }
    if i < es.len() - 1 {
        lemma_sub(wire_events(init, w, h), wire_event_bytes(es.last(), w, h), 13 * i, 13 * i + 13);
    } else {
        lemma_sub(
            wire_events(init, w, h),
            wire_event_bytes(es.last(), w, h),
            13 * i,
            13 * i + 13,
        );
        assert(wire_event_bytes(es.last(), w, h).subrange(0, 13) =~= wire_event_bytes(es.last(), w, h));
    }
}

proof fn lemma_wire_events_len(es: Seq<Event>, w: u32, h: u32)
    ensures
        wire_events(es, w, h).len() == 13 * es.len(),
{
    if es.len() > 0 {
        lemma_wire_events(es, w, h, 0);
    }
}

proof fn lemma_event_round_trip(d: Seq<u8>, pre: Seq<u8>, es: Seq<Event>, w: u32, h: u32, i: int)
    requires
        d == pre + wire_events(es, w, h),
        0 <= i < es.len(),
        events_start(d) == pre.len(),
        es[i].x < dim16(w),
        es[i].y < dim16(h),
    ensures
        coords_ok(d, w, h, i),
        decode_event(d, w, h, i) == es[i],
{
    let e = es[i];
    let evs = wire_events(es, w, h);
    lemma_wire_events(es, w, h, i);
    lemma_event_bytes(e, w, h);
    let p = event_pos(d, i);
    let c = wire_event_bytes(e, w, h);
    lemma_sub(pre, evs, p, p + 13);
    assert(d.subrange(p, p + 13) == c);
    lemma_sub_of_sub(d, p, p + 13, 0, 2);
    lemma_sub_of_sub(d, p, p + 13, 2, 4);
    lemma_sub_of_sub(d, p, p + 13, 4, 8);
    lemma_sub_of_sub(d, p, p + 13, 8, 12);
    assert(d[p + 12] == d.subrange(p, p + 13)[12]);
    let rx = (dim16(w) - e.x - 1) as u16;
    let ry = (dim16(h) - e.y - 1) as u16;
    lemma_u16_at(d, p, rx);
    lemma_u16_at(d, p + 2, ry);
    lemma_u32_at(d, p + 4, e.ts.sec as u32);
    lemma_u32_at(d, p + 8, e.ts.nsec);
    let s = e.ts.sec;
    assert(((s as u32) as i32) == s) by (bit_vector);
    assert(decode_event(d, w, h, i).ts == e.ts);
}

proof fn lemma_prefix_split(a: EventArrayView)
    ensures
        wire_bytes(a) == (wire_head(a) + encode_utf8(a.header.frame_id) + wire_meta(a)) + wire_events(
            a.events,
            a.width,
            a.height,
        ),
        wire_head(a).len() == 16,
        wire_meta(a).len() == 12,
        wire_events(a.events, a.width, a.height).len() == 13 * a.events.len(),
{
    lemma_head(a);
    lemma_meta(a);
    lemma_wire_events_len(a.events, a.width, a.height);
}

proof fn lemma_head_fields(a: EventArrayView)
    ensures
        le_u32(wire_bytes(a), 0) == a.header.seq,
        (le_u32(wire_bytes(a), 4) as u32) as i32 == a.header.stamp.sec,
        le_u32(wire_bytes(a), 8) == a.header.stamp.nsec,
        le_u32(wire_bytes(a), 12) == encode_utf8(a.header.frame_id).len() as u32,
{
    let d = wire_bytes(a);
    let id = encode_utf8(a.header.frame_id);
    let head = wire_head(a);
    let meta = wire_meta(a);
    let evs = wire_events(a.events, a.width, a.height);
    let pre = head + id + meta;
    lemma_prefix_split(a);
    lemma_head(a);
    lemma_sub(pre, evs, 0, 16);
    lemma_sub(head + id, meta, 0, 16);
    lemma_sub(head, id, 0, 16);
    assert(head.subrange(0, 16) =~= head);
    assert(d.subrange(0, 16) == head);
    lemma_sub_of_sub(d, 0, 16, 0, 4);
    lemma_sub_of_sub(d, 0, 16, 4, 8);
    lemma_sub_of_sub(d, 0, 16, 8, 12);
    lemma_sub_of_sub(d, 0, 16, 12, 16);
    lemma_u32_at(d, 0, a.header.seq);
    lemma_u32_at(d, 4, a.header.stamp.sec as u32);
    lemma_u32_at(d, 8, a.header.stamp.nsec);
    lemma_u32_at(d, 12, id.len() as u32);
    let s = a.header.stamp.sec;
    assert(((s as u32) as i32) == s) by (bit_vector);
}

proof fn lemma_id_field(a: EventArrayView)
    requires
        encode_utf8(a.header.frame_id).len() <= u32::MAX,
    ensures
        wire_bytes(a).subrange(16, 16 + encode_utf8(a.header.frame_id).len() as int) == encode_utf8(
            a.header.frame_id,
        ),
{
    let id = encode_utf8(a.header.frame_id);
    let l = id.len() as int;
    let head = wire_head(a);
    let meta = wire_meta(a);
    let evs = wire_events(a.events, a.width, a.height);
    let pre = head + id + meta;
    lemma_prefix_split(a);
    lemma_sub(pre, evs, 16, 16 + l);
    lemma_sub(head + id, meta, 16, 16 + l);
    lemma_sub(head, id, 16, 16 + l);
    assert(id.subrange(0, l) =~= id);
}

proof fn lemma_meta_fields(a: EventArrayView)
    ensures
        ({
            let l = encode_utf8(a.header.frame_id).len() as int;
            &&& le_u32(wire_bytes(a), 16 + l) == a.height
            &&& le_u32(wire_bytes(a), 20 + l) == a.width
            &&& le_u32(wire_bytes(a), 24 + l) == a.events.len() as u32
        }),
{
    let d = wire_bytes(a);
    let id = encode_utf8(a.header.frame_id);
    let l = id.len() as int;
    let head = wire_head(a);
    let meta = wire_meta(a);
    let evs = wire_events(a.events, a.width, a.height);
    let pre = head + id + meta;
    lemma_prefix_split(a);
    lemma_meta(a);
    lemma_sub(pre, evs, 16 + l, 28 + l);
    lemma_sub(head + id, meta, 16 + l, 28 + l);
    assert(meta.subrange(0, 12) =~= meta);
    assert(d.subrange(16 + l, 28 + l) == meta);
    lemma_sub_of_sub(d, 16 + l, 28 + l, 0, 4);
    lemma_sub_of_sub(d, 16 + l, 28 + l, 4, 8);
    lemma_sub_of_sub(d, 16 + l, 28 + l, 8, 12);
    lemma_u32_at(d, 16 + l, a.height);
    lemma_u32_at(d, 20 + l, a.width);
    lemma_u32_at(d, 24 + l, a.events.len() as u32);
}

/// Decoding the payload that carries an event array gives that array back:
/// the coordinates written raw are flipped back by the decoder.
pub proof fn lemma_decode_of_encode(a: EventArrayView)
    requires
        encodable(a),
    ensures
        parse_event_array(wire_bytes(a), false) == Ok::<EventArrayView, DecodeError>(a),
{
    let d = wire_bytes(a);
    let id = encode_utf8(a.header.frame_id);
    let l = id.len() as int;
    let (w, h) = (a.width, a.height);
    let pre = wire_head(a) + id + wire_meta(a);
    lemma_prefix_split(a);
    lemma_head_fields(a);
    lemma_id_field(a);
    lemma_meta_fields(a);
    assert(id_len(d) == l);
    assert(num_events(d) == a.events.len());
    assert(d.len() == event_pos(d, a.events.len() as int));
    encode_utf8_valid_utf8(a.header.frame_id);
    encode_utf8_decode_utf8(a.header.frame_id);
    assert(decode_header(d) == a.header);
    assert forall|i: int| 0 <= i < a.events.len() implies #[trigger] coords_ok(d, w, h, i) by {
        lemma_event_round_trip(d, pre, a.events, w, h, i);
    }
    assert forall|i: int| 0 <= i < a.events.len() implies #[trigger] decode_event(d, w, h, i)
        == a.events[i] by {
        lemma_event_round_trip(d, pre, a.events, w, h, i);
    }
    assert(Seq::new(a.events.len(), |i: int| decode_event(d, w, h, i)) =~= a.events);
}

} // verus!
