use crate::bytes::splice;
use crate::codec::DecodeError;
use crate::messages::{pack_record, record_bytes, Event, MAX_PACKED_MS};
use crate::time::{elapsed_ms, msec_of, Time};
use vstd::prelude::*;
use vstd::slice::slice_subrange;

verus! {

/// What became of an event offered to the synchronizer.
#[derive(Debug, Clone, Copy, PartialEq, Eq, Structural)]
pub enum Ingest {
    /// Packed into the current frame's window.
    Packed,
    /// Not taken: its time is past the current frame, whose window must be
    /// exported and closed before the event is offered again.
    WindowClosed,
    /// Not taken: the frames have run out and the run is over.
    Dropped,
}

/// Merges a zero-based event clock against a monotonic frame clock.
///
/// The event buffer is allocated once; a window is its first
/// `used_event_bytes` bytes and closing a window only resets that mark.
pub struct Synchronizer {
    event_buffer: Vec<u8>,
    used_event_bytes: usize,
    frame_timestamp_ms: u64,
    frame_index: u64,
    initial_event_timestamp: Option<Time>,
    finished: bool,
}

/// What a synchronizer holds.
pub struct SyncView {
    pub buffer: Seq<u8>,
    pub used: int,
    pub frame_ts: int,
    pub frame_index: int,
    pub baseline: Option<Time>,
    pub finished: bool,
}

impl View for Synchronizer {
    type V = SyncView;

    closed spec fn view(&self) -> SyncView {
        SyncView {
            buffer: self.event_buffer@,
            used: self.used_event_bytes as int,
            frame_ts: self.frame_timestamp_ms as int,
            frame_index: self.frame_index as int,
            baseline: self.initial_event_timestamp,
            finished: self.finished,
        }
    }
}

/// The current window: the bytes packed since the last boundary.
pub open spec fn window_of(s: SyncView) -> Seq<u8> {
    s.buffer.subrange(0, s.used)
}

/// The zero point after seeing `t`: the first nonzero event time, once seen.
pub open spec fn baseline_after(b: Option<Time>, t: Time) -> Option<Time> {
    if b is None && !(t.sec == 0 && t.nsec == 0) {
        Some(t)
    } else {
        b
    }
}

/// The time of an event on the zero-based clock, in milliseconds.
pub open spec fn zero_based_ms(b: Option<Time>, t: Time) -> int {
    match baseline_after(b, t) {
        Some(base) => elapsed_ms(t, base),
        None => msec_of(t),
    }
}

/// The boundary rule: an event closes a frame's window when its time
/// exceeds the frame's.
pub open spec fn closes_window(frame_ts: int, t: int) -> bool {
    t > frame_ts
}

/// The answer to offering `e` in state `s`.
pub open spec fn ingest_outcome(s: SyncView, e: Event) -> Result<Ingest, DecodeError> {
    let t = zero_based_ms(s.baseline, e.ts);
    if s.finished {
        Ok(Ingest::Dropped)
    } else if closes_window(s.frame_ts, t) {
        Ok(Ingest::WindowClosed)
    } else if t >= MAX_PACKED_MS {
        Err(DecodeError::TimestampOutOfRange)
    } else if s.used + 8 > s.buffer.len() {
        Err(DecodeError::BufferFull)
    } else {
        Ok(Ingest::Packed)
    }
}

/// The state after offering `e` in state `s`: changed only when it is packed.
pub open spec fn ingest_state(s: SyncView, e: Event) -> SyncView {
    if ingest_outcome(s, e) == Ok::<Ingest, DecodeError>(Ingest::Packed) {
        SyncView {
            buffer: splice(
                s.buffer,
                s.used,
                record_bytes(zero_based_ms(s.baseline, e.ts), e.x, e.y, e.polarity),
            ),
            used: s.used + 8,
            baseline: baseline_after(s.baseline, e.ts),
            ..s
        }
    } else {
        s
    }
}

/// The state after the current window is closed and `next` is the next
/// frame's time, if there is a next frame.
pub open spec fn close_state(s: SyncView, next: Option<u64>) -> SyncView {
    SyncView {
        used: 0,
        frame_ts: match next {
            Some(t) => t as int,
            None => s.frame_ts,
        },
        frame_index: s.frame_index + 1,
        finished: next is None,
        ..s
    }
}

impl Synchronizer {
    /// Well-formed: the window lies inside the buffer and holds whole records.
    pub closed spec fn wf(&self) -> bool {
        &&& self.used_event_bytes <= self.event_buffer@.len()
        &&& self.used_event_bytes % 8 == 0
    }

    /// A synchronizer with an event buffer of `capacity_bytes` bytes, seeded
    /// with the first frame's time; with no first frame the run is over.
    pub fn new(capacity_bytes: usize, first_frame_ms: Option<u64>) -> (r: Synchronizer)
        ensures
            r.wf(),
            r@.buffer.len() == capacity_bytes,
            r@.used == 0,
            r@.frame_index == 0,
            r@.baseline is None,
            r@.finished == (first_frame_ms is None),
            first_frame_ms matches Some(t) ==> r@.frame_ts == t,
    {
        let ts = match first_frame_ms {
            Some(t) => t,
            None => 0,
        };
        Synchronizer {
            event_buffer: vec![0u8; capacity_bytes],
            used_event_bytes: 0,
            frame_timestamp_ms: ts,
            frame_index: 0,
            initial_event_timestamp: None,
            finished: first_frame_ms.is_none(),
        }
    }

    /// Offers one event. While frames remain, the event is zero-based against
    /// the first nonzero event time and then either packed into the current
    /// window or refused because it lies past the current frame.
    pub fn ingest_event(&mut self, event: &Event) -> (r: Result<Ingest, DecodeError>)
        requires
            old(self).wf(),
        ensures
            final(self).wf(),
            r == ingest_outcome(old(self)@, *event),
            final(self)@ == ingest_state(old(self)@, *event),
    {
        if self.finished {
            return Ok(Ingest::Dropped);
        }
        let base = match self.initial_event_timestamp {
            Some(b) => Some(b),
            None => if event.ts.is_zero() {
                None
            } else {
                Some(event.ts)
            },
        };
        let t = match base {
            Some(b) => event.ts.millis_since(&b),
            None => event.ts.msec(),
        };
        if t > self.frame_timestamp_ms {
            return Ok(Ingest::WindowClosed);
        }
        if t >= MAX_PACKED_MS {
            return Err(DecodeError::TimestampOutOfRange);
        }
        let len = self.event_buffer.len();
        if len - self.used_event_bytes < 8 {
            return Err(DecodeError::BufferFull);
        }
        pack_record(
            t as u32,
            event.x,
            event.y,
            event.polarity,
            &mut self.event_buffer,
            self.used_event_bytes,
        );
        self.used_event_bytes = self.used_event_bytes + 8;
        self.initial_event_timestamp = base;
        Ok(Ingest::Packed)
    }

    /// Closes the current window: the mark goes back to zero, the frame index
    /// advances, and `next_frame_ms` becomes the current frame's time. With
    /// no next frame the run is over.
    pub fn close_window(&mut self, next_frame_ms: Option<u64>)
        requires
            old(self).wf(),
            !old(self)@.finished,
            old(self)@.frame_index < u64::MAX,
        ensures
            final(self).wf(),
            final(self)@ == close_state(old(self)@, next_frame_ms),
    {
        self.used_event_bytes = 0;
        self.frame_index = self.frame_index + 1;
        match next_frame_ms {
            Some(t) => {
                self.frame_timestamp_ms = t;
            },
            None => {
                self.finished = true;
            },
        }
    }

    /// The packed records of the current window.
    pub fn window(&self) -> (r: &[u8])
        requires
            self.wf(),
        ensures
            r@ == window_of(self@),
    {
        slice_subrange(self.event_buffer.as_slice(), 0, self.used_event_bytes)
    }

    /// Bytes packed into the current window.
    pub fn used_event_bytes(&self) -> (r: usize)
        ensures
            r == self@.used,
    {
        self.used_event_bytes
    }

    /// Index of the current frame, counted from zero.
    pub fn frame_index(&self) -> (r: u64)
        ensures
            r == self@.frame_index,
    {
        self.frame_index
    }

    /// Time of the current frame, in milliseconds.
    pub fn frame_timestamp_ms(&self) -> (r: u64)
        ensures
            r == self@.frame_ts,
    {
        self.frame_timestamp_ms
    }

    /// Whether the frames have run out.
    pub fn is_finished(&self) -> (r: bool)
        ensures
            r == self@.finished,
    {
        self.finished
    }
}

/// A packed event extends the current window by its record, stamped with
/// its zero-based time; the bytes before it stay as they were.
pub proof fn lemma_packed_extends_window(s: SyncView, e: Event)
    requires
        0 <= s.used <= s.buffer.len(),
        ingest_outcome(s, e) == Ok::<Ingest, DecodeError>(Ingest::Packed),
    ensures
        window_of(ingest_state(s, e)) == window_of(s) + record_bytes(
            zero_based_ms(s.baseline, e.ts),
            e.x,
            e.y,
            e.polarity,
        ),
{
    assert(window_of(ingest_state(s, e)) =~= window_of(s) + record_bytes(
        zero_based_ms(s.baseline, e.ts),
        e.x,
        e.y,
        e.polarity,
    ));
}

/// Once the frames have run out, every further event is dropped and the
/// state, its buffer included, stays as it is; closing the last window with
/// no next frame is what ends the run.
pub proof fn lemma_exhausted_drops(s: SyncView, e: Event, es: Seq<Event>)
    ensures
        close_state(s, None).finished,
        s.finished ==> ingest_outcome(s, e) == Ok::<Ingest, DecodeError>(Ingest::Dropped),
        s.finished ==> ingest_state(s, e) == s,
        s.finished ==> ingest_all(s, es) == s,
    decreases es.len(),
{
    if s.finished && es.len() > 0 {
        lemma_exhausted_drops(s, e, es.drop_last());
    }
}

/// The state after offering each of `es` in order, with no window closed
/// in between.
pub open spec fn ingest_all(s: SyncView, es: Seq<Event>) -> SyncView
    decreases es.len(),
{
    if es.len() == 0 {
        s
    } else {
        ingest_state(ingest_all(s, es.drop_last()), es.last())
    }
}

/// Two states that differ at most in the stale bytes past the current window.
pub open spec fn same_but_stale(a: SyncView, b: SyncView) -> bool {
    &&& 0 <= a.used <= a.buffer.len()
    &&& a.buffer.len() == b.buffer.len()
    &&& a.used == b.used
    &&& a.frame_ts == b.frame_ts
    &&& a.frame_index == b.frame_index
    &&& a.baseline == b.baseline
    &&& a.finished == b.finished
    &&& window_of(a) == window_of(b)
}

/// Re-running the same events and frame boundaries gives the same answers
/// and the same window bytes, whatever stale bytes the reused buffer holds
/// past the window; after a boundary both windows start empty.
pub proof fn lemma_replay_identical(a: SyncView, b: SyncView, es: Seq<Event>, next: Option<u64>)
    requires
        same_but_stale(a, b),
    ensures
        same_but_stale(ingest_all(a, es), ingest_all(b, es)),
        es.len() > 0 ==> ingest_outcome(ingest_all(a, es.drop_last()), es.last()) == ingest_outcome(
            ingest_all(b, es.drop_last()),
            es.last(),
        ),
        same_but_stale(close_state(a, next), close_state(b, next)),
    decreases es.len(),
{
    assert(window_of(close_state(a, next)) =~= window_of(close_state(b, next)));
    if es.len() > 0 {
        lemma_replay_identical(a, b, es.drop_last(), next);
        let (a1, b1) = (ingest_all(a, es.drop_last()), ingest_all(b, es.drop_last()));
        let e = es.last();
        if ingest_outcome(a1, e) == Ok::<Ingest, DecodeError>(Ingest::Packed) {
            lemma_packed_extends_window(a1, e);
            lemma_packed_extends_window(b1, e);
        }
    }
}

/// The frame a run stands at after offering an event at time `t` while at
/// frame `cur`: windows are closed while `t` is past the current frame.
/// `frames.len()` means the frames ran out.
pub open spec fn advance(frames: Seq<int>, cur: int, t: int) -> int
    decreases frames.len() - cur,
{
    if 0 <= cur < frames.len() && closes_window(frames[cur], t) {
        advance(frames, cur + 1, t)
    } else {
        cur
    }
}

/// The frame a run stands at once the events at times `ts` have been
/// offered in order, starting at frame zero.
pub open spec fn frame_after(frames: Seq<int>, ts: Seq<int>) -> int
    decreases ts.len(),
{
    if ts.len() == 0 {
        0
    } else {
        advance(frames, frame_after(frames, ts.drop_last()), ts.last())
    }
}

/// The window that the `k`-th event lands in.
pub open spec fn window_index(frames: Seq<int>, ts: Seq<int>, k: int) -> int {
    frame_after(frames, ts.take(k + 1))
}

proof fn lemma_advance(frames: Seq<int>, cur: int, t: int)
    requires
        0 <= cur <= frames.len(),
    ensures
        cur <= advance(frames, cur, t) <= frames.len(),
        advance(frames, cur, t) < frames.len() ==> t <= frames[advance(frames, cur, t)],
        advance(frames, cur, t) > cur ==> t > frames[advance(frames, cur, t) - 1],
    decreases frames.len() - cur,
{
    if cur < frames.len() && closes_window(frames[cur], t) {
        lemma_advance(frames, cur + 1, t);
    }
}

/// With frame times `f0 < f1 < ...` and zero-based event times
/// `e0 <= e1 <= ...`, the `k`-th event lands in the window of frame `w` only
/// if `f(w-1) < e_k <= f(w)`: events up to `f0` land in window zero, and an
/// event past `fi` never lands in a window `j <= i`. A window index equal to
/// the number of frames means the frames ran out before the event.
pub proof fn lemma_window_bounds(frames: Seq<int>, ts: Seq<int>, k: int)
    requires
        forall|i: int, j: int| 0 <= i < j < frames.len() ==> #[trigger] frames[i] < #[trigger] frames[j],
        forall|i: int, j: int| 0 <= i < j < ts.len() ==> #[trigger] ts[i] <= #[trigger] ts[j],
        0 <= k < ts.len(),
    ensures
        0 <= window_index(frames, ts, k) <= frames.len(),
        window_index(frames, ts, k) < frames.len() ==> ts[k] <= frames[window_index(frames, ts, k)],
        window_index(frames, ts, k) > 0 ==> ts[k] > frames[window_index(frames, ts, k) - 1],
    decreases k,
{
    let prefix = ts.take(k + 1);
    assert(prefix.drop_last() =~= ts.take(k));
    assert(prefix.last() == ts[k]);
    if k == 0 {
        assert(ts.take(0) =~= Seq::<int>::empty());
        lemma_advance(frames, 0, ts[0]);
    } else {
        lemma_window_bounds(frames, ts, k - 1);
        let prev = window_index(frames, ts, k - 1);
        lemma_advance(frames, prev, ts[k]);
        assert(ts[k - 1] <= ts[k]);
    }
}

} // verus!
