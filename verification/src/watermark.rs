//! Watermark tracking for event-time progress.

use crate::time::{instant, Instant, Span, Timestamp};
use vstd::prelude::*;

verus! {

/// Tracks the progress of event time across a stream.
/// Events with timestamps older than the watermark are considered late.
pub struct Watermark {
    /// Current watermark position.
    current: Timestamp,
    /// How far the watermark trails the newest event.
    max_lateness: Span,
    /// How many late events have been observed.
    late_count: u64,
}

/// What a watermark knows, its lateness as a number of nanoseconds.
pub struct WatermarkView {
    pub current: Instant,
    pub max_lateness: int,
    pub late_count: nat,
}

impl View for Watermark {
    type V = WatermarkView;

    closed spec fn view(&self) -> WatermarkView {
        WatermarkView {
            current: self.current@,
            max_lateness: self.max_lateness@,
            late_count: self.late_count as nat,
        }
    }
}

impl WatermarkView {
    /// A watermark at the epoch that has seen nothing.
    pub open spec fn fresh(max_lateness: int) -> WatermarkView {
        WatermarkView { current: Instant::epoch(), max_lateness, late_count: 0 }
    }

    /// Whether an event at `time` is late.
    pub open spec fn late(self, time: Instant) -> bool {
        time.before(self.current)
    }

    /// Whether an event at `time` can be observed: a late one while the count has room,
    /// any other while the position it asks for is an instant.
    pub open spec fn can_observe(self, time: Instant) -> bool {
        if self.late(time) {
            self.late_count < u64::MAX
        } else {
            time.back(self.max_lateness).representable()
        }
    }

    /// The watermark after an event at `time`: a late event is counted, any other pulls
    /// the position up to `max_lateness` behind it, never back.
    pub open spec fn observed(self, time: Instant) -> WatermarkView {
        if self.late(time) {
            WatermarkView { late_count: self.late_count + 1, ..self }
        } else if self.current.before(time.back(self.max_lateness)) {
            WatermarkView { current: time.back(self.max_lateness), ..self }
        } else {
            self
        }
    }

    /// The watermark after events at `times`, in that order.
    pub open spec fn observed_all(self, times: Seq<Instant>) -> WatermarkView
        decreases times.len(),
    {
        if times.len() == 0 {
            self
        } else {
            self.observed_all(times.drop_last()).observed(times.last())
        }
    }
}

impl Watermark {
    /// Create a new watermark with the given max lateness tolerance.
    pub fn new(max_lateness: Span) -> (r: Watermark)
        ensures
            r@ == WatermarkView::fresh(max_lateness@),
    {
        Watermark { current: Timestamp::epoch(), max_lateness, late_count: 0 }
    }

    /// Advance the watermark based on an observed event timestamp.
    /// Returns false, counting the event as late, when it is before the watermark.
    pub fn advance(&mut self, event_time: &Timestamp) -> (accepted: bool)
        requires
            old(self)@.can_observe(event_time@),
        ensures
            accepted == !old(self)@.late(event_time@),
            final(self)@ == old(self)@.observed(event_time@),
    {
        if event_time.before(&self.current) {
            self.late_count = self.late_count + 1;
            return false;
        }
        let trailing = event_time.minus(&self.max_lateness);
        if self.current.before(&trailing) {
            self.current = trailing;
        }
        true
    }

    /// Whether `advance` can take this timestamp.
    pub fn can_advance(&self, event_time: &Timestamp) -> (r: bool)
        ensures
            r == self@.can_observe(event_time@),
    {
        if event_time.before(&self.current) {
            self.late_count < u64::MAX
        } else {
            event_time.can_step_back(&self.max_lateness)
        }
    }

    /// Get the current watermark position.
    pub fn current(&self) -> (r: &Timestamp)
        ensures
            r@ == self@.current,
    {
        &self.current
    }

    /// Get the count of late events observed.
    pub fn late_count(&self) -> (r: u64)
        ensures
            r == self@.late_count,
    {
        self.late_count
    }

    /// Check if a timestamp is considered late relative to current watermark.
    pub fn is_late(&self, ts: &Timestamp) -> (r: bool)
        ensures
            r == self@.late(ts@),
    {
        ts.before(&self.current)
    }
}

/// No event moves the watermark back.
pub proof fn law_watermark_never_moves_back(w: WatermarkView, time: Instant)
    ensures
        !w.observed(time).current.before(w.current),
        w.observed(time).late_count >= w.late_count,
{
}

/// An event exactly at the watermark is kept, and one that trails the newest event by no
/// more than the lateness tolerance is kept.
pub proof fn law_tolerated_events_are_kept(times: Seq<Instant>, max_lateness: int, time: Instant)
    requires
        !time.before(Instant::epoch()),
        forall|i: int|
            0 <= i < times.len() ==> !time.before((#[trigger] times[i]).back(max_lateness)),
    ensures
        !WatermarkView::fresh(max_lateness).observed_all(times).late(time),
    decreases times.len(),
{
    if times.len() > 0 {
        let earlier = times.drop_last();
        assert forall|i: int| 0 <= i < earlier.len() implies !time.before(
            (#[trigger] earlier[i]).back(max_lateness),
        ) by {
            assert(earlier[i] == times[i]);
        }
        law_tolerated_events_are_kept(earlier, max_lateness, time);
        let last = times.last();
        assert(last == times[times.len() - 1]);
    }
    lemma_lateness_is_kept(times, max_lateness);
    if times.len() > 0 {
        lemma_lateness_is_kept(times.drop_last(), max_lateness);
    }
}

/// Once an event has been accepted, any event further behind it than the lateness
/// tolerance is late, whatever came in between.
pub proof fn law_events_behind_the_tolerance_are_late(
    w: WatermarkView,
    newest: Instant,
    between: Seq<Instant>,
    time: Instant,
)
    requires
        !w.late(newest),
        time.before(newest.back(w.max_lateness)),
    ensures
        w.observed(newest).observed_all(between).late(time),
    decreases between.len(),
{
    if between.len() > 0 {
        law_events_behind_the_tolerance_are_late(w, newest, between.drop_last(), time);
    }
}

proof fn lemma_lateness_is_kept(times: Seq<Instant>, max_lateness: int)
    ensures
        WatermarkView::fresh(max_lateness).observed_all(times).max_lateness == max_lateness,
    decreases times.len(),
{
    if times.len() > 0 {
        lemma_lateness_is_kept(times.drop_last(), max_lateness);
    }
}

/// An event before the watermark is late: it is counted, and the position stays. Any other is
/// not counted. The tolerance never changes.
pub proof fn law_late_events_are_counted(w: WatermarkView, time: Instant)
    ensures
        time.before(w.current) ==> w.observed(time).late_count == w.late_count + 1
            && w.observed(time).current == w.current,
        !time.before(w.current) ==> w.observed(time).late_count == w.late_count,
        w.late(time) <==> time.before(w.current),
        w.observed(time).max_lateness == w.max_lateness,
{
}

/// The watermark stands where it was or exactly the tolerance behind the event that moved it,
/// and never short of that.
pub proof fn law_the_watermark_trails_by_the_tolerance(w: WatermarkView, time: Instant)
    requires
        !time.before(w.current),
    ensures
        w.observed(time).current == w.current || w.observed(time).current == time.back(
            w.max_lateness,
        ),
        !w.observed(time).current.before(time.back(w.max_lateness)),
{
}

/// A fresh watermark stands at the epoch and has counted nothing.
pub proof fn law_a_fresh_watermark_stands_at_the_epoch(max_lateness: int, time: Instant)
    ensures
        WatermarkView::fresh(max_lateness).late_count == 0,
        WatermarkView::fresh(max_lateness).late(time) <==> time.before(instant(0, 0)),
{
}

/// A late event can be observed while the count of late ones has room, and any other where
/// there is an instant the tolerance before it; the position then stays an instant.
pub proof fn law_most_events_can_be_observed(w: WatermarkView, time: Instant)
    ensures
        time.before(w.current) && w.late_count < 0xffff_ffff_ffff_ffff ==> w.can_observe(time),
        !time.before(w.current) && time.back(w.max_lateness).representable() ==> w.can_observe(
            time,
        ),
        w.can_observe(time) && w.current.representable() ==> w.observed(
            time,
        ).current.representable(),
{
}

} // verus!
