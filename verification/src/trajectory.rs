//! Trajectory processing: buffering, anomaly detection, statistics.
//!
//! Distances and speeds are measured by the caller; what is buffered and what is reported
//! is decided here.

use crate::event::{
    output_views, Event, EventView, Field, FieldView, OutputEvent, OutputEventView, Payload,
};
use crate::keyed::Keyed;
use crate::number::{number_one, number_zero, one, zero, Number};
use crate::operator::optional_view;
use crate::proximity::Position;
use crate::time::{fits_second, toward_zero, Instant, Timestamp};
use vstd::prelude::*;

verus! {

/// A trajectory point with timestamp.
#[derive(Clone, Copy, Debug)]
pub struct TrajectoryPoint {
    pub lon: Number,
    pub lat: Number,
    pub timestamp: Timestamp,
}

/// A trajectory point.
pub struct PointView {
    pub lon: Number,
    pub lat: Number,
    pub timestamp: Instant,
}

impl View for TrajectoryPoint {
    type V = PointView;

    open spec fn view(&self) -> PointView {
        PointView { lon: self.lon, lat: self.lat, timestamp: self.timestamp@ }
    }
}

/// What a list of points holds.
pub open spec fn point_views(v: Seq<TrajectoryPoint>) -> Seq<PointView> {
    Seq::new(v.len(), |i: int| v[i]@)
}

/// A point, if there is one.
pub open spec fn optional_point(point: Option<TrajectoryPoint>) -> Option<PointView> {
    match point {
        Some(p) => Some(p@),
        None => None,
    }
}

/// Where and when an event was.
pub open spec fn point_of(event: EventView) -> PointView {
    PointView { lon: event.lon, lat: event.lat, timestamp: event.timestamp }
}

/// The milliseconds from one point to another, without the fraction.
pub open spec fn leg_millis(from: PointView, to: PointView) -> int {
    toward_zero(to.timestamp.since(from.timestamp), 1_000_000)
}

/// A buffer after one more point: the oldest one goes where the buffer would be too long.
pub open spec fn buffered(
    points: Seq<PointView>,
    point: PointView,
    max_buffer: nat,
) -> Seq<PointView> {
    let longer = points.push(point);
    if longer.len() > max_buffer {
        longer.skip(1)
    } else {
        longer
    }
}

/// A buffer after these points, one at a time.
pub open spec fn buffered_all(
    points: Seq<PointView>,
    more: Seq<PointView>,
    max_buffer: nat,
) -> Seq<PointView>
    decreases more.len(),
{
    if more.len() == 0 {
        points
    } else {
        buffered(buffered_all(points, more.drop_last(), max_buffer), more.last(), max_buffer)
    }
}

/// The newest `n` points, or all where there are fewer.
pub open spec fn newest(points: Seq<PointView>, n: nat) -> Seq<PointView> {
    if points.len() > n {
        points.skip(points.len() - n)
    } else {
        points
    }
}

/// Tracks entity movement, computes statistics, detects anomalies.
pub struct TrajectoryOperator {
    name: String,
    /// Maximum buffer size per entity.
    max_buffer: usize,
    /// Speed above which an alert is emitted, in m/s.
    max_speed: Number,
    /// Buffers by entity, in the order the entities came.
    trajectories: Keyed<Vec<TrajectoryPoint>>,
}

/// What the caller measured for one entity when a window closed.
#[derive(Debug)]
pub struct Measured {
    /// The event the summary is attached to.
    pub event: Event,
    /// The length of the trajectory in meters.
    pub total_distance: Number,
    /// The length over the duration in seconds.
    pub average: Number,
}

/// A speed that is zero where no time passed.
pub open spec fn speed_over(millis: int, measured: Number) -> Number {
    if millis > 0 {
        measured
    } else {
        zero()
    }
}

/// The speed over a leg: what was measured, or zero where no time passed or it ran back.
pub fn compute_speed(from: &TrajectoryPoint, to: &TrajectoryPoint, measured: Number) -> (r: Number)
    ensures
        r == speed_over(leg_millis(from@, to@), measured),
{
    if to.timestamp.millis_since(&from.timestamp) > 0 {
        measured
    } else {
        number_zero()
    }
}

/// The points that a moving average over `window` points takes in: the newest ones, if
/// there are as many.
pub fn smoothing_window(points: &Vec<TrajectoryPoint>, window: usize) -> (r: Option<
    Vec<TrajectoryPoint>,
>)
    ensures
        match r {
            Some(recent) => points@.len() >= window && point_views(recent@) == newest(
                point_views(points@),
                window as nat,
            ) && recent@.len() == window,
            None => points@.len() < window,
        },
{
    if points.len() < window {
        return None;
    }
    let mut recent: Vec<TrajectoryPoint> = Vec::new();
    let start: usize = points.len() - window;
    let mut i: usize = start;
    while i < points.len()
        invariant
            start == points@.len() - window,
            start <= i <= points@.len(),
            recent@.len() == i - start,
            forall|k: int| 0 <= k < recent@.len() ==> #[trigger] recent@[k] == points@[k + start],
        decreases points@.len() - i,
    {
        recent.push(points[i]);
        i = i + 1;
    }
    proof {
        assert(point_views(recent@) =~= newest(point_views(points@), window as nat));
    }
    Some(recent)
}

impl TrajectoryOperator {
    #[verifier::type_invariant]
    spec fn inv(self) -> bool {
        self.trajectories.distinct()
    }

    /// The operator's name.
    pub closed spec fn spec_name(&self) -> Seq<char> {
        self.name@
    }

    /// The most points kept per entity.
    pub closed spec fn max_buffer(&self) -> nat {
        self.max_buffer as nat
    }

    /// The speed above which an alert is emitted.
    pub closed spec fn max_speed(&self) -> Number {
        self.max_speed
    }

    /// The entities in the order they came.
    pub closed spec fn entities(&self) -> Seq<Seq<char>> {
        self.trajectories.names()
    }

    /// The points kept for an entity; none where it is not known.
    pub closed spec fn track(&self, entity: Seq<char>) -> Seq<PointView> {
        if self.trajectories.has(entity) {
            point_views(self.trajectories.value(entity)@)
        } else {
            Seq::empty()
        }
    }

    /// The alert on a speed above the limit.
    pub open spec fn anomaly(&self, event: EventView, speed: Number) -> OutputEventView {
        OutputEventView {
            source_event: event,
            operator: self.spec_name(),
            payload: seq![
                ("alert"@, FieldView::Text("speed_anomaly"@)),
                ("entity_id"@, FieldView::Text(event.entity_id)),
                ("computed_speed_mps"@, FieldView::Number(speed)),
                ("max_speed_mps"@, FieldView::Number(self.max_speed())),
            ],
        }
    }

    /// The running statistics of an entity.
    pub open spec fn update(
        &self,
        event: EventView,
        speed: Number,
        total_distance: Number,
    ) -> OutputEventView {
        OutputEventView {
            source_event: event,
            operator: self.spec_name(),
            payload: seq![
                ("type"@, FieldView::Text("trajectory_update"@)),
                ("entity_id"@, FieldView::Text(event.entity_id)),
                ("point_count"@, FieldView::Count(self.track(event.entity_id).len())),
                ("total_distance_meters"@, FieldView::Number(total_distance)),
                ("current_speed_mps"@, FieldView::Number(speed)),
            ],
        }
    }

    /// What is reported on a leg: an alert where the speed over it is above the limit, then
    /// the running statistics.
    pub open spec fn reports(
        &self,
        event: EventView,
        previous: PointView,
        measured_speed: Number,
        total_distance: Number,
    ) -> Seq<OutputEventView> {
        let speed = speed_over(leg_millis(previous, point_of(event)), measured_speed);
        (if self.max_speed().below(speed) {
            seq![self.anomaly(event, speed)]
        } else {
            Seq::empty()
        }).push(self.update(event, speed, total_distance))
    }

    /// The seconds from an entity's first point to its last, without the fraction.
    pub open spec fn duration(&self, entity: Seq<char>) -> int {
        toward_zero(
            self.track(entity).last().timestamp.since(self.track(entity)[0].timestamp),
            1_000_000_000,
        )
    }

    /// The summary of an entity's trajectory.
    pub open spec fn summary(&self, entity: Seq<char>, measured: Measured) -> OutputEventView {
        OutputEventView {
            source_event: measured.event@,
            operator: self.spec_name(),
            payload: seq![
                ("type"@, FieldView::Text("trajectory_summary"@)),
                ("entity_id"@, FieldView::Text(entity)),
                ("point_count"@, FieldView::Count(self.track(entity).len())),
                ("total_distance_meters"@, FieldView::Number(measured.total_distance)),
                ("duration_seconds"@, FieldView::Seconds(self.duration(entity))),
                (
                    "avg_speed_mps"@,
                    FieldView::Number(speed_over(self.duration(entity), measured.average)),
                ),
            ],
        }
    }

    /// The summaries of the first `n` entities: of those with at least two points.
    pub open spec fn summaries(&self, measured: Seq<Measured>, n: int) -> Seq<OutputEventView>
        decreases n,
    {
        if n <= 0 {
            Seq::empty()
        } else {
            let earlier = self.summaries(measured, n - 1);
            let entity = self.entities()[n - 1];
            if self.track(entity).len() >= 2 {
                earlier.push(self.summary(entity, measured[n - 1]))
            } else {
                earlier
            }
        }
    }

    /// An operator that has seen nothing.
    pub fn new(name: &str, max_buffer: usize, max_speed: Number) -> (r: TrajectoryOperator)
        ensures
            r.spec_name() == name@,
            r.max_buffer() == max_buffer,
            r.max_speed() == max_speed,
            r.entities() == Seq::<Seq<char>>::empty(),
            forall|entity: Seq<char>| #[trigger] r.track(entity) == Seq::<PointView>::empty(),
    {
        let r = TrajectoryOperator {
            name: name.to_string(),
            max_buffer,
            max_speed,
            trajectories: Keyed::new(),
        };
        proof {
            assert(r.trajectories.names() =~= Seq::empty());
        }
        r
    }

    /// The operator's name.
    pub fn name(&self) -> (r: &str)
        ensures
            r@ == self.spec_name(),
    {
        self.name.as_str()
    }

    /// The points kept for an entity, if it is known.
    pub fn points(&self, entity: &str) -> (r: Option<&Vec<TrajectoryPoint>>)
        ensures
            match r {
                Some(points) => point_views(points@) == self.track(entity@),
                None => self.track(entity@).len() == 0,
            },
    {
        proof {
            use_type_invariant(self);
        }
        self.trajectories.get(entity)
    }

    /// The entities in the order they came.
    pub fn known(&self) -> (r: Vec<String>)
        ensures
            r@.len() == self.entities().len(),
            forall|i: int| 0 <= i < r@.len() ==> (#[trigger] r@[i])@ == self.entities()[i],
            self.entities().no_duplicates(),
    {
        proof {
            use_type_invariant(self);
        }
        let mut names: Vec<String> = Vec::new();
        let mut i: usize = 0;
        while i < self.trajectories.entries.len()
            invariant
                i <= self.trajectories.entries@.len(),
                names@.len() == i,
                forall|k: int| 0 <= k < i ==> (#[trigger] names@[k])@ == self.entities()[k],
            decreases self.trajectories.entries@.len() - i,
        {
            names.push(self.trajectories.entries[i].0.clone());
            i = i + 1;
        }
        names
    }

    /// Buffers the event's point, and hands out the point before it, if there was one. The
    /// statistics that `report` gives then cover the leg that just happened.
    pub fn observe(&mut self, event: &Event) -> (previous: Option<TrajectoryPoint>)
        ensures
            final(self).spec_name() == old(self).spec_name(),
            final(self).max_buffer() == old(self).max_buffer(),
            final(self).max_speed() == old(self).max_speed(),
            match previous {
                Some(p) => old(self).track(event@.entity_id).len() > 0 && p@ == old(self).track(
                    event@.entity_id,
                ).last(),
                None => old(self).track(event@.entity_id).len() == 0,
            },
            final(self).track(event@.entity_id) == buffered(
                old(self).track(event@.entity_id),
                point_of(event@),
                old(self).max_buffer(),
            ),
            forall|other: Seq<char>|
                other != event@.entity_id ==> #[trigger] final(self).track(other)
                    == old(self).track(other),
            final(self).entities() == (if old(self).entities().contains(event@.entity_id) {
                old(self).entities()
            } else {
                old(self).entities().push(event@.entity_id)
            }),
    {
        proof {
            use_type_invariant(&*self);
        }
        let ghost before = *self;
        let entity = event.entity_id.as_str();
        let point = TrajectoryPoint {
            lon: event.lon,
            lat: event.lat,
            timestamp: event.timestamp,
        };
        let mut trajectories: Keyed<Vec<TrajectoryPoint>> = Keyed::new();
        std::mem::swap(&mut trajectories, &mut self.trajectories);
        let mut points: Vec<TrajectoryPoint> = Vec::new();
        if let Some(i) = trajectories.find(entity) {
            let slot = &mut trajectories.entries[i];
            std::mem::swap(&mut slot.1, &mut points);
        }
        let ghost emptied = trajectories;
        proof {
            assert(emptied.names() =~= before.trajectories.names());
            assert forall|other: Seq<char>| other != entity@ implies #[trigger] emptied.lookup(other)
                == before.trajectories.lookup(other) by {
                if before.trajectories.has(other) {
                    let k = before.trajectories.position_of(other);
                    assert(before.trajectories.names()[k] == other);
                }
            }
            assert(point_views(points@) =~= before.track(entity@));
        }
        let n: usize = points.len();
        let previous = if n > 0 {
            Some(points[n - 1])
        } else {
            None
        };
        let ghost shorter = point_views(points@);
        points.push(point);
        proof {
            assert(point_views(points@) =~= shorter.push(point@));
        }
        if points.len() > self.max_buffer {
            let ghost longer = points@;
            points.remove(0);
            proof {
                assert(point_views(points@) =~= point_views(longer).skip(1));
            }
        }
        trajectories.put(entity, points);
        let ghost placed = trajectories;
        self.trajectories = trajectories;
        proof {
            assert(placed.lookup(entity@) == Some(points));
            assert forall|other: Seq<char>| other != entity@ implies #[trigger] self.track(other)
                == before.track(other) by {
                assert(placed.lookup(other) == emptied.lookup(other));
            }
        }
        previous
    }

    /// What is reported once an event has been buffered: an alert where the speed over the
    /// leg is above the limit, then the running statistics. `measured_speed` is the
    /// distance of the leg over its seconds, `total_distance` the length of the buffered
    /// trajectory in meters.
    pub fn report(
        &self,
        event: &Event,
        previous: &TrajectoryPoint,
        measured_speed: Number,
        total_distance: Number,
    ) -> (r: Vec<OutputEvent>)
        ensures
            output_views(r@) == self.reports(event@, previous@, measured_speed, total_distance),
    {
        let current = TrajectoryPoint {
            lon: event.lon,
            lat: event.lat,
            timestamp: event.timestamp,
        };
        let speed = compute_speed(previous, &current, measured_speed);
        let mut outputs: Vec<OutputEvent> = Vec::new();
        if self.max_speed.lt(speed) {
            let payload = Payload::new().with_text("alert", "speed_anomaly").with_text(
                "entity_id",
                event.entity_id.as_str(),
            ).with("computed_speed_mps", Field::Number(speed)).with(
                "max_speed_mps",
                Field::Number(self.max_speed),
            );
            proof {
                assert(payload@ =~= self.anomaly(event@, speed).payload);
            }
            outputs.push(
                OutputEvent {
                    source_event: event.clone(),
                    operator: self.name.clone(),
                    payload,
                },
            );
        }
        let ghost earlier = output_views(outputs@);
        let count: u64 = match self.points(event.entity_id.as_str()) {
            Some(points) => points.len() as u64,
            None => 0,
        };
        let payload = Payload::new().with_text("type", "trajectory_update").with_text(
            "entity_id",
            event.entity_id.as_str(),
        ).with("point_count", Field::Count(count)).with(
            "total_distance_meters",
            Field::Number(total_distance),
        ).with("current_speed_mps", Field::Number(speed));
        proof {
            assert(payload@ =~= self.update(event@, speed, total_distance).payload);
        }
        let output = OutputEvent {
            source_event: event.clone(),
            operator: self.name.clone(),
            payload,
        };
        outputs.push(output);
        proof {
            assert(output_views(outputs@) =~= earlier.push(output@));
            if self.max_speed.below(speed) {
                assert(earlier =~= seq![self.anomaly(event@, speed)]);
            } else {
                assert(earlier =~= Seq::empty());
            }
        }
        outputs
    }

    /// Emits one summary for each entity with at least two points, and forgets them all.
    /// `measured` holds what was measured for each entity, in the order of `known`.
    pub fn on_window_close(&mut self, measured: &Vec<Measured>) -> (r: Vec<OutputEvent>)
        requires
            measured@.len() == old(self).entities().len(),
        ensures
            output_views(r@) == old(self).summaries(
                measured@,
                old(self).entities().len() as int,
            ),
            old(self).entities().no_duplicates(),
            final(self).spec_name() == old(self).spec_name(),
            final(self).max_buffer() == old(self).max_buffer(),
            final(self).max_speed() == old(self).max_speed(),
            final(self).entities() == Seq::<Seq<char>>::empty(),
            forall|entity: Seq<char>| #[trigger]
                final(self).track(entity) == Seq::<PointView>::empty(),
    {
        proof {
            use_type_invariant(&*self);
        }
        let ghost before = *self;
        let mut outputs: Vec<OutputEvent> = Vec::new();
        let mut i: usize = 0;
        proof {
            assert(output_views(outputs@) =~= Seq::empty());
        }
        while i < self.trajectories.entries.len()
            invariant
                i <= self.trajectories.entries@.len(),
                *self == before,
                self.trajectories.distinct(),
                measured@.len() == self.entities().len(),
                output_views(outputs@) == self.summaries(measured@, i as int),
            decreases self.trajectories.entries@.len() - i,
        {
            let ghost earlier = output_views(outputs@);
            let entity = self.trajectories.entries[i].0.as_str();
            let points = &self.trajectories.entries[i].1;
            let n: usize = points.len();
            proof {
                self.trajectories.lemma_position(i as int);
                assert(self.entities()[i as int] == entity@);
                assert(self.track(entity@) == point_views(points@));
            }
            if n >= 2 {
                let duration: i64 = points[n - 1].timestamp.secs_since(&points[0].timestamp);
                let average = if duration > 0 {
                    measured[i].average
                } else {
                    number_zero()
                };
                let payload = Payload::new().with_text("type", "trajectory_summary").with_text(
                    "entity_id",
                    entity,
                ).with("point_count", Field::Count(n as u64)).with(
                    "total_distance_meters",
                    Field::Number(measured[i].total_distance),
                ).with("duration_seconds", Field::Seconds(duration)).with(
                    "avg_speed_mps",
                    Field::Number(average),
                );
                proof {
                    assert(self.track(entity@).last() == points@[n - 1]@);
                    assert(payload@ =~= self.summary(entity@, measured@[i as int]).payload);
                }
                let output = OutputEvent {
                    source_event: measured[i].event.clone(),
                    operator: self.name.clone(),
                    payload,
                };
                outputs.push(output);
                proof {
                    assert(output_views(outputs@) =~= earlier.push(output@));
                }
            }
            i = i + 1;
        }
        self.trajectories = Keyed::new();
        proof {
            assert(self.trajectories.names() =~= Seq::empty());
        }
        outputs
    }
}

/// Since when an entity has stood still, and whether that has been reported.
#[derive(Clone, Copy, Debug)]
pub struct Still {
    pub since: Timestamp,
    pub reported: bool,
}

/// Where an entity was last, and the stop it is making, if it stands still.
#[derive(Clone, Copy, Debug)]
pub struct Seen {
    pub point: TrajectoryPoint,
    pub still: Option<Still>,
}

/// The seconds after which an entity that stands still is reported.
pub const STOP_SECONDS: i64 = 30;

/// Reports entities that have stood still, at or below 1 m/s, for a while. Each stop is
/// reported once. Windows do not come into it: a stop goes on when one closes.
pub struct StopWatch {
    seen: Keyed<Seen>,
}

/// Since when an entity has stood still, and whether that has been reported.
pub struct StillView {
    pub since: Instant,
    pub reported: bool,
}

/// Where an entity was last, and the stop it is making, if it stands still.
pub struct SeenView {
    pub point: PointView,
    pub still: Option<StillView>,
}

impl View for Still {
    type V = StillView;

    open spec fn view(&self) -> StillView {
        StillView { since: self.since@, reported: self.reported }
    }
}

impl View for Seen {
    type V = SeenView;

    open spec fn view(&self) -> SeenView {
        SeenView {
            point: self.point@,
            still: match self.still {
                Some(still) => Some(still@),
                None => None,
            },
        }
    }
}

/// Whether a speed counts as standing still.
pub open spec fn stands_still(speed: Number) -> bool {
    speed.below(one()) || speed.equals(one())
}

impl StillView {
    /// The stop that goes on with a leg: the one under way, or one that starts with it.
    pub open spec fn carried(held: Option<StillView>, from: Instant) -> StillView {
        match held {
            Some(still) => still,
            None => StillView { since: from, reported: false },
        }
    }

    /// Whether a leg from one time to another makes a stop due to be reported.
    pub open spec fn due(held: Option<StillView>, from: Instant, to: Instant, speed: Number) -> bool {
        let still = StillView::carried(held, from);
        stands_still(speed) && !still.reported && to.since(still.since) >= STOP_SECONDS * 1_000_000_000
    }

    /// The stop after a leg from one time to another.
    pub open spec fn next(held: Option<StillView>, from: Instant, to: Instant, speed: Number) -> Option<
        StillView,
    > {
        let still = StillView::carried(held, from);
        if stands_still(speed) {
            Some(
                StillView {
                    since: still.since,
                    reported: still.reported || StillView::due(held, from, to, speed),
                },
            )
        } else {
            None
        }
    }
}

/// The alert on a stop.
pub open spec fn stop_alert(operator: Seq<char>, event: EventView, since: Instant) -> OutputEventView {
    OutputEventView {
        source_event: event,
        operator,
        payload: seq![
            ("alert"@, FieldView::Text("stop"@)),
            ("entity_id"@, FieldView::Text(event.entity_id)),
            (
                "stopped_seconds"@,
                FieldView::Seconds(toward_zero(event.timestamp.since(since), 1_000_000_000)),
            ),
        ],
    }
}

impl StopWatch {
    #[verifier::type_invariant]
    spec fn inv(self) -> bool {
        self.seen.distinct()
    }

    /// Where an entity was last and the stop it is making, if it has been seen.
    pub closed spec fn seen(&self, entity: Seq<char>) -> Option<SeenView> {
        match self.seen.lookup(entity) {
            Some(seen) => Some(seen@),
            None => None,
        }
    }

    /// The speed over the leg that ends with an event, given what was measured.
    pub open spec fn speed(&self, event: EventView, measured_speed: Number) -> Number {
        speed_over(
            leg_millis(self.seen(event.entity_id)->0.point, point_of(event)),
            measured_speed,
        )
    }

    /// What the leg that ends with an event alerts on: a stop that is due, with the first
    /// event that finds it long enough.
    pub open spec fn alerts(
        &self,
        operator: Seq<char>,
        event: EventView,
        measured_speed: Number,
    ) -> Option<OutputEventView> {
        match self.seen(event.entity_id) {
            Some(seen) => if StillView::due(
                seen.still,
                seen.point.timestamp,
                event.timestamp,
                self.speed(event, measured_speed),
            ) {
                Some(
                    stop_alert(
                        operator,
                        event,
                        StillView::carried(seen.still, seen.point.timestamp).since,
                    ),
                )
            } else {
                None
            },
            None => None,
        }
    }

    /// What is known of an entity once it has been seen with an event.
    pub open spec fn sees(&self, event: EventView, measured_speed: Number) -> SeenView {
        SeenView {
            point: point_of(event),
            still: match self.seen(event.entity_id) {
                Some(seen) => StillView::next(
                    seen.still,
                    seen.point.timestamp,
                    event.timestamp,
                    self.speed(event, measured_speed),
                ),
                None => None,
            },
        }
    }

    /// No entity seen yet.
    pub fn new() -> (r: StopWatch)
        ensures
            forall|entity: Seq<char>| #[trigger] r.seen(entity) is None,
    {
        let r = StopWatch { seen: Keyed::new() };
        proof {
            assert(r.seen.names() =~= Seq::empty());
        }
        r
    }

    /// Where an entity was last, if it has been seen.
    pub fn last(&self, entity: &str) -> (r: Option<TrajectoryPoint>)
        ensures
            match r {
                Some(point) => self.seen(entity@) is Some && point@ == self.seen(entity@)->0.point,
                None => self.seen(entity@) is None,
            },
    {
        proof {
            use_type_invariant(self);
        }
        match self.seen.get(entity) {
            Some(seen) => Some(seen.point),
            None => None,
        }
    }

    /// Takes in the leg that ends with an event. `measured_speed` is its distance, from
    /// where the entity was last, over its seconds. A stop is reported under the name of an
    /// operator.
    pub fn leg(&mut self, operator: &str, event: &Event, measured_speed: Number) -> (r: Option<
        OutputEvent,
    >)
        ensures
            optional_view(r) == old(self).alerts(operator@, event@, measured_speed),
            final(self).seen(event@.entity_id) == Some(old(self).sees(event@, measured_speed)),
            forall|other: Seq<char>|
                other != event@.entity_id ==> #[trigger] final(self).seen(other) == old(self).seen(
                    other,
                ),
    {
        proof {
            use_type_invariant(&*self);
        }
        let ghost before = *self;
        let entity = event.entity_id.as_str();
        let point = TrajectoryPoint {
            lon: event.lon,
            lat: event.lat,
            timestamp: event.timestamp,
        };
        let mut output: Option<OutputEvent> = None;
        let mut placed: Option<Still> = None;
        if let Some(seen) = self.seen.get(entity) {
            let speed = compute_speed(&seen.point, &point, measured_speed);
            if speed.le(number_one()) {
                let mut still = match seen.still {
                    Some(still) => still,
                    None => Still { since: seen.point.timestamp, reported: false },
                };
                let seconds: i64 = event.timestamp.secs_since(&still.since);
                if !still.reported && seconds >= STOP_SECONDS {
                    let payload = Payload::new().with_text("alert", "stop").with_text(
                        "entity_id",
                        entity,
                    ).with("stopped_seconds", Field::Seconds(seconds));
                    let made = OutputEvent {
                        source_event: event.clone(),
                        operator: operator.to_string(),
                        payload,
                    };
                    proof {
                        assert(made@.payload =~= stop_alert(
                            operator@,
                            event@,
                            still.since@,
                        ).payload);
                    }
                    output = Some(made);
                    still.reported = true;
                }
                placed = Some(still);
            }
        }
        let now_seen = Seen { point, still: placed };
        let mut all: Keyed<Seen> = Keyed::new();
        std::mem::swap(&mut all, &mut self.seen);
        all.put(entity, now_seen);
        let ghost now = all;
        self.seen = all;
        proof {
            assert(now.lookup(entity@) == Some(now_seen));
            assert forall|other: Seq<char>| other != entity@ implies #[trigger] self.seen(other)
                == before.seen(other) by {
                assert(now.lookup(other) == before.seen.lookup(other));
            }
        }
        output
    }
}

/// How many points a smoothed position takes in.
pub const SMOOTHING_POINTS: usize = 3;

impl TrajectoryOperator {
    /// The smoothed position of an entity.
    pub open spec fn smoothed(&self, event: EventView, mean: Position) -> OutputEventView {
        OutputEventView {
            source_event: event,
            operator: self.spec_name(),
            payload: seq![
                ("type"@, FieldView::Text("smoothed_position"@)),
                ("entity_id"@, FieldView::Text(event.entity_id)),
                ("lon"@, FieldView::Number(mean.lon)),
                ("lat"@, FieldView::Number(mean.lat)),
            ],
        }
    }

    /// All that is reported on an event that has been buffered.
    pub open spec fn reports_all(
        &self,
        stops: StopWatch,
        event: EventView,
        previous: Option<PointView>,
        measured_speed: Number,
        total_distance: Number,
        mean: Position,
    ) -> Seq<OutputEventView> {
        (match stops.alerts(self.spec_name(), event, measured_speed) {
            Some(alert) => seq![alert],
            None => Seq::empty(),
        }) + (if self.track(event.entity_id).len() >= SMOOTHING_POINTS {
            seq![self.smoothed(event, mean)]
        } else {
            Seq::empty()
        }) + (match previous {
            Some(point) => self.reports(event, point, measured_speed, total_distance),
            None => Seq::empty(),
        })
    }

    /// The points whose mean is the smoothed position of an entity: its newest three, once
    /// it has as many.
    pub fn smoothing_points(&self, entity: &str) -> (r: Option<Vec<TrajectoryPoint>>)
        ensures
            match r {
                Some(recent) => self.track(entity@).len() >= SMOOTHING_POINTS && point_views(
                    recent@,
                ) == newest(self.track(entity@), SMOOTHING_POINTS as nat) && recent@.len()
                    == SMOOTHING_POINTS,
                None => self.track(entity@).len() < SMOOTHING_POINTS,
            },
    {
        match self.points(entity) {
            Some(points) => {
                proof {
                    assert(point_views(points@).len() == points@.len());
                }
                smoothing_window(points, SMOOTHING_POINTS)
            },
            None => None,
        }
    }

    /// All that is reported on an event that has been buffered: a stop that is due, the
    /// smoothed position once there are points enough, then what `report` gives where there
    /// is a point before it. `previous` is what `observe` handed out; `measured_speed` is
    /// the distance of the leg, from where the entity was last, over its seconds;
    /// `total_distance` is the length of the buffered trajectory in meters; `mean` is the
    /// mean of `smoothing_points`, where they are given.
    pub fn report_all(
        &self,
        stops: &mut StopWatch,
        event: &Event,
        previous: &Option<TrajectoryPoint>,
        measured_speed: Number,
        total_distance: Number,
        mean: Position,
    ) -> (r: Vec<OutputEvent>)
        ensures
            output_views(r@) == self.reports_all(
                *old(stops),
                event@,
                optional_point(*previous),
                measured_speed,
                total_distance,
                mean,
            ),
            final(stops).seen(event@.entity_id) == Some(old(stops).sees(event@, measured_speed)),
            forall|other: Seq<char>|
                other != event@.entity_id ==> #[trigger] final(stops).seen(other) == old(
                    stops,
                ).seen(other),
    {
        let mut outputs: Vec<OutputEvent> = Vec::new();
        if let Some(alert) = stops.leg(self.name.as_str(), event, measured_speed) {
            outputs.push(alert);
        }
        let ghost first = output_views(outputs@);
        let ghost mut second: Seq<OutputEventView> = Seq::empty();
        let ghost mut third: Seq<OutputEventView> = Seq::empty();
        if self.smoothing_points(event.entity_id.as_str()).is_some() {
            let payload = Payload::new().with_text("type", "smoothed_position").with_text(
                "entity_id",
                event.entity_id.as_str(),
            ).with("lon", Field::Number(mean.lon)).with("lat", Field::Number(mean.lat));
            let output = OutputEvent {
                source_event: event.clone(),
                operator: self.name.clone(),
                payload,
            };
            outputs.push(output);
            proof {
                assert(output@.payload =~= self.smoothed(event@, mean).payload);
                second = seq![self.smoothed(event@, mean)];
                assert(output_views(outputs@) =~= first + second);
            }
        }
        proof {
            assert(output_views(outputs@) =~= first + second);
        }
        if let Some(point) = previous {
            let mut reported = self.report(event, point, measured_speed, total_distance);
            let ghost had = outputs@;
            let ghost more = reported@;
            outputs.append(&mut reported);
            proof {
                third = output_views(more);
                assert(output_views(outputs@) =~= output_views(had) + third);
            }
        }
        proof {
            assert(output_views(outputs@) =~= first + second + third);
        }
        outputs
    }
}

/// The stop an entity is making after the first `n` legs: leg `i` goes from one time to the
/// next at speed `speeds[i]`.
pub open spec fn stop_after(times: Seq<Instant>, speeds: Seq<Number>, n: int) -> Option<StillView>
    decreases n,
{
    if n <= 0 {
        None
    } else {
        StillView::next(
            stop_after(times, speeds, n - 1),
            times[n - 1],
            times[n],
            speeds[n - 1],
        )
    }
}

/// Whether leg `i` reports a stop.
pub open spec fn leg_reports(times: Seq<Instant>, speeds: Seq<Number>, i: int) -> bool {
    StillView::due(stop_after(times, speeds, i), times[i], times[i + 1], speeds[i])
}

/// Whether a stop begins with leg `from` and goes on up to leg `to`.
pub open spec fn is_stop(speeds: Seq<Number>, from: int, to: int) -> bool {
    (from > 0 ==> !stands_still(speeds[from - 1])) && forall|i: int|
        from <= i < to ==> stands_still(#[trigger] speeds[i])
}

/// Over a stop, the time runs from its beginning, and it counts as reported once a leg of it
/// has reported it.
proof fn lemma_stop(times: Seq<Instant>, speeds: Seq<Number>, from: int, to: int)
    requires
        0 <= from < to,
        is_stop(speeds, from, to),
    ensures
        stop_after(times, speeds, to) is Some,
        stop_after(times, speeds, to)->0.since == times[from],
        stop_after(times, speeds, to)->0.reported <==> exists|i: int|
            from <= i < to && #[trigger] leg_reports(times, speeds, i),
    decreases to - from,
{
    assert(stands_still(speeds[to - 1]));
    if from < to - 1 {
        lemma_stop(times, speeds, from, to - 1);
    } else {
        if from > 0 {
            assert(stop_after(times, speeds, from) is None);
        }
    }
    if leg_reports(times, speeds, to - 1) {
        assert(stop_after(times, speeds, to)->0.reported);
    }
}

/// An entity that stands still, at or below 1 m/s, for 30 seconds is reported, with one leg
/// of the stop and no other.
pub proof fn law_a_stop_is_reported_once(
    times: Seq<Instant>,
    speeds: Seq<Number>,
    from: int,
    to: int,
)
    requires
        0 <= from < to <= speeds.len() < times.len(),
        is_stop(speeds, from, to),
        times[to].since(times[from]) >= 30_000_000_000,
    ensures
        exists|i: int| from <= i < to && #[trigger] leg_reports(times, speeds, i),
        forall|i: int, j: int|
            from <= i < j < to && #[trigger] leg_reports(times, speeds, i)
                ==> !#[trigger] leg_reports(times, speeds, j),
{
    lemma_stop(times, speeds, from, to);
    if from < to - 1 {
        lemma_stop(times, speeds, from, to - 1);
    }
    assert(stands_still(speeds[to - 1]));
    if !stop_after(times, speeds, to)->0.reported {
        assert(leg_reports(times, speeds, to - 1));
    }
    assert forall|i: int, j: int|
        from <= i < j < to && #[trigger] leg_reports(times, speeds, i) implies !(
    #[trigger] leg_reports(times, speeds, j)) by {
        lemma_stop(times, speeds, from, j);
    }
}

/// A shorter rest is not reported.
pub proof fn law_a_short_rest_is_not_reported(
    times: Seq<Instant>,
    speeds: Seq<Number>,
    from: int,
    to: int,
)
    requires
        0 <= from < to <= speeds.len() < times.len(),
        is_stop(speeds, from, to),
        forall|i: int| from < i <= to ==> (#[trigger] times[i]).since(times[from]) < 30_000_000_000,
    ensures
        forall|i: int| from <= i < to ==> !#[trigger] leg_reports(times, speeds, i),
{
    assert forall|i: int| from <= i < to implies !#[trigger] leg_reports(times, speeds, i) by {
        assert(times[i + 1].since(times[from]) < 30_000_000_000);
        if i > from {
            lemma_stop(times, speeds, from, i);
        } else if from > 0 {
            assert(stop_after(times, speeds, from) is None);
        }
    }
}

/// The buffer keeps the newest points only, up to its size.
pub proof fn law_the_buffer_keeps_the_newest_points(more: Seq<PointView>, max_buffer: nat)
    ensures
        buffered_all(Seq::empty(), more, max_buffer) == newest(more, max_buffer),
    decreases more.len(),
{
    if more.len() > 0 {
        law_the_buffer_keeps_the_newest_points(more.drop_last(), max_buffer);
        assert(buffered_all(Seq::empty(), more, max_buffer) =~= newest(more, max_buffer));
    } else {
        assert(newest(more, max_buffer) =~= Seq::empty());
    }
}

/// The entity that a summary is on.
pub open spec fn summarised(output: OutputEventView) -> Seq<char> {
    output.payload[1].1->Text_0
}

/// Each summary is on one of the entities.
proof fn lemma_summaries(operator: TrajectoryOperator, measured: Seq<Measured>, n: int)
    requires
        0 <= n <= operator.entities().len(),
    ensures
        forall|k: int|
            0 <= k < operator.summaries(measured, n).len() ==> exists|i: int|
                0 <= i < n && summarised(#[trigger] operator.summaries(measured, n)[k])
                    == #[trigger] operator.entities()[i],
    decreases n,
{
    if n > 0 {
        lemma_summaries(operator, measured, n - 1);
        let all = operator.summaries(measured, n);
        let earlier = operator.summaries(measured, n - 1);
        assert forall|k: int| 0 <= k < all.len() implies exists|i: int|
            0 <= i < n && summarised(#[trigger] all[k]) == #[trigger] operator.entities()[i] by {
            if k < earlier.len() {
                assert(all[k] == earlier[k]);
                let i = choose|i: int|
                    0 <= i < n - 1 && summarised(earlier[k]) == #[trigger] operator.entities()[i];
                assert(summarised(all[k]) == operator.entities()[i]);
            } else {
                assert(summarised(all[k]) == operator.entities()[n - 1]);
            }
        }
    }
}

/// A window close gives each entity at most one summary, and one to each that has at least
/// two points.
pub proof fn law_each_entity_is_summarised_once(
    operator: TrajectoryOperator,
    measured: Seq<Measured>,
    n: int,
)
    requires
        0 <= n <= operator.entities().len(),
        operator.entities().no_duplicates(),
    ensures
        forall|j: int, k: int|
            0 <= j < k < operator.summaries(measured, n).len() ==> summarised(
                #[trigger] operator.summaries(measured, n)[j],
            ) != summarised(#[trigger] operator.summaries(measured, n)[k]),
        forall|i: int|
            0 <= i < n && operator.track(#[trigger] operator.entities()[i]).len() >= 2
                ==> operator.summaries(measured, n).contains(
                operator.summary(operator.entities()[i], measured[i]),
            ),
    decreases n,
{
    if n > 0 {
        law_each_entity_is_summarised_once(operator, measured, n - 1);
        lemma_summaries(operator, measured, n - 1);
        let all = operator.summaries(measured, n);
        let earlier = operator.summaries(measured, n - 1);
        let entity = operator.entities()[n - 1];
        assert forall|j: int, k: int| 0 <= j < k < all.len() implies summarised(
            #[trigger] all[j],
        ) != summarised(#[trigger] all[k]) by {
            assert(all[j] == earlier[j]);
            if k < earlier.len() {
                assert(all[k] == earlier[k]);
            } else {
                let i = choose|i: int|
                    0 <= i < n - 1 && summarised(earlier[j]) == #[trigger] operator.entities()[i];
                assert(operator.entities()[i] != entity);
                assert(summarised(all[k]) == entity);
            }
        }
        assert forall|i: int|
            0 <= i < n && operator.track(#[trigger] operator.entities()[i]).len()
                >= 2 implies all.contains(operator.summary(operator.entities()[i], measured[i])) by {
            let summary = operator.summary(operator.entities()[i], measured[i]);
            if i < n - 1 {
                assert(earlier.contains(summary));
                let k = choose|k: int| 0 <= k < earlier.len() && earlier[k] == summary;
                assert(all[k] == summary);
            } else {
                assert(all.last() == summary);
            }
        }
    }
}

/// A leg is reported with the speed that was measured over it, or with zero where no time
/// passed: the running statistics come last and carry it, and before them comes an alert
/// where it is above the limit, and carries it too. Nothing else is reported.
pub proof fn law_a_leg_is_reported_with_the_speed_that_was_measured(
    operator: TrajectoryOperator,
    event: EventView,
    previous: PointView,
    measured_speed: Number,
    total_distance: Number,
)
    ensures
        ({
            let outputs = operator.reports(event, previous, measured_speed, total_distance);
            let speed = if toward_zero(event.timestamp.since(previous.timestamp), 1_000_000) > 0 {
                measured_speed
            } else {
                zero()
            };
            &&& outputs.len() == (if operator.max_speed().below(speed) {
                2int
            } else {
                1
            })
            &&& outputs.last().is_from(operator.spec_name(), event, 5)
            &&& outputs.last().carries("type"@, FieldView::Text("trajectory_update"@))
            &&& outputs.last().carries("entity_id"@, FieldView::Text(event.entity_id))
            &&& outputs.last().carries(
                "point_count"@,
                FieldView::Count(operator.track(event.entity_id).len()),
            )
            &&& outputs.last().carries("total_distance_meters"@, FieldView::Number(total_distance))
            &&& outputs.last().carries("current_speed_mps"@, FieldView::Number(speed))
            &&& operator.max_speed().below(speed) ==> {
                &&& outputs[0].is_from(operator.spec_name(), event, 4)
                &&& outputs[0].carries("alert"@, FieldView::Text("speed_anomaly"@))
                &&& outputs[0].carries("entity_id"@, FieldView::Text(event.entity_id))
                &&& outputs[0].carries("computed_speed_mps"@, FieldView::Number(speed))
                &&& outputs[0].carries("max_speed_mps"@, FieldView::Number(operator.max_speed()))
            }
        }),
{
    let outputs = operator.reports(event, previous, measured_speed, total_distance);
    let speed = speed_over(leg_millis(previous, point_of(event)), measured_speed);
    let last = outputs.last();
    assert(last.payload[0] == ("type"@, FieldView::Text("trajectory_update"@)));
    assert(last.payload[1] == ("entity_id"@, FieldView::Text(event.entity_id)));
    assert(last.payload[2] == (
        "point_count"@,
        FieldView::Count(operator.track(event.entity_id).len()),
    ));
    assert(last.payload[3] == ("total_distance_meters"@, FieldView::Number(total_distance)));
    assert(last.payload[4] == ("current_speed_mps"@, FieldView::Number(speed)));
    if operator.max_speed().below(speed) {
        let first = outputs[0];
        assert(first.payload[0] == ("alert"@, FieldView::Text("speed_anomaly"@)));
        assert(first.payload[1] == ("entity_id"@, FieldView::Text(event.entity_id)));
        assert(first.payload[2] == ("computed_speed_mps"@, FieldView::Number(speed)));
        assert(first.payload[3] == ("max_speed_mps"@, FieldView::Number(operator.max_speed())));
    }
}

/// Whether an output sums up a trajectory that was measured.
pub open spec fn sums_up(
    output: OutputEventView,
    operator: Seq<char>,
    entity: Seq<char>,
    points: Seq<PointView>,
    measured: Measured,
) -> bool {
    let seconds = toward_zero(
        points.last().timestamp.since(points.first().timestamp),
        1_000_000_000,
    );
    &&& output.is_from(operator, measured.event@, 6)
    &&& output.carries("type"@, FieldView::Text("trajectory_summary"@))
    &&& output.carries("entity_id"@, FieldView::Text(entity))
    &&& output.carries("point_count"@, FieldView::Count(points.len()))
    &&& output.carries("total_distance_meters"@, FieldView::Number(measured.total_distance))
    &&& output.carries("duration_seconds"@, FieldView::Seconds(seconds))
    &&& seconds > 0 ==> output.carries("avg_speed_mps"@, FieldView::Number(measured.average))
    &&& seconds <= 0 ==> output.carries("avg_speed_mps"@, FieldView::Number(zero()))
}

/// A window close emits the summaries and nothing else: one for each entity with at least two
/// points, in the order the entities came, and it carries what was measured for that entity
/// and the time between its first point and its last. `moved` gives the entities' positions.
pub proof fn law_each_summary_carries_what_was_measured_for_its_entity(
    operator: TrajectoryOperator,
    measured: Seq<Measured>,
    n: int,
) -> (moved: Seq<int>)
    requires
        0 <= n <= operator.entities().len(),
    ensures
        moved.len() == operator.summaries(measured, n).len(),
        forall|k: int|
            0 <= k < moved.len() ==> {
                &&& 0 <= #[trigger] moved[k] < n
                &&& operator.track(operator.entities()[moved[k]]).len() >= 2
                &&& sums_up(
                    operator.summaries(measured, n)[k],
                    operator.spec_name(),
                    operator.entities()[moved[k]],
                    operator.track(operator.entities()[moved[k]]),
                    measured[moved[k]],
                )
            },
        forall|i: int|
            0 <= i < n && operator.track(#[trigger] operator.entities()[i]).len() >= 2
                ==> moved.contains(i),
        forall|j: int, k: int| 0 <= j < k < moved.len() ==> moved[j] < moved[k],
    decreases n,
{
    if n <= 0 {
        Seq::empty()
    } else {
        let earlier = law_each_summary_carries_what_was_measured_for_its_entity(
            operator,
            measured,
            n - 1,
        );
        let outputs = operator.summaries(measured, n);
        let before = operator.summaries(measured, n - 1);
        let i = n - 1;
        let entity = operator.entities()[i];
        if operator.track(entity).len() >= 2 {
            let moved = earlier.push(i);
            let last = operator.summary(entity, measured[i]);
            assert(outputs == before.push(last));
            lemma_summary(operator, entity, measured[i]);
            assert forall|k: int| 0 <= k < moved.len() implies {
                &&& 0 <= #[trigger] moved[k] < n
                &&& operator.track(operator.entities()[moved[k]]).len() >= 2
                &&& sums_up(
                    outputs[k],
                    operator.spec_name(),
                    operator.entities()[moved[k]],
                    operator.track(operator.entities()[moved[k]]),
                    measured[moved[k]],
                )
            } by {
                if k < earlier.len() {
                    assert(moved[k] == earlier[k]);
                    assert(outputs[k] == before[k]);
                }
            }
            assert forall|j: int|
                0 <= j < n && operator.track(#[trigger] operator.entities()[j]).len()
                    >= 2 implies moved.contains(j) by {
                if j < i {
                    assert(earlier.contains(j));
                    let k = earlier.index_of(j);
                    assert(moved[k] == j);
                } else {
                    assert(moved[earlier.len() as int] == j);
                }
            }
            moved
        } else {
            earlier
        }
    }
}

/// A summary sums up what was measured.
proof fn lemma_summary(operator: TrajectoryOperator, entity: Seq<char>, measured: Measured)
    ensures
        sums_up(
            operator.summary(entity, measured),
            operator.spec_name(),
            entity,
            operator.track(entity),
            measured,
        ),
{
    let output = operator.summary(entity, measured);
    let points = operator.track(entity);
    let seconds = operator.duration(entity);
    assert(output.payload[0] == ("type"@, FieldView::Text("trajectory_summary"@)));
    assert(output.payload[1] == ("entity_id"@, FieldView::Text(entity)));
    assert(output.payload[2] == ("point_count"@, FieldView::Count(points.len())));
    assert(output.payload[3] == (
        "total_distance_meters"@,
        FieldView::Number(measured.total_distance),
    ));
    assert(output.payload[4] == ("duration_seconds"@, FieldView::Seconds(seconds)));
    assert(output.payload[5] == (
        "avg_speed_mps"@,
        FieldView::Number(
            if seconds > 0 {
                measured.average
            } else {
                zero()
            },
        ),
    ));
}

/// The newest points are the end of the list, in its order: as many as asked for, or all.
pub proof fn law_the_newest_points_are_the_last(points: Seq<PointView>, n: nat)
    ensures
        newest(points, n).len() <= n,
        newest(points, n).len() == n || newest(points, n).len() == points.len(),
        newest(points, n).len() <= points.len(),
        forall|i: int|
            0 <= i < newest(points, n).len() ==> #[trigger] newest(points, n)[i] == points[i
                + points.len() - newest(points, n).len()],
{
}

/// An entity that is seen for the first time raises no alert and makes no stop yet. From then
/// on it is known to be where its last event was.
pub proof fn law_an_entity_is_known_from_its_last_event(
    stops: StopWatch,
    operator: Seq<char>,
    event: EventView,
    measured_speed: Number,
)
    ensures
        stops.sees(event, measured_speed).point.timestamp == event.timestamp,
        stops.sees(event, measured_speed).point.lon == event.lon,
        stops.sees(event, measured_speed).point.lat == event.lat,
        stops.seen(event.entity_id) is None ==> stops.alerts(operator, event, measured_speed)
            is None && stops.sees(event, measured_speed).still is None,
{
}

/// A leg above 1 m/s ends the stop, and raises no alert. A leg at 1 m/s or below goes on with
/// the stop, which began with the first such leg; it raises the alert where 30 seconds have
/// passed since and no earlier leg did. The alert carries the whole seconds.
pub proof fn law_a_stop_is_reported_with_its_length(
    stops: StopWatch,
    operator: Seq<char>,
    event: EventView,
    measured_speed: Number,
)
    requires
        stops.seen(event.entity_id) is Some,
    ensures
        ({
            let seen = stops.seen(event.entity_id)->0;
            let speed = if toward_zero(
                event.timestamp.since(seen.point.timestamp),
                1_000_000,
            ) > 0 {
                measured_speed
            } else {
                zero()
            };
            let since = if seen.still is Some {
                seen.still->0.since
            } else {
                seen.point.timestamp
            };
            let reported = seen.still is Some && seen.still->0.reported;
            let alert = stops.alerts(operator, event, measured_speed);
            let next = stops.sees(event, measured_speed).still;
            &&& !(speed.below(one()) || speed.equals(one())) ==> alert is None && next is None
            &&& (speed.below(one()) || speed.equals(one())) ==> {
                &&& next is Some
                &&& next->0.since == since
                &&& next->0.reported <==> reported || alert is Some
                &&& alert is Some <==> !reported && event.timestamp.since(since) >= 30_000_000_000
            }
            &&& alert is Some ==> {
                &&& alert->0.is_from(operator, event, 3)
                &&& alert->0.carries("alert"@, FieldView::Text("stop"@))
                &&& alert->0.carries("entity_id"@, FieldView::Text(event.entity_id))
                &&& alert->0.carries(
                    "stopped_seconds"@,
                    FieldView::Seconds(toward_zero(event.timestamp.since(since), 1_000_000_000)),
                )
            }
        }),
{
    if let Some(alert) = stops.alerts(operator, event, measured_speed) {
        let seen = stops.seen(event.entity_id)->0;
        let since = StillView::carried(seen.still, seen.point.timestamp).since;
        assert(alert.payload[0] == ("alert"@, FieldView::Text("stop"@)));
        assert(alert.payload[1] == ("entity_id"@, FieldView::Text(event.entity_id)));
        assert(alert.payload[2] == (
            "stopped_seconds"@,
            FieldView::Seconds(toward_zero(event.timestamp.since(since), 1_000_000_000)),
        ));
    }
}

/// All that is reported on an event: the stop where one is due, then the smoothed position
/// once the entity has three points, with the mean that was measured, then what is reported
/// on the leg where there is one.
pub proof fn law_an_event_reports_the_stop_then_the_position_then_the_leg(
    operator: TrajectoryOperator,
    stops: StopWatch,
    event: EventView,
    previous: Option<PointView>,
    measured_speed: Number,
    total_distance: Number,
    mean: Position,
)
    ensures
        ({
            let outputs = operator.reports_all(
                stops,
                event,
                previous,
                measured_speed,
                total_distance,
                mean,
            );
            let alert = stops.alerts(operator.spec_name(), event, measured_speed);
            let a: int = if alert is Some {
                1
            } else {
                0
            };
            let b: int = if operator.track(event.entity_id).len() >= 3 {
                a + 1
            } else {
                a
            };
            &&& alert is Some ==> outputs[0] == alert->0
            &&& b > a ==> {
                &&& outputs[a].is_from(operator.spec_name(), event, 4)
                &&& outputs[a].carries("type"@, FieldView::Text("smoothed_position"@))
                &&& outputs[a].carries("entity_id"@, FieldView::Text(event.entity_id))
                &&& outputs[a].carries("lon"@, FieldView::Number(mean.lon))
                &&& outputs[a].carries("lat"@, FieldView::Number(mean.lat))
            }
            &&& previous is None ==> outputs.len() == b
            &&& previous is Some ==> outputs.skip(b) == operator.reports(
                event,
                previous->0,
                measured_speed,
                total_distance,
            )
            &&& outputs.len() >= b
        }),
{
    let outputs = operator.reports_all(
        stops,
        event,
        previous,
        measured_speed,
        total_distance,
        mean,
    );
    let alert = stops.alerts(operator.spec_name(), event, measured_speed);
    let a: int = if alert is Some {
        1
    } else {
        0
    };
    let b: int = if operator.track(event.entity_id).len() >= 3 {
        a + 1
    } else {
        a
    };
    if b > a {
        let output = operator.smoothed(event, mean);
        assert(outputs[a] == output);
        assert(output.payload[0] == ("type"@, FieldView::Text("smoothed_position"@)));
        assert(output.payload[1] == ("entity_id"@, FieldView::Text(event.entity_id)));
        assert(output.payload[2] == ("lon"@, FieldView::Number(mean.lon)));
        assert(output.payload[3] == ("lat"@, FieldView::Number(mean.lat)));
    }
    if let Some(point) = previous {
        assert(outputs.skip(b) =~= operator.reports(event, point, measured_speed, total_distance));
    }
}

/// Readings that share a timestamp, or run backwards, give zero speed and so raise no
/// alert under any limit that is not negative. The leap second at the end of a day is not
/// counted between the days, so a reading in it may still be measured as after one of the
/// next day's first second.
pub proof fn law_no_elapsed_time_is_no_anomaly(
    from: PointView,
    to: PointView,
    measured: Number,
    max_speed: Number,
)
    requires
        fits_second(from.timestamp.secs, from.timestamp.nanos),
        fits_second(to.timestamp.secs, to.timestamp.nanos),
        !from.timestamp.before(to.timestamp),
        !(to.timestamp.secs + 1 == from.timestamp.secs && from.timestamp.secs % 86_400 == 0
            && to.timestamp.nanos - from.timestamp.nanos >= 1_001_000_000),
        at_least_zero(max_speed),
    ensures
        speed_over(leg_millis(from, to), measured) == zero(),
        !max_speed.below(speed_over(leg_millis(from, to), measured)),
{
}

/// Zero or above.
pub open spec fn at_least_zero(n: Number) -> bool {
    zero().below(n) || zero().equals(n)
}

/// The view of a list of points shows each of them, where and when, in order.
pub proof fn law_the_view_of_points_shows_where_and_when(points: Seq<TrajectoryPoint>, i: int)
    requires
        0 <= i < points.len(),
    ensures
        point_views(points).len() == points.len(),
        point_views(points)[i].lon == points[i].lon,
        point_views(points)[i].lat == points[i].lat,
        point_views(points)[i].timestamp == points[i].timestamp@,
{
}

} // verus!
