//! Movement of entities over time.

use fluvius::event::{Event, Field, OutputEvent};
use fluvius::number::Number;
use fluvius::proximity::Position;
use fluvius::time::Timestamp;
use fluvius::topology::OperatorConfig;
use fluvius::topology_run::{build_stage, StagePlan, StageReading};
use fluvius::trajectory::{
    compute_speed, smoothing_window, Measured, StopWatch, TrajectoryOperator, TrajectoryPoint,
};
use geo::{Distance, Haversine, Point};

fn num(x: f64) -> Number {
    Number::from_bits(x.to_bits())
}

fn float(n: Number) -> f64 {
    f64::from_bits(n.bits)
}

fn at(entity: &str, lon: f64, lat: f64, secs: i64) -> Event {
    let ts = Timestamp::from_timestamp(secs, 0).unwrap();
    Event::new("e", entity, num(lon), num(lat), ts)
}

fn operator(max_buffer: usize, max_speed: f64) -> TrajectoryOperator {
    TrajectoryOperator::new("traj", max_buffer, num(max_speed))
}

fn leg(a: &TrajectoryPoint, b: &TrajectoryPoint) -> f64 {
    let from = Point::new(float(a.lon), float(a.lat));
    let to = Point::new(float(b.lon), float(b.lat));
    Haversine.distance(from, to)
}

fn total_distance(points: &[TrajectoryPoint]) -> f64 {
    points.windows(2).map(|w| leg(&w[0], &w[1])).sum()
}

/// Measures the leg and the trajectory, and lets the operator report.
fn process(op: &mut TrajectoryOperator, event: &Event) -> Vec<OutputEvent> {
    let Some(previous) = op.observe(event) else {
        return Vec::new();
    };
    let current = TrajectoryPoint { lon: event.lon, lat: event.lat, timestamp: event.timestamp };
    let seconds = current.timestamp.millis_since(&previous.timestamp) as f64 / 1000.0;
    let speed = leg(&previous, &current) / seconds;
    let total = total_distance(op.points(&event.entity_id).unwrap());
    op.report(event, &previous, num(speed), num(total))
}

fn close(op: &mut TrajectoryOperator) -> Vec<OutputEvent> {
    let measured = op
        .known()
        .iter()
        .map(|entity| {
            let points = op.points(entity).unwrap();
            let total = total_distance(points);
            let seconds = match (points.first(), points.last()) {
                (Some(a), Some(b)) => b.timestamp.secs_since(&a.timestamp),
                _ => 0,
            };
            Measured {
                event: at(entity, 0.0, 0.0, 5000),
                total_distance: num(total),
                average: num(total / seconds as f64),
            }
        })
        .collect();
    op.on_window_close(&measured)
}

fn text<'a>(output: &'a OutputEvent, key: &str) -> Option<&'a str> {
    match output.payload.get(key) {
        Some(Field::Text(t)) => Some(t),
        _ => None,
    }
}

fn number(output: &OutputEvent, key: &str) -> f64 {
    match output.payload.get(key) {
        Some(Field::Number(n)) => float(*n),
        Some(Field::Seconds(n)) => *n as f64,
        other => panic!("{key}: {other:?}"),
    }
}

fn count(output: &OutputEvent) -> u64 {
    match output.payload.get("point_count") {
        Some(Field::Count(n)) => *n,
        other => panic!("{other:?}"),
    }
}

fn anomalous(outputs: &[OutputEvent]) -> bool {
    outputs.iter().any(|o| text(o, "alert") == Some("speed_anomaly"))
}

#[test]
fn test_trajectory_basic() {
    let mut op = operator(100, 100.0);

    assert!(process(&mut op, &at("v1", 0.0, 0.0, 1000)).is_empty()); // First point, no stats yet

    let out2 = process(&mut op, &at("v1", 0.001, 0.001, 1010));
    assert!(!out2.is_empty()); // Should have trajectory_update
    assert_eq!(text(out2.last().unwrap(), "type"), Some("trajectory_update"));
}

#[test]
fn test_speed_anomaly_detection() {
    let mut op = operator(100, 50.0); // Max 50 m/s (~180 km/h)
    process(&mut op, &at("v1", 0.0, 0.0, 1000));

    // Jump 10km in 1 second (10000 m/s — obviously anomalous)
    let out = process(&mut op, &at("v1", 0.1, 0.1, 1001));
    assert!(anomalous(&out));
}

#[test]
fn test_window_close_summary() {
    let mut op = operator(100, 1000.0);
    process(&mut op, &at("v1", 0.0, 0.0, 1000));
    process(&mut op, &at("v1", 0.001, 0.001, 1010));
    process(&mut op, &at("v1", 0.002, 0.002, 1020));

    let summaries = close(&mut op);
    assert_eq!(summaries.len(), 1);
    assert_eq!(text(&summaries[0], "type"), Some("trajectory_summary"));
    assert_eq!(count(&summaries[0]), 3);
    assert!(number(&summaries[0], "total_distance_meters") > 0.0);
}

/// The running total covers every leg travelled so far, including the one that
/// produced this update. It used to lag a leg behind `point_count`.
#[test]
fn test_update_distance_includes_the_current_leg() {
    let mut op = operator(100, 1000.0);
    let update_at = |op: &mut TrajectoryOperator, i: i64| {
        process(op, &at("v1", 0.0, i as f64 * 0.01, 1000 + 10 * i)).pop()
    };

    assert!(update_at(&mut op, 0).is_none(), "first point has no leg yet");

    // each 0.01 degree step north is about 1111.95m
    let leg = 1111.95;
    let mut distances = Vec::new();
    for i in 1..4 {
        let update = update_at(&mut op, i).unwrap();
        assert_eq!(text(&update, "type"), Some("trajectory_update"));
        assert_eq!(count(&update), i as u64 + 1);
        distances.push(number(&update, "total_distance_meters"));
    }

    for (idx, distance) in distances.iter().enumerate() {
        let expected = leg * (idx + 1) as f64;
        assert!(
            (distance - expected).abs() < 1.0,
            "point {}: distance {distance} should be about {expected}",
            idx + 2
        );
    }
    // the fourth point sits three legs from the start
    assert!((distances[2] - 3335.85).abs() < 1.0, "{:?}", distances);
}

/// The update total and the close summary agree on how far an entity went.
#[test]
fn test_update_and_summary_report_the_same_distance() {
    let mut op = operator(100, 1000.0);
    let mut last_update_distance = 0.0;
    for i in 0..4 {
        let out = process(&mut op, &at("v1", 0.0, i as f64 * 0.01, 1000 + 10 * i));
        if let Some(update) = out.last() {
            last_update_distance = number(update, "total_distance_meters");
        }
    }

    let summary = close(&mut op).remove(0);
    let summary_distance = number(&summary, "total_distance_meters");

    assert_eq!(count(&summary), 4);
    assert!(
        (last_update_distance - summary_distance).abs() < 1e-9,
        "update said {last_update_distance}, summary said {summary_distance}"
    );
}

/// Two readings with the same timestamp must not divide by zero or fire a
/// bogus anomaly.
#[test]
fn test_identical_timestamps_give_zero_speed() {
    let mut op = operator(100, 1.0);
    process(&mut op, &at("v1", 0.0, 0.0, 1000));
    let out = process(&mut op, &at("v1", 0.5, 0.5, 1000));

    assert!(!anomalous(&out), "no anomaly without elapsed time: {out:?}");
    let update = out.last().unwrap();
    assert_eq!(text(update, "type"), Some("trajectory_update"));
    assert_eq!(number(update, "current_speed_mps"), 0.0);
}

/// An out-of-order reading is reported as zero speed rather than negative.
#[test]
fn test_backwards_timestamp_gives_zero_speed() {
    let mut op = operator(100, 1.0);
    process(&mut op, &at("v1", 0.0, 0.0, 1000));
    let out = process(&mut op, &at("v1", 0.5, 0.5, 970));

    assert!(!anomalous(&out));
    assert_eq!(number(out.last().unwrap(), "current_speed_mps"), 0.0);
}

#[test]
fn test_speed_below_max_raises_no_anomaly() {
    let mut op = operator(100, 50.0);
    process(&mut op, &at("v1", 0.0, 0.0, 1000));
    // ~111m in 10s = ~11 m/s, well under the 50 m/s limit
    let out = process(&mut op, &at("v1", 0.001, 0.0, 1010));

    assert_eq!(out.len(), 1, "just the update, no anomaly");
    assert_eq!(text(&out[0], "type"), Some("trajectory_update"));
}

/// The buffer keeps the newest points only, which is what the close summary counts.
#[test]
fn test_buffer_evicts_oldest_points() {
    let mut op = operator(2, 1000.0);
    for i in 0..5 {
        process(&mut op, &at("v1", i as f64 * 0.001, 0.0, 1000 + 10 * i));
    }

    let summaries = close(&mut op);
    assert_eq!(summaries.len(), 1);
    assert_eq!(count(&summaries[0]), 2);
}

#[test]
fn test_single_point_entity_gets_no_summary() {
    let mut op = operator(100, 1000.0);
    process(&mut op, &at("lonely", 0.0, 0.0, 1000));
    process(&mut op, &at("moving", 0.0, 0.0, 1000));
    process(&mut op, &at("moving", 0.001, 0.0, 1010));

    let summaries = close(&mut op);
    assert_eq!(summaries.len(), 1, "one point is not a trajectory");
    assert_eq!(text(&summaries[0], "entity_id"), Some("moving"));
}

#[test]
fn test_window_close_clears_state() {
    let mut op = operator(100, 1000.0);
    process(&mut op, &at("v1", 0.0, 0.0, 1000));
    process(&mut op, &at("v1", 0.001, 0.0, 1010));
    assert_eq!(close(&mut op).len(), 1);
    assert!(close(&mut op).is_empty(), "state was flushed");

    // the next point starts a fresh trajectory, so it emits no update
    assert!(process(&mut op, &at("v1", 0.002, 0.0, 1020)).is_empty());
}

#[test]
fn test_summary_average_speed_matches_distance_over_duration() {
    let mut op = operator(100, 1000.0);
    process(&mut op, &at("v1", 0.0, 0.0, 1000));
    process(&mut op, &at("v1", 0.001, 0.0, 1010));
    process(&mut op, &at("v1", 0.002, 0.0, 1020));

    let summary = close(&mut op).remove(0);
    let distance = number(&summary, "total_distance_meters");
    let duration = number(&summary, "duration_seconds");
    let avg = number(&summary, "avg_speed_mps");

    assert_eq!(duration, 20.0);
    assert!((distance - 222.0).abs() < 4.0, "distance was {distance}");
    assert!((avg - distance / duration).abs() < 1e-9);
}

/// Every entity gets its own buffer and its own summary.
#[test]
fn test_summaries_are_per_entity() {
    let mut op = operator(100, 1000.0);
    for entity in ["a", "b"] {
        process(&mut op, &at(entity, 0.0, 0.0, 1000));
        process(&mut op, &at(entity, 0.001, 0.0, 1010));
    }

    let summaries = close(&mut op);
    let mut names: Vec<&str> = summaries.iter().filter_map(|s| text(s, "entity_id")).collect();
    names.sort();
    assert_eq!(names, vec!["a", "b"]);
}

fn points(n: usize, step: f64, lat_step: f64) -> Vec<TrajectoryPoint> {
    (0..n)
        .map(|i| TrajectoryPoint {
            lon: num(i as f64 * step),
            lat: num(i as f64 * lat_step),
            timestamp: Timestamp::from_timestamp(1000, 0).unwrap(),
        })
        .collect()
}

fn smooth_position(points: &Vec<TrajectoryPoint>, window: usize) -> Option<(f64, f64)> {
    let recent = smoothing_window(points, window)?;
    let lon = recent.iter().map(|p| float(p.lon)).sum::<f64>() / window as f64;
    let lat = recent.iter().map(|p| float(p.lat)).sum::<f64>() / window as f64;
    Some((lon, lat))
}

#[test]
fn test_smoothing_needs_a_full_window() {
    assert!(smooth_position(&points(2, 1.0, 0.0), 3).is_none());
    assert!(smooth_position(&vec![], 1).is_none());
}

#[test]
fn test_smoothing() {
    let smoothed = smooth_position(&points(5, 0.001, 0.001), 3).unwrap();
    // Average of last 3: (0.002 + 0.003 + 0.004) / 3 = 0.003
    assert!((smoothed.0 - 0.003).abs() < 1e-10);
    assert!((smoothed.1 - 0.003).abs() < 1e-10);
}

#[test]
fn no_buffer_keeps_no_points() {
    let mut op = operator(0, 1.0);
    for i in 0..3 {
        assert!(process(&mut op, &at("v1", i as f64, 0.0, 1000 + i)).is_empty());
    }
    assert!(close(&mut op).is_empty());
    assert_eq!(op.name(), "traj");
}

#[test]
fn an_anomaly_comes_before_the_update_and_names_the_limit() {
    let mut op = operator(10, 1.0);
    op.observe(&at("v1", 0.0, 0.0, 1000));
    let event = at("v1", 1.0, 0.0, 1001);
    let previous = op.observe(&event).unwrap();
    let out = op.report(&event, &previous, num(1.5), num(42.0));
    assert_eq!(out.len(), 2);
    assert_eq!(number(&out[0], "computed_speed_mps"), 1.5);
    assert_eq!(number(&out[0], "max_speed_mps"), 1.0);
    assert_eq!(number(&out[1], "total_distance_meters"), 42.0);
    // exactly at the limit is no anomaly
    assert_eq!(op.report(&event, &previous, num(1.0), num(42.0)).len(), 1);
}

#[test]
fn a_summary_without_elapsed_seconds_has_zero_speed() {
    let mut op = operator(10, 1.0);
    process(&mut op, &at("v1", 0.0, 0.0, 1000));
    process(&mut op, &at("v1", 1.0, 0.0, 1000));
    let summary = close(&mut op).remove(0);
    assert_eq!(number(&summary, "avg_speed_mps"), 0.0);
    assert_eq!(number(&summary, "duration_seconds"), 0.0);
}

#[test]
fn test_trajectory_stage_alerts_on_speed_anomaly() {
    let cfg = OperatorConfig::Trajectory {
        name: "tracks".into(),
        max_speed_mps: num(50.0),
        max_buffer: 100,
    };
    let reading = StageReading { thresholds: Vec::new(), rate: String::new() };
    let Ok(StagePlan::Trajectory { name, max_buffer, max_speed_mps }) = build_stage(&cfg, &reading)
    else {
        panic!("expected a stateful trajectory stage");
    };
    let mut op = TrajectoryOperator::new(name, max_buffer, max_speed_mps);

    assert!(process(&mut op, &at("v1", 0.0, 0.0, 1000)).is_empty());
    // 0.1 degrees in one second is far above 50 m/s
    let out = process(&mut op, &at("v1", 0.1, 0.1, 1001));
    assert!(out.iter().any(
        |o| matches!(o.payload.get("alert"), Some(Field::Text(t)) if t == "speed_anomaly")
    ));

    let summary = close(&mut op);
    assert_eq!(summary.len(), 1);
    assert!(
        matches!(summary[0].payload.get("type"), Some(Field::Text(t)) if t == "trajectory_summary")
    );
}

fn point(secs: i64) -> TrajectoryPoint {
    TrajectoryPoint {
        lon: num(0.0),
        lat: num(0.0),
        timestamp: Timestamp::from_timestamp(secs, 0).unwrap(),
    }
}

#[test]
fn a_stop_is_reported_once_after_thirty_seconds() {
    let mut stops = StopWatch::new();
    let slow = num(1.0);
    assert!(stops.last("v1").is_none());
    assert!(stops.leg("tracks", &at("v1", 0.0, 0.0, 0), slow).is_none());
    assert_eq!(stops.last("v1").unwrap().timestamp, point(0).timestamp);
    assert!(stops.leg("tracks", &at("v1", 0.0, 0.0, 29), slow).is_none());
    let alert = stops.leg("tracks", &at("v1", 0.0, 0.0, 30), slow).unwrap();
    assert_eq!(alert.operator, "tracks");
    assert!(matches!(alert.payload.get("alert"), Some(Field::Text(t)) if t == "stop"));
    assert!(matches!(alert.payload.get("entity_id"), Some(Field::Text(t)) if t == "v1"));
    assert!(matches!(alert.payload.get("stopped_seconds"), Some(Field::Seconds(30))));
    assert!(stops.leg("tracks", &at("v1", 0.0, 0.0, 90), slow).is_none());
}

#[test]
fn movement_ends_a_stop() {
    let mut stops = StopWatch::new();
    assert!(stops.leg("t", &at("v1", 0.0, 0.0, 0), num(0.0)).is_none());
    assert!(stops.leg("t", &at("v1", 0.0, 0.0, 20), num(0.0)).is_none());
    assert!(stops.leg("t", &at("v1", 0.0, 0.0, 25), num(1.5)).is_none());
    assert!(stops.leg("t", &at("v1", 0.0, 0.0, 50), num(0.5)).is_none());
    assert!(stops.leg("t", &at("v1", 0.0, 0.0, 55), num(0.5)).is_some());
}

#[test]
fn stops_of_different_entities_are_apart() {
    let mut stops = StopWatch::new();
    assert!(stops.leg("t", &at("v1", 0.0, 0.0, 0), num(0.0)).is_none());
    assert!(stops.leg("t", &at("v2", 0.0, 0.0, 10), num(0.0)).is_none());
    assert!(stops.leg("t", &at("v2", 0.0, 0.0, 31), num(0.0)).is_none());
    assert!(stops.leg("t", &at("v1", 0.0, 0.0, 31), num(0.0)).is_some());
}

/// Buffers an event and gives all that is reported on it.
fn step(op: &mut TrajectoryOperator, stops: &mut StopWatch, event: &Event) -> Vec<OutputEvent> {
    let current = TrajectoryPoint { lon: event.lon, lat: event.lat, timestamp: event.timestamp };
    let speed = match stops.last(&event.entity_id) {
        Some(last) => {
            let millis = current.timestamp.millis_since(&last.timestamp);
            leg(&last, &current) / (millis as f64 / 1000.0)
        }
        None => 0.0,
    };
    let previous = op.observe(event);
    let total = total_distance(op.points(&event.entity_id).unwrap());
    let (lon, lat) = match op.smoothing_points(&event.entity_id) {
        Some(recent) => smooth_position(&recent, recent.len()).unwrap(),
        None => (f64::NAN, f64::NAN),
    };
    let mean = Position { lon: num(lon), lat: num(lat) };
    op.report_all(stops, event, &previous, num(speed), num(total), mean)
}

fn type_of(output: &OutputEvent) -> &str {
    match output.payload.get("type") {
        Some(Field::Text(t)) => t,
        _ => "",
    }
}

/// The position is smoothed over the newest three points, once there are as many.
#[test]
fn a_smoothed_position_is_reported_from_the_third_point_on() {
    let mut op = operator(100, 1e9);
    let mut stops = StopWatch::new();
    assert!(step(&mut op, &mut stops, &at("v1", 0.0, 0.0, 0)).is_empty());
    let second = step(&mut op, &mut stops, &at("v1", 1.0, 10.0, 1));
    assert_eq!(second.iter().map(type_of).collect::<Vec<_>>(), ["trajectory_update"]);

    for (lon, lat, secs, mean) in [(2.0, 20.0, 2, (1.0, 10.0)), (6.0, 60.0, 3, (3.0, 30.0))] {
        let out = step(&mut op, &mut stops, &at("v1", lon, lat, secs));
        let types: Vec<_> = out.iter().map(type_of).collect();
        assert_eq!(types, ["smoothed_position", "trajectory_update"]);
        let member = |key: &str| match out[0].payload.get(key) {
            Some(Field::Number(n)) => float(*n),
            other => panic!("{key}: {other:?}"),
        };
        assert!((member("lon") - mean.0).abs() < 1e-10);
        assert!((member("lat") - mean.1).abs() < 1e-10);
        assert!(matches!(out[0].payload.get("entity_id"), Some(Field::Text(t)) if t == "v1"));
        assert_eq!(out[0].operator, "traj");
    }
    assert!(op.smoothing_points("v2").is_none());
}

#[test]
fn a_stop_is_reported_before_the_statistics() {
    let mut op = operator(100, 50.0);
    let mut stops = StopWatch::new();
    assert!(step(&mut op, &mut stops, &at("v1", 10.0, 20.0, 0)).is_empty());
    assert_eq!(step(&mut op, &mut stops, &at("v1", 10.0, 20.0, 15)).len(), 1);

    let out = step(&mut op, &mut stops, &at("v1", 10.0, 20.0, 30));
    assert_eq!(out.len(), 3);
    assert!(matches!(out[0].payload.get("alert"), Some(Field::Text(t)) if t == "stop"));
    assert_eq!(type_of(&out[1]), "smoothed_position");
    assert_eq!(type_of(&out[2]), "trajectory_update");
}

/// Windows shorter than a stop do not hide it.
#[test]
fn a_stop_goes_on_when_a_window_closes() {
    let mut op = operator(100, 50.0);
    let mut stops = StopWatch::new();
    for secs in [0, 10] {
        step(&mut op, &mut stops, &at("v1", 10.0, 20.0, secs));
    }
    close(&mut op);
    assert!(step(&mut op, &mut stops, &at("v1", 10.0, 20.0, 20)).is_empty());
    close(&mut op);

    let out = step(&mut op, &mut stops, &at("v1", 10.0, 20.0, 30));
    assert_eq!(out.len(), 1, "no point is buffered, the stop is reported");
    assert!(matches!(out[0].payload.get("stopped_seconds"), Some(Field::Seconds(30))));
}

/// An entity that drove off between two windows has ended its stop.
#[test]
fn movement_across_a_window_ends_a_stop() {
    let mut op = operator(100, 1e9);
    let mut stops = StopWatch::new();
    for secs in [0, 10] {
        step(&mut op, &mut stops, &at("v1", 10.0, 20.0, secs));
    }
    close(&mut op);
    assert!(step(&mut op, &mut stops, &at("v1", 11.0, 20.0, 20)).is_empty());
    assert_eq!(step(&mut op, &mut stops, &at("v1", 11.0, 20.0, 40)).len(), 1);
    assert_eq!(step(&mut op, &mut stops, &at("v1", 11.0, 20.0, 50)).len(), 3);
}

#[test]
fn no_elapsed_time_is_no_speed() {
    assert_eq!(float(compute_speed(&point(5), &point(5), num(f64::INFINITY))), 0.0);
    assert_eq!(float(compute_speed(&point(5), &point(4), num(-3.0))), 0.0);
    assert_eq!(float(compute_speed(&point(5), &point(7), num(2.5))), 2.5);
}

#[test]
fn each_entity_is_summarised_once() {
    let mut op = operator(100, 1e9);
    for secs in 0..3 {
        for entity in ["a", "b", "c"] {
            if entity != "c" || secs == 0 {
                op.observe(&at(entity, 0.0, 0.0, secs));
            }
        }
    }
    assert_eq!(op.known(), ["a", "b", "c"]);
    let on: Vec<String> = close(&mut op)
        .iter()
        .map(|o| match o.payload.get("entity_id") {
            Some(Field::Text(t)) => t.clone(),
            other => panic!("{other:?}"),
        })
        .collect();
    assert_eq!(on, ["a", "b"]);
}
