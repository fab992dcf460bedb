//! Alerts between entities that come close.

use fluvius::event::{Event, Field, OutputEvent};
use fluvius::keyed::Keyed;
use fluvius::number::Number;
use fluvius::proximity::{Position, ProximityOperator};
use fluvius::time::Timestamp;
use fluvius::topology::OperatorConfig;
use fluvius::topology_run::{build_stage, StagePlan, StageReading};
use geo::{Distance, Haversine, Point};

fn num(x: f64) -> Number {
    Number::from_bits(x.to_bits())
}

fn float(n: Number) -> f64 {
    f64::from_bits(n.bits)
}

fn now(entity: &str, lon: f64, lat: f64) -> Event {
    let at = Timestamp::from_timestamp(1_700_000_000, 0).unwrap();
    Event::new("e", entity, num(lon), num(lat), at)
}

fn operator(threshold: f64) -> ProximityOperator {
    ProximityOperator::new("proximity", num(threshold))
}

/// Measures the distances, and lets the operator decide.
fn process(op: &mut ProximityOperator, event: &Event) -> Vec<OutputEvent> {
    let here = Point::new(float(event.lon), float(event.lat));
    let distances = op
        .snapshot()
        .entries
        .iter()
        .map(|(_, p)| num(Haversine.distance(here, Point::new(float(p.lon), float(p.lat)))))
        .collect();
    op.process(event, &distances)
}

fn text<'a>(output: &'a OutputEvent, key: &str) -> &'a str {
    match output.payload.get(key) {
        Some(Field::Text(t)) => t,
        other => panic!("{key}: {other:?}"),
    }
}

fn number(output: &OutputEvent, key: &str) -> f64 {
    match output.payload.get(key) {
        Some(Field::Number(n)) => float(*n),
        other => panic!("{key}: {other:?}"),
    }
}

#[test]
fn test_proximity_alert() {
    let mut op = operator(1000.0); // 1km threshold

    // Vehicle 1 at a position
    let e1 = now("v1", -73.9857, 40.7484); // NYC
    assert!(process(&mut op, &e1).is_empty()); // No other entities yet

    // Vehicle 2 very close (same block ~50m)
    let e2 = now("v2", -73.9855, 40.7486);
    let out2 = process(&mut op, &e2);
    assert_eq!(out2.len(), 1);
    assert_eq!(text(&out2[0], "alert"), "proximity");
    assert_eq!(text(&out2[0], "entity_a"), "v2");
    assert_eq!(text(&out2[0], "entity_b"), "v1");
}

#[test]
fn test_no_alert_when_far() {
    let mut op = operator(100.0); // 100m threshold

    let e1 = now("v1", -73.9857, 40.7484); // NYC
    process(&mut op, &e1);

    // Vehicle 2 in London — very far
    let e2 = now("v2", -0.1278, 51.5074);
    assert!(process(&mut op, &e2).is_empty());
}

#[test]
fn test_self_not_triggered() {
    let mut op = operator(1000.0);

    let e1 = now("v1", 0.0, 0.0);
    process(&mut op, &e1);

    // Same entity updates position — should not trigger self-alert
    let e2 = now("v1", 0.0001, 0.0001);
    assert!(process(&mut op, &e2).is_empty());
}

/// Measure the pair distance once, then use it as the threshold: the check is
/// inclusive, and a hair under it goes quiet.
#[test]
fn test_threshold_is_inclusive() {
    let (a, b) = (now("v1", 0.0, 0.0), now("v2", 0.001, 0.0));

    let mut measure = operator(1e9);
    process(&mut measure, &a);
    let distance = number(&process(&mut measure, &b)[0], "distance_meters");
    assert!(distance > 100.0, "sanity: {distance}");

    let mut at_threshold = operator(distance);
    process(&mut at_threshold, &a);
    assert_eq!(
        process(&mut at_threshold, &b).len(),
        1,
        "equal to the threshold alerts"
    );

    let mut under = operator(distance * 0.999);
    process(&mut under, &a);
    assert!(process(&mut under, &b).is_empty(), "just past the threshold");
}

/// An event near several entities alerts once per neighbour.
#[test]
fn test_alert_per_nearby_entity() {
    let mut op = operator(1000.0);
    process(&mut op, &now("v1", 0.0, 0.0));
    process(&mut op, &now("v2", 0.001, 0.0));
    // far away, must not be counted
    process(&mut op, &now("far", 40.0, 40.0));

    let out = process(&mut op, &now("v3", 0.0, 0.001));
    assert_eq!(out.len(), 2);

    let mut others: Vec<&str> = out.iter().map(|o| text(o, "entity_b")).collect();
    others.sort();
    assert_eq!(others, vec!["v1", "v2"]);
    assert!(out.iter().all(|o| text(o, "entity_a") == "v3"));
}

/// Only the latest position counts: once an entity drives off, arriving at its
/// old spot is not an alert.
#[test]
fn test_uses_latest_position_only() {
    let mut op = operator(500.0);
    process(&mut op, &now("v1", 0.0, 0.0));
    // v1 moves far away
    process(&mut op, &now("v1", 40.0, 40.0));

    // v2 arrives where v1 used to be
    assert!(process(&mut op, &now("v2", 0.0, 0.0)).is_empty());
}

#[test]
fn test_window_close_clears_positions() {
    let mut op = operator(1000.0);
    process(&mut op, &now("v1", 0.0, 0.0));

    assert!(op.on_window_close().is_empty(), "close emits nothing");

    // v1's position was dropped, so v2 has nothing to be near
    assert!(process(&mut op, &now("v2", 0.001, 0.0)).is_empty());
    // but v2 is now tracked, so v3 alongside it does alert
    assert_eq!(process(&mut op, &now("v3", 0.001, 0.0)).len(), 1);
}

/// Neighbours a few hundred metres apart across the 180th meridian still alert,
/// even though their longitudes differ by almost 360 degrees.
#[test]
fn test_alert_across_the_antimeridian() {
    let mut op = operator(1000.0);
    process(&mut op, &now("east", 179.9995, 0.0));

    let out = process(&mut op, &now("west", -179.9995, 0.0));
    assert_eq!(out.len(), 1);
    assert_eq!(text(&out[0], "entity_b"), "east");
    let distance = number(&out[0], "distance_meters");
    assert!(distance < 1000.0, "distance was {distance}");
}

/// At latitude 60 a degree of longitude is half as wide as at the equator, so this pair is
/// half as far apart as there.
#[test]
fn test_longitude_box_widens_with_latitude() {
    let mut alerting = operator(700.0);
    process(&mut alerting, &now("v1", 10.0, 60.0));
    // about 556 m apart
    let out = process(&mut alerting, &now("v2", 10.01, 60.0));
    assert_eq!(out.len(), 1);
    assert_eq!(text(&out[0], "entity_b"), "v1");

    let mut quiet = operator(500.0);
    process(&mut quiet, &now("v1", 10.0, 60.0));
    assert!(process(&mut quiet, &now("v2", 10.01, 60.0)).is_empty());
}

/// A restored operator queries the positions the snapshot carried, so a neighbour
/// it never saw arrive still triggers an alert.
#[test]
fn test_proximity_snapshot_carries_positions() {
    let mut op = operator(1000.0);
    process(&mut op, &now("v1", 0.0, 0.0));

    let mut carried: Keyed<Position> = Keyed::new();
    for (entity, position) in &op.snapshot().entries {
        carried.put(entity, *position);
    }
    let mut resumed = operator(1000.0);
    resumed.restore(carried);

    let out = process(&mut resumed, &now("v2", 0.001, 0.0));
    assert_eq!(out.len(), 1);
    assert_eq!(text(&out[0], "entity_b"), "v1");
}

#[test]
fn test_alert_payload_reports_distance_and_threshold() {
    let mut op = operator(1000.0);
    process(&mut op, &now("v1", 0.0, 0.0));
    let out = process(&mut op, &now("v2", 0.001, 0.0));

    assert_eq!(text(&out[0], "alert"), "proximity");
    assert_eq!(number(&out[0], "threshold_meters"), 1000.0);
    let distance = number(&out[0], "distance_meters");
    // 0.001 degrees of longitude at the equator is about 111m
    assert!((distance - 111.0).abs() < 2.0, "distance was {distance}");
    assert_eq!(out[0].source_event.entity_id, "v2");
    assert_eq!(out[0].operator, "proximity");
}

/// Far from the equator the nearest way round leaves the parallel, so a wide threshold
/// takes in positions well to the east.
#[test]
fn a_wide_threshold_alerts_at_high_latitude() {
    let mut op = operator(1_000_000.0);
    process(&mut op, &now("v1", 18.18, 61.26));

    let out = process(&mut op, &now("v2", 0.0, 60.0));
    assert_eq!(out.len(), 1);
    assert_eq!(text(&out[0], "entity_a"), "v2");
    assert_eq!(text(&out[0], "entity_b"), "v1");
    let distance = number(&out[0], "distance_meters");
    assert!((distance - 998_000.0).abs() < 1_000.0, "distance was {distance}");
}

#[test]
fn the_distances_handed_in_decide() {
    let mut op = operator(1000.0);
    op.process(&now("near", 1.0, 0.0), &vec![]);
    op.process(&now("far", 1.5, 0.0), &vec![num(5000.0)]);
    let out = op.process(&now("v", 1.0, 0.0), &vec![num(1000.0), num(1000.5)]);
    assert_eq!(out.len(), 1);
    assert_eq!(text(&out[0], "entity_b"), "near");
    assert!(op.process(&now("w", 1.0, 0.0), &vec![num(f64::NAN); 3]).is_empty());
    assert_eq!(op.name(), "proximity");
}

#[test]
fn test_proximity_stage_alerts_between_entities() {
    let cfg = OperatorConfig::Proximity { name: "near".into(), radius_m: num(1000.0) };
    let reading = StageReading { thresholds: Vec::new(), rate: String::new() };
    let Ok(StagePlan::Proximity { name, radius_m }) = build_stage(&cfg, &reading) else {
        panic!("expected a stateful proximity stage");
    };
    let mut op = ProximityOperator::new(name, radius_m);

    assert!(process(&mut op, &now("v1", 0.0, 0.0)).is_empty());
    let alerts = process(&mut op, &now("v2", 0.001, 0.0));
    assert_eq!(alerts.len(), 1);
    assert_eq!(text(&alerts[0], "alert"), "proximity");
    assert_eq!(text(&alerts[0], "entity_b"), "v1");
}
