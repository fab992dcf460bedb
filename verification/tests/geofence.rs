//! Enter and exit events per entity and zone.

use fluvius::event::{Event, Field, OutputEvent};
use fluvius::geofence::{GeofenceOperator, GeofenceState};
use fluvius::keyed::Keyed;
use fluvius::number::Number;
use fluvius::time::Timestamp;
use fluvius::topology::{OperatorConfig, ZoneConfig};
use fluvius::topology_run::{build_stage, StagePlan, StageReading};

fn num(x: f64) -> Number {
    Number::from_bits(x.to_bits())
}

fn float(n: Number) -> f64 {
    f64::from_bits(n.bits)
}

fn at(entity: &str, lon: f64, lat: f64, secs: i64) -> Event {
    let ts = Timestamp::from_timestamp(secs, 0).unwrap();
    Event::new("e", entity, num(lon), num(lat), ts)
}

fn depot() -> ZoneConfig {
    ZoneConfig { name: "depot".into(), center: (num(10.0), num(20.0)), radius: num(0.01) }
}

fn operator() -> GeofenceOperator {
    GeofenceOperator::new("depot", vec!["depot".to_string()])
}

/// Measures which circles hold the event, and lets the operator decide.
fn process(op: &mut GeofenceOperator, zones: &[ZoneConfig], event: &Event) -> Vec<OutputEvent> {
    let contained = zones
        .iter()
        .map(|z| {
            let dx = float(event.lon) - float(z.center.0);
            let dy = float(event.lat) - float(z.center.1);
            dx.hypot(dy) < float(z.radius)
        })
        .collect();
    op.process(event, &contained)
}

fn text<'a>(output: &'a OutputEvent, key: &str) -> &'a str {
    match output.payload.get(key) {
        Some(Field::Text(t)) => t,
        other => panic!("{key}: {other:?}"),
    }
}

#[test]
fn test_geofence_stage_alerts_on_entry() {
    let cfg = OperatorConfig::Geofence { name: "depot".into(), zones: vec![depot()] };
    let reading = StageReading { thresholds: Vec::new(), rate: String::new() };
    let Ok(StagePlan::Geofence { name, zones }) = build_stage(&cfg, &reading) else {
        panic!("expected a stateful geofence stage");
    };
    let mut op = GeofenceOperator::new(name, zones.iter().map(|z| z.name.clone()).collect());

    assert!(process(&mut op, zones, &at("truck", 11.0, 21.0, 0)).is_empty());
    let alerts = process(&mut op, zones, &at("truck", 10.0, 20.0, 0));
    assert_eq!(alerts.len(), 1);
    assert_eq!(text(&alerts[0], "event"), "Enter");
    assert_eq!(text(&alerts[0], "zone"), "depot");
}

#[test]
fn an_entity_that_leaves_and_comes_back_is_reported_each_time() {
    let zones = [depot()];
    let mut op = operator();
    let mut transitions = Vec::new();
    for (lon, secs) in [(10.0, 0), (11.0, 60), (10.0, 120), (11.0, 180)] {
        for out in process(&mut op, &zones, &at("truck-1", lon, 20.0, secs)) {
            assert_eq!(out.operator, "depot");
            assert_eq!(out.source_event.entity_id, "truck-1");
            transitions.push(text(&out, "event").to_string());
        }
    }
    assert_eq!(transitions, ["Enter", "Exit", "Enter", "Exit"]);
}

#[test]
fn staying_on_one_side_of_a_zone_is_silent() {
    let zones = [depot()];
    let mut op = operator();
    assert_eq!(process(&mut op, &zones, &at("t", 10.0, 20.0, 0)).len(), 1);
    assert!(process(&mut op, &zones, &at("t", 10.001, 20.0, 1)).is_empty());
    assert_eq!(process(&mut op, &zones, &at("t", 11.0, 20.0, 2)).len(), 1);
    assert!(process(&mut op, &zones, &at("t", 12.0, 20.0, 3)).is_empty());
}

#[test]
fn entities_and_zones_are_kept_apart() {
    let mut op = GeofenceOperator::new("gates", vec!["a".to_string(), "b".to_string()]);
    let both = op.process(&at("t1", 0.0, 0.0, 0), &vec![true, true]);
    assert_eq!(both.len(), 2);
    assert_eq!(text(&both[0], "zone"), "a");
    assert_eq!(text(&both[1], "zone"), "b");

    let other = op.process(&at("t2", 0.0, 0.0, 0), &vec![false, true]);
    assert_eq!(other.len(), 1);
    assert_eq!(text(&other[0], "zone"), "b");

    let left = op.process(&at("t1", 0.0, 0.0, 1), &vec![false, true]);
    assert_eq!(left.len(), 1);
    assert_eq!(text(&left[0], "event"), "Exit");
    assert_eq!(text(&left[0], "zone"), "a");
}

#[test]
fn a_resumed_geofence_knows_who_was_inside() {
    let zones = [depot()];
    let mut first = operator();
    process(&mut first, &zones, &at("truck-1", 10.0, 20.0, 0));

    let mut second = operator();
    second.restore(first.snapshot());
    let out = process(&mut second, &zones, &at("truck-1", 11.0, 21.0, 60));
    assert_eq!(out.len(), 1);
    assert_eq!(text(&out[0], "event"), "Exit");

    // without the state there is no transition to report
    let mut clean = operator();
    assert!(process(&mut clean, &zones, &at("truck-1", 11.0, 21.0, 60)).is_empty());
}

#[test]
fn a_state_over_other_zones_changes_nothing() {
    let zones = [depot()];
    let mut op = operator();
    process(&mut op, &zones, &at("truck-1", 10.0, 20.0, 0));

    let mut inside = Keyed::new();
    inside.put("truck-1", vec![false]);
    op.restore(GeofenceState { zones: vec!["yard".to_string()], inside });
    let mut short = Keyed::new();
    short.put("truck-1", Vec::new());
    op.restore(GeofenceState { zones: vec!["depot".to_string()], inside: short });

    let out = process(&mut op, &zones, &at("truck-1", 11.0, 21.0, 60));
    assert_eq!(out.len(), 1);
    assert_eq!(text(&out[0], "event"), "Exit");
}
