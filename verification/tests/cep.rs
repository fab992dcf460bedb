//! Temporal and spatial patterns.

use std::collections::HashMap;

use fluvius::cep::{CepEngine, CepState, MatchState, Pattern, PatternStep};
use fluvius::condition::EventCondition;
use fluvius::event::{Event, Field, OutputEvent};
use fluvius::keyed::Keyed;
use fluvius::number::Number;
use fluvius::time::Timestamp;

fn num(x: f64) -> Number {
    Number::from_bits(x.to_bits())
}

fn float(n: Number) -> f64 {
    f64::from_bits(n.bits)
}

fn at(entity: &str, lon: f64, lat: f64, secs: i64) -> Event {
    let ts = Timestamp::from_timestamp(secs, 0).unwrap();
    Event::new("e", entity, num(lon), num(lat), ts)
}

const NOW: i64 = 1_700_000_000;

enum Cond {
    Below(f64),
    Above(f64),
    Has(&'static str),
    Always,
}

impl EventCondition for Cond {
    fn matches(&self, e: &Event) -> bool {
        let speed = e.speed.map(float).unwrap_or(0.0);
        match self {
            Cond::Below(x) => speed < *x,
            Cond::Above(x) => speed > *x,
            Cond::Has(key) => e.properties.iter().any(|(k, _)| k == key),
            Cond::Always => true,
        }
    }
}

fn step(name: &str, condition: Cond) -> PatternStep<Cond> {
    PatternStep { name: name.to_string(), condition, near: None }
}

/// Measures each step's distance as the engine's caller does, in degrees on the plane.
fn process(engine: &mut CepEngine<Cond>, event: &Event) -> Vec<OutputEvent> {
    let distances = engine
        .registered()
        .iter()
        .map(|p| {
            p.steps
                .iter()
                .map(|s| match s.near {
                    Some((lon, lat, _)) => {
                        let dx = float(event.lon) - float(lon);
                        let dy = float(event.lat) - float(lat);
                        num((dx.powi(2) + dy.powi(2)).sqrt())
                    }
                    None => num(0.0),
                })
                .collect()
        })
        .collect();
    engine.process(event, &distances)
}

#[test]
fn test_simple_sequence_pattern() {
    let mut engine = CepEngine::new();
    engine.add_pattern(Pattern {
        name: "stop_then_move".to_string(),
        steps: vec![step("stop", Cond::Below(0.5)), step("move", Cond::Above(5.0))],
        within_millis: 60_000,
    });

    // Stopped event
    let e1 = at("v1", 0.0, 0.0, NOW).with_speed(num(0.0));
    assert!(process(&mut engine, &e1).is_empty());

    // Moving event
    let e2 = at("v1", 0.1, 0.0, NOW + 10).with_speed(num(10.0));
    let results = process(&mut engine, &e2);
    assert_eq!(results.len(), 1);
    assert_eq!(results[0].operator, "cep:stop_then_move");
}

#[test]
fn test_pattern_timeout() {
    let mut engine = CepEngine::new();
    engine.add_pattern(Pattern {
        name: "quick_ab".to_string(),
        steps: vec![step("a", Cond::Has("type_a")), step("b", Cond::Has("type_b"))],
        within_millis: 5_000,
    });

    let mut e1 = at("v1", 0.0, 0.0, NOW);
    e1.properties.push(("type_a".to_string(), "true".to_string()));
    process(&mut engine, &e1);

    // Too late — 10 seconds later
    let mut e2 = at("v1", 0.0, 0.0, NOW + 10);
    e2.properties.push(("type_b".to_string(), "true".to_string()));
    assert!(process(&mut engine, &e2).is_empty()); // Pattern timed out and reset
}

#[test]
fn test_spatial_constraint() {
    let mut engine = CepEngine::new();
    engine.add_pattern(Pattern {
        name: "near_warehouse".to_string(),
        steps: vec![PatternStep {
            name: "arrive".to_string(),
            condition: Cond::Always,
            near: Some((num(10.0), num(20.0), num(0.5))),
        }],
        within_millis: 60_000,
    });

    // Too far
    let e1 = at("v1", 50.0, 50.0, NOW);
    assert!(process(&mut engine, &e1).is_empty());

    // Close enough
    let e2 = at("v1", 10.1, 20.1, NOW);
    assert_eq!(process(&mut engine, &e2).len(), 1);
}

fn stop_then_move() -> Pattern<Cond> {
    Pattern {
        name: "stop_then_move".to_string(),
        steps: vec![step("stop", Cond::Below(1.0)), step("move", Cond::Above(5.0))],
        within_millis: 60_000,
    }
}

/// The matches an engine holds, as a checkpoint would give them back.
fn copied(state: &CepState) -> CepState {
    let mut matches: Keyed<HashMap<usize, MatchState>> = Keyed::new();
    for (entity, known) in &state.matches.entries {
        let copy = known
            .iter()
            .map(|(p, m)| {
                let m = MatchState {
                    current_step: m.current_step,
                    started_at: m.started_at,
                    matched_events: m.matched_events.clone(),
                };
                (*p, m)
            })
            .collect();
        matches.put(entity, copy);
    }
    CepState { matches }
}

/// A restored engine holds the half-finished match, so the step that completes the
/// pattern still completes it.
#[test]
fn test_cep_snapshot_carries_partial_matches() {
    let mut engine = CepEngine::new();
    engine.add_pattern(stop_then_move());
    assert!(process(&mut engine, &at("v1", 0.0, 0.0, NOW).with_speed(num(0.0))).is_empty());

    let mut resumed = CepEngine::new();
    resumed.add_pattern(stop_then_move());
    resumed.restore(copied(engine.snapshot()));

    let matches = process(&mut resumed, &at("v1", 0.0, 0.0, NOW).with_speed(num(10.0)));
    assert_eq!(matches.len(), 1);
    assert!(matches!(
        matches[0].payload.get("pattern"),
        Some(Field::Text(t)) if t == "stop_then_move"
    ));
}

#[test]
fn a_completed_pattern_reports_its_steps_and_duration() {
    let mut engine = CepEngine::default();
    engine.add_pattern(stop_then_move());
    process(&mut engine, &at("v1", 0.0, 0.0, NOW));
    let out = process(&mut engine, &at("v1", 0.0, 0.0, NOW + 60).with_speed(num(9.0)));
    assert!(matches!(out[0].payload.get("steps_matched"), Some(Field::Count(2))));
    assert!(matches!(out[0].payload.get("duration_ms"), Some(Field::Millis(60_000))));
    assert!(matches!(out[0].payload.get("entity_id"), Some(Field::Text(t)) if t == "v1"));
    assert_eq!(engine.name(), "cep");
}

#[test]
fn a_match_one_millisecond_too_long_starts_over() {
    let mut engine = CepEngine::new();
    engine.add_pattern(stop_then_move());
    process(&mut engine, &at("v1", 0.0, 0.0, NOW));
    let mut late = at("v1", 0.0, 0.0, NOW).with_speed(num(9.0));
    late.timestamp = Timestamp::from_timestamp(NOW + 60, 1_000_000).unwrap();
    assert!(process(&mut engine, &late).is_empty());
}

#[test]
fn entities_match_apart_from_each_other() {
    let mut engine = CepEngine::new();
    engine.add_pattern(stop_then_move());
    process(&mut engine, &at("a", 0.0, 0.0, NOW));
    assert!(process(&mut engine, &at("b", 0.0, 0.0, NOW).with_speed(num(9.0))).is_empty());
    assert_eq!(process(&mut engine, &at("a", 0.0, 0.0, NOW).with_speed(num(9.0))).len(), 1);
}

#[test]
fn closing_a_window_drops_partial_matches() {
    let mut engine = CepEngine::new();
    engine.add_pattern(stop_then_move());
    process(&mut engine, &at("v1", 0.0, 0.0, NOW));
    assert!(engine.on_window_close().is_empty());
    assert!(process(&mut engine, &at("v1", 0.0, 0.0, NOW).with_speed(num(9.0))).is_empty());
}

#[test]
fn patterns_complete_in_the_order_they_were_registered() {
    let mut engine = CepEngine::new();
    for name in ["one", "two"] {
        engine.add_pattern(Pattern {
            name: name.to_string(),
            steps: vec![step("any", Cond::Always)],
            within_millis: 0,
        });
    }
    engine.add_pattern(Pattern { name: "none".to_string(), steps: vec![], within_millis: 0 });
    let out = process(&mut engine, &at("v1", 0.0, 0.0, NOW));
    let names: Vec<&str> = out.iter().map(|o| o.operator.as_str()).collect();
    assert_eq!(names, vec!["cep:one", "cep:two"]);
}

#[test]
fn the_radius_is_inclusive() {
    let mut engine = CepEngine::new();
    engine.add_pattern(Pattern {
        name: "edge".to_string(),
        steps: vec![PatternStep {
            name: "on".to_string(),
            condition: Cond::Always,
            near: Some((num(0.0), num(0.0), num(5.0))),
        }],
        within_millis: 1,
    });
    assert_eq!(process(&mut engine, &at("v1", 3.0, 4.0, NOW)).len(), 1);
    assert!(process(&mut engine, &at("v1", 3.0, 4.000001, NOW)).is_empty());
}

/// A window beyond any span of event time never expires a match.
#[test]
fn an_endless_window_does_not_expire() {
    let mut engine = CepEngine::new();
    engine.add_pattern(Pattern {
        name: "eventually".to_string(),
        steps: vec![step("stop", Cond::Below(0.5)), step("move", Cond::Above(5.0))],
        within_millis: u64::MAX as u128 * 1000,
    });
    assert!(process(&mut engine, &at("v1", 0.0, 0.0, 0).with_speed(num(0.0))).is_empty());
    let much_later = at("v1", 0.0, 0.0, 8_000_000_000_000).with_speed(num(10.0));
    assert_eq!(process(&mut engine, &much_later).len(), 1);
}
