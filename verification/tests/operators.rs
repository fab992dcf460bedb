//! Filters, transforms, limiters and throttles.

use fluvius::event::{Event, Field};
use fluvius::number::Number;
use fluvius::operator::{
    burst_capacity, FilterOperator, MapOperator, RateLimitOperator, RateLimiter, StatefulOperator,
    TransformOperator,
};
use fluvius::time::Timestamp;

fn num(x: f64) -> Number {
    Number::from_bits(x.to_bits())
}

fn float(n: Number) -> f64 {
    f64::from_bits(n.bits)
}

fn now(entity: &str, lon: f64, lat: f64) -> Event {
    let at = Timestamp::from_timestamp(1_700_000_000, 0).unwrap();
    Event::new("e", entity, num(lon), num(lat), at)
}

fn speed(event: &Event) -> f64 {
    event.speed.map(float).unwrap_or(0.0)
}

#[test]
fn test_filter_operator() {
    let filter = FilterOperator::new("speed_filter", |e: &Event| speed(e) > 10.0);

    let fast = now("v1", 0.0, 0.0).with_speed(num(20.0));
    let slow = now("v2", 0.0, 0.0).with_speed(num(5.0));

    assert!(filter.process(&fast).is_some());
    assert!(filter.process(&slow).is_none());
}

#[test]
fn test_transform_operator() {
    let transform = TransformOperator::new("double_speed", |e: &Event| {
        let mut cloned = e.clone();
        cloned.speed = cloned.speed.map(|s| num(float(s) * 2.0));
        cloned
    });

    let event = now("v1", 0.0, 0.0).with_speed(num(10.0));
    let output = transform.process(&event).unwrap();
    assert_eq!(output.source_event.speed, Some(num(20.0)));
}

#[test]
fn test_rate_limiter() {
    let mut limiter = RateLimiter::new("limiter", 2);

    let e1 = now("v1", 0.0, 0.0);
    let e2 = now("v1", 1.0, 1.0);
    let e3 = now("v1", 2.0, 2.0);
    let e4 = now("v2", 3.0, 3.0);

    assert_eq!(limiter.process(&e1).len(), 1);
    assert_eq!(limiter.process(&e2).len(), 1);
    assert_eq!(limiter.process(&e3).len(), 0); // Rate limited
    assert_eq!(limiter.process(&e4).len(), 1); // Different entity

    // After window close, counts reset
    limiter.on_window_close();
    assert_eq!(limiter.process(&e1).len(), 1); // v1 can send again
}

#[test]
fn test_rate_limiter_snapshot_carries_the_counts() {
    let mut limiter = RateLimiter::new("limiter", 1);
    assert_eq!(limiter.process(&now("v1", 0.0, 0.0)).len(), 1);

    let mut resumed = RateLimiter::new("limiter", 1);
    resumed.restore(limiter.snapshot());
    assert_eq!(
        resumed.process(&now("v1", 0.0, 0.0)).len(),
        0,
        "v1 had already spent its allowance"
    );
    assert_eq!(resumed.process(&now("v2", 0.0, 0.0)).len(), 1);
}

#[test]
fn test_restore_keeps_the_current_state_when_the_value_does_not_fit() {
    let mut limiter = RateLimiter::new("limiter", 1);
    limiter.process(&now("v1", 0.0, 0.0));

    limiter.restore(serde_json::Value::from("not a count map").to_string());
    assert_eq!(
        limiter.process(&now("v1", 0.0, 0.0)).len(),
        0,
        "the count survived the unusable checkpoint"
    );
}

/// Drives a throttle at a moment `elapsed` seconds after the last one.
fn throttled(limiter: &mut RateLimitOperator, event: &Event, elapsed: f64) -> bool {
    let rate = float(limiter.max_per_second());
    let topped_up = float(limiter.tokens()) + elapsed * rate;
    limiter.refill(num(topped_up));
    let left = float(limiter.tokens()) - 1.0;
    limiter.take(event, num(left)).is_some()
}

/// The burst is spent across entities, not per entity, and the events it rejects
/// produce no output at all.
#[test]
fn test_rate_limit_operator_spends_its_burst() {
    let mut limiter = RateLimitOperator::new("throttle", num(2.0));

    assert!(throttled(&mut limiter, &now("v1", 0.0, 0.0), 0.0));
    assert!(throttled(&mut limiter, &now("v2", 0.0, 0.0), 0.0));
    assert!(!throttled(&mut limiter, &now("v3", 0.0, 0.0), 0.0));
}

/// Below one per second the bucket still holds a single token, so the operator
/// is a throttle rather than a mute.
#[test]
fn test_rate_limit_operator_allows_one_below_a_rate_of_one() {
    let mut limiter = RateLimitOperator::new("throttle", num(0.1));
    assert!(throttled(&mut limiter, &now("v1", 0.0, 0.0), 0.0));
    assert!(!throttled(&mut limiter, &now("v1", 0.0, 0.0), 0.0));
}

#[test]
fn test_rate_limit_operator_refills_over_time() {
    let mut limiter = RateLimitOperator::new("throttle", num(100.0));
    for _ in 0..100 {
        throttled(&mut limiter, &now("v1", 0.0, 0.0), 0.0);
    }
    assert!(!throttled(&mut limiter, &now("v1", 0.0, 0.0), 0.0));

    // 50ms at 100/s is worth 5 tokens
    assert!(throttled(&mut limiter, &now("v1", 0.0, 0.0), 0.05));
}

#[test]
fn a_refill_stops_at_the_burst_capacity() {
    let mut limiter = RateLimitOperator::new("throttle", num(2.0));
    limiter.refill(num(1e9));
    assert_eq!(limiter.tokens(), num(2.0));
    limiter.refill(num(f64::NAN));
    assert_eq!(limiter.tokens(), num(2.0));
    assert_eq!(burst_capacity(num(0.1)), num(1.0));
    assert_eq!(burst_capacity(num(7.5)), num(7.5));
    assert_eq!(limiter.name(), "throttle");
}

#[test]
fn a_passed_event_says_who_passed_it() {
    let filter = FilterOperator::new("pass_all", |_: &Event| true);
    let out = filter.process(&now("v1", 1.0, 2.0)).unwrap();
    assert_eq!(out.operator, "pass_all");
    assert_eq!(out.source_event.entity_id, "v1");
    assert!(matches!(out.payload.get("action"), Some(Field::Text(t)) if t == "pass"));
    assert_eq!(filter.name(), "pass_all");

    let transform = TransformOperator::new("same", |e: &Event| e.clone());
    let out = transform.process(&now("v1", 1.0, 2.0)).unwrap();
    assert!(matches!(out.payload.get("action"), Some(Field::Text(t)) if t == "transform"));
    assert!(out.payload.get("missing").is_none());
    assert_eq!(transform.name(), "same");
}

#[test]
fn a_limited_output_carries_the_running_count() {
    let mut limiter = RateLimiter::new("limiter", 2);
    limiter.process(&now("v1", 0.0, 0.0));
    let out = limiter.process(&now("v1", 0.0, 0.0));
    assert!(matches!(out[0].payload.get("count"), Some(Field::Count(2))));
    assert_eq!(limiter.name(), "limiter");
}

#[test]
fn a_limit_of_zero_passes_nothing() {
    let mut limiter = RateLimiter::new("mute", 0);
    assert!(limiter.process(&now("v1", 0.0, 0.0)).is_empty());
    assert_eq!(limiter.snapshot(), "{\"v1\":0}");
}

/// The text of a checkpoint is a JSON object of counts, whatever the entities are called.
#[test]
fn a_limiter_snapshot_is_a_json_object() {
    let mut limiter = RateLimiter::new("limiter", 5);
    for entity in ["b", "a", "quo\"ted", "b"] {
        limiter.process(&now(entity, 0.0, 0.0));
    }
    let text = limiter.snapshot();
    assert_eq!(text, "{\"a\":1,\"b\":2,\"quo\\\"ted\":1}");

    let mut resumed = RateLimiter::new("limiter", 5);
    resumed.restore(text.clone());
    assert_eq!(resumed.snapshot(), text);
}

#[test]
fn a_state_of_the_wrong_shape_is_ignored() {
    let mut limiter = RateLimiter::new("limiter", 5);
    limiter.process(&now("a", 0.0, 0.0));
    for state in ["", "[1]", "{\"a\":-1}", "{\"a\":1.5}", "{\"a\":\"1\"}", "null"] {
        limiter.restore(state.to_string());
        assert_eq!(limiter.snapshot(), "{\"a\":1}", "{state:?}");
    }
    limiter.restore("{\"z\":4,\"z\":3}".to_string());
    assert_eq!(limiter.snapshot(), "{\"z\":3}");
}

#[test]
fn an_event_is_built_field_by_field() {
    let at = Timestamp::from_timestamp(1000, 0).unwrap();
    let bits = |x: f64| Number::from_bits(x.to_bits());
    let bare = Event::new("e1", "truck-1", bits(10.0), bits(20.0), at);
    assert_eq!((bare.id.as_str(), bare.entity_id.as_str()), ("e1", "truck-1"));
    assert!(bare.speed.is_none() && bare.heading.is_none() && bare.altitude.is_none());
    assert!(bare.properties.is_empty());

    let full = bare.with_speed(bits(12.5)).with_heading(bits(90.0));
    assert_eq!(full.speed.unwrap().bits, 12.5f64.to_bits());
    assert_eq!(full.heading.unwrap().bits, 90.0f64.to_bits());
    assert_eq!(full.lon.bits, 10.0f64.to_bits());
    assert_eq!(full.lat.bits, 20.0f64.to_bits());
}
