//! Filter conditions.

use fluvius::condition::{compile_condition, threshold_text, Condition, EventCondition};
use fluvius::event::Event;
use fluvius::number::Number;
use fluvius::time::Timestamp;

fn num(x: f64) -> Number {
    Number::from_bits(x.to_bits())
}

fn now(entity: &str) -> Event {
    let at = Timestamp::from_timestamp(1_700_000_000, 0).unwrap();
    Event::new("e", entity, num(0.0), num(0.0), at)
}

fn compile(condition: &str) -> Result<Condition, String> {
    let threshold = threshold_text(condition).and_then(|t| t.parse::<f64>().ok()).map(num);
    compile_condition(condition, threshold)
}

#[test]
fn test_compile_condition_speed() {
    let pred = compile("speed > 5.0").unwrap();
    assert!(pred.matches(&now("v").with_speed(num(6.0))));
    assert!(!pred.matches(&now("v").with_speed(num(4.0))));
}

#[test]
fn test_compile_condition_entity() {
    let pred = compile("entity_id == 'truck-1'").unwrap();
    assert!(pred.matches(&now("truck-1")));
    assert!(!pred.matches(&now("truck-2")));
}

#[test]
fn test_compile_condition_rejects_garbage() {
    assert!(compile("speed !!").is_err());
    assert!(compile("altitude > 1").is_err());
}

#[test]
fn test_compile_condition_covers_every_speed_operator() {
    let cases = [
        (">", 5.0, false),
        (">=", 5.0, true),
        ("<", 5.0, false),
        ("<=", 5.0, true),
        ("==", 5.0, true),
        ("!=", 5.0, false),
    ];
    for (op, speed, expected) in cases {
        let pred = compile(&format!("speed {op} 5.0")).unwrap();
        assert_eq!(
            pred.matches(&now("v").with_speed(num(speed))),
            expected,
            "speed {speed} {op} 5.0"
        );
    }
}

/// An event without a speed reading is treated as stopped.
#[test]
fn test_compile_condition_treats_missing_speed_as_zero() {
    let pred = compile("speed > 1.0").unwrap();
    assert!(!pred.matches(&now("v")));

    let pred = compile("speed < 1.0").unwrap();
    assert!(pred.matches(&now("v")));
}

#[test]
fn test_compile_condition_entity_id_rejects_ordering_operators() {
    let err = compile("entity_id > 'truck-1'").err().unwrap();
    assert!(err.contains("entity_id"), "{err}");
}

#[test]
fn test_compile_condition_entity_id_accepts_either_quote_style() {
    for condition in ["entity_id == 'truck-1'", "entity_id == \"truck-1\""] {
        let pred = compile(condition).unwrap();
        assert!(pred.matches(&now("truck-1")), "{condition}");
    }

    let pred = compile("entity_id != 'truck-1'").unwrap();
    assert!(pred.matches(&now("truck-2")));
    assert!(!pred.matches(&now("truck-1")));
}

#[test]
fn test_compile_condition_rejects_bad_number() {
    assert!(compile("speed > fast").is_err());
}

#[test]
fn each_refusal_quotes_what_it_refuses() {
    let cases = [
        ("a \"b\"", "unsupported filter condition: \"a \\\"b\\\"\""),
        ("speed > fast", "invalid speed value in condition: \"speed > fast\""),
        ("entity_id <= x", "unsupported operator for entity_id: \"<=\""),
        ("altitude > 1", "unsupported filter field: \"altitude\""),
        ("tab\t", "unsupported filter condition: \"tab\\t\""),
    ];
    for (condition, message) in cases {
        assert_eq!(compile(condition).err().unwrap(), message);
    }
}

#[test]
fn a_speed_on_either_side_of_the_threshold() {
    let cases = [
        (">", false, true),
        (">=", false, true),
        ("<", true, false),
        ("<=", true, false),
        ("==", false, false),
        ("!=", true, true),
        ("=>", false, false),
    ];
    for (op, lower, higher) in cases {
        let pred = compile(&format!(" speed  {op}\t-2.5 ")).unwrap();
        assert_eq!(pred.matches(&now("v").with_speed(num(-2.75))), lower, "{op}");
        assert_eq!(pred.matches(&now("v").with_speed(num(0.0))), higher, "{op}");
    }
}

#[test]
fn no_speed_compares_with_what_is_not_a_number() {
    for op in [">", ">=", "<", "<=", "=="] {
        let pred = compile(&format!("speed {op} NaN")).unwrap();
        assert!(!pred.matches(&now("v").with_speed(num(1.0))), "{op}");
    }
    assert!(compile("speed != NaN").unwrap().matches(&now("v").with_speed(num(1.0))));
    assert!(compile("speed == 0").unwrap().matches(&now("v").with_speed(num(-0.0))));
}

#[test]
fn only_a_speed_comparison_has_a_threshold_to_read() {
    assert_eq!(threshold_text("speed > 5.0").as_deref(), Some("5.0"));
    assert_eq!(threshold_text("speed > "), None);
    assert_eq!(threshold_text("entity_id == 5"), None);
}

#[test]
fn quotes_are_trimmed_from_both_ends_only() {
    let pred = compile("entity_id == ''it's\"").unwrap();
    assert!(pred.matches(&now("it's")));
    assert!(compile("entity_id == ''").unwrap().matches(&now("")));
}
