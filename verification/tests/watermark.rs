//! Event-time progress.

use fluvius::time::{Span, Timestamp};
use fluvius::watermark::Watermark;

fn ts(secs: i64) -> Timestamp {
    Timestamp::from_timestamp(secs, 0).unwrap()
}

#[test]
fn test_watermark_advance() {
    let mut wm = Watermark::new(Span::seconds(5));
    let ts1 = ts(100);
    let ts2 = ts(110);

    assert!(wm.advance(&ts1));
    assert!(wm.advance(&ts2));
    // Watermark should be at ts2 - 5s = 105
    assert_eq!(*wm.current(), ts(105));
}

#[test]
fn test_late_events() {
    let mut wm = Watermark::new(Span::seconds(2));
    let ts1 = ts(100);
    let ts2 = ts(90); // Very late

    wm.advance(&ts1);
    let accepted = wm.advance(&ts2);
    assert!(!accepted); // Too late (ts2=90, watermark=98)
    assert_eq!(wm.late_count(), 1);
}

#[test]
fn test_within_lateness_tolerance() {
    let mut wm = Watermark::new(Span::seconds(10));
    let ts1 = ts(100);
    let ts2 = ts(92); // Out of order but within tolerance

    wm.advance(&ts1); // watermark = 90
    let accepted = wm.advance(&ts2);
    assert!(accepted);
    assert_eq!(wm.late_count(), 0);
}

#[test]
fn test_event_exactly_at_the_watermark_is_kept() {
    let mut wm = Watermark::new(Span::seconds(10));
    wm.advance(&ts(100));
    assert!(wm.advance(&ts(90)));
    assert_eq!(wm.late_count(), 0);
}

#[test]
fn test_event_one_second_before_the_watermark_is_dropped() {
    let mut wm = Watermark::new(Span::seconds(10));
    wm.advance(&ts(100));
    assert!(!wm.advance(&ts(89)));
    assert_eq!(wm.late_count(), 1);
}

#[test]
fn test_out_of_order_event_does_not_move_the_watermark_back() {
    let mut wm = Watermark::new(Span::seconds(10));
    wm.advance(&ts(100));
    assert!(wm.advance(&ts(95)));
    assert_eq!(*wm.current(), ts(90));
    assert!(!wm.advance(&ts(76)));
}

#[test]
fn lateness_is_asked_without_counting() {
    let mut wm = Watermark::new(Span::seconds(1));
    assert!(wm.is_late(&ts(-1)));
    assert!(wm.can_advance(&ts(50)));
    wm.advance(&ts(50));
    assert!(wm.is_late(&ts(48)));
    assert!(!wm.is_late(&ts(49)));
    assert_eq!(wm.late_count(), 0);
}

#[test]
fn instants_have_a_range() {
    assert!(Timestamp::from_timestamp(8_210_266_876_799, 999_999_999).is_some());
    assert!(Timestamp::from_timestamp(8_210_266_876_800, 0).is_none());
    assert!(Timestamp::from_timestamp(-8_334_601_228_800, 0).is_some());
    assert!(Timestamp::from_timestamp(-8_334_601_228_801, 999_999_999).is_none());
    assert!(Timestamp::from_timestamp(0, 1_000_000_000).is_none());
}

fn inst(secs: i64, nanos: u32) -> Timestamp {
    Timestamp::from_timestamp(secs, nanos).unwrap()
}

#[test]
fn a_leap_second_follows_the_last_second_of_a_minute() {
    let leap = inst(59, 1_500_000_000);
    assert_eq!((leap.secs(), leap.subsec_nanos()), (59, 1_500_000_000));
    assert!(Timestamp::from_timestamp(59, 1_999_999_999).is_some());
    assert!(Timestamp::from_timestamp(59, 2_000_000_000).is_none());
    assert!(Timestamp::from_timestamp(58, 1_000_000_000).is_none());
    assert!(Timestamp::from_timestamp(-1, 1_500_000_000).is_some());
    assert!(inst(59, 999_999_999).before(&leap) && leap.before(&ts(60)));
}

#[test]
fn a_leap_second_counts_towards_the_time_between() {
    let leap = inst(59, 1_500_000_000);
    assert_eq!(leap.millis_since(&ts(59)), 1500);
    assert_eq!(ts(60).millis_since(&leap), 500);
    assert_eq!(leap.millis_since(&ts(60)), -500);
    assert_eq!(ts(59).millis_since(&leap), -1500);
    assert_eq!(ts(119).secs_since(&leap), 59);
    assert_eq!(inst(119, 1_500_000_000).secs_since(&leap), 61);
    // by the time of day the one that ends a day does not lie before the next
    let midnight = inst(86_399, 1_500_000_000);
    assert_eq!(ts(86_400).millis_since(&midnight), -500);
    assert_eq!(midnight.millis_since(&ts(86_400)), 500);
}

#[test]
fn stepping_back_from_a_leap_second_leaves_it() {
    let leap = inst(59, 1_500_000_000);
    assert_eq!(leap.minus(&Span::seconds(0)), leap);
    assert_eq!(leap.minus(&Span::seconds(1)), inst(59, 500_000_000));
    assert_eq!(leap.minus(&Span::seconds(2)), inst(58, 500_000_000));
    assert_eq!(leap.minus(&Span::seconds(-1)), inst(60, 500_000_000));
    let last = inst(8_210_266_876_799, 1_000_000_000);
    assert!(last.can_step_back(&Span::seconds(0)));
    assert!(!last.can_step_back(&Span::seconds(-1)));
    assert!(last.can_step_back(&Span::seconds(1)));
}

/// Order, differences and steps are chrono's, in and out of leap seconds.
#[test]
fn instants_behave_as_chronos_do() {
    let samples = [
        (0, 0),
        (58, 999_999_999),
        (59, 0),
        (59, 1_000_000_000),
        (59, 1_999_999_999),
        (60, 0),
        (119, 1_500_000_000),
        (86_399, 1_500_000_000),
        (86_400, 250_000_000),
        (-1, 1_200_000_000),
        (-61, 1_000_000_001),
        (1_700_000_000, 123_456_789),
    ];
    for a in samples {
        let chrono_a = chrono::DateTime::from_timestamp(a.0, a.1).unwrap();
        let ours_a = inst(a.0, a.1);
        for b in samples {
            let chrono_b = chrono::DateTime::from_timestamp(b.0, b.1).unwrap();
            let ours_b = inst(b.0, b.1);
            assert_eq!(ours_a.before(&ours_b), chrono_a < chrono_b, "{a:?} {b:?}");
            let delta = chrono_a - chrono_b;
            assert_eq!(ours_a.millis_since(&ours_b), delta.num_milliseconds(), "{a:?} {b:?}");
            assert_eq!(ours_a.secs_since(&ours_b), delta.num_seconds(), "{a:?} {b:?}");
        }
        for span in [-86_400, -61, -2, -1, 0, 1, 2, 60, 90_000] {
            let back = chrono_a - chrono::TimeDelta::seconds(span);
            let ours = ours_a.minus(&Span::seconds(span));
            assert_eq!(
                (ours.secs(), ours.subsec_nanos()),
                (back.timestamp(), back.timestamp_subsec_nanos()),
                "{a:?} {span}"
            );
        }
    }
}

#[test]
fn differences_drop_their_fraction_towards_zero() {
    let a = Timestamp::from_timestamp(10, 0).unwrap();
    let b = Timestamp::from_timestamp(7, 999_600_000).unwrap();
    assert_eq!(a.millis_since(&b), 2000);
    assert_eq!(b.millis_since(&a), -2000);
    assert_eq!(a.secs_since(&b), 2);
    assert_eq!(b.secs_since(&a), -2);
    assert!(b.before(&a) && !a.before(&b) && !a.before(&a));
    assert_eq!(Timestamp::epoch(), ts(0));
}

#[test]
fn an_instant_before_the_epoch_splits_downwards() {
    let t = Timestamp::from_timestamp(-2, 250_000_000).unwrap();
    assert_eq!((t.secs(), t.subsec_nanos()), (-2, 250_000_000));
    let back = t.minus(&Span::seconds(3));
    assert_eq!((back.secs(), back.subsec_nanos()), (-5, 250_000_000));
    assert!(t.can_step_back(&Span::seconds(1_000_000)));
    assert!(!t.can_step_back(&Span::seconds(9_223_372_036_854_775)));
}
