//! Whole runs of a pipeline, driven without a runtime.

use std::cell::Cell;
use std::collections::VecDeque;

use fluvius::event::{Event, Field, OutputEvent, Payload};
use fluvius::keyed::Keyed;
use fluvius::number::Number;
use fluvius::operator::{
    FilterOperator, MapOperator, RateLimiter, StatefulOperator, TransformOperator,
};
use fluvius::pipeline::{window_state_key, Action, Pipeline, Stage};
use fluvius::time::{Span, Timestamp};

fn num(x: f64) -> Number {
    Number::from_bits(x.to_bits())
}

fn speed(event: &Event) -> f64 {
    event.speed.map(|s| f64::from_bits(s.bits)).unwrap_or(0.0)
}

fn at(entity: &str, secs: i64) -> Event {
    let ts = Timestamp::from_timestamp(secs, 0).unwrap();
    Event::new("e", entity, num(0.0), num(0.0), ts)
}

fn now(entity: &str) -> Event {
    at(entity, 1_700_000_000)
}

fn now_at(entity: &str, lon: f64, lat: f64) -> Event {
    let ts = Timestamp::from_timestamp(1_700_000_000, 0).unwrap();
    Event::new("e", entity, num(lon), num(lat), ts)
}

/// Any stateless operator.
struct AnyMap(Box<dyn Fn(&Event) -> Option<OutputEvent>>);

impl AnyMap {
    fn of<M: MapOperator + 'static>(op: M) -> AnyMap {
        AnyMap(Box::new(move |e: &Event| op.process(e)))
    }
}

impl MapOperator for AnyMap {
    fn process(&self, event: &Event) -> Option<OutputEvent> {
        (self.0)(event)
    }

    fn name(&self) -> &str {
        "any"
    }
}

/// Emits one output per event plus a summary on close, so a single test covers
/// multi-output stages and the end-of-stream flush.
struct Counter {
    seen: u64,
}

enum AnyStateful {
    Counter(Counter),
    Limiter(RateLimiter),
}

impl StatefulOperator for AnyStateful {
    type State = String;

    fn process(&mut self, event: &Event) -> Vec<OutputEvent> {
        match self {
            AnyStateful::Counter(c) => {
                c.seen += 1;
                vec![OutputEvent {
                    source_event: event.clone(),
                    operator: "counter".to_string(),
                    payload: Payload::new().with("seen", Field::Count(c.seen)),
                }]
            }
            AnyStateful::Limiter(l) => l.process(event),
        }
    }

    fn on_window_close(&mut self) -> Vec<OutputEvent> {
        match self {
            AnyStateful::Counter(c) => {
                let total = c.seen;
                c.seen = 0;
                vec![OutputEvent {
                    source_event: now("summary"),
                    operator: "counter".to_string(),
                    payload: Payload::new().with("total", Field::Count(total)),
                }]
            }
            AnyStateful::Limiter(l) => l.on_window_close(),
        }
    }

    fn name(&self) -> &str {
        match self {
            AnyStateful::Counter(_) => "counter",
            AnyStateful::Limiter(l) => l.name(),
        }
    }

    fn snapshot(&self) -> String {
        match self {
            AnyStateful::Counter(c) => c.seen.to_string(),
            AnyStateful::Limiter(l) => l.snapshot(),
        }
    }

    fn restore(&mut self, state: String) {
        match self {
            AnyStateful::Counter(c) => {
                if let Ok(seen) = state.parse() {
                    c.seen = seen;
                }
            }
            AnyStateful::Limiter(l) => l.restore(state),
        }
    }
}

fn counter() -> Stage<AnyMap, AnyStateful> {
    Stage::Stateful(AnyStateful::Counter(Counter { seen: 0 }))
}

type TestPipeline = Pipeline<AnyMap, AnyStateful>;

/// What a run left behind.
#[derive(Default)]
struct Ran {
    outputs: Vec<OutputEvent>,
    checkpoints: Vec<Vec<(String, String)>>,
    assigned: Vec<Event>,
}

/// Runs a pipeline over events, a sink that takes `room` outputs, ticks before the events at
/// `ticks`, and windows that expire as `expire` says.
fn drive(
    pipeline: &mut TestPipeline,
    events: Vec<Event>,
    room: usize,
    ticks: &[usize],
    expire: &mut dyn FnMut(&Timestamp, &[Event]) -> usize,
) -> Ran {
    let mut ran = Ran::default();
    let mut left: VecDeque<Event> = events.into();
    let total = left.len();
    let mut ticked: Vec<usize> = Vec::new();
    pipeline.begin();
    loop {
        match pipeline.action() {
            Action::Receive => {
                let next = total - left.len();
                if ticks.contains(&next) && !ticked.contains(&next) {
                    ticked.push(next);
                    pipeline.ticked();
                } else {
                    match left.pop_front() {
                        Some(event) => {
                            assert!(pipeline.can_receive(&event));
                            pipeline.received(event)
                        }
                        None => pipeline.closed(),
                    }
                }
            }
            Action::ExpireWindows(time) => {
                let n = expire(&time, &ran.assigned);
                pipeline.expired(n);
            }
            Action::CloseStage => pipeline.flush(),
            Action::ApplyStage => {
                pipeline.apply();
                pipeline.applied(1500);
            }
            Action::Send(output) => {
                if ran.outputs.len() < room {
                    ran.outputs.push(output);
                    pipeline.sent();
                } else {
                    pipeline.sink_gone();
                }
            }
            Action::AssignToWindow(event) => {
                ran.assigned.push(event);
                pipeline.assigned();
            }
            Action::WriteCheckpoint => {
                let windows = if pipeline.is_windowed() {
                    Some(ran.assigned.len().to_string())
                } else {
                    None
                };
                ran.checkpoints.push(pipeline.checkpoint(windows));
                pipeline.written();
            }
            Action::Finished => return ran,
        }
    }
}

fn run(pipeline: &mut TestPipeline, events: Vec<Event>) -> Ran {
    drive(pipeline, events, usize::MAX, &[], &mut |_, _| 0)
}

fn count_of(output: &OutputEvent, key: &str) -> Option<u64> {
    match output.payload.get(key) {
        Some(Field::Count(n)) => Some(*n),
        _ => None,
    }
}

fn totals(ran: &Ran) -> Vec<u64> {
    ran.outputs.iter().filter_map(|o| count_of(o, "total")).collect()
}

fn pass_all() -> AnyMap {
    AnyMap::of(FilterOperator::new("pass_all", |_: &Event| true))
}

fn fast_only() -> AnyMap {
    AnyMap::of(FilterOperator::new("fast_only", |e: &Event| speed(e) > 10.0))
}

#[test]
fn test_pipeline_basic() {
    let mut pipeline = TestPipeline::new("test");
    pipeline.add_operator(pass_all());

    let ran = run(&mut pipeline, vec![now("v1"), now_at("v2", 1.0, 1.0)]);
    assert_eq!(pipeline.metrics().events_received(), 2);
    assert_eq!(pipeline.metrics().events_emitted(), 2);
    assert_eq!(ran.outputs[0].source_event.entity_id, "v1");
}

#[test]
fn test_pipeline_with_filter() {
    let mut pipeline = TestPipeline::new("filtered");
    pipeline.add_operator(fast_only());

    let ran = run(
        &mut pipeline,
        vec![
            now("v1").with_speed(num(20.0)),
            now("v2").with_speed(num(5.0)),
            now("v3").with_speed(num(30.0)),
        ],
    );
    assert_eq!(pipeline.metrics().events_received(), 3);
    assert_eq!(pipeline.metrics().events_emitted(), 2);
    assert_eq!(pipeline.metrics().events_filtered(), 1);
    assert_eq!(ran.outputs[0].source_event.entity_id, "v1");
    assert_eq!(ran.outputs[1].source_event.entity_id, "v3");
}

#[test]
fn test_pipeline_filter_then_stateful() {
    let mut pipeline = TestPipeline::new("mixed");
    pipeline.add_operator(fast_only());
    pipeline.add_stage(counter());

    let events = [20.0, 5.0, 30.0]
        .iter()
        .map(|s| now("v1").with_speed(num(*s)))
        .collect();
    let ran = run(&mut pipeline, events);
    assert_eq!(pipeline.metrics().events_received(), 3);
    assert_eq!(pipeline.metrics().events_filtered(), 1);
    // 2 filter passes + 2 counter outputs + 1 close summary
    assert_eq!(pipeline.metrics().events_emitted(), 5);

    let counted: Vec<_> = ran.outputs.iter().filter(|o| o.operator == "counter").collect();
    assert_eq!(counted.len(), 3);
    assert_eq!(count_of(counted[2], "total"), Some(2));
}

#[test]
fn test_stateful_stage_does_not_drop_events() {
    let mut pipeline = TestPipeline::new("rate_limited");
    pipeline.add_stage(Stage::Stateful(AnyStateful::Limiter(RateLimiter::new("limit", 1))));
    pipeline.add_stage(counter());

    let ran = run(&mut pipeline, vec![now("v1"), now_at("v1", 1.0, 1.0)]);
    assert_eq!(pipeline.metrics().events_filtered(), 0);

    // the rate limiter swallowed its own second output, the downstream stage
    // still saw both events
    let counted = ran.outputs.iter().filter(|o| count_of(o, "seen").is_some()).count();
    assert_eq!(counted, 2);
}

/// A pipeline with no stages consumes its input and emits nothing.
#[test]
fn test_empty_pipeline_emits_nothing() {
    let mut pipeline = TestPipeline::new("empty");
    assert_eq!(pipeline.name(), "empty");

    let ran = run(&mut pipeline, vec![now("v1")]);
    assert_eq!(pipeline.metrics().events_received(), 1);
    assert_eq!(pipeline.metrics().events_emitted(), 0);
    assert!(ran.outputs.is_empty());
}

/// A filter placed after a stateful stage no longer shields it: stage order is
/// what decides which events reach the operator.
#[test]
fn test_stage_order_decides_what_the_operator_sees() {
    let mut pipeline = TestPipeline::new("filter_last");
    pipeline.add_stage(counter());
    pipeline.add_operator(fast_only());

    let events = [20.0, 5.0]
        .iter()
        .map(|s| now("v1").with_speed(num(*s)))
        .collect();
    let ran = run(&mut pipeline, events);
    assert_eq!(totals(&ran), vec![2], "the counter saw the slow event");
}

/// Stateful stages are flushed in order when the stream ends.
#[test]
fn test_close_flushes_every_stateful_stage() {
    let mut pipeline = TestPipeline::new("two_counters");
    pipeline.add_stage(counter());
    pipeline.add_stage(counter());

    let ran = run(&mut pipeline, vec![now("v1")]);
    assert_eq!(totals(&ran).len(), 2);
}

/// If the sink goes away the run stops instead of blocking forever.
#[test]
fn test_run_stops_when_the_sink_is_dropped() {
    let mut pipeline = TestPipeline::new("dead_sink");
    pipeline.add_operator(pass_all());

    let events = vec![now("v1"), now("v1"), now("v1")];
    drive(&mut pipeline, events, 0, &[], &mut |_, _| 0);
    assert_eq!(pipeline.metrics().events_emitted(), 0);
    assert_eq!(pipeline.metrics().events_received(), 1, "gave up on the first send");
}

/// A stateless stage hands the event it emitted to the next stage, so a
/// transform is visible downstream.
#[test]
fn test_map_stage_feeds_its_output_downstream() {
    let mut pipeline = TestPipeline::new("transform_then_filter");
    pipeline.add_operator(AnyMap::of(TransformOperator::new("boost", |e: &Event| {
        let mut cloned = e.clone();
        cloned.speed = Some(num(speed(&cloned) + 100.0));
        cloned
    })));
    pipeline.add_operator(AnyMap::of(FilterOperator::new("fast_only", |e: &Event| {
        speed(e) > 50.0
    })));

    let ran = run(&mut pipeline, vec![now("v1").with_speed(num(1.0))]);
    assert_eq!(
        pipeline.metrics().events_filtered(),
        0,
        "the boost got it past the filter"
    );
    assert_eq!(pipeline.metrics().events_emitted(), 2);
    assert_eq!(ran.outputs[0].source_event.speed, Some(num(101.0)));
}

#[test]
fn tumbling_window_flushes_stateful_when_it_closes() {
    let mut pipeline = TestPipeline::new("windows");
    pipeline.add_stage(counter());
    pipeline.set_window(Span::seconds(0));

    // windows of ten seconds, each of which closes once
    let closed = Cell::new(i64::MIN);
    let ran = drive(
        &mut pipeline,
        vec![at("v1", 1000), at("v1", 1011)],
        usize::MAX,
        &[],
        &mut |time, assigned| {
            let mut ends: Vec<i64> = assigned
                .iter()
                .map(|e| (e.timestamp.secs() / 10 + 1) * 10)
                .filter(|end| *end <= time.secs() && *end > closed.get())
                .collect();
            ends.dedup();
            closed.set(ends.iter().copied().max().unwrap_or(closed.get()));
            ends.len()
        },
    );
    // first window closes on the second event; end of stream flushes the next
    assert_eq!(totals(&ran), vec![1, 1]);
    assert_eq!(ran.assigned.len(), 2);
}

#[test]
fn count_window_flushes_stateful_when_it_fills() {
    let mut pipeline = TestPipeline::new("count-windows");
    pipeline.add_stage(counter());
    pipeline.set_window(Span::seconds(0));

    // windows of three events
    let closed = Cell::new(0);
    let ran = drive(
        &mut pipeline,
        (0..4).map(|i| at("v1", 1000 + i)).collect(),
        usize::MAX,
        &[],
        &mut |_, assigned| {
            let full = assigned.len() / 3 - closed.get();
            closed.set(closed.get() + full);
            full
        },
    );
    // first count window closes on the 4th event; end of stream flushes the rest
    assert_eq!(totals(&ran), vec![3, 1]);
}

/// A run long enough to cross the interval writes a checkpoint while it is still
/// reading, not only when the stream ends.
#[test]
fn checkpoints_are_written_on_the_interval_as_well_as_at_the_end() {
    let mut pipeline = TestPipeline::new("ticking");
    pipeline.add_stage(counter());
    pipeline.set_checkpoints(50_000_000).unwrap();
    assert_eq!(pipeline.checkpoint_interval(), Some(50_000_000));

    let events = vec![now("v1"), now("v1"), now("v1")];
    let ran = drive(&mut pipeline, events, usize::MAX, &[1, 2], &mut |_, _| 0);
    let written: Vec<&str> = ran.checkpoints.iter().map(|c| c[0].1.as_str()).collect();
    // one per interval plus the closing one, which comes before the closing flush
    assert_eq!(written, vec!["1", "2", "3"]);
    assert_eq!(totals(&ran), vec![3]);
}

#[test]
fn test_checkpointing_rejects_two_stateful_stages_sharing_a_name() {
    let mut pipeline = TestPipeline::new("clashing");
    pipeline.add_stage(counter());
    pipeline.add_stage(counter());

    let err = pipeline.set_checkpoints(60_000_000_000).err().unwrap();
    assert!(err.contains("counter"), "{err}");
    assert_eq!(
        err,
        "checkpointing keys state by stage name and two stages are named \"counter\""
    );
    assert_eq!(pipeline.checkpoint_interval(), None);
}

/// The whole round trip through a checkpoint: one pipeline writes, a fresh one restores and
/// carries on from the count it inherited.
#[test]
fn a_fresh_pipeline_restores_the_stage_state_of_an_earlier_run() {
    let mut first = TestPipeline::new("first");
    first.add_stage(counter());
    first.set_checkpoints(3_600_000_000_000).unwrap();
    let ran = run(&mut first, vec![now("v1"), now("v1")]);

    let mut store: Keyed<String> = Keyed::new();
    for (name, state) in &ran.checkpoints[0] {
        store.put(name, state.clone());
    }

    let mut second = TestPipeline::new("second");
    second.add_stage(counter());
    assert!(second.restore_from(&store).is_none());
    let ran = run(&mut second, vec![now("v1")]);
    assert_eq!(
        count_of(&ran.outputs[0], "seen"),
        Some(3),
        "the counter carried on from two"
    );
}

#[test]
fn late_events_past_the_watermark_are_dropped() {
    let mut pipeline = TestPipeline::new("late");
    pipeline.add_operator(pass_all());
    pipeline.set_window(Span::seconds(2));

    run(&mut pipeline, vec![at("v1", 100), at("v2", 90)]);
    assert_eq!(pipeline.metrics().events_late(), 1);
    assert_eq!(pipeline.metrics().events_received(), 2);
    assert_eq!(pipeline.metrics().events_emitted(), 1);
}

#[test]
fn every_event_is_late_or_processed() {
    let mut pipeline = TestPipeline::new("accounts");
    pipeline.add_operator(fast_only());
    pipeline.add_stage(counter());
    pipeline.set_window_lateness_secs(5);

    let events = vec![
        at("a", 100).with_speed(num(20.0)),
        at("b", 90).with_speed(num(20.0)),
        at("c", 101).with_speed(num(1.0)),
        at("d", 97).with_speed(num(20.0)),
    ];
    run(&mut pipeline, events);
    let m = pipeline.metrics();
    assert_eq!(m.events_received(), m.events_late() + m.processing_count());
    assert_eq!((m.events_late(), m.events_filtered()), (1, 1));
    // two stages of 1500 ns for a and d, one for c
    assert_eq!(m.processing_time_us(), 3 + 1 + 3);
}

/// A run that ends because its sink went writes its closing checkpoint, and a later run of
/// the same pipeline goes on writing them.
#[test]
fn a_sink_that_goes_still_ends_the_run_with_one_checkpoint() {
    let mut pipeline = TestPipeline::new("gone");
    pipeline.add_stage(counter());
    pipeline.set_checkpoints(50_000_000).unwrap();
    let ran = drive(&mut pipeline, vec![now("v1"), now("v1")], 0, &[], &mut |_, _| 0);
    assert_eq!(ran.checkpoints, vec![vec![("counter".to_string(), "1".to_string())]]);
    assert_eq!(pipeline.checkpoint_interval(), Some(50_000_000));

    let again = run(&mut pipeline, vec![now("v1")]);
    assert_eq!(again.checkpoints, vec![vec![("counter".to_string(), "2".to_string())]]);

    // one that goes during the closing flush has written it already
    let mut pipeline = TestPipeline::new("late_gone");
    pipeline.add_stage(counter());
    pipeline.set_checkpoints(50_000_000).unwrap();
    let ran = drive(&mut pipeline, vec![now("v1")], 1, &[], &mut |_, _| 0);
    assert_eq!(ran.checkpoints.len(), 1);
    assert_eq!(pipeline.checkpoint_interval(), Some(50_000_000));
}

#[test]
fn a_run_without_checkpoints_writes_none_when_its_sink_goes() {
    let mut pipeline = TestPipeline::new("bare_gone");
    pipeline.add_stage(counter());
    let ran = drive(&mut pipeline, vec![now("v1")], 0, &[], &mut |_, _| 0);
    assert!(ran.checkpoints.is_empty());
}

/// Those received that were neither late nor filtered went past every stage.
#[test]
fn the_counters_of_a_run_are_exact() {
    let mut pipeline = TestPipeline::new("exact");
    pipeline.add_stage(counter());
    pipeline.add_operator(fast_only());
    pipeline.set_window_lateness_secs(5);
    assert!(pipeline.is_windowed());

    let events = vec![
        at("a", 100).with_speed(num(20.0)),
        at("b", 90).with_speed(num(20.0)),
        at("c", 101).with_speed(num(1.0)),
        at("d", 97).with_speed(num(20.0)),
    ];
    let ran = run(&mut pipeline, events);
    let m = pipeline.metrics();
    assert_eq!(m.events_received(), 4);
    assert_eq!(m.events_emitted(), ran.outputs.len() as u64);
    let past = ran.outputs.iter().filter(|o| o.operator == "fast_only").count() as u64;
    assert_eq!(m.events_received() - m.events_late() - m.events_filtered(), past);
    assert_eq!(past, 2);
}

#[test]
fn a_windowed_checkpoint_holds_the_windows() {
    let mut pipeline = TestPipeline::new("windowed");
    pipeline.add_stage(counter());
    pipeline.set_window(Span::seconds(0));
    pipeline.set_checkpoints(50_000_000).unwrap();
    let ran = run(&mut pipeline, vec![at("v1", 10)]);
    assert_eq!(
        ran.checkpoints,
        vec![vec![
            ("counter".to_string(), "1".to_string()),
            ("pipeline.windows".to_string(), "1".to_string()),
        ]]
    );
}

#[test]
fn a_tick_without_checkpoints_changes_nothing() {
    let mut pipeline = TestPipeline::new("untimed");
    pipeline.begin();
    pipeline.ticked();
    assert!(matches!(pipeline.action(), Action::Receive));
}

#[test]
fn the_windows_are_checkpointed_under_their_own_key() {
    let mut pipeline = TestPipeline::new("keyed");
    pipeline.add_operator(pass_all());
    pipeline.add_stage(counter());
    pipeline.set_window(Span::seconds(0));
    let entries = pipeline.checkpoint(Some("open".to_string()));
    assert_eq!(window_state_key(), "pipeline.windows");
    assert_eq!(
        entries,
        vec![
            ("counter".to_string(), "0".to_string()),
            ("pipeline.windows".to_string(), "open".to_string())
        ]
    );

    let mut store: Keyed<String> = Keyed::new();
    store.put("pipeline.windows", "open".to_string());
    assert_eq!(pipeline.restore_from(&store), Some("open".to_string()));
}

#[test]
fn an_event_too_early_for_the_watermark_cannot_be_received() {
    let mut pipeline = TestPipeline::new("edge");
    pipeline.set_window(Span::seconds(9_223_372_036_854_775));
    assert!(!pipeline.can_receive(&at("v1", 0)));
    assert!(pipeline.can_receive(&at("v1", -1)), "a late event is only counted");
}

#[test]
fn an_outcome_takes_effect_once_its_time_is_known() {
    let mut pipeline = TestPipeline::new("outcomes");
    pipeline.add_operator(fast_only());
    pipeline.add_operator(pass_all());
    pipeline.begin();
    pipeline.received(now("slow"));
    pipeline.apply();
    assert!(matches!(pipeline.action(), Action::ApplyStage));
    pipeline.applied(2_000);
    assert!(matches!(pipeline.action(), Action::Receive));
    assert_eq!(pipeline.metrics().events_filtered(), 1);
    assert_eq!(pipeline.metrics().processing_time_us(), 2);
}

/// The watermark trails the newest event by the number of seconds given, up to the longest
/// span there is.
#[test]
fn the_lateness_is_the_number_of_seconds_given() {
    let mut pipeline = TestPipeline::new("lateness");
    pipeline.set_window_lateness_secs(10);
    run(&mut pipeline, vec![at("a", 100), at("b", 90), at("c", 89)]);
    assert_eq!(pipeline.metrics().events_late(), 1);

    let mut longest = TestPipeline::new("longest");
    longest.set_window_lateness_secs(9_223_372_036_854_775);
    assert!(!longest.can_receive(&at("a", 100)));
}

/// A pipeline with the same stage names takes up every stage of another's checkpoint, and
/// hands out its windows.
#[test]
fn a_pipeline_resumes_every_stage_from_the_checkpoint_of_another() {
    let build = || {
        let mut pipeline = TestPipeline::new("resumable");
        pipeline.add_stage(counter());
        pipeline.add_operator(pass_all());
        pipeline.add_stage(Stage::Stateful(AnyStateful::Limiter(RateLimiter::new("limit", 2))));
        pipeline.set_window(Span::seconds(0));
        pipeline
    };
    let mut first = build();
    first.set_checkpoints(50_000_000).unwrap();
    let ran = run(&mut first, vec![at("v1", 10), at("v1", 11)]);

    let mut store: Keyed<String> = Keyed::new();
    for (name, state) in &ran.checkpoints[0] {
        store.put(name, state.clone());
    }
    let mut second = build();
    assert_eq!(second.restore_from(&store), Some("2".to_string()));
    let ran = run(&mut second, vec![at("v1", 12)]);
    assert_eq!(count_of(&ran.outputs[0], "seen"), Some(3));
    let limited = ran.outputs.iter().filter(|o| o.operator == "limit").count();
    assert_eq!(limited, 0, "the allowance was spent before");
}
