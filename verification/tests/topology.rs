//! What a topology is run as.

use fluvius::cep::CepEngine;
use fluvius::cli::{
    bounds_ring, bounds_texts, min_speed_condition, run_request, RunRequest,
};
use fluvius::condition::EventCondition;
use fluvius::event::{Event, Field};
use fluvius::keyed::Keyed;
use fluvius::mqtt::MqttQos;
use fluvius::number::Number;
use fluvius::time::Timestamp;
use fluvius::topology::{
    default_interval_secs, default_max_buffer, default_max_retained, default_speed, metrics_bind,
    CheckpointConfig, MetricsConfig, OperatorConfig, PatternConfig, PatternStepConfig,
    PipelineConfig, ReplayConfig, RoadConfig, SinkConfig, SourceConfig, TopologyConfig,
    WatermarkConfig, WindowConfig, ZoneConfig,
};
use fluvius::topology_run::{
    build_stage, metrics_endpoint, metrics_failure, mqtt_config, parse_aggregate, plan_topology,
    reject_unsupported_sections, remote_feed_url, replay_speed, resolve_sink, resolve_source,
    serve_config, stage_thresholds, ws_bind, AggregateFunction, Features, InputPlan, ReplaySpeed,
    SinkPlan, SourcePlan, StagePlan, StageReading, TopologyReading,
};

fn num(x: f64) -> Number {
    Number::from_bits(x.to_bits())
}

const NO_FEATURES: Features = Features { kafka: false, mqtt: false, tls: false };
const ALL_FEATURES: Features = Features { kafka: true, mqtt: true, tls: true };

/// What a runner reads and renders for a stage.
fn reading(config: &OperatorConfig) -> StageReading {
    let thresholds = stage_thresholds(config)
        .into_iter()
        .map(|text| text.and_then(|t| t.parse::<f64>().ok()).map(num))
        .collect();
    let rate = match config {
        OperatorConfig::RateLimit { max_per_second, .. } => {
            f64::from_bits(max_per_second.bits).to_string()
        }
        _ => String::new(),
    };
    StageReading { thresholds, rate }
}

fn build(config: &OperatorConfig) -> Result<StagePlan<'_>, String> {
    build_stage(config, &reading(config))
}

fn now(entity: &str) -> Event {
    let at = Timestamp::from_timestamp(1_700_000_000, 0).unwrap();
    Event::new("e", entity, num(0.0), num(0.0), at)
}

fn filter(condition: &str) -> OperatorConfig {
    OperatorConfig::Filter { name: "moving".into(), condition: condition.into() }
}

#[test]
fn test_build_filter_operator() {
    let op = filter("speed > 5.0");
    let Ok(plan) = build(&op) else {
        panic!("expected a filter");
    };
    assert!(!plan.is_stateful());
}

#[test]
fn test_build_spatial_operators() {
    let stages = [
        OperatorConfig::Geofence {
            name: "depot".into(),
            zones: vec![ZoneConfig {
                name: "depot".into(),
                center: (num(10.0), num(20.0)),
                radius: num(0.01),
            }],
        },
        OperatorConfig::Proximity { name: "near".into(), radius_m: num(100.0) },
        OperatorConfig::Trajectory {
            name: "tracks".into(),
            max_speed_mps: num(50.0),
            max_buffer: 100,
        },
        OperatorConfig::SpatialAgg {
            name: "density".into(),
            cell_size_deg: num(0.1),
            function: "count".into(),
            threshold: 10,
        },
    ];
    for cfg in &stages {
        assert!(
            matches!(build(cfg), Ok(plan) if plan.is_stateful()),
            "{cfg:?} should build a stateful stage"
        );
    }
}

fn cep(steps: Vec<(&str, &str)>) -> OperatorConfig {
    OperatorConfig::Cep {
        name: "stop-start".into(),
        pattern: PatternConfig {
            name: "stop_then_move".into(),
            within_secs: 60,
            steps: steps
                .into_iter()
                .map(|(name, condition)| PatternStepConfig {
                    name: name.into(),
                    condition: condition.into(),
                    near: None,
                })
                .collect(),
        },
    }
}

#[test]
fn test_build_cep_stage() {
    let cfg = cep(vec![("stop", "speed < 1.0"), ("move", "speed > 5.0")]);
    let Ok(StagePlan::Cep { pattern }) = build(&cfg) else {
        panic!("expected a stateful cep stage");
    };
    let mut engine = CepEngine::new();
    engine.add_pattern(pattern);

    let distances = vec![vec![num(0.0), num(0.0)]];
    assert!(engine.process(&now("v1").with_speed(num(0.0)), &distances).is_empty());
    let matches = engine.process(&now("v1").with_speed(num(10.0)), &distances);
    assert_eq!(matches.len(), 1);
    assert!(matches!(
        matches[0].payload.get("pattern"),
        Some(Field::Text(t)) if t == "stop_then_move"
    ));
}

fn rate_limit(rate: f64) -> OperatorConfig {
    OperatorConfig::RateLimit { name: "cap".into(), max_per_second: num(rate) }
}

#[test]
fn test_build_rate_limit_stage() {
    let cfg = rate_limit(10.0);
    assert!(matches!(build(&cfg), Ok(plan) if !plan.is_stateful()));
}

/// A rate that cannot throttle anything is a config mistake, not a pass-through.
#[test]
fn test_build_rejects_a_rate_limit_without_a_usable_rate() {
    for rate in [0.0, -1.0, f64::INFINITY, f64::NAN] {
        let err = build(&rate_limit(rate)).err().unwrap();
        assert!(err.contains("max_per_second"), "{rate}: {err}");
    }
    assert_eq!(
        build(&rate_limit(-1.5)).err().unwrap(),
        "rate_limit \"cap\" needs a finite max_per_second above zero, got -1.5"
    );
}

#[test]
fn test_build_rejects_bad_configs() {
    let bad_agg = OperatorConfig::SpatialAgg {
        name: "density".into(),
        cell_size_deg: num(0.1),
        function: "median".into(),
        threshold: 10,
    };
    assert!(build(&bad_agg).err().unwrap().contains("median"));
}

#[test]
fn test_build_rejects_a_cep_pattern_with_a_bad_condition() {
    let cfg = cep(vec![("step", "altitude > 100")]);
    assert!(build(&cfg).err().unwrap().contains("altitude"));
}

#[test]
fn the_first_bad_condition_of_a_pattern_is_reported() {
    let cfg = cep(vec![("a", "speed > 1"), ("b", "speed > x"), ("c", "nope")]);
    assert_eq!(
        build(&cfg).err().unwrap(),
        "invalid speed value in condition: \"speed > x\""
    );
}

#[test]
fn a_road_needs_two_points() {
    let road = |id: &str, n: usize| RoadConfig {
        id: id.into(),
        name: "r".into(),
        geometry: vec![(num(0.0), num(0.0)); n],
    };
    let roads = |roads| OperatorConfig::MapMatch {
        name: "snap".into(),
        max_distance_m: num(50.0),
        roads,
    };
    assert!(matches!(build(&roads(vec![road("a", 2)])), Ok(plan) if !plan.is_stateful()));
    assert_eq!(
        build(&roads(vec![road("a", 2), road("b", 1), road("c", 0)])).err().unwrap(),
        "map_match \"snap\" road b needs at least two points"
    );
}

#[test]
fn test_parse_aggregate_is_case_insensitive() {
    for name in ["count", "COUNT", "Sum", "mean", "MAX", "min"] {
        assert!(parse_aggregate(name).is_ok(), "{name}");
    }
    assert!(parse_aggregate("").is_err());
}

#[test]
fn an_unknown_aggregate_is_quoted_in_small_letters() {
    assert_eq!(parse_aggregate("mEAN").unwrap(), AggregateFunction::Mean);
    assert!(parse_aggregate("ZÄHLEN").unwrap_err().contains("zÄhlen"));
    assert_eq!(
        parse_aggregate("MEDIAN").err().unwrap(),
        "unsupported spatial_agg function: \"median\""
    );
}

fn bare() -> PipelineConfig {
    PipelineConfig {
        name: "p".into(),
        operators: vec![],
        source: None,
        sink: None,
        window: None,
        watermark: None,
        metrics: None,
        checkpoint: None,
        replay: None,
    }
}

fn with_checkpoint() -> PipelineConfig {
    PipelineConfig {
        checkpoint: Some(CheckpointConfig {
            dir: "/tmp/cp".into(),
            interval_secs: default_interval_secs(),
            max_retained: default_max_retained(),
        }),
        ..bare()
    }
}

#[test]
fn test_reject_unsupported_sections() {
    let err = reject_unsupported_sections(&with_checkpoint()).err().unwrap();
    assert!(
        err.contains("[pipeline.checkpoint]") && err.contains("not supported"),
        "{err}"
    );

    assert!(reject_unsupported_sections(&bare()).is_ok());
}

/// A metrics section turned off explicitly binds nothing.
#[test]
fn test_a_disabled_metrics_section_serves_nothing() {
    let disabled = MetricsConfig { enabled: false, ..MetricsConfig::default() };
    assert!(metrics_endpoint(&Some(disabled)).is_none());
    assert!(metrics_endpoint(&None).is_none());
    assert_eq!(
        metrics_endpoint(&Some(MetricsConfig::default())),
        Some(("127.0.0.1:9090", "/metrics"))
    );
}

/// An address the endpoint cannot take stops the run rather than starting one
/// with no way to observe it.
#[test]
fn test_an_unbindable_metrics_address_fails_the_run() {
    let err = metrics_failure("203.0.113.1:9090", "/metrics", "in use");
    assert!(err.contains("[pipeline.metrics]"), "{err}");
    assert_eq!(
        err,
        "cannot serve [pipeline.metrics] on 203.0.113.1:9090/metrics: in use"
    );
}

#[test]
fn test_replay_source_rejects_a_bad_speed() {
    for speed in [0.0, -2.0, f64::NAN, f64::NEG_INFINITY] {
        let cfg = ReplayConfig { file: "history.jsonl".into(), speed: num(speed) };
        let err = replay_speed(&cfg, &speed.to_string()).err().unwrap();
        assert!(err.contains("replay speed"), "{speed}: {err}");
    }
}

#[test]
fn a_replay_runs_at_its_speed() {
    let at = |speed: f64| {
        let cfg = ReplayConfig { file: "h".into(), speed: num(speed) };
        replay_speed(&cfg, &speed.to_string())
    };
    assert_eq!(at(f64::INFINITY).unwrap(), ReplaySpeed::MaxSpeed);
    assert_eq!(at(0.5).unwrap(), ReplaySpeed::Multiplied(num(0.5)));
    assert_eq!(
        at(-2.0).err().unwrap(),
        "replay speed must be positive or inf, got -2"
    );
    assert_eq!(default_speed(), num(1.0));
}

#[test]
fn test_ws_bind_strips_scheme_and_path() {
    assert_eq!(ws_bind("ws://localhost:8080/events"), "localhost:8080");
    assert_eq!(ws_bind("127.0.0.1:9001"), "127.0.0.1:9001");
}

#[test]
fn test_a_websocket_scheme_selects_a_remote_feed() {
    assert_eq!(
        remote_feed_url("ws://localhost:8080/events", false).unwrap(),
        Some("ws://localhost:8080/events")
    );
    assert_eq!(remote_feed_url("127.0.0.1:9001", false).unwrap(), None);
    assert_eq!(remote_feed_url("localhost:8080", false).unwrap(), None);
}

#[test]
fn test_a_secure_websocket_scheme_selects_a_remote_feed() {
    assert_eq!(
        remote_feed_url("wss://feed.example.com/events", true).unwrap(),
        Some("wss://feed.example.com/events")
    );
}

#[test]
fn test_a_secure_websocket_feed_requires_the_tls_feature() {
    let err = remote_feed_url("wss://feed.example.com/events", false)
        .err()
        .unwrap();
    assert!(err.contains("--features tls"), "{err}");
    assert_eq!(
        err,
        "topology source url \"wss://feed.example.com/events\" requires building with --features tls"
    );
}

/// serve strips the scheme off its binds, so a bind written as a url still binds
/// a listener instead of dialing itself.
#[test]
fn test_a_stripped_bind_is_never_a_remote_feed() {
    let bind = ws_bind("ws://127.0.0.1:9001/events");
    assert_eq!(remote_feed_url(&bind, false).unwrap(), None);
}

#[test]
fn a_bind_written_twice_over_is_still_no_feed() {
    assert_eq!(ws_bind("ws://wss://x/y"), "wss:");
    assert_eq!(ws_bind("wss://h:1"), "h:1");
    assert_eq!(ws_bind("/x"), "");
}

#[test]
fn test_kafka_source_requires_feature() {
    let cfg = SourceConfig::Kafka {
        brokers: vec!["localhost:9092".into()],
        topic: "t".into(),
        group_id: None,
    };
    assert!(resolve_source(&cfg, NO_FEATURES, &Keyed::new())
        .unwrap_err()
        .contains("--features kafka"));
}

/// A variable no test sets, so the runner has to report it missing.
const UNSET_PASSWORD_VARIABLE: &str = "FLUVIUS_TEST_MQTT_PASSWORD_NEVER_SET";

fn mqtt_source(username: Option<&str>, password_env: Option<&str>) -> SourceConfig {
    SourceConfig::Mqtt {
        broker_url: "mqtt://localhost:1883".into(),
        topic: "t".into(),
        username: username.map(String::from),
        password_env: password_env.map(String::from),
        qos: None,
        client_id: None,
    }
}

fn mqtt_sink(username: Option<&str>, password_env: Option<&str>) -> SinkConfig {
    SinkConfig::Mqtt {
        broker_url: "mqtt://localhost:1883".into(),
        topic: "t".into(),
        username: username.map(String::from),
        password_env: password_env.map(String::from),
        qos: None,
        client_id: None,
    }
}

#[test]
fn test_mqtt_source_requires_feature() {
    assert!(resolve_source(&mqtt_source(None, None), NO_FEATURES, &Keyed::new())
        .unwrap_err()
        .contains("--features mqtt"));
}

/// The password variable is read when the run starts, so an unset one stops the
/// pipeline before any event moves and says which variable to set.
#[test]
fn test_mqtt_source_fails_naming_an_unset_password_variable() {
    let cfg = mqtt_source(Some("sensor"), Some(UNSET_PASSWORD_VARIABLE));
    let err = resolve_source(&cfg, ALL_FEATURES, &Keyed::new()).err().unwrap();
    assert!(err.contains(UNSET_PASSWORD_VARIABLE), "{err}");
}

#[test]
fn test_mqtt_sink_fails_naming_an_unset_password_variable() {
    let cfg = mqtt_sink(Some("alerter"), Some(UNSET_PASSWORD_VARIABLE));
    let err = resolve_sink(&cfg, ALL_FEATURES, &Keyed::new()).err().unwrap();
    assert!(err.contains(UNSET_PASSWORD_VARIABLE), "{err}");
}

/// Half a credential cannot reach the broker, so it is a config mistake rather
/// than a silently dropped username.
#[test]
fn test_mqtt_rejects_half_a_credential() {
    let err = resolve_source(&mqtt_source(Some("sensor"), None), ALL_FEATURES, &Keyed::new())
        .err()
        .unwrap();
    assert!(err.contains("password_env"), "{err}");

    let cfg = mqtt_source(None, Some(UNSET_PASSWORD_VARIABLE));
    let err = resolve_source(&cfg, ALL_FEATURES, &Keyed::new()).err().unwrap();
    assert!(err.contains("username"), "{err}");
}

#[test]
fn test_mqtt_config_maps_qos_and_client_id() {
    let url = "mqtt://localhost:1883".to_string();
    let topic = "t".to_string();
    let config = mqtt_config(
        &url,
        &topic,
        &None,
        &None,
        &Some(2),
        &Some("id".to_string()),
        &Keyed::new(),
    )
    .expect("qos 2 is exactly once");
    assert!(matches!(config.qos, MqttQos::ExactlyOnce));
    assert_eq!(config.client_id, "id");

    let err = mqtt_config(&url, &topic, &None, &None, &Some(3), &None, &Keyed::new())
        .err()
        .unwrap();
    assert!(err.contains("qos"), "{err}");
    assert_eq!(err, "mqtt qos must be 0, 1 or 2, got 3");
}

#[test]
fn a_password_comes_from_the_environment() {
    let mut environment: Keyed<String> = Keyed::new();
    environment.put("PW", "secret".to_string());
    let cfg = mqtt_source(Some("sensor"), Some("PW"));
    let Ok(SourcePlan::Mqtt(config)) = resolve_source(&cfg, ALL_FEATURES, &environment) else {
        panic!("expected an mqtt source");
    };
    assert_eq!(config.username.as_deref(), Some("sensor"));
    assert_eq!(config.password.as_deref(), Some("secret"));
    assert_eq!(config.qos, MqttQos::AtLeastOnce);

    let cfg = mqtt_source(Some("s"), None);
    let half = resolve_source(&cfg, ALL_FEATURES, &environment);
    assert_eq!(
        half.err().unwrap(),
        "mqtt username \"s\" needs a password_env naming the variable that holds its password"
    );
    let cfg = mqtt_source(None, Some("PW"));
    let half = resolve_source(&cfg, ALL_FEATURES, &environment);
    assert_eq!(half.err().unwrap(), "mqtt password_env \"PW\" needs a username");
}

#[test]
fn test_kafka_sink_requires_feature() {
    let cfg = SinkConfig::Kafka { brokers: vec!["localhost:9092".into()], topic: "t".into() };
    assert!(resolve_sink(&cfg, NO_FEATURES, &Keyed::new())
        .err()
        .unwrap()
        .contains("--features kafka"));
}

#[test]
fn test_mqtt_sink_requires_feature() {
    assert!(resolve_sink(&mqtt_sink(None, None), NO_FEATURES, &Keyed::new())
        .err()
        .unwrap()
        .contains("--features mqtt"));
}

#[test]
fn a_broker_sink_is_validated_up_front() {
    let cfg = SinkConfig::Kafka { brokers: vec![], topic: "t".into() };
    assert_eq!(
        resolve_sink(&cfg, ALL_FEATURES, &Keyed::new()).err().unwrap(),
        "Kafka config error: at least one broker is required"
    );
    // a source reports the same only once it starts
    let cfg = SourceConfig::Kafka {
        brokers: vec![],
        topic: "t".into(),
        group_id: Some("g".into()),
    };
    let Ok(SourcePlan::Kafka(kafka)) = resolve_source(&cfg, ALL_FEATURES, &Keyed::new()) else {
        panic!("expected a kafka source");
    };
    assert_eq!(kafka.group_id.as_deref(), Some("g"));
}

#[test]
fn files_and_websockets_need_no_feature() {
    let file = SourceConfig::File { path: "in.jsonl".into() };
    assert!(matches!(
        resolve_source(&file, NO_FEATURES, &Keyed::new()),
        Ok(SourcePlan::File("in.jsonl"))
    ));
    let feed = SourceConfig::WebSocket { url: "ws://h/e".into() };
    assert!(matches!(
        resolve_source(&feed, NO_FEATURES, &Keyed::new()),
        Ok(SourcePlan::Feed("ws://h/e"))
    ));
    let listen = SourceConfig::WebSocket { url: "h:1/x".into() };
    assert!(matches!(
        resolve_source(&listen, NO_FEATURES, &Keyed::new()),
        Ok(SourcePlan::Listen(bind)) if bind == "h:1"
    ));
    let sink = SinkConfig::WebSocket { url: "wss://h:2/y".into() };
    assert!(matches!(
        resolve_sink(&sink, NO_FEATURES, &Keyed::new()),
        Ok(SinkPlan::Listen(bind)) if bind == "h:2"
    ));
    assert!(matches!(
        resolve_sink(&SinkConfig::Stdout, NO_FEATURES, &Keyed::new()),
        Ok(SinkPlan::Stdout)
    ));
}

fn topology_reading(config: &PipelineConfig) -> TopologyReading {
    TopologyReading {
        stages: config.operators.iter().map(reading).collect(),
        replay_speed: "-1".into(),
        environment: Keyed::new(),
    }
}

fn refusal(config: &PipelineConfig) -> String {
    let reading = topology_reading(config);
    plan_topology(config, NO_FEATURES, &reading).err().unwrap()
}

#[test]
fn topology_missing_a_source_is_rejected() {
    let config = PipelineConfig { sink: Some(SinkConfig::Stdout), ..bare() };
    assert_eq!(refusal(&config), "topology has no [pipeline.source]");
}

#[test]
fn topology_missing_a_sink_is_rejected() {
    let config = PipelineConfig {
        source: Some(SourceConfig::File { path: "in".into() }),
        ..bare()
    };
    assert_eq!(refusal(&config), "topology has no [pipeline.sink]");
}

#[test]
fn topology_rejects_configured_checkpointing() {
    assert!(refusal(&with_checkpoint()).starts_with("[pipeline.checkpoint]"));
}

#[test]
fn what_is_wrong_first_is_what_is_reported() {
    let mut config = PipelineConfig {
        operators: vec![filter("speed > 1"), filter("oops"), filter("nope")],
        sink: Some(SinkConfig::Kafka { brokers: vec![], topic: "t".into() }),
        replay: Some(ReplayConfig { file: "h".into(), speed: num(-1.0) }),
        ..bare()
    };
    assert_eq!(refusal(&config), "unsupported filter condition: \"oops\"");
    config.operators.clear();
    assert_eq!(refusal(&config), "replay speed must be positive or inf, got -1");
    config.replay = None;
    config.source = Some(SourceConfig::File { path: "in".into() });
    assert!(refusal(&config).contains("--features kafka"));
}

#[test]
fn a_sound_topology_is_planned() {
    let config = PipelineConfig {
        operators: vec![
            filter("speed > 1"),
            OperatorConfig::Trajectory {
                name: "tracks".into(),
                max_speed_mps: num(50.0),
                max_buffer: default_max_buffer(),
            },
        ],
        source: Some(SourceConfig::File { path: "in".into() }),
        sink: Some(SinkConfig::File { path: "out".into() }),
        window: Some(WindowConfig::Tumbling { duration_secs: 10 }),
        watermark: Some(WatermarkConfig { max_lateness_secs: 2 }),
        metrics: Some(MetricsConfig::default()),
        replay: Some(ReplayConfig { file: "h".into(), speed: num(10.0) }),
        ..bare()
    };
    let reading = topology_reading(&config);
    let plan = plan_topology(&config, NO_FEATURES, &reading).ok().unwrap();
    assert_eq!(plan.stages.len(), 2);
    assert!(matches!(
        plan.stages[1],
        StagePlan::Trajectory { name: "tracks", max_buffer: 1000, .. }
    ));
    assert_eq!(plan.lateness_secs, Some(2));
    // a replay takes the place of the source
    assert!(matches!(
        plan.input,
        InputPlan::Replay { file: "h", speed: ReplaySpeed::Multiplied(s) } if s == num(10.0)
    ));
    assert!(matches!(plan.sink, SinkPlan::File("out")));
    assert_eq!(plan.metrics, Some(("127.0.0.1:9090", "/metrics")));
}

#[test]
fn lateness_needs_a_window() {
    let mut config = PipelineConfig {
        source: Some(SourceConfig::File { path: "in".into() }),
        sink: Some(SinkConfig::Stdout),
        watermark: Some(WatermarkConfig { max_lateness_secs: 2 }),
        ..bare()
    };
    let reading = topology_reading(&config);
    let plan = plan_topology(&config, NO_FEATURES, &reading).ok().unwrap();
    assert_eq!(plan.lateness_secs, None);
    config.watermark = None;
    config.window = Some(WindowConfig::Count { count: 3 });
    let plan = plan_topology(&config, NO_FEATURES, &reading).ok().unwrap();
    assert_eq!(plan.lateness_secs, Some(0));
}

#[test]
fn serving_replaces_source_and_sink() {
    let config = TopologyConfig {
        pipeline: PipelineConfig {
            operators: vec![filter("speed > 1")],
            source: Some(SourceConfig::File { path: "in".into() }),
            ..bare()
        },
    };
    let served = serve_config(config, "ws://127.0.0.1:9001/events", "127.0.0.1:9002");
    assert!(matches!(
        &served.pipeline.source,
        Some(SourceConfig::WebSocket { url }) if url == "127.0.0.1:9001"
    ));
    assert!(matches!(
        &served.pipeline.sink,
        Some(SinkConfig::WebSocket { url }) if url == "127.0.0.1:9002"
    ));
    assert_eq!(served.pipeline.operators.len(), 1);
    let source = served.pipeline.source.unwrap();
    assert!(matches!(
        resolve_source(&source, NO_FEATURES, &Keyed::new()),
        Ok(SourcePlan::Listen(bind)) if bind == "127.0.0.1:9001"
    ));
}

#[test]
fn a_run_needs_a_topology_or_two_files() {
    assert_eq!(run_request(true, false, false), RunRequest::Topology);
    assert_eq!(run_request(true, true, true), RunRequest::Topology);
    assert_eq!(run_request(false, true, true), RunRequest::File);
    assert_eq!(run_request(false, true, false), RunRequest::Incomplete);
    assert_eq!(run_request(false, false, true), RunRequest::Incomplete);
}

#[test]
fn a_minimum_speed_is_inclusive() {
    let condition = min_speed_condition(num(5.0));
    assert!(condition.matches(&now("v").with_speed(num(5.0))));
    assert!(!condition.matches(&now("v").with_speed(num(4.9))));
    assert!(!condition.matches(&now("v")));
}

fn ring_of(bounds: &str) -> Result<Vec<(Number, Number)>, String> {
    let read = bounds_texts(bounds)
        .iter()
        .map(|t| t.parse::<f64>().ok().map(num))
        .collect();
    bounds_ring(&read)
}

#[test]
fn bounds_make_a_closed_ring() {
    let p = |x: f64, y: f64| (num(x), num(y));
    let ring = vec![p(1.0, 2.0), p(3.0, 2.0), p(3.0, 4.0), p(1.0, 4.0), p(1.0, 2.0)];
    assert_eq!(ring_of("1, 2 ,3,4").unwrap(), ring);
    assert_eq!(ring_of("1,,x,2,3,4").unwrap(), ring);
    for bounds in ["1,2,3", "", "1,2,3,4,5", "1;2;3;4"] {
        assert_eq!(
            ring_of(bounds).err().unwrap(),
            "Bounds must be: min_lon,min_lat,max_lon,max_lat"
        );
    }
}

#[test]
fn an_aggregate_takes_the_speed_unless_it_counts() {
    for (function, field) in [
        ("count", None),
        ("Sum", Some("speed")),
        ("mean", Some("speed")),
        ("MAX", Some("speed")),
        ("min", Some("speed")),
    ] {
        let config = OperatorConfig::SpatialAgg {
            name: "density".into(),
            cell_size_deg: num(0.1),
            function: function.into(),
            threshold: 2,
        };
        match build(&config) {
            Ok(StagePlan::SpatialAgg { field: taken, threshold, .. }) => {
                assert_eq!(taken, field, "{function}");
                assert_eq!(threshold, 2);
            }
            _ => panic!("expected a spatial_agg stage"),
        }
    }
}

#[test]
fn a_metrics_section_with_a_port_alone_is_served_there() {
    assert_eq!(metrics_bind(9090), MetricsConfig::default().bind);
    assert_eq!(metrics_bind(8080), "127.0.0.1:8080");
    let config = MetricsConfig { port: 0, bind: metrics_bind(0), ..MetricsConfig::default() };
    assert_eq!(metrics_endpoint(&Some(config)), Some(("127.0.0.1:0", "/metrics")));
}
