//! What it takes to run a pipeline declared in a topology: which stages it has, where its
//! events come from and where its outputs go. Kafka, MQTT and secure websockets are
//! features of a build; a topology that needs one that was left out fails with a clear
//! error.

use crate::cep::{Pattern, PatternStep};
use crate::condition::{
    compile_condition, compiled, quoting, threshold_of, threshold_text, Condition, ConditionView,
    EventCondition,
};
use crate::event::EventView;
use crate::kafka::{optional_text, KafkaConfig, KafkaConfigView, KafkaErrorView};
use crate::keyed::Keyed;
use crate::mqtt::{address_of, MqttConfig, MqttConfigView, MqttErrorView, MqttQos};
use crate::number::{number_zero, zero, Number};
use crate::text::{
    after, debug_text, decimal, find_char, has_prefix, is_blank_text,
    law_a_prefix_and_its_rest_make_up_the_text, lemma_find_bounds, length, lowercase, lowered,
    numeral, part, position, same, starts_with, strip_prefix, texts,
};
use crate::topology::{
    MetricsConfig, OperatorConfig, PatternConfig, PipelineConfig, ReplayConfig, RoadConfig,
    SinkConfig, SourceConfig, TopologyConfig, ZoneConfig,
};
use vstd::prelude::*;

verus! {

/// The features a build has.
#[derive(Clone, Copy, PartialEq, Eq, Structural, Debug)]
pub struct Features {
    pub kafka: bool,
    pub mqtt: bool,
    pub tls: bool,
}

/// Strip the scheme and any path from a websocket url.
pub open spec fn bind_of(url: Seq<char>) -> Seq<char> {
    let no_scheme = if has_prefix(url, "ws://"@) {
        after(url, "ws://"@.len() as int)
    } else if has_prefix(url, "wss://"@) {
        after(url, "wss://"@.len() as int)
    } else {
        url
    };
    no_scheme.take(find_char(no_scheme, '/', 0))
}

/// Whether a source url names a remote feed.
pub open spec fn names_a_feed(url: Seq<char>) -> bool {
    has_prefix(url, "ws://"@) || has_prefix(url, "wss://"@)
}

/// Whether a source url needs a secure connection that the build cannot make.
pub open spec fn lacks_tls(url: Seq<char>, tls: bool) -> bool {
    has_prefix(url, "wss://"@) && !tls
}

/// The message for a secure url in a build without secure connections.
pub open spec fn tls_message(url: Seq<char>) -> Seq<char> {
    "topology source url "@ + debug_text(url) + " requires building with --features tls"@
}

/// Strip the scheme and any path from a websocket url, leaving `host:port`.
pub fn ws_bind(url: &str) -> (r: String)
    ensures
        r@ == bind_of(url@),
{
    let no_scheme = match strip_prefix(url, "ws://") {
        Some(rest) => rest,
        None => match strip_prefix(url, "wss://") {
            Some(rest) => rest,
            None => url.to_string(),
        },
    };
    let end: usize = match position(no_scheme.as_str(), '/') {
        Some(i) => i,
        None => length(no_scheme.as_str()),
    };
    let r = part(no_scheme.as_str(), 0, end);
    proof {
        assert(r@ =~= no_scheme@.take(end as int));
    }
    r
}

/// A source url carrying a websocket scheme names a remote feed to connect to. A bare
/// `host:port` is an address to bind a listener on instead.
pub fn remote_feed_url<'a>(url: &'a str, tls: bool) -> (r: Result<Option<&'a str>, String>)
    ensures
        match r {
            Ok(Some(feed)) => !lacks_tls(url@, tls) && names_a_feed(url@) && feed@ == url@,
            Ok(None) => !names_a_feed(url@),
            Err(message) => lacks_tls(url@, tls) && message@ == tls_message(url@),
        },
{
    if starts_with(url, "wss://") && !tls {
        let mut message = quoting("topology source url ", url);
        message.append(" requires building with --features tls");
        return Err(message);
    }
    if starts_with(url, "ws://") || starts_with(url, "wss://") {
        Ok(Some(url))
    } else {
        Ok(None)
    }
}

/// What an aggregate computes.
#[derive(Clone, Copy, PartialEq, Eq, Structural, Debug)]
pub enum AggregateFunction {
    Count,
    Sum,
    Mean,
    Max,
    Min,
}

impl AggregateFunction {
    /// Whether this is the field of an event that is aggregated: the speed, or none where
    /// events are only counted.
    pub open spec fn aggregates(self, field: Option<&str>) -> bool {
        match field {
            Some(name) => !(self is Count) && name@ == "speed"@,
            None => self is Count,
        }
    }

    /// The field of an event that is aggregated: the speed, or none where events are only
    /// counted.
    pub fn aggregated_field(&self) -> (r: Option<&'static str>)
        ensures
            self.aggregates(r),
    {
        match self {
            AggregateFunction::Count => None,
            _ => Some("speed"),
        }
    }
}

/// The function a name stands for, whatever the case of its letters.
pub open spec fn aggregate_named(function: Seq<char>) -> Option<AggregateFunction> {
    let name = lowered(function);
    if name == "count"@ {
        Some(AggregateFunction::Count)
    } else if name == "sum"@ {
        Some(AggregateFunction::Sum)
    } else if name == "mean"@ {
        Some(AggregateFunction::Mean)
    } else if name == "max"@ {
        Some(AggregateFunction::Max)
    } else if name == "min"@ {
        Some(AggregateFunction::Min)
    } else {
        None
    }
}

/// The message for a name that stands for no function.
pub open spec fn aggregate_message(function: Seq<char>) -> Seq<char> {
    "unsupported spatial_agg function: "@ + debug_text(lowered(function))
}

/// The function a name stands for.
pub fn parse_aggregate(function: &str) -> (r: Result<AggregateFunction, String>)
    ensures
        match r {
            Ok(f) => aggregate_named(function@) == Some(f),
            Err(message) => aggregate_named(function@) is None && message@ == aggregate_message(
                function@,
            ),
        },
{
    let name = lowercase(function);
    if same(name.as_str(), "count") {
        Ok(AggregateFunction::Count)
    } else if same(name.as_str(), "sum") {
        Ok(AggregateFunction::Sum)
    } else if same(name.as_str(), "mean") {
        Ok(AggregateFunction::Mean)
    } else if same(name.as_str(), "max") {
        Ok(AggregateFunction::Max)
    } else if same(name.as_str(), "min") {
        Ok(AggregateFunction::Min)
    } else {
        Err(quoting("unsupported spatial_agg function: ", name.as_str()))
    }
}

/// The message for a section that cannot be honoured.
pub open spec fn checkpoint_message() -> Seq<char> {
    "[pipeline.checkpoint] is configured but not supported: the runner keeps no state store to snapshot, fluvius_core::checkpoint is a library API. Remove the section"@
}

/// Reject the sections the runner cannot honour. The section parses so a config can carry
/// it, but checkpointing would need operator state in a store, which does not exist.
pub fn reject_unsupported_sections(config: &PipelineConfig) -> (r: Result<(), String>)
    ensures
        match r {
            Ok(_) => config.checkpoint is None,
            Err(message) => config.checkpoint is Some && message@ == checkpoint_message(),
        },
{
    if config.checkpoint.is_some() {
        return Err(
            "[pipeline.checkpoint] is configured but not supported: the runner keeps no state store to snapshot, fluvius_core::checkpoint is a library API. Remove the section".to_string(),
        );
    }
    Ok(())
}

/// How fast a recording is replayed.
#[derive(Clone, Copy, PartialEq, Eq, Structural, Debug)]
pub enum ReplaySpeed {
    /// As fast as the pipeline takes the events.
    MaxSpeed,
    /// This many times as fast as it was recorded.
    Multiplied(Number),
}

/// How fast a recording is replayed, for speeds that can be used.
pub open spec fn speed_of(speed: Number) -> Option<ReplaySpeed> {
    if speed.bits == crate::number::INFINITY {
        Some(ReplaySpeed::MaxSpeed)
    } else if zero().below(speed) {
        Some(ReplaySpeed::Multiplied(speed))
    } else {
        None
    }
}

/// How fast to replay. `rendered` is the speed as text, for the message that refuses it.
pub fn replay_speed(config: &ReplayConfig, rendered: &str) -> (r: Result<ReplaySpeed, String>)
    ensures
        match r {
            Ok(speed) => speed_of(config.speed) == Some(speed),
            Err(message) => speed_of(config.speed) is None && message@
                == "replay speed must be positive or inf, got "@ + rendered@,
        },
{
    if config.speed.is_positive_infinity() {
        return Ok(ReplaySpeed::MaxSpeed);
    }
    if number_zero().lt(config.speed) {
        return Ok(ReplaySpeed::Multiplied(config.speed));
    }
    let mut message = "replay speed must be positive or inf, got ".to_string();
    message.append(rendered);
    Err(message)
}

/// Where the counters are served when the topology asks for it.
pub fn metrics_endpoint(config: &Option<MetricsConfig>) -> (r: Option<(&str, &str)>)
    ensures
        match r {
            Some((bind, path)) => config is Some && config->0.enabled && bind@ == config->0.bind@
                && path@ == config->0.path@,
            None => config is None || !config->0.enabled,
        },
{
    match config {
        Some(section) => if section.enabled {
            Some((section.bind.as_str(), section.path.as_str()))
        } else {
            None
        },
        None => None,
    }
}

/// The message for an address the endpoint cannot take.
pub fn metrics_failure(bind: &str, path: &str, why: &str) -> (r: String)
    ensures
        r@ == "cannot serve [pipeline.metrics] on "@ + bind@ + path@ + ": "@ + why@,
{
    let mut message = "cannot serve [pipeline.metrics] on ".to_string();
    message.append(bind);
    message.append(path);
    message.append(": ");
    message.append(why);
    message
}

/// A topology with its source and sink replaced by websocket binds, everything else
/// honoured. The binds are stripped to `host:port`, so one is never read back as a remote
/// feed to dial.
pub fn serve_config(config: TopologyConfig, source_bind: &str, sink_bind: &str) -> (r:
    TopologyConfig)
    ensures
        r.pipeline == (PipelineConfig {
            source: r.pipeline.source,
            sink: r.pipeline.sink,
            ..config.pipeline
        }),
        r.pipeline.source matches Some(SourceConfig::WebSocket { url }) && url@ == bind_of(
            source_bind@,
        ),
        r.pipeline.sink matches Some(SinkConfig::WebSocket { url }) && url@ == bind_of(sink_bind@),
{
    let mut config = config;
    config.pipeline.source = Some(SourceConfig::WebSocket { url: ws_bind(source_bind) });
    config.pipeline.sink = Some(SinkConfig::WebSocket { url: ws_bind(sink_bind) });
    config
}

/// What an MQTT configuration is made of, or the message that refuses it. `password` is what
/// the environment holds under the variable named, if anything.
pub open spec fn mqtt_planned(
    fresh: MqttConfigView,
    username: Option<Seq<char>>,
    password_env: Option<Seq<char>>,
    password: Option<Seq<char>>,
    qos: Option<u8>,
    client_id: Option<Seq<char>>,
) -> Result<MqttConfigView, Seq<char>> {
    if qos is Some && qos->0 > 2 {
        Err("mqtt qos must be 0, 1 or 2, got "@ + numeral(qos->0 as nat))
    } else if username is Some && password_env is None {
        Err(
            "mqtt username "@ + debug_text(username->0)
                + " needs a password_env naming the variable that holds its password"@,
        )
    } else if username is None && password_env is Some {
        Err("mqtt password_env "@ + debug_text(password_env->0) + " needs a username"@)
    } else if username is Some && password is None {
        Err(
            "mqtt password_env names "@ + password_env->0
                + ", which is not set in the environment"@,
        )
    } else {
        Ok(
            MqttConfigView {
                client_id: match client_id {
                    Some(id) => id,
                    None => fresh.client_id,
                },
                qos: match qos {
                    Some(level) => qos_level(level),
                    None => fresh.qos,
                },
                username: username,
                password: if username is Some {
                    password
                } else {
                    None
                },
                ..fresh
            },
        )
    }
}

/// The quality of service a level stands for.
pub open spec fn qos_level(level: u8) -> MqttQos {
    if level == 0 {
        MqttQos::AtMostOnce
    } else if level == 1 {
        MqttQos::AtLeastOnce
    } else {
        MqttQos::ExactlyOnce
    }
}

/// What the environment holds under an optional name.
pub open spec fn held(environment: Keyed<String>, name: Option<String>) -> Option<Seq<char>> {
    match name {
        Some(variable) => optional_text(environment.lookup(variable@)),
        None => None,
    }
}

/// What a result of a plan holds.
pub open spec fn mqtt_view(r: Result<MqttConfig, String>) -> Result<MqttConfigView, Seq<char>> {
    match r {
        Ok(config) => Ok(config@),
        Err(message) => Err(message@),
    }
}

/// Build a connector configuration from the topology fields, with the password that the
/// environment holds under the variable the topology names.
pub fn mqtt_config(
    broker_url: &String,
    topic: &String,
    username: &Option<String>,
    password_env: &Option<String>,
    qos: &Option<u8>,
    client_id: &Option<String>,
    environment: &Keyed<String>,
) -> (r: Result<MqttConfig, String>)
    requires
        environment.distinct(),
    ensures
        mqtt_view(r) == mqtt_planned(
            MqttConfigView::fresh(broker_url@, topic@),
            optional_text(*username),
            optional_text(*password_env),
            held(*environment, *password_env),
            *qos,
            optional_text(*client_id),
        ),
{
    let mut config = MqttConfig::new(broker_url.as_str(), topic.as_str());
    if let Some(id) = client_id {
        config.client_id = id.clone();
    }
    if let Some(level) = qos {
        let level: u8 = *level;
        if level > 2 {
            let mut message = "mqtt qos must be 0, 1 or 2, got ".to_string();
            message.append(decimal(level as u64).as_str());
            return Err(message);
        }
        let chosen = if level == 0 {
            MqttQos::AtMostOnce
        } else if level == 1 {
            MqttQos::AtLeastOnce
        } else {
            MqttQos::ExactlyOnce
        };
        config = config.with_qos(chosen);
    }
    match username {
        Some(user) => match password_env {
            Some(variable) => match environment.get(variable.as_str()) {
                Some(password) => Ok(config.with_credentials(user.as_str(), password.as_str())),
                None => {
                    let mut message = "mqtt password_env names ".to_string();
                    message.append(variable.as_str());
                    message.append(", which is not set in the environment");
                    Err(message)
                },
            },
            None => {
                let mut message = quoting("mqtt username ", user.as_str());
                message.append(
                    " needs a password_env naming the variable that holds its password",
                );
                Err(message)
            },
        },
        None => match password_env {
            Some(variable) => {
                let mut message = quoting("mqtt password_env ", variable.as_str());
                message.append(" needs a username");
                Err(message)
            },
            None => Ok(config),
        },
    }
}

/// Where the events of a pipeline come from.
#[derive(Debug)]
pub enum SourcePlan<'a> {
    /// The lines of a file.
    File(&'a str),
    /// A remote websocket feed.
    Feed(&'a str),
    /// A websocket listener on this address.
    Listen(String),
    Kafka(KafkaConfig),
    Mqtt(MqttConfig),
}

/// Where the events of a pipeline come from.
pub enum SourcePlanView {
    File(Seq<char>),
    Feed(Seq<char>),
    Listen(Seq<char>),
    Kafka(KafkaConfigView),
    Mqtt(MqttConfigView),
}

impl<'a> View for SourcePlan<'a> {
    type V = SourcePlanView;

    open spec fn view(&self) -> SourcePlanView {
        match self {
            SourcePlan::File(path) => SourcePlanView::File(path@),
            SourcePlan::Feed(url) => SourcePlanView::Feed(url@),
            SourcePlan::Listen(bind) => SourcePlanView::Listen(bind@),
            SourcePlan::Kafka(config) => SourcePlanView::Kafka(config@),
            SourcePlan::Mqtt(config) => SourcePlanView::Mqtt(config@),
        }
    }
}

/// A Kafka configuration for these brokers and this topic.
pub open spec fn kafka_planned(
    brokers: Seq<Seq<char>>,
    topic: Seq<char>,
    group_id: Option<Seq<char>>,
) -> KafkaConfigView {
    KafkaConfigView { brokers, topic, group_id, client_id: "fluvius"@, poll_interval_millis: 100 }
}

/// Where events come from, or the message that refuses the source.
pub open spec fn source_planned(
    config: SourceConfig,
    features: Features,
    environment: Keyed<String>,
) -> Result<SourcePlanView, Seq<char>> {
    match config {
        SourceConfig::File { path } => Ok(SourcePlanView::File(path@)),
        SourceConfig::WebSocket { url } => if lacks_tls(url@, features.tls) {
            Err(tls_message(url@))
        } else if names_a_feed(url@) {
            Ok(SourcePlanView::Feed(url@))
        } else {
            Ok(SourcePlanView::Listen(bind_of(url@)))
        },
        SourceConfig::Kafka { brokers, topic, group_id } => if features.kafka {
            Ok(
                SourcePlanView::Kafka(
                    kafka_planned(texts(brokers@), topic@, optional_text(group_id)),
                ),
            )
        } else {
            Err("topology source type 'kafka' requires building with --features kafka"@)
        },
        SourceConfig::Mqtt {
            broker_url,
            topic,
            username,
            password_env,
            qos,
            client_id,
        } => if features.mqtt {
            match mqtt_planned(
                MqttConfigView::fresh(broker_url@, topic@),
                optional_text(username),
                optional_text(password_env),
                held(environment, password_env),
                qos,
                optional_text(client_id),
            ) {
                Ok(config) => Ok(SourcePlanView::Mqtt(config)),
                Err(message) => Err(message),
            }
        } else {
            Err("topology source type 'mqtt' requires building with --features mqtt"@)
        },
    }
}

/// What a result of a plan holds.
pub open spec fn source_view(r: Result<SourcePlan, String>) -> Result<SourcePlanView, Seq<char>> {
    match r {
        Ok(plan) => Ok(plan@),
        Err(message) => Err(message@),
    }
}

fn brokers_of(brokers: &Vec<String>) -> (r: Vec<String>)
    ensures
        texts(r@) == texts(brokers@),
{
    let r = brokers.clone();
    proof {
        assert(texts(r@) =~= texts(brokers@));
    }
    r
}

/// Resolve a source configuration. `environment` holds the variables that the topology
/// names and that are set.
pub fn resolve_source<'a>(
    config: &'a SourceConfig,
    features: Features,
    environment: &Keyed<String>,
) -> (r: Result<SourcePlan<'a>, String>)
    requires
        environment.distinct(),
    ensures
        source_view(r) == source_planned(*config, features, *environment),
{
    match config {
        SourceConfig::File { path } => Ok(SourcePlan::File(path.as_str())),
        SourceConfig::WebSocket { url } => match remote_feed_url(url.as_str(), features.tls) {
            Ok(Some(feed)) => Ok(SourcePlan::Feed(feed)),
            Ok(None) => Ok(SourcePlan::Listen(ws_bind(url.as_str()))),
            Err(message) => Err(message),
        },
        SourceConfig::Kafka { brokers, topic, group_id } => {
            if !features.kafka {
                return Err(
                    "topology source type 'kafka' requires building with --features kafka".to_string(),
                );
            }
            let mut kafka = KafkaConfig::new(brokers_of(brokers), topic.as_str());
            if let Some(group) = group_id {
                kafka = kafka.with_group(group.as_str());
            }
            Ok(SourcePlan::Kafka(kafka))
        },
        SourceConfig::Mqtt { broker_url, topic, username, password_env, qos, client_id } => {
            if !features.mqtt {
                return Err(
                    "topology source type 'mqtt' requires building with --features mqtt".to_string(),
                );
            }
            match mqtt_config(
                broker_url,
                topic,
                username,
                password_env,
                qos,
                client_id,
                environment,
            ) {
                Ok(mqtt) => Ok(SourcePlan::Mqtt(mqtt)),
                Err(message) => Err(message),
            }
        },
    }
}

/// Where the outputs of a pipeline go.
#[derive(Debug)]
pub enum SinkPlan<'a> {
    /// Lines appended to a file.
    File(&'a str),
    /// Lines on the standard output.
    Stdout,
    /// A websocket broadcast on this address.
    Listen(String),
    Kafka(KafkaConfig),
    Mqtt(MqttConfig),
}

/// Where the outputs of a pipeline go.
pub enum SinkPlanView {
    File(Seq<char>),
    Stdout,
    Listen(Seq<char>),
    Kafka(KafkaConfigView),
    Mqtt(MqttConfigView),
}

impl<'a> View for SinkPlan<'a> {
    type V = SinkPlanView;

    open spec fn view(&self) -> SinkPlanView {
        match self {
            SinkPlan::File(path) => SinkPlanView::File(path@),
            SinkPlan::Stdout => SinkPlanView::Stdout,
            SinkPlan::Listen(bind) => SinkPlanView::Listen(bind@),
            SinkPlan::Kafka(config) => SinkPlanView::Kafka(config@),
            SinkPlan::Mqtt(config) => SinkPlanView::Mqtt(config@),
        }
    }
}

/// Where outputs go, or the message that refuses the sink. A broker's configuration is
/// validated before anything is sent to it.
pub open spec fn sink_planned(
    config: SinkConfig,
    features: Features,
    environment: Keyed<String>,
) -> Result<SinkPlanView, Seq<char>> {
    match config {
        SinkConfig::File { path } => Ok(SinkPlanView::File(path@)),
        SinkConfig::Stdout => Ok(SinkPlanView::Stdout),
        SinkConfig::WebSocket { url } => Ok(SinkPlanView::Listen(bind_of(url@))),
        SinkConfig::Kafka { brokers, topic } => if features.kafka {
            let kafka = kafka_planned(texts(brokers@), topic@, None);
            match kafka.fault() {
                Some(why) => Err(KafkaErrorView::Config(why).text()),
                None => Ok(SinkPlanView::Kafka(kafka)),
            }
        } else {
            Err("topology sink type 'kafka' requires building with --features kafka"@)
        },
        SinkConfig::Mqtt {
            broker_url,
            topic,
            username,
            password_env,
            qos,
            client_id,
        } => if features.mqtt {
            match mqtt_planned(
                MqttConfigView::fresh(broker_url@, topic@),
                optional_text(username),
                optional_text(password_env),
                held(environment, password_env),
                qos,
                optional_text(client_id),
            ) {
                Ok(mqtt) => match mqtt.fault() {
                    Some(why) => Err(MqttErrorView::Config(why).text()),
                    None => Ok(SinkPlanView::Mqtt(mqtt)),
                },
                Err(message) => Err(message),
            }
        } else {
            Err("topology sink type 'mqtt' requires building with --features mqtt"@)
        },
    }
}

/// What a result of a plan holds.
pub open spec fn sink_view(r: Result<SinkPlan, String>) -> Result<SinkPlanView, Seq<char>> {
    match r {
        Ok(plan) => Ok(plan@),
        Err(message) => Err(message@),
    }
}

/// Resolve a sink configuration. `environment` holds the variables that the topology names
/// and that are set.
pub fn resolve_sink<'a>(
    config: &'a SinkConfig,
    features: Features,
    environment: &Keyed<String>,
) -> (r: Result<SinkPlan<'a>, String>)
    requires
        environment.distinct(),
    ensures
        sink_view(r) == sink_planned(*config, features, *environment),
{
    match config {
        SinkConfig::File { path } => Ok(SinkPlan::File(path.as_str())),
        SinkConfig::Stdout => Ok(SinkPlan::Stdout),
        SinkConfig::WebSocket { url } => Ok(SinkPlan::Listen(ws_bind(url.as_str()))),
        SinkConfig::Kafka { brokers, topic } => {
            if !features.kafka {
                return Err(
                    "topology sink type 'kafka' requires building with --features kafka".to_string(),
                );
            }
            let kafka = KafkaConfig::new(brokers_of(brokers), topic.as_str());
            match kafka.validate() {
                Ok(_) => Ok(SinkPlan::Kafka(kafka)),
                Err(e) => Err(e.message()),
            }
        },
        SinkConfig::Mqtt { broker_url, topic, username, password_env, qos, client_id } => {
            if !features.mqtt {
                return Err(
                    "topology sink type 'mqtt' requires building with --features mqtt".to_string(),
                );
            }
            let mqtt = match mqtt_config(
                broker_url,
                topic,
                username,
                password_env,
                qos,
                client_id,
                environment,
            ) {
                Ok(mqtt) => mqtt,
                Err(message) => {
                    return Err(message);
                },
            };
            match mqtt.validate() {
                Ok(_) => Ok(SinkPlan::Mqtt(mqtt)),
                Err(e) => Err(e.message()),
            }
        },
    }
}

/// The position of the first step whose condition is refused, from `i` on, or the number
/// of steps.
pub open spec fn first_refused(
    config: PatternConfig,
    thresholds: Seq<Option<Number>>,
    i: int,
) -> int
    decreases config.steps@.len() - i,
{
    if i >= config.steps@.len() {
        config.steps@.len() as int
    } else if compiled(config.steps@[i].condition@, thresholds[i]) is Err {
        i
    } else {
        first_refused(config, thresholds, i + 1)
    }
}

/// The message that refuses a pattern, if it is refused.
pub open spec fn pattern_fault(
    config: PatternConfig,
    thresholds: Seq<Option<Number>>,
) -> Option<Seq<char>> {
    let i = first_refused(config, thresholds, 0);
    if i < config.steps@.len() {
        Some(compiled(config.steps@[i].condition@, thresholds[i])->Err_0)
    } else {
        None
    }
}

/// Whether a step was built as configured.
pub open spec fn step_built(
    config: PatternConfig,
    thresholds: Seq<Option<Number>>,
    step: PatternStep<Condition>,
    i: int,
) -> bool {
    &&& step.name@ == config.steps@[i].name@
    &&& step.near == config.steps@[i].near
    &&& compiled(config.steps@[i].condition@, thresholds[i]) == Ok::<ConditionView, Seq<char>>(
        step.condition@,
    )
}

/// Whether a pattern was built as configured.
pub open spec fn pattern_built(
    config: PatternConfig,
    thresholds: Seq<Option<Number>>,
    pattern: Pattern<Condition>,
) -> bool {
    &&& pattern.name@ == config.name@
    &&& pattern.within_millis == config.within_secs * 1000
    &&& pattern.steps@.len() == config.steps@.len()
    &&& forall|i: int|
        0 <= i < config.steps@.len() ==> #[trigger] step_built(
            config,
            thresholds,
            pattern.steps@[i],
            i,
        )
}

/// Build a pattern from its configuration. `thresholds` holds, for each step, what the
/// threshold of its condition reads as.
pub fn build_pattern(config: &PatternConfig, thresholds: &Vec<Option<Number>>) -> (r: Result<
    Pattern<Condition>,
    String,
>)
    requires
        thresholds@.len() == config.steps@.len(),
    ensures
        match r {
            Ok(pattern) => pattern_fault(*config, thresholds@) is None && pattern_built(
                *config,
                thresholds@,
                pattern,
            ),
            Err(message) => pattern_fault(*config, thresholds@) == Some(message@),
        },
{
    let mut steps: Vec<PatternStep<Condition>> = Vec::new();
    let mut i: usize = 0;
    while i < config.steps.len()
        invariant
            thresholds@.len() == config.steps@.len(),
            i <= config.steps@.len(),
            steps@.len() == i,
            first_refused(*config, thresholds@, 0) == first_refused(
                *config,
                thresholds@,
                i as int,
            ),
            forall|k: int|
                0 <= k < i ==> #[trigger] step_built(*config, thresholds@, steps@[k], k),
        decreases config.steps@.len() - i,
    {
        let step = &config.steps[i];
        match compile_condition(step.condition.as_str(), thresholds[i]) {
            Ok(condition) => {
                let ghost before = steps@;
                steps.push(
                    PatternStep { name: step.name.clone(), condition, near: step.near },
                );
                proof {
                    assert forall|k: int| 0 <= k <= i implies #[trigger] step_built(
                        *config,
                        thresholds@,
                        steps@[k],
                        k,
                    ) by {
                        if k < i {
                            assert(steps@[k] == before[k]);
                            assert(step_built(*config, thresholds@, before[k], k));
                        }
                    }
                }
            },
            Err(message) => {
                return Err(message);
            },
        }
        i = i + 1;
    }
    Ok(
        Pattern {
            name: config.name.clone(),
            steps,
            within_millis: config.within_secs as u128 * 1000,
        },
    )
}

/// What a stage of a pipeline is made of.
pub enum StagePlan<'a> {
    Filter { name: &'a str, condition: Condition },
    Geofence { name: &'a str, zones: &'a Vec<ZoneConfig> },
    Proximity { name: &'a str, radius_m: Number },
    Trajectory { name: &'a str, max_buffer: usize, max_speed_mps: Number },
    SpatialAgg {
        name: &'a str,
        cell_size_deg: Number,
        function: AggregateFunction,
        /// The field of an event that is aggregated.
        field: Option<&'static str>,
        threshold: u64,
    },
    /// The engine names its outputs after the matched pattern, so the operator name in the
    /// configuration has nothing to attach to.
    Cep { pattern: Pattern<Condition> },
    RateLimit { name: &'a str, max_per_second: Number },
    MapMatch { name: &'a str, max_distance_m: Number, roads: &'a Vec<RoadConfig> },
}

impl<'a> StagePlan<'a> {
    /// Whether the stage keeps state, and so never drops an event.
    pub open spec fn stateful(&self) -> bool {
        !(self is Filter) && !(self is RateLimit) && !(self is MapMatch)
    }

    /// Whether the stage keeps state, and so never drops an event.
    pub fn is_stateful(&self) -> (r: bool)
        ensures
            r == self.stateful(),
    {
        match self {
            StagePlan::Filter { .. } => false,
            StagePlan::RateLimit { .. } => false,
            StagePlan::MapMatch { .. } => false,
            _ => true,
        }
    }
}

/// What a caller read and rendered for a stage.
#[derive(Debug)]
pub struct StageReading {
    /// What the threshold of each condition reads as, in order.
    pub thresholds: Vec<Option<Number>>,
    /// The rate as text, for the message that refuses it.
    pub rate: String,
}

/// How many conditions a stage has.
pub open spec fn condition_count(config: OperatorConfig) -> nat {
    match config {
        OperatorConfig::Filter { .. } => 1,
        OperatorConfig::Cep { pattern, .. } => pattern.steps@.len(),
        _ => 0,
    }
}

/// The texts to read as numbers before a stage can be built, one for each condition where
/// it needs one.
pub fn stage_thresholds(config: &OperatorConfig) -> (r: Vec<Option<String>>)
    ensures
        r@.len() == condition_count(*config),
        forall|i: int|
            0 <= i < r@.len() ==> optional_text(#[trigger] r@[i]) == threshold_of(
                condition_at(*config, i),
            ),
{
    let mut r: Vec<Option<String>> = Vec::new();
    match config {
        OperatorConfig::Filter { name: _, condition } => {
            r.push(threshold_text(condition.as_str()));
        },
        OperatorConfig::Cep { name: _, pattern } => {
            let mut i: usize = 0;
            while i < pattern.steps.len()
                invariant
                    *config matches OperatorConfig::Cep { pattern: p, .. } && p == *pattern,
                    i <= pattern.steps@.len(),
                    r@.len() == i,
                    forall|k: int|
                        0 <= k < i ==> optional_text(#[trigger] r@[k]) == threshold_of(
                            condition_at(*config, k),
                        ),
                decreases pattern.steps@.len() - i,
            {
                r.push(threshold_text(pattern.steps[i].condition.as_str()));
                i = i + 1;
            }
        },
        _ => {},
    }
    r
}

/// The condition at a position in a stage.
pub open spec fn condition_at(config: OperatorConfig, i: int) -> Seq<char> {
    match config {
        OperatorConfig::Filter { condition, .. } => condition@,
        OperatorConfig::Cep { pattern, .. } => pattern.steps@[i].condition@,
        _ => Seq::empty(),
    }
}

/// The position of the first road with fewer than two points, from `i` on, or the number
/// of roads.
pub open spec fn first_pointless(roads: Seq<RoadConfig>, i: int) -> int
    decreases roads.len() - i,
{
    if i >= roads.len() {
        roads.len() as int
    } else if roads[i].geometry@.len() < 2 {
        i
    } else {
        first_pointless(roads, i + 1)
    }
}

/// Whether a rate can throttle anything.
pub open spec fn usable_rate(rate: Number) -> bool {
    rate.finite() && zero().below(rate)
}

/// The message that refuses a stage, if it is refused.
pub open spec fn stage_fault(config: OperatorConfig, reading: StageReading) -> Option<Seq<char>> {
    match config {
        OperatorConfig::Filter { condition, .. } => match compiled(
            condition@,
            reading.thresholds@[0],
        ) {
            Ok(_) => None,
            Err(message) => Some(message),
        },
        OperatorConfig::SpatialAgg { function, .. } => if aggregate_named(function@) is None {
            Some(aggregate_message(function@))
        } else {
            None
        },
        OperatorConfig::Cep { pattern, .. } => pattern_fault(pattern, reading.thresholds@),
        OperatorConfig::RateLimit { name, max_per_second } => if usable_rate(max_per_second) {
            None
        } else {
            Some(
                "rate_limit "@ + debug_text(name@)
                    + " needs a finite max_per_second above zero, got "@ + reading.rate@,
            )
        },
        OperatorConfig::MapMatch { name, roads, .. } => {
            let i = first_pointless(roads@, 0);
            if i < roads@.len() {
                Some(
                    "map_match "@ + debug_text(name@) + " road "@ + roads@[i].id@
                        + " needs at least two points"@,
                )
            } else {
                None
            }
        },
        _ => None,
    }
}

/// Whether a stage was built as configured.
pub open spec fn stage_built(config: OperatorConfig, reading: StageReading, plan: StagePlan) -> bool {
    match config {
        OperatorConfig::Filter { name, condition } => plan matches StagePlan::Filter {
            name: n,
            condition: c,
        } && n@ == name@ && compiled(condition@, reading.thresholds@[0]) == Ok::<
            ConditionView,
            Seq<char>,
        >(c@),
        OperatorConfig::Geofence { name, zones } => plan matches StagePlan::Geofence {
            name: n,
            zones: z,
        } && n@ == name@ && *z == zones,
        OperatorConfig::Proximity { name, radius_m } => plan matches StagePlan::Proximity {
            name: n,
            radius_m: r,
        } && n@ == name@ && r == radius_m,
        OperatorConfig::Trajectory { name, max_speed_mps, max_buffer } => {
            plan matches StagePlan::Trajectory { name: n, max_buffer: b, max_speed_mps: s } && n@
                == name@ && b == max_buffer && s == max_speed_mps
        },
        OperatorConfig::SpatialAgg { name, cell_size_deg, function, threshold } => {
            plan matches StagePlan::SpatialAgg {
                name: n,
                cell_size_deg: c,
                function: f,
                field,
                threshold: t,
            } && n@ == name@ && c == cell_size_deg && aggregate_named(function@) == Some(f)
                && f.aggregates(field) && t == threshold
        },
        OperatorConfig::Cep { pattern, .. } => plan matches StagePlan::Cep { pattern: p }
            && pattern_built(pattern, reading.thresholds@, p),
        OperatorConfig::RateLimit { name, max_per_second } => plan matches StagePlan::RateLimit {
            name: n,
            max_per_second: r,
        } && n@ == name@ && r == max_per_second,
        OperatorConfig::MapMatch { name, max_distance_m, roads } => {
            plan matches StagePlan::MapMatch { name: n, max_distance_m: d, roads: r } && n@
                == name@ && d == max_distance_m && *r == roads
        },
    }
}

/// Build a pipeline stage from its configuration.
pub fn build_stage<'a>(config: &'a OperatorConfig, reading: &StageReading) -> (r: Result<
    StagePlan<'a>,
    String,
>)
    requires
        reading.thresholds@.len() == condition_count(*config),
    ensures
        match r {
            Ok(plan) => stage_fault(*config, *reading) is None && stage_built(
                *config,
                *reading,
                plan,
            ),
            Err(message) => stage_fault(*config, *reading) == Some(message@),
        },
{
    match config {
        OperatorConfig::Filter { name, condition } => {
            match compile_condition(condition.as_str(), reading.thresholds[0]) {
                Ok(condition) => Ok(StagePlan::Filter { name: name.as_str(), condition }),
                Err(message) => Err(message),
            }
        },
        OperatorConfig::Geofence { name, zones } => Ok(
            StagePlan::Geofence { name: name.as_str(), zones },
        ),
        OperatorConfig::Proximity { name, radius_m } => Ok(
            StagePlan::Proximity { name: name.as_str(), radius_m: *radius_m },
        ),
        OperatorConfig::Trajectory { name, max_speed_mps, max_buffer } => Ok(
            StagePlan::Trajectory {
                name: name.as_str(),
                max_buffer: *max_buffer,
                max_speed_mps: *max_speed_mps,
            },
        ),
        OperatorConfig::SpatialAgg { name, cell_size_deg, function, threshold } => {
            match parse_aggregate(function.as_str()) {
                Ok(function) => Ok(
                    StagePlan::SpatialAgg {
                        name: name.as_str(),
                        cell_size_deg: *cell_size_deg,
                        function,
                        field: function.aggregated_field(),
                        threshold: *threshold,
                    },
                ),
                Err(message) => Err(message),
            }
        },
        OperatorConfig::Cep { name: _, pattern } => {
            match build_pattern(pattern, &reading.thresholds) {
                Ok(pattern) => Ok(StagePlan::Cep { pattern }),
                Err(message) => Err(message),
            }
        },
        OperatorConfig::RateLimit { name, max_per_second } => {
            if !max_per_second.is_finite() || !number_zero().lt(*max_per_second) {
                let mut message = quoting("rate_limit ", name.as_str());
                message.append(" needs a finite max_per_second above zero, got ");
                message.append(reading.rate.as_str());
                return Err(message);
            }
            Ok(StagePlan::RateLimit { name: name.as_str(), max_per_second: *max_per_second })
        },
        OperatorConfig::MapMatch { name, max_distance_m, roads } => {
            let mut i: usize = 0;
            while i < roads.len()
                invariant
                    i <= roads@.len(),
                    first_pointless(roads@, 0) == first_pointless(roads@, i as int),
                    *config matches OperatorConfig::MapMatch { name: n, roads: r, .. } && n@
                        == name@ && r == *roads,
                decreases roads@.len() - i,
            {
                if roads[i].geometry.len() < 2 {
                    let mut message = quoting("map_match ", name.as_str());
                    message.append(" road ");
                    message.append(roads[i].id.as_str());
                    message.append(" needs at least two points");
                    return Err(message);
                }
                i = i + 1;
            }
            Ok(
                StagePlan::MapMatch {
                    name: name.as_str(),
                    max_distance_m: *max_distance_m,
                    roads,
                },
            )
        },
    }
}

/// Where the events of a run come from.
pub enum InputPlan<'a> {
    /// A recorded file, paced by the event timestamps.
    Replay { file: &'a str, speed: ReplaySpeed },
    Source(SourcePlan<'a>),
}

/// What a run of a topology is made of.
pub struct RunPlan<'a> {
    pub stages: Vec<StagePlan<'a>>,
    /// The lateness tolerance in seconds, where windows are kept.
    pub lateness_secs: Option<u64>,
    pub input: InputPlan<'a>,
    pub sink: SinkPlan<'a>,
    /// The address and path the counters are served on.
    pub metrics: Option<(&'a str, &'a str)>,
}

/// What a caller read and rendered for a topology.
#[derive(Debug)]
pub struct TopologyReading {
    /// For each operator.
    pub stages: Vec<StageReading>,
    /// The replay speed as text, for the message that refuses it.
    pub replay_speed: String,
    /// The environment variables that the topology names and that are set.
    pub environment: Keyed<String>,
}

/// Whether there is a reading for each operator, and a threshold for each condition.
pub open spec fn reading_fits(config: PipelineConfig, reading: TopologyReading) -> bool {
    &&& reading.environment.distinct()
    &&& reading.stages@.len() == config.operators@.len()
    &&& forall|i: int|
        0 <= i < config.operators@.len() ==> (#[trigger] reading.stages@[i]).thresholds@.len()
            == condition_count(config.operators@[i])
}

/// The position of the first operator that is refused, from `i` on, or the number of
/// operators.
pub open spec fn first_faulty(config: PipelineConfig, reading: TopologyReading, i: int) -> int
    decreases config.operators@.len() - i,
{
    if i >= config.operators@.len() {
        config.operators@.len() as int
    } else if stage_fault(config.operators@[i], reading.stages@[i]) is Some {
        i
    } else {
        first_faulty(config, reading, i + 1)
    }
}

/// The message that refuses the input, if it is refused. A replay takes the place of any
/// source.
pub open spec fn input_fault(
    config: PipelineConfig,
    features: Features,
    reading: TopologyReading,
) -> Option<Seq<char>> {
    match config.replay {
        Some(replay) => if speed_of(replay.speed) is None {
            Some("replay speed must be positive or inf, got "@ + reading.replay_speed@)
        } else {
            None
        },
        None => match config.source {
            Some(source) => match source_planned(source, features, reading.environment) {
                Ok(_) => None,
                Err(message) => Some(message),
            },
            None => Some("topology has no [pipeline.source]"@),
        },
    }
}

/// The message that refuses a topology, if it is refused. What is wrong first is what is
/// reported: unsupported sections, a missing sink, the operators in order, the input, the
/// sink.
pub open spec fn topology_fault(
    config: PipelineConfig,
    features: Features,
    reading: TopologyReading,
) -> Option<Seq<char>> {
    let stage = first_faulty(config, reading, 0);
    if config.checkpoint is Some {
        Some(checkpoint_message())
    } else if config.sink is None {
        Some("topology has no [pipeline.sink]"@)
    } else if stage < config.operators@.len() {
        stage_fault(config.operators@[stage], reading.stages@[stage])
    } else if input_fault(config, features, reading) is Some {
        input_fault(config, features, reading)
    } else {
        match sink_planned(config.sink->0, features, reading.environment) {
            Ok(_) => None,
            Err(message) => Some(message),
        }
    }
}

/// Whether the input was planned as configured.
pub open spec fn input_built(
    config: PipelineConfig,
    features: Features,
    reading: TopologyReading,
    input: InputPlan,
) -> bool {
    match config.replay {
        Some(replay) => input matches InputPlan::Replay { file, speed } && file@ == replay.file@
            && speed_of(replay.speed) == Some(speed),
        None => input matches InputPlan::Source(plan) && source_planned(
            config.source->0,
            features,
            reading.environment,
        ) == Ok::<SourcePlanView, Seq<char>>(plan@),
    }
}

/// Whether a run was planned as configured.
pub open spec fn run_built(
    config: PipelineConfig,
    features: Features,
    reading: TopologyReading,
    plan: RunPlan,
) -> bool {
    &&& plan.stages@.len() == config.operators@.len()
    &&& forall|i: int|
        0 <= i < config.operators@.len() ==> #[trigger] stage_built(
            config.operators@[i],
            reading.stages@[i],
            plan.stages@[i],
        )
    &&& plan.lateness_secs == (match config.window {
        Some(_) => match config.watermark {
            Some(watermark) => Some(watermark.max_lateness_secs),
            None => Some(0u64),
        },
        None => None,
    })
    &&& input_built(config, features, reading, plan.input)
    &&& sink_planned(config.sink->0, features, reading.environment) == Ok::<
        SinkPlanView,
        Seq<char>,
    >(plan.sink@)
    &&& match plan.metrics {
        Some((bind, path)) => config.metrics is Some && config.metrics->0.enabled && bind@
            == config.metrics->0.bind@ && path@ == config.metrics->0.path@,
        None => config.metrics is None || !config.metrics->0.enabled,
    }
}

fn build_stages<'a>(config: &'a PipelineConfig, reading: &TopologyReading) -> (r: Result<
    Vec<StagePlan<'a>>,
    String,
>)
    requires
        reading_fits(*config, *reading),
    ensures
        match r {
            Ok(stages) => first_faulty(*config, *reading, 0) == config.operators@.len()
                && stages@.len() == config.operators@.len() && forall|i: int|
                0 <= i < config.operators@.len() ==> #[trigger] stage_built(
                    config.operators@[i],
                    reading.stages@[i],
                    stages@[i],
                ),
            Err(message) => first_faulty(*config, *reading, 0) < config.operators@.len()
                && stage_fault(
                config.operators@[first_faulty(*config, *reading, 0)],
                reading.stages@[first_faulty(*config, *reading, 0)],
            ) == Some(message@),
        },
{
    let mut stages: Vec<StagePlan<'a>> = Vec::new();
    let mut i: usize = 0;
    while i < config.operators.len()
        invariant
            reading_fits(*config, *reading),
            i <= config.operators@.len(),
            stages@.len() == i,
            first_faulty(*config, *reading, 0) == first_faulty(*config, *reading, i as int),
            forall|k: int|
                0 <= k < i ==> #[trigger] stage_built(
                    config.operators@[k],
                    reading.stages@[k],
                    stages@[k],
                ),
        decreases config.operators@.len() - i,
    {
        proof {
            assert(reading.stages@[i as int].thresholds@.len() == condition_count(
                config.operators@[i as int],
            ));
        }
        match build_stage(&config.operators[i], &reading.stages[i]) {
            Ok(stage) => {
                let ghost before = stages@;
                stages.push(stage);
                proof {
                    assert forall|k: int| 0 <= k <= i implies #[trigger] stage_built(
                        config.operators@[k],
                        reading.stages@[k],
                        stages@[k],
                    ) by {
                        if k < i {
                            assert(stages@[k] == before[k]);
                            assert(stage_built(
                                config.operators@[k],
                                reading.stages@[k],
                                before[k],
                            ));
                        }
                    }
                }
            },
            Err(message) => {
                return Err(message);
            },
        }
        i = i + 1;
    }
    Ok(stages)
}

fn plan_input<'a>(
    config: &'a PipelineConfig,
    features: Features,
    reading: &TopologyReading,
) -> (r: Result<InputPlan<'a>, String>)
    requires
        reading_fits(*config, *reading),
    ensures
        match r {
            Ok(input) => input_fault(*config, features, *reading) is None && input_built(
                *config,
                features,
                *reading,
                input,
            ),
            Err(message) => input_fault(*config, features, *reading) == Some(message@),
        },
{
    match &config.replay {
        Some(replay) => match replay_speed(replay, reading.replay_speed.as_str()) {
            Ok(speed) => Ok(InputPlan::Replay { file: replay.file.as_str(), speed }),
            Err(message) => Err(message),
        },
        None => match &config.source {
            Some(source) => match resolve_source(source, features, &reading.environment) {
                Ok(plan) => Ok(InputPlan::Source(plan)),
                Err(message) => Err(message),
            },
            None => Err("topology has no [pipeline.source]".to_string()),
        },
    }
}

/// Plan a run of a topology, or say why it cannot be run.
pub fn plan_topology<'a>(
    config: &'a PipelineConfig,
    features: Features,
    reading: &TopologyReading,
) -> (r: Result<RunPlan<'a>, String>)
    requires
        reading_fits(*config, *reading),
    ensures
        match r {
            Ok(plan) => topology_fault(*config, features, *reading) is None && run_built(
                *config,
                features,
                *reading,
                plan,
            ),
            Err(message) => topology_fault(*config, features, *reading) == Some(message@),
        },
{
    match reject_unsupported_sections(config) {
        Ok(_) => {},
        Err(message) => {
            return Err(message);
        },
    }
    let sink = match &config.sink {
        Some(sink) => sink,
        None => {
            return Err("topology has no [pipeline.sink]".to_string());
        },
    };
    let stages = match build_stages(config, reading) {
        Ok(stages) => stages,
        Err(message) => {
            return Err(message);
        },
    };
    let lateness_secs: Option<u64> = match &config.window {
        Some(_) => match &config.watermark {
            Some(watermark) => Some(watermark.max_lateness_secs),
            None => Some(0),
        },
        None => None,
    };
    let input = match plan_input(config, features, reading) {
        Ok(input) => input,
        Err(message) => {
            return Err(message);
        },
    };
    let sink = match resolve_sink(sink, features, &reading.environment) {
        Ok(plan) => plan,
        Err(message) => {
            return Err(message);
        },
    };
    Ok(
        RunPlan {
            stages,
            lateness_secs,
            input,
            sink,
            metrics: metrics_endpoint(&config.metrics),
        },
    )
}

/// A bind stripped of scheme and path is never read back as a remote feed, whatever it was
/// written as.
pub proof fn law_a_stripped_bind_is_never_a_remote_feed(url: Seq<char>)
    ensures
        !names_a_feed(bind_of(url)),
{
    reveal_strlit("ws://");
    reveal_strlit("wss://");
    let no_scheme = if has_prefix(url, "ws://"@) {
        after(url, "ws://"@.len() as int)
    } else if has_prefix(url, "wss://"@) {
        after(url, "wss://"@.len() as int)
    } else {
        url
    };
    crate::text::lemma_find_bounds(no_scheme, '/', 0);
    let bind = bind_of(url);
    if has_prefix(bind, "ws://"@) {
        assert(bind.subrange(0, 5)[3] == '/');
        assert(bind[3] == no_scheme[3]);
    }
    if has_prefix(bind, "wss://"@) {
        assert(bind.subrange(0, 6)[4] == '/');
        assert(bind[4] == no_scheme[4]);
    }
}

/// A served topology listens on its source bind, and dials nothing.
pub proof fn law_a_served_bind_is_listened_on(
    config: SourceConfig,
    url: Seq<char>,
    features: Features,
    environment: Keyed<String>,
)
    requires
        config matches SourceConfig::WebSocket { url: bind } && bind@ == bind_of(url),
    ensures
        source_planned(config, features, environment) == Ok::<SourcePlanView, Seq<char>>(
            SourcePlanView::Listen(bind_of(url)),
        ),
{
    law_a_stripped_bind_is_never_a_remote_feed(url);
    let bind = bind_of(url);
    let no_scheme = if has_prefix(url, "ws://"@) {
        after(url, "ws://"@.len() as int)
    } else if has_prefix(url, "wss://"@) {
        after(url, "wss://"@.len() as int)
    } else {
        url
    };
    crate::text::lemma_find_bounds(no_scheme, '/', 0);
    assert forall|k: int| 0 <= k < bind.len() implies #[trigger] bind[k] != '/' by {
        assert(bind[k] == no_scheme[k]);
    }
    lemma_none_found(bind, '/', 0);
    assert(bind.take(bind.len() as int) =~= bind);
}

proof fn lemma_none_found(s: Seq<char>, c: char, i: int)
    requires
        0 <= i <= s.len(),
        forall|k: int| 0 <= k < s.len() ==> #[trigger] s[k] != c,
    ensures
        find_char(s, c, i) == s.len(),
    decreases s.len() - i,
{
    if i < s.len() {
        lemma_none_found(s, c, i + 1);
    }
}

/// Whether a source needs a feature of the build.
pub open spec fn source_needs_a_feature(config: SourceConfig) -> bool {
    match config {
        SourceConfig::Kafka { .. } => true,
        SourceConfig::Mqtt { .. } => true,
        SourceConfig::WebSocket { url } => has_prefix(url@, "wss://"@),
        SourceConfig::File { .. } => false,
    }
}

/// Whether a sink needs a feature of the build.
pub open spec fn sink_needs_a_feature(config: SinkConfig) -> bool {
    config is Kafka || config is Mqtt
}

/// A build without features refuses a topology with a source it reads from, or a sink, that
/// needs one.
pub proof fn law_a_default_build_refuses_what_it_lacks(
    config: PipelineConfig,
    reading: TopologyReading,
)
    requires
        (config.replay is None && config.source is Some && source_needs_a_feature(
            config.source->0,
        )) || (config.sink is Some && sink_needs_a_feature(config.sink->0)),
    ensures
        topology_fault(config, Features { kafka: false, mqtt: false, tls: false }, reading) is Some,
{
    lemma_first_faulty_is_faulty(config, reading, 0);
}

/// The first faulty stage, where there is one, has a fault.
proof fn lemma_first_faulty_is_faulty(config: PipelineConfig, reading: TopologyReading, i: int)
    requires
        0 <= i,
    ensures
        first_faulty(config, reading, i) < config.operators@.len() ==> i <= first_faulty(
            config,
            reading,
            i,
        ) && stage_fault(
            config.operators@[first_faulty(config, reading, i)],
            reading.stages@[first_faulty(config, reading, i)],
        ) is Some,
    decreases config.operators@.len() - i,
{
    if i < config.operators@.len() && stage_fault(config.operators@[i], reading.stages@[i]) is None {
        lemma_first_faulty_is_faulty(config, reading, i + 1);
    }
}

/// A replay takes the place of the source: what the source is makes no difference.
pub proof fn law_a_replay_takes_the_place_of_the_source(
    config: PipelineConfig,
    source: Option<SourceConfig>,
    features: Features,
    reading: TopologyReading,
)
    requires
        config.replay is Some,
    ensures
        topology_fault(PipelineConfig { source, ..config }, features, reading) == topology_fault(
            config,
            features,
            reading,
        ),
        forall|input: InputPlan| #[trigger]
            input_built(PipelineConfig { source, ..config }, features, reading, input)
                == input_built(config, features, reading, input),
{
    lemma_source_is_no_stage(config, source, reading, 0);
}

proof fn lemma_source_is_no_stage(
    config: PipelineConfig,
    source: Option<SourceConfig>,
    reading: TopologyReading,
    i: int,
)
    ensures
        first_faulty(PipelineConfig { source, ..config }, reading, i) == first_faulty(
            config,
            reading,
            i,
        ),
    decreases config.operators@.len() - i,
{
    if i < config.operators@.len() {
        lemma_source_is_no_stage(config, source, reading, i + 1);
    }
}

/// An aggregate's name means the same in capitals.
pub proof fn law_aggregate_names_ignore_case(function: Seq<char>)
    ensures
        aggregate_named(lowered(function)) == aggregate_named(function),
{
    assert(lowered(lowered(function)) =~= lowered(function));
}

/// A bind is what stands between the scheme and the first slash after it: the host and port,
/// whatever path follows, and whichever of the two schemes is there, or none.
pub proof fn law_a_bind_is_the_host_and_port(host: Seq<char>, path: Seq<char>)
    requires
        forall|i: int| 0 <= i < host.len() ==> #[trigger] host[i] != '/',
        path.len() > 0 ==> path[0] == '/',
    ensures
        bind_of("ws://"@ + (host + path)) == host,
        bind_of("wss://"@ + (host + path)) == host,
        !has_prefix(host + path, "ws://"@) && !has_prefix(host + path, "wss://"@) ==> bind_of(
            host + path,
        ) == host,
{
    reveal_strlit("ws://");
    reveal_strlit("wss://");
    let rest = host + path;
    lemma_first_slash(host, path);
    assert(rest.take(host.len() as int) =~= host);
    law_a_prefix_and_its_rest_make_up_the_text(rest, "ws://"@);
    law_a_prefix_and_its_rest_make_up_the_text(rest, "wss://"@);
    let secure = "wss://"@ + rest;
    if has_prefix(secure, "ws://"@) {
        assert(secure.subrange(0, 5)[2] == ':');
        assert(secure[2] == 's');
    }
}

proof fn lemma_first_slash(host: Seq<char>, path: Seq<char>)
    requires
        forall|i: int| 0 <= i < host.len() ==> #[trigger] host[i] != '/',
        path.len() > 0 ==> path[0] == '/',
    ensures
        find_char(host + path, '/', 0) == host.len(),
{
    let rest = host + path;
    lemma_find_bounds(rest, '/', 0);
    let at = find_char(rest, '/', 0);
    if path.len() > 0 {
        assert(rest[host.len() as int] == '/');
    }
    if at < host.len() {
        assert(rest[at] == host[at]);
    }
}

/// A websocket source is dialled where its url begins with a websocket scheme, and the plan
/// keeps the whole url; the secure scheme needs a build with TLS. Any other url is an address
/// to listen on.
pub proof fn law_a_websocket_scheme_is_dialled(
    config: SourceConfig,
    url: String,
    features: Features,
    environment: Keyed<String>,
)
    requires
        config == (SourceConfig::WebSocket { url }),
    ensures
        ({
            let plan = source_planned(config, features, environment);
            &&& has_prefix(url@, "ws://"@) ==> plan == Ok::<SourcePlanView, Seq<char>>(
                SourcePlanView::Feed(url@),
            )
            &&& has_prefix(url@, "wss://"@) && features.tls ==> plan == Ok::<
                SourcePlanView,
                Seq<char>,
            >(SourcePlanView::Feed(url@))
            &&& has_prefix(url@, "wss://"@) && !features.tls ==> plan == Err::<
                SourcePlanView,
                Seq<char>,
            >(
                "topology source url "@ + debug_text(url@)
                    + " requires building with --features tls"@,
            )
            &&& !has_prefix(url@, "ws://"@) && !has_prefix(url@, "wss://"@) ==> plan == Ok::<
                SourcePlanView,
                Seq<char>,
            >(SourcePlanView::Listen(bind_of(url@)))
        }),
{
    reveal_strlit("ws://");
    reveal_strlit("wss://");
    if has_prefix(url@, "ws://"@) && has_prefix(url@, "wss://"@) {
        assert(url@.subrange(0, 5)[2] == ':');
        assert(url@.subrange(0, 6)[2] == 's');
    }
}

/// A Kafka source and a Kafka sink connect with what the topology says, and with the
/// library's own client name. A sink that could not connect is refused.
pub proof fn law_a_kafka_plan_keeps_what_the_topology_says(
    brokers: Vec<String>,
    topic: String,
    group_id: Option<String>,
    features: Features,
    environment: Keyed<String>,
)
    requires
        features.kafka,
    ensures
        ({
            let plan = source_planned(
                (SourceConfig::Kafka { brokers, topic, group_id }),
                features,
                environment,
            );
            &&& plan is Ok
            &&& plan->Ok_0 is Kafka
            &&& plan->Ok_0->Kafka_0.brokers == texts(brokers@)
            &&& plan->Ok_0->Kafka_0.topic == topic@
            &&& plan->Ok_0->Kafka_0.group_id == optional_text(group_id)
            &&& plan->Ok_0->Kafka_0.client_id == "fluvius"@
        }),
        ({
            let plan = sink_planned((SinkConfig::Kafka { brokers, topic }), features, environment);
            let usable = texts(brokers@).len() > 0 && !is_blank_text(topic@) && forall|i: int|
                0 <= i < texts(brokers@).len() ==> !is_blank_text(#[trigger] texts(brokers@)[i]);
            &&& plan is Ok <==> usable
            &&& usable ==> {
                &&& plan->Ok_0 is Kafka
                &&& plan->Ok_0->Kafka_0.brokers == texts(brokers@)
                &&& plan->Ok_0->Kafka_0.topic == topic@
                &&& plan->Ok_0->Kafka_0.client_id == "fluvius"@
            }
        }),
{
}

/// An MQTT configuration is planned where its quality of service is one of the three, a user
/// name comes with a variable for its password and a variable with a user name, and the
/// variable is set. It then keeps the broker and the topic, takes the client name and the
/// quality that are given, and has credentials where there is a user name.
pub proof fn law_an_mqtt_plan_needs_both_credentials_or_none(
    fresh: MqttConfigView,
    username: Option<Seq<char>>,
    password_env: Option<Seq<char>>,
    password: Option<Seq<char>>,
    qos: Option<u8>,
    client_id: Option<Seq<char>>,
)
    ensures
        ({
            let plan = mqtt_planned(fresh, username, password_env, password, qos, client_id);
            &&& plan is Ok <==> (qos is None || qos->0 <= 2) && (username is Some
                <==> password_env is Some) && (username is Some ==> password is Some)
            &&& plan is Ok ==> {
                let made = plan->Ok_0;
                &&& made.broker_url == fresh.broker_url
                &&& made.topic == fresh.topic
                &&& made.keep_alive_secs == fresh.keep_alive_secs
                &&& made.client_id == (if client_id is Some {
                    client_id->0
                } else {
                    fresh.client_id
                })
                &&& qos is None ==> made.qos == fresh.qos
                &&& qos == Some(0u8) ==> made.qos == MqttQos::AtMostOnce
                &&& qos == Some(1u8) ==> made.qos == MqttQos::AtLeastOnce
                &&& qos == Some(2u8) ==> made.qos == MqttQos::ExactlyOnce
                &&& made.username == username
                &&& username is Some ==> made.password == password
                &&& username is None ==> made.password is None
            }
        }),
{
}

/// What is wrong with an MQTT configuration first is what is told: its quality of service,
/// then a credential without the other, then a variable that is not set.
pub proof fn law_an_mqtt_refusal_tells_the_first_fault(
    fresh: MqttConfigView,
    username: Option<Seq<char>>,
    password_env: Option<Seq<char>>,
    password: Option<Seq<char>>,
    qos: Option<u8>,
    client_id: Option<Seq<char>>,
)
    ensures
        ({
            let plan = mqtt_planned(fresh, username, password_env, password, qos, client_id);
            let bad_qos = qos is Some && qos->0 > 2;
            &&& bad_qos ==> plan == Err::<MqttConfigView, Seq<char>>(
                "mqtt qos must be 0, 1 or 2, got "@ + numeral(qos->0 as nat),
            )
            &&& !bad_qos && username is Some && password_env is None ==> plan == Err::<
                MqttConfigView,
                Seq<char>,
            >(
                "mqtt username "@ + debug_text(username->0)
                    + " needs a password_env naming the variable that holds its password"@,
            )
            &&& !bad_qos && username is None && password_env is Some ==> plan == Err::<
                MqttConfigView,
                Seq<char>,
            >("mqtt password_env "@ + debug_text(password_env->0) + " needs a username"@)
            &&& !bad_qos && username is Some && password_env is Some && password is None ==> plan
                == Err::<MqttConfigView, Seq<char>>(
                "mqtt password_env names "@ + password_env->0
                    + ", which is not set in the environment"@,
            )
        }),
{
}

/// An MQTT source and an MQTT sink are made of the same plan; of a sink the plan is refused
/// where it could not connect.
pub proof fn law_an_mqtt_sink_is_a_source_that_can_connect(
    broker_url: String,
    topic: String,
    username: Option<String>,
    password_env: Option<String>,
    qos: Option<u8>,
    client_id: Option<String>,
    features: Features,
    environment: Keyed<String>,
)
    requires
        features.mqtt,
    ensures
        ({
            let source = source_planned(
                (SourceConfig::Mqtt { broker_url, topic, username, password_env, qos, client_id }),
                features,
                environment,
            );
            let sink = sink_planned(
                (SinkConfig::Mqtt { broker_url, topic, username, password_env, qos, client_id }),
                features,
                environment,
            );
            &&& source is Ok ==> source->Ok_0 is Mqtt && source->Ok_0->Mqtt_0.broker_url
                == broker_url@ && source->Ok_0->Mqtt_0.topic == topic@
            &&& source is Err ==> sink is Err && sink->Err_0 == source->Err_0
            &&& source is Ok ==> (sink is Ok <==> address_of(broker_url@) is Ok && !is_blank_text(
                topic@,
            ))
            &&& sink is Ok ==> sink->Ok_0 is Mqtt && sink->Ok_0->Mqtt_0 == source->Ok_0->Mqtt_0
            &&& source is Ok && username is Some ==> password_env is Some
                && source->Ok_0->Mqtt_0.password == optional_text(
                environment.lookup(password_env->0@),
            )
        }),
{
}

/// Files, the standard output and websocket addresses are planned as they are written, in any
/// build: an outgoing websocket is always listened on.
pub proof fn law_plain_sources_and_sinks_need_no_feature(
    text: String,
    features: Features,
    environment: Keyed<String>,
)
    ensures
        source_planned((SourceConfig::File { path: text }), features, environment) == Ok::<
            SourcePlanView,
            Seq<char>,
        >(SourcePlanView::File(text@)),
        sink_planned((SinkConfig::File { path: text }), features, environment) == Ok::<
            SinkPlanView,
            Seq<char>,
        >(SinkPlanView::File(text@)),
        sink_planned(SinkConfig::Stdout, features, environment) == Ok::<SinkPlanView, Seq<char>>(
            SinkPlanView::Stdout,
        ),
        sink_planned((SinkConfig::WebSocket { url: text }), features, environment) == Ok::<
            SinkPlanView,
            Seq<char>,
        >(SinkPlanView::Listen(bind_of(text@))),
{
}

/// Five names stand for a function, in any case of their letters, and no others do. All but
/// the count aggregate the speed.
pub proof fn law_five_names_stand_for_a_function(function: Seq<char>, field: Option<&str>)
    ensures
        aggregate_named(function) == Some(AggregateFunction::Count) <==> lowered(function) == seq![
            'c',
            'o',
            'u',
            'n',
            't',
        ],
        aggregate_named(function) == Some(AggregateFunction::Sum) <==> lowered(function) == seq![
            's',
            'u',
            'm',
        ],
        aggregate_named(function) == Some(AggregateFunction::Mean) <==> lowered(function) == seq![
            'm',
            'e',
            'a',
            'n',
        ],
        aggregate_named(function) == Some(AggregateFunction::Max) <==> lowered(function) == seq![
            'm',
            'a',
            'x',
        ],
        aggregate_named(function) == Some(AggregateFunction::Min) <==> lowered(function) == seq![
            'm',
            'i',
            'n',
        ],
        AggregateFunction::Count.aggregates(field) <==> field is None,
        field is Some ==> (AggregateFunction::Mean.aggregates(field) <==> field->0@ == "speed"@),
        AggregateFunction::Sum.aggregates(field) == AggregateFunction::Mean.aggregates(field),
        AggregateFunction::Max.aggregates(field) == AggregateFunction::Mean.aggregates(field),
        AggregateFunction::Min.aggregates(field) == AggregateFunction::Mean.aggregates(field),
        field is None ==> !AggregateFunction::Mean.aggregates(field),
{
    reveal_strlit("count");
    reveal_strlit("sum");
    reveal_strlit("mean");
    reveal_strlit("max");
    reveal_strlit("min");
    assert("count"@ =~= seq!['c', 'o', 'u', 'n', 't']);
    assert("sum"@ =~= seq!['s', 'u', 'm']);
    assert("mean"@ =~= seq!['m', 'e', 'a', 'n']);
    assert("max"@ =~= seq!['m', 'a', 'x']);
    assert("min"@ =~= seq!['m', 'i', 'n']);
    assert("count"@.len() == 5 && "mean"@.len() == 4);
    assert("sum"@[0] == 's' && "max"@[0] == 'm' && "min"@[0] == 'm');
    assert("max"@[1] == 'a' && "min"@[1] == 'i');
}

/// A replay runs as fast as it can at infinity, and at any other positive speed at that
/// speed; zero, negative speeds and what is no number are refused.
pub proof fn law_a_replay_speed_is_positive(speed: Number)
    ensures
        speed.bits == 0x7ff0_0000_0000_0000 ==> speed_of(speed) == Some(ReplaySpeed::MaxSpeed),
        0 < speed.bits < 0x7ff0_0000_0000_0000 ==> speed_of(speed) == Some(
            ReplaySpeed::Multiplied(speed),
        ),
        speed.bits == 0 || speed.bits > 0x7ff0_0000_0000_0000 ==> speed_of(speed) is None,
{
}

/// A rate is usable where it is a positive finite number.
pub proof fn law_a_usable_rate_is_positive_and_finite(rate: Number)
    ensures
        usable_rate(rate) <==> 0 < rate.bits < 0x7ff0_0000_0000_0000,
{
}

/// The first step that is refused has no refused step before it.
proof fn lemma_first_refused(config: PatternConfig, thresholds: Seq<Option<Number>>, i: int)
    requires
        0 <= i <= config.steps@.len(),
    ensures
        ({
            let at = first_refused(config, thresholds, i);
            &&& i <= at <= config.steps@.len()
            &&& at < config.steps@.len() ==> compiled(
                config.steps@[at].condition@,
                thresholds[at],
            ) is Err
            &&& forall|k: int|
                i <= k < at ==> compiled(
                    (#[trigger] config.steps@[k]).condition@,
                    thresholds[k],
                ) is Ok
        }),
    decreases config.steps@.len() - i,
{
    if i < config.steps@.len() && compiled(config.steps@[i].condition@, thresholds[i]) is Ok {
        lemma_first_refused(config, thresholds, i + 1);
    }
}

/// A pattern is refused exactly where a condition of one of its steps is, with the message of
/// the first.
pub proof fn law_a_pattern_is_refused_for_its_first_bad_step(
    config: PatternConfig,
    thresholds: Seq<Option<Number>>,
    step: int,
)
    requires
        0 <= step < config.steps@.len(),
    ensures
        pattern_fault(config, thresholds) is None ==> compiled(
            config.steps@[step].condition@,
            thresholds[step],
        ) is Ok,
        compiled(config.steps@[step].condition@, thresholds[step]) is Err && (forall|k: int|
            0 <= k < step ==> compiled((#[trigger] config.steps@[k]).condition@, thresholds[k])
                is Ok) ==> pattern_fault(config, thresholds) == Some(
            compiled(config.steps@[step].condition@, thresholds[step])->Err_0,
        ),
        (forall|k: int|
            0 <= k < config.steps@.len() ==> compiled(
                (#[trigger] config.steps@[k]).condition@,
                thresholds[k],
            ) is Ok) ==> pattern_fault(config, thresholds) is None,
{
    lemma_first_refused(config, thresholds, 0);
    let at = first_refused(config, thresholds, 0);
    if at < config.steps@.len() {
        assert(config.steps@[at] == config.steps@[at]);
    }
    assert(config.steps@[step] == config.steps@[step]);
}

/// The steps of a pattern that was built hold for the events that their conditions, as
/// configured, hold for, near the places that are configured, and the window has a thousand
/// milliseconds to the second.
pub proof fn law_a_pattern_is_built_step_by_step(
    config: PatternConfig,
    thresholds: Seq<Option<Number>>,
    pattern: Pattern<Condition>,
    step: int,
    event: EventView,
)
    requires
        pattern_built(config, thresholds, pattern),
        0 <= step < config.steps@.len(),
    ensures
        pattern.name@ == config.name@,
        pattern.within_millis == 1000 * config.within_secs,
        pattern.steps@.len() == config.steps@.len(),
        pattern.steps@[step].name@ == config.steps@[step].name@,
        pattern.steps@[step].near == config.steps@[step].near,
        compiled(config.steps@[step].condition@, thresholds[step]) is Ok,
        pattern.steps@[step].condition.holds(event) <==> (compiled(
            config.steps@[step].condition@,
            thresholds[step],
        )->Ok_0).admits(event),
{
    assert(step_built(config, thresholds, pattern.steps@[step], step));
}

/// The first road with too few points has none before it.
proof fn lemma_first_pointless(roads: Seq<RoadConfig>, i: int)
    requires
        0 <= i <= roads.len(),
    ensures
        i <= first_pointless(roads, i) <= roads.len(),
        first_pointless(roads, i) < roads.len() ==> roads[first_pointless(
            roads,
            i,
        )].geometry@.len() < 2,
        forall|k: int|
            i <= k < first_pointless(roads, i) ==> (#[trigger] roads[k]).geometry@.len() >= 2,
    decreases roads.len() - i,
{
    if i < roads.len() && roads[i].geometry@.len() >= 2 {
        lemma_first_pointless(roads, i + 1);
    }
}

/// A stage that matches roads is refused exactly where a road has fewer than two points, and
/// the message names the first such road.
pub proof fn law_a_road_needs_two_points(
    name: String,
    max_distance_m: Number,
    roads: Vec<RoadConfig>,
    reading: StageReading,
    road: int,
)
    requires
        0 <= road < roads@.len(),
    ensures
        ({
            let config = OperatorConfig::MapMatch { name, max_distance_m, roads };
            &&& stage_fault(config, reading) is None ==> roads@[road].geometry@.len() >= 2
            &&& (forall|k: int| 0 <= k < roads@.len() ==> (#[trigger] roads@[k]).geometry@.len()
                >= 2) ==> stage_fault(config, reading) is None
            &&& roads@[road].geometry@.len() < 2 && (forall|k: int|
                0 <= k < road ==> (#[trigger] roads@[k]).geometry@.len() >= 2) ==> stage_fault(
                config,
                reading,
            ) == Some(
                "map_match "@ + debug_text(name@) + " road "@ + roads@[road].id@
                    + " needs at least two points"@,
            )
        }),
{
    lemma_first_pointless(roads@, 0);
    let at = first_pointless(roads@, 0);
    if at < roads@.len() {
        assert(roads@[at] == roads@[at]);
    }
    assert(roads@[road] == roads@[road]);
}

/// Zones, distances and buffers are taken as they are: such stages are never refused. Of the
/// others a filter is refused with its condition, an aggregate with its name, and a throttle
/// with its rate.
pub proof fn law_a_stage_is_refused_for_what_it_is_made_of(
    config: OperatorConfig,
    reading: StageReading,
)
    ensures
        config is Geofence || config is Proximity || config is Trajectory ==> stage_fault(
            config,
            reading,
        ) is None,
        config matches OperatorConfig::Filter { condition, .. } ==> (stage_fault(config, reading)
            is None <==> compiled(condition@, reading.thresholds@[0]) is Ok),
        config matches OperatorConfig::SpatialAgg { function, .. } ==> (stage_fault(config, reading)
            is None <==> aggregate_named(function@) is Some),
        config matches OperatorConfig::SpatialAgg { function, .. } ==> (stage_fault(config, reading)
            is Some ==> stage_fault(config, reading) == Some(
            "unsupported spatial_agg function: "@ + debug_text(lowered(function@)),
        )),
        config matches OperatorConfig::RateLimit { name, .. } ==> (stage_fault(config, reading)
            is Some ==> stage_fault(config, reading) == Some(
            "rate_limit "@ + debug_text(name@) + " needs a finite max_per_second above zero, got "@
                + reading.rate@,
        )),
        config matches OperatorConfig::RateLimit { max_per_second, .. } ==> (stage_fault(
            config,
            reading,
        ) is None <==> 0 < max_per_second.bits < 0x7ff0_0000_0000_0000),
        config matches OperatorConfig::Cep { pattern, .. } ==> stage_fault(config, reading)
            == pattern_fault(pattern, reading.thresholds@),
{
}

/// A filter stage that was built passes the events that its condition, as configured, holds
/// for.
pub proof fn law_a_filter_stage_is_its_condition(
    config: OperatorConfig,
    reading: StageReading,
    plan: StagePlan,
    event: EventView,
)
    requires
        config is Filter,
        stage_built(config, reading, plan),
    ensures
        plan is Filter,
        plan->Filter_name@ == config->Filter_name@,
        compiled(config->condition@, reading.thresholds@[0]) is Ok,
        plan->condition.holds(event) <==> (compiled(
            config->condition@,
            reading.thresholds@[0],
        )->Ok_0).admits(event),
{
}

/// A stage keeps state, and so drops no event, unless it filters, throttles or matches roads.
pub proof fn law_a_stage_keeps_state_by_its_kind(
    config: OperatorConfig,
    reading: StageReading,
    plan: StagePlan,
)
    requires
        stage_built(config, reading, plan),
    ensures
        plan.stateful() <==> config is Geofence || config is Proximity || config is Trajectory
            || config is SpatialAgg || config is Cep,
{
}

/// No stage before the first faulty one has a fault.
proof fn lemma_none_faulty_before(config: PipelineConfig, reading: TopologyReading, i: int)
    requires
        0 <= i <= config.operators@.len(),
    ensures
        i <= first_faulty(config, reading, i) <= config.operators@.len(),
        forall|k: int|
            i <= k < first_faulty(config, reading, i) ==> stage_fault(
                #[trigger] config.operators@[k],
                reading.stages@[k],
            ) is None,
    decreases config.operators@.len() - i,
{
    if i < config.operators@.len() && stage_fault(config.operators@[i], reading.stages@[i]) is None {
        lemma_none_faulty_before(config, reading, i + 1);
    }
}

/// A topology can be run exactly where it asks for no checkpoints, has a sink, none of its
/// stages is refused, and neither its input nor its sink is.
pub proof fn law_a_topology_runs_where_no_part_is_refused(
    config: PipelineConfig,
    features: Features,
    reading: TopologyReading,
)
    ensures
        topology_fault(config, features, reading) is None <==> {
            &&& config.checkpoint is None
            &&& config.sink is Some
            &&& forall|i: int|
                0 <= i < config.operators@.len() ==> stage_fault(
                    #[trigger] config.operators@[i],
                    reading.stages@[i],
                ) is None
            &&& config.replay is Some ==> speed_of(config.replay->0.speed) is Some
            &&& config.replay is None ==> config.source is Some && source_planned(
                config.source->0,
                features,
                reading.environment,
            ) is Ok
            &&& sink_planned(config.sink->0, features, reading.environment) is Ok
        },
{
    lemma_none_faulty_before(config, reading, 0);
    lemma_first_faulty_is_faulty(config, reading, 0);
    let at = first_faulty(config, reading, 0);
    if at < config.operators@.len() {
        assert(stage_fault(config.operators@[at], reading.stages@[at]) is Some);
    }
}

/// Of several faults the first is told: a section that is not supported, then a missing sink,
/// then the first stage that is refused, then the input, then the sink.
pub proof fn law_a_refused_topology_tells_its_first_fault(
    config: PipelineConfig,
    features: Features,
    reading: TopologyReading,
    stage: int,
)
    requires
        0 <= stage <= config.operators@.len(),
        forall|i: int|
            0 <= i < stage ==> stage_fault(#[trigger] config.operators@[i], reading.stages@[i])
                is None,
        stage < config.operators@.len() ==> stage_fault(
            config.operators@[stage],
            reading.stages@[stage],
        ) is Some,
    ensures
        ({
            let fault = topology_fault(config, features, reading);
            let complete = config.checkpoint is None && config.sink is Some;
            let staged = complete && stage == config.operators@.len();
            &&& config.checkpoint is Some ==> fault == Some(checkpoint_message())
            &&& config.checkpoint is None && config.sink is None ==> fault == Some(
                "topology has no [pipeline.sink]"@,
            )
            &&& complete && stage < config.operators@.len() ==> fault == stage_fault(
                config.operators@[stage],
                reading.stages@[stage],
            )
            &&& staged && config.replay is Some && speed_of(config.replay->0.speed) is None
                ==> fault == Some(
                "replay speed must be positive or inf, got "@ + reading.replay_speed@,
            )
            &&& staged && config.replay is None && config.source is None ==> fault == Some(
                "topology has no [pipeline.source]"@,
            )
            &&& staged && config.replay is None && config.source is Some && source_planned(
                config.source->0,
                features,
                reading.environment,
            ) is Err ==> fault == Some(
                source_planned(config.source->0, features, reading.environment)->Err_0,
            )
            &&& staged && (config.replay is Some ==> speed_of(config.replay->0.speed) is Some) && (
            config.replay is None ==> config.source is Some && source_planned(
                config.source->0,
                features,
                reading.environment,
            ) is Ok) && sink_planned(config.sink->0, features, reading.environment) is Err
                ==> fault == Some(
                sink_planned(config.sink->0, features, reading.environment)->Err_0,
            )
        }),
{
    lemma_none_faulty_before(config, reading, 0);
    lemma_first_faulty_is_faulty(config, reading, 0);
    let at = first_faulty(config, reading, 0);
    assert(at == stage) by {
        if at < stage {
            assert(stage_fault(config.operators@[at], reading.stages@[at]) is None);
        }
        if stage < at {
            assert(stage_fault(config.operators@[stage], reading.stages@[stage]) is None);
        }
    }
}

/// A run has the stages of its topology in their order, keeps windows where the topology has
/// any, under the tolerance of its watermark or none, and serves its counters where they are
/// asked for.
pub proof fn law_a_run_is_planned_as_configured(
    config: PipelineConfig,
    features: Features,
    reading: TopologyReading,
    plan: RunPlan,
    stage: int,
)
    requires
        run_built(config, features, reading, plan),
        0 <= stage < config.operators@.len(),
    ensures
        plan.stages@.len() == config.operators@.len(),
        stage_built(config.operators@[stage], reading.stages@[stage], plan.stages@[stage]),
        config.window is None ==> plan.lateness_secs is None,
        config.window is Some && config.watermark is Some ==> plan.lateness_secs == Some(
            config.watermark->0.max_lateness_secs,
        ),
        config.window is Some && config.watermark is None ==> plan.lateness_secs == Some(0u64),
        config.replay is Some ==> plan.input is Replay && plan.input->file@
            == config.replay->0.file@,
        config.replay is None ==> plan.input is Source,
        plan.metrics is Some <==> config.metrics is Some && config.metrics->0.enabled,
        plan.metrics is Some ==> (plan.metrics->0).0@ == config.metrics->0.bind@
            && (plan.metrics->0).1@ == config.metrics->0.path@,
{
    assert(stage_built(config.operators@[stage], reading.stages@[stage], plan.stages@[stage]));
}

/// A filter has one condition, a pattern one for each of its steps, and no other stage any.
pub proof fn law_a_stage_has_the_conditions_of_its_kind(config: OperatorConfig, i: int)
    ensures
        config matches OperatorConfig::Filter { condition, .. } ==> condition_count(config) == 1
            && condition_at(config, 0) == condition@,
        config matches OperatorConfig::Cep { pattern, .. } ==> condition_count(config)
            == pattern.steps@.len() && (0 <= i < pattern.steps@.len() ==> condition_at(config, i)
            == pattern.steps@[i].condition@),
        !(config is Filter) && !(config is Cep) ==> condition_count(config) == 0,
{
}

/// A source or a sink whose feature the build lacks is refused with a message that names it.
pub proof fn law_a_missing_feature_is_named(
    source: SourceConfig,
    sink: SinkConfig,
    features: Features,
    environment: Keyed<String>,
)
    ensures
        source is Kafka && !features.kafka ==> source_planned(source, features, environment)
            == Err::<SourcePlanView, Seq<char>>(
            "topology source type 'kafka' requires building with --features kafka"@,
        ),
        source is Mqtt && !features.mqtt ==> source_planned(source, features, environment) == Err::<
            SourcePlanView,
            Seq<char>,
        >("topology source type 'mqtt' requires building with --features mqtt"@),
        sink is Kafka && !features.kafka ==> sink_planned(sink, features, environment) == Err::<
            SinkPlanView,
            Seq<char>,
        >("topology sink type 'kafka' requires building with --features kafka"@),
        sink is Mqtt && !features.mqtt ==> sink_planned(sink, features, environment) == Err::<
            SinkPlanView,
            Seq<char>,
        >("topology sink type 'mqtt' requires building with --features mqtt"@),
{
}

} // verus!
