//! Kafka connector: what is asked of the client and what becomes of its messages.

use crate::text::{is_blank, is_blank_text, join, joined, texts};
use vstd::prelude::*;

verus! {

/// Kafka connection configuration.
#[derive(Debug)]
pub struct KafkaConfig {
    pub brokers: Vec<String>,
    pub topic: String,
    pub group_id: Option<String>,
    pub client_id: String,
    /// Consumer poll interval in milliseconds.
    pub poll_interval_millis: u64,
}

/// What a configuration says.
pub struct KafkaConfigView {
    pub brokers: Seq<Seq<char>>,
    pub topic: Seq<char>,
    pub group_id: Option<Seq<char>>,
    pub client_id: Seq<char>,
    pub poll_interval_millis: u64,
}

/// The text of an optional string.
pub open spec fn optional_text(s: Option<String>) -> Option<Seq<char>> {
    match s {
        Some(text) => Some(text@),
        None => None,
    }
}

/// A list of settings, by name.
pub open spec fn settings_view(v: Seq<(String, String)>) -> Seq<(Seq<char>, Seq<char>)> {
    Seq::new(v.len(), |i: int| (v[i].0@, v[i].1@))
}

impl View for KafkaConfig {
    type V = KafkaConfigView;

    open spec fn view(&self) -> KafkaConfigView {
        KafkaConfigView {
            brokers: texts(self.brokers@),
            topic: self.topic@,
            group_id: optional_text(self.group_id),
            client_id: self.client_id@,
            poll_interval_millis: self.poll_interval_millis,
        }
    }
}

impl KafkaConfigView {
    /// Whether some broker is named and none of the names is blank.
    pub open spec fn has_brokers(self) -> bool {
        self.brokers.len() > 0 && forall|i: int|
            0 <= i < self.brokers.len() ==> !is_blank_text(#[trigger] self.brokers[i])
    }

    /// Why the configuration cannot connect, if it cannot.
    pub open spec fn fault(self) -> Option<Seq<char>> {
        if !self.has_brokers() {
            Some("at least one broker is required"@)
        } else if is_blank_text(self.topic) {
            Some("topic must not be empty"@)
        } else {
            None
        }
    }

    /// What a consumer is configured with.
    pub open spec fn consumer(self) -> Seq<(Seq<char>, Seq<char>)> {
        seq![
            ("bootstrap.servers"@, joined(self.brokers, ","@)),
            (
                "group.id"@,
                match self.group_id {
                    Some(group) => group,
                    None => "fluvius"@,
                },
            ),
            ("client.id"@, self.client_id),
            ("enable.auto.commit"@, "true"@),
            ("auto.offset.reset"@, "earliest"@),
        ]
    }

    /// What a producer is configured with.
    pub open spec fn producer(self) -> Seq<(Seq<char>, Seq<char>)> {
        seq![
            ("bootstrap.servers"@, joined(self.brokers, ","@)),
            ("client.id"@, self.client_id),
        ]
    }
}

impl Clone for KafkaConfig {
    fn clone(&self) -> (r: KafkaConfig)
        ensures
            r@ == self@,
    {
        let r = KafkaConfig {
            brokers: self.brokers.clone(),
            topic: self.topic.clone(),
            group_id: self.group_id.clone(),
            client_id: self.client_id.clone(),
            poll_interval_millis: self.poll_interval_millis,
        };
        proof {
            assert(r@.brokers =~= self@.brokers);
        }
        r
    }
}

impl KafkaConfig {
    /// A configuration for these brokers and this topic, everything else at its default.
    pub fn new(brokers: Vec<String>, topic: &str) -> (r: KafkaConfig)
        ensures
            r@ == (KafkaConfigView {
                brokers: texts(brokers@),
                topic: topic@,
                group_id: None,
                client_id: "fluvius"@,
                poll_interval_millis: 100,
            }),
    {
        KafkaConfig {
            brokers,
            topic: topic.to_string(),
            group_id: None,
            client_id: "fluvius".to_string(),
            poll_interval_millis: 100,
        }
    }

    /// The configuration with a consumer group.
    pub fn with_group(self, group: &str) -> (r: KafkaConfig)
        ensures
            r@ == (KafkaConfigView { group_id: Some(group@), ..self@ }),
    {
        let mut r = self;
        r.group_id = Some(group.to_string());
        r
    }

    /// Reject configurations that cannot connect.
    pub fn validate(&self) -> (r: Result<(), KafkaError>)
        ensures
            match r {
                Ok(_) => self@.fault() is None,
                Err(e) => self@.fault() is Some && e@ == KafkaErrorView::Config(self@.fault()->0),
            },
    {
        let mut named: bool = self.brokers.len() > 0;
        let mut i: usize = 0;
        while i < self.brokers.len()
            invariant
                i <= self.brokers@.len(),
                named == (self.brokers@.len() > 0 && forall|k: int|
                    0 <= k < i ==> !is_blank_text(#[trigger] self@.brokers[k])),
            decreases self.brokers@.len() - i,
        {
            let blank: bool = is_blank(self.brokers[i].as_str());
            proof {
                assert(self@.brokers[i as int] == self.brokers@[i as int]@);
            }
            if blank {
                named = false;
            }
            i = i + 1;
        }
        if !named {
            return Err(KafkaError::Config("at least one broker is required".to_string()));
        }
        if is_blank(self.topic.as_str()) {
            return Err(KafkaError::Config("topic must not be empty".to_string()));
        }
        Ok(())
    }

    /// The brokers as one comma-separated list.
    pub fn bootstrap_servers(&self) -> (r: String)
        ensures
            r@ == joined(self@.brokers, ","@),
    {
        join(&self.brokers, ",")
    }

    /// What a consumer is configured with, in order, or why it cannot connect.
    pub fn consumer_settings(&self) -> (r: Result<Vec<(String, String)>, KafkaError>)
        ensures
            match r {
                Ok(settings) => self@.fault() is None && settings_view(settings@)
                    == self@.consumer(),
                Err(e) => self@.fault() is Some && e@ == KafkaErrorView::Config(self@.fault()->0),
            },
    {
        match self.validate() {
            Ok(_) => {},
            Err(e) => {
                return Err(e);
            },
        }
        let group = match &self.group_id {
            Some(group) => group.clone(),
            None => "fluvius".to_string(),
        };
        let mut settings: Vec<(String, String)> = Vec::new();
        settings.push(("bootstrap.servers".to_string(), self.bootstrap_servers()));
        settings.push(("group.id".to_string(), group));
        settings.push(("client.id".to_string(), self.client_id.clone()));
        settings.push(("enable.auto.commit".to_string(), "true".to_string()));
        settings.push(("auto.offset.reset".to_string(), "earliest".to_string()));
        proof {
            assert(settings_view(settings@) =~= self@.consumer());
        }
        Ok(settings)
    }

    /// What a producer is configured with, in order, or why it cannot connect.
    pub fn producer_settings(&self) -> (r: Result<Vec<(String, String)>, KafkaError>)
        ensures
            match r {
                Ok(settings) => self@.fault() is None && settings_view(settings@)
                    == self@.producer(),
                Err(e) => self@.fault() is Some && e@ == KafkaErrorView::Config(self@.fault()->0),
            },
    {
        match self.validate() {
            Ok(_) => {},
            Err(e) => {
                return Err(e);
            },
        }
        let mut settings: Vec<(String, String)> = Vec::new();
        settings.push(("bootstrap.servers".to_string(), self.bootstrap_servers()));
        settings.push(("client.id".to_string(), self.client_id.clone()));
        proof {
            assert(settings_view(settings@) =~= self@.producer());
        }
        Ok(settings)
    }
}

/// Kafka consumer source: reads events from a Kafka topic.
pub struct KafkaSource {
    config: KafkaConfig,
}

/// What polling the consumer gave.
#[derive(Debug)]
pub enum KafkaMessage {
    /// A message without a payload.
    Empty,
    /// A payload that is an event.
    Event,
    /// A payload that is none, and why.
    Malformed(String),
    /// No message, and why.
    Failed(String),
}

/// What to do about it.
#[derive(Debug)]
pub enum KafkaStep {
    /// Poll again.
    Poll,
    /// Hand the event on; report with `handed_on`.
    HandOn,
    /// Say so and poll again.
    Warn(String),
    /// Stop without an error.
    Stop,
    /// Stop with an error.
    Fail(KafkaError),
}

/// What to do about a message.
pub enum KafkaStepView {
    Poll,
    HandOn,
    Warn(Seq<char>),
    Stop,
    Fail(KafkaErrorView),
}

impl View for KafkaStep {
    type V = KafkaStepView;

    open spec fn view(&self) -> KafkaStepView {
        match self {
            KafkaStep::Poll => KafkaStepView::Poll,
            KafkaStep::HandOn => KafkaStepView::HandOn,
            KafkaStep::Warn(text) => KafkaStepView::Warn(text@),
            KafkaStep::Stop => KafkaStepView::Stop,
            KafkaStep::Fail(e) => KafkaStepView::Fail(e@),
        }
    }
}

impl KafkaSource {
    /// What the source connects with.
    pub closed spec fn spec_config(&self) -> KafkaConfig {
        self.config
    }

    /// A source with this configuration.
    pub fn new(config: KafkaConfig) -> (r: KafkaSource)
        ensures
            r.spec_config() == config,
    {
        KafkaSource { config }
    }

    /// What the source connects with.
    pub fn config(&self) -> (r: &KafkaConfig)
        ensures
            *r == self.spec_config(),
    {
        &self.config
    }

    /// What to do about what polling the consumer gave: a malformed message is skipped, a
    /// lost connection ends the source.
    pub fn polled(&self, message: KafkaMessage) -> (r: KafkaStep)
        ensures
            r@ == (match message {
                KafkaMessage::Empty => KafkaStepView::Poll,
                KafkaMessage::Event => KafkaStepView::HandOn,
                KafkaMessage::Malformed(why) => KafkaStepView::Warn(
                    "Warning: skipping malformed kafka message: "@ + KafkaErrorView::Serialization(
                        why@,
                    ).text(),
                ),
                KafkaMessage::Failed(why) => KafkaStepView::Fail(
                    KafkaErrorView::Connection(why@),
                ),
            }),
    {
        match message {
            KafkaMessage::Empty => KafkaStep::Poll,
            KafkaMessage::Event => KafkaStep::HandOn,
            KafkaMessage::Malformed(why) => {
                let mut warning = "Warning: skipping malformed kafka message: ".to_string();
                warning.append(KafkaError::Serialization(why).message().as_str());
                KafkaStep::Warn(warning)
            },
            KafkaMessage::Failed(why) => KafkaStep::Fail(KafkaError::Connection(why)),
        }
    }

    /// What to do once an event has been handed on, or could not be because the receiver
    /// is gone.
    pub fn handed_on(&self, receiver_gone: bool) -> (r: KafkaStep)
        ensures
            r@ == (if receiver_gone {
                KafkaStepView::Stop
            } else {
                KafkaStepView::Poll
            }),
    {
        if receiver_gone {
            KafkaStep::Stop
        } else {
            KafkaStep::Poll
        }
    }
}

/// Kafka-related errors.
#[derive(Debug)]
pub enum KafkaError {
    Config(String),
    Connection(String),
    Serialization(String),
}

/// Kafka-related errors.
pub enum KafkaErrorView {
    Config(Seq<char>),
    Connection(Seq<char>),
    Serialization(Seq<char>),
}

impl View for KafkaError {
    type V = KafkaErrorView;

    open spec fn view(&self) -> KafkaErrorView {
        match self {
            KafkaError::Config(text) => KafkaErrorView::Config(text@),
            KafkaError::Connection(text) => KafkaErrorView::Connection(text@),
            KafkaError::Serialization(text) => KafkaErrorView::Serialization(text@),
        }
    }
}

impl KafkaErrorView {
    /// The error in words.
    pub open spec fn text(self) -> Seq<char> {
        match self {
            KafkaErrorView::Config(text) => "Kafka config error: "@ + text,
            KafkaErrorView::Connection(text) => "Kafka connection error: "@ + text,
            KafkaErrorView::Serialization(text) => "Serialization error: "@ + text,
        }
    }
}

impl KafkaError {
    /// The error in words.
    pub fn message(&self) -> (r: String)
        ensures
            r@ == self@.text(),
    {
        let (kind, text) = match self {
            KafkaError::Config(text) => ("Kafka config error: ", text),
            KafkaError::Connection(text) => ("Kafka connection error: ", text),
            KafkaError::Serialization(text) => ("Serialization error: ", text),
        };
        let mut r = kind.to_string();
        r.append(text.as_str());
        r
    }
}

/// Whether a client is given a setting.
pub open spec fn sets(
    settings: Seq<(Seq<char>, Seq<char>)>,
    name: Seq<char>,
    value: Seq<char>,
) -> bool {
    exists|i: int| 0 <= i < settings.len() && #[trigger] settings[i] == (name, value)
}

/// A consumer is given the brokers, its group, or that of the library where it has none, and
/// its client name; it commits by itself and starts from the earliest message. It is given
/// nothing else.
pub proof fn law_a_consumer_is_given_its_brokers_and_group(config: KafkaConfigView)
    ensures
        config.consumer().len() == 5,
        sets(config.consumer(), "bootstrap.servers"@, joined(config.brokers, seq![','])),
        config.group_id is Some ==> sets(config.consumer(), "group.id"@, config.group_id->0),
        config.group_id is None ==> sets(config.consumer(), "group.id"@, "fluvius"@),
        sets(config.consumer(), "client.id"@, config.client_id),
        sets(config.consumer(), "enable.auto.commit"@, "true"@),
        sets(config.consumer(), "auto.offset.reset"@, "earliest"@),
{
    let settings = config.consumer();
    reveal_strlit(",");
    assert(","@ =~= seq![',']);
    assert(settings[0] == ("bootstrap.servers"@, joined(config.brokers, seq![','])));
    assert(settings[1].0 == "group.id"@);
    assert(settings[2] == ("client.id"@, config.client_id));
    assert(settings[3] == ("enable.auto.commit"@, "true"@));
    assert(settings[4] == ("auto.offset.reset"@, "earliest"@));
    if let Some(group) = config.group_id {
        assert(settings[1] == ("group.id"@, group));
    } else {
        assert(settings[1] == ("group.id"@, "fluvius"@));
    }
}

/// A producer is given the brokers and its client name, and nothing else.
pub proof fn law_a_producer_is_given_its_brokers(config: KafkaConfigView)
    ensures
        config.producer().len() == 2,
        sets(config.producer(), "bootstrap.servers"@, joined(config.brokers, seq![','])),
        sets(config.producer(), "client.id"@, config.client_id),
{
    let settings = config.producer();
    reveal_strlit(",");
    assert(","@ =~= seq![',']);
    assert(settings[0] == ("bootstrap.servers"@, joined(config.brokers, seq![','])));
    assert(settings[1] == ("client.id"@, config.client_id));
}

/// A configuration can connect where it names at least one broker, none of them by a blank
/// name, and a topic that is not blank. Of two faults the brokers' is told.
pub proof fn law_a_configuration_needs_brokers_and_a_topic(config: KafkaConfigView)
    ensures
        config.brokers.len() == 0 ==> config.fault() == Some("at least one broker is required"@),
        (exists|i: int|
            0 <= i < config.brokers.len() && is_blank_text(#[trigger] config.brokers[i]))
            ==> config.fault() == Some("at least one broker is required"@),
        config.brokers.len() > 0 && (forall|i: int|
            0 <= i < config.brokers.len() ==> !is_blank_text(#[trigger] config.brokers[i])) ==> (
        config.fault() == if is_blank_text(config.topic) {
            Some("topic must not be empty"@)
        } else {
            None
        }),
{
}

/// An error in words says what kind it is and then what went wrong.
pub proof fn law_a_kafka_error_says_its_kind(why: Seq<char>)
    ensures
        KafkaErrorView::Config(why).text() == "Kafka config error: "@ + why,
        KafkaErrorView::Connection(why).text() == "Kafka connection error: "@ + why,
        KafkaErrorView::Serialization(why).text() == "Serialization error: "@ + why,
{
}

/// The view of a configuration shows every one of its fields as it is.
pub proof fn law_the_view_of_a_kafka_configuration_shows_every_field(config: KafkaConfig, i: int)
    ensures
        config@.brokers.len() == config.brokers@.len(),
        0 <= i < config.brokers@.len() ==> config@.brokers[i] == config.brokers@[i]@,
        config@.topic == config.topic@,
        config@.group_id is Some <==> config.group_id is Some,
        config.group_id is Some ==> config@.group_id->0 == config.group_id->0@,
        config@.client_id == config.client_id@,
        config@.poll_interval_millis == config.poll_interval_millis,
{
}

} // verus!
