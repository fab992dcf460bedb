//! Kafka, MQTT and WebSocket connectors.

use fluvius::kafka::{KafkaConfig, KafkaError, KafkaMessage, KafkaSource, KafkaStep};
use fluvius::mqtt::{MqttConfig, MqttError, MqttPacket, MqttQos, MqttSource, MqttStep};
use fluvius::websocket::{
    handed_on, read_step, Attempt, Reconnect, Retry, SocketMessage, SocketStep,
};

#[test]
fn test_kafka_config() {
    let config =
        KafkaConfig::new(vec!["localhost:9092".to_string()], "events").with_group("fluvius-group");
    assert_eq!(config.topic, "events");
    assert_eq!(config.group_id, Some("fluvius-group".to_string()));
}

#[test]
fn test_kafka_config_validate() {
    assert!(KafkaConfig::new(vec!["localhost:9092".into()], "events")
        .validate()
        .is_ok());
    assert!(KafkaConfig::new(vec![], "events").validate().is_err());
    assert!(KafkaConfig::new(vec!["localhost:9092".into()], "")
        .validate()
        .is_err());
}

#[test]
fn a_kafka_config_says_what_is_missing() {
    let no_broker = KafkaConfig::new(vec!["a:1".into(), " \u{3000}".into()], "t");
    assert_eq!(
        no_broker.validate().err().unwrap().message(),
        "Kafka config error: at least one broker is required"
    );
    let no_topic = KafkaConfig::new(vec!["a:1".into()], " \t");
    assert_eq!(
        no_topic.producer_settings().err().unwrap().message(),
        "Kafka config error: topic must not be empty"
    );
    assert!(no_topic.consumer_settings().is_err());
}

#[test]
fn kafka_clients_are_configured_in_order() {
    let config = KafkaConfig::new(vec!["a:1".into(), "b:2".into()], "t");
    assert_eq!(config.bootstrap_servers(), "a:1,b:2");
    assert_eq!(config.poll_interval_millis, 100);
    let pair = |k: &str, v: &str| (k.to_string(), v.to_string());
    assert_eq!(
        config.consumer_settings().unwrap(),
        vec![
            pair("bootstrap.servers", "a:1,b:2"),
            pair("group.id", "fluvius"),
            pair("client.id", "fluvius"),
            pair("enable.auto.commit", "true"),
            pair("auto.offset.reset", "earliest"),
        ]
    );
    let grouped = config.clone().with_group("g");
    assert_eq!(grouped.consumer_settings().unwrap()[1], pair("group.id", "g"));
    assert_eq!(
        config.producer_settings().unwrap(),
        vec![pair("bootstrap.servers", "a:1,b:2"), pair("client.id", "fluvius")]
    );
}

#[test]
fn a_kafka_source_skips_what_it_cannot_read() {
    let source = KafkaSource::new(KafkaConfig::new(vec!["a:1".into()], "t"));
    assert_eq!(source.config().topic, "t");
    assert!(matches!(source.polled(KafkaMessage::Empty), KafkaStep::Poll));
    assert!(matches!(source.polled(KafkaMessage::Event), KafkaStep::HandOn));
    assert!(matches!(
        source.polled(KafkaMessage::Malformed("bad".into())),
        KafkaStep::Warn(w)
            if w == "Warning: skipping malformed kafka message: Serialization error: bad"
    ));
    assert!(matches!(
        source.polled(KafkaMessage::Failed("lost".into())),
        KafkaStep::Fail(KafkaError::Connection(e)) if e == "lost"
    ));
    assert!(matches!(source.handed_on(false), KafkaStep::Poll));
    assert!(matches!(source.handed_on(true), KafkaStep::Stop));
    assert_eq!(
        KafkaError::Connection("x".into()).message(),
        "Kafka connection error: x"
    );
}

#[test]
fn test_mqtt_config() {
    let config = MqttConfig::new("mqtt://localhost:1883", "sensors/gps")
        .with_credentials("user", "pass")
        .with_qos(MqttQos::ExactlyOnce);
    assert_eq!(config.topic, "sensors/gps");
    assert!(config.username.is_some());
}

#[test]
fn test_mqtt_config_validate() {
    assert!(MqttConfig::new("mqtt://localhost:1883", "t").validate().is_ok());
    assert!(MqttConfig::new("tcp://localhost:1883", "t").validate().is_ok());
    assert!(MqttConfig::new("localhost:1883", "t").validate().is_ok());
    assert!(MqttConfig::new("localhost", "t").validate().is_err());
    assert!(MqttConfig::new("mqtt://localhost:notaport", "t")
        .validate()
        .is_err());
    assert!(MqttConfig::new("mqtt://localhost:1883", "").validate().is_err());
}

#[test]
fn test_host_port_parse() {
    let (host, port) = MqttConfig::new("mqtt://broker.local:1884", "t")
        .host_port()
        .unwrap();
    assert_eq!(host, "broker.local");
    assert_eq!(port, 1884);
}

#[test]
fn a_broker_url_is_refused_with_a_reason() {
    let cases = [
        ("localhost", "MQTT config error: invalid broker url: localhost"),
        ("mqtt://:1883", "MQTT config error: invalid broker url: mqtt://:1883"),
        ("a:", "MQTT config error: invalid port in broker url: a:"),
        ("a:65536", "MQTT config error: invalid port in broker url: a:65536"),
        ("a:1:2", "MQTT config error: invalid port in broker url: a:1:2"),
        ("tcp://a:-1", "MQTT config error: invalid port in broker url: tcp://a:-1"),
        ("ssl://a:1", "MQTT config error: invalid port in broker url: ssl://a:1"),
    ];
    for (url, message) in cases {
        assert_eq!(MqttConfig::new(url, "t").validate().err().unwrap().message(), message);
    }
    assert_eq!(
        MqttConfig::new("a:1", " ").validate().err().unwrap().message(),
        "MQTT config error: topic must not be empty"
    );
    assert_eq!(MqttConfig::new("a:+65535", "t").host_port().unwrap().1, 65535);
    assert_eq!(MqttConfig::new("a:007", "t").host_port().unwrap().1, 7);
}

#[test]
fn an_mqtt_client_connects_with_both_credentials_or_none() {
    let plain = MqttConfig::new("tcp://b:1", "t").options().unwrap();
    assert_eq!((plain.host.as_str(), plain.port), ("b", 1));
    assert_eq!(plain.client_id, "fluvius-mqtt");
    assert_eq!(plain.keep_alive_secs, 30);
    assert!(plain.credentials.is_none());

    let mut half = MqttConfig::new("b:1", "t").with_credentials("u", "p");
    assert_eq!(
        half.options().unwrap().credentials,
        Some(("u".to_string(), "p".to_string()))
    );
    half.password = None;
    assert!(half.clone().options().unwrap().credentials.is_none());
    assert!(MqttConfig::new("b", "t").options().is_err());
    assert_eq!(half.qos, MqttQos::AtLeastOnce);
}

#[test]
fn an_mqtt_source_skips_what_it_cannot_read() {
    let source = MqttSource::new(MqttConfig::new("a:1", "t"));
    assert_eq!(source.config().broker_url, "a:1");
    assert!(matches!(source.polled(MqttPacket::Event), MqttStep::HandOn));
    assert!(matches!(source.polled(MqttPacket::Other), MqttStep::Poll));
    assert!(matches!(
        source.polled(MqttPacket::Malformed("bad".into())),
        MqttStep::Warn(w)
            if w == "Warning: skipping malformed mqtt message: Serialization error: bad"
    ));
    assert!(matches!(
        source.polled(MqttPacket::Failed("lost".into())),
        MqttStep::Fail(MqttError::Connection(e)) if e == "lost"
    ));
    assert!(matches!(source.handed_on(true), MqttStep::Stop));
    assert!(matches!(source.handed_on(false), MqttStep::Poll));
    assert_eq!(MqttError::Publish("x".into()).message(), "MQTT publish error: x");
    assert_eq!(
        MqttError::Connection("x".into()).message(),
        "MQTT connection error: x"
    );
}

#[test]
fn the_wait_before_a_reconnect_doubles() {
    let mut reconnect = Reconnect::new();
    let waits = [250, 500, 1000, 2000, 4000, 8000, 16000, 30000, 30000];
    for wait in waits {
        assert_eq!(reconnect.after(Attempt::Unreachable), Retry::After(wait));
    }
    assert_eq!(reconnect.after(Attempt::FeedClosed), Retry::After(250));
    assert_eq!(reconnect.after(Attempt::Unreachable), Retry::After(500));
    assert_eq!(reconnect.after(Attempt::Unusable), Retry::Stop);
    assert_eq!(reconnect.after(Attempt::ReceiverGone), Retry::Stop);
    assert!(reconnect.wanted(false));
    assert!(!reconnect.wanted(true));
}

#[test]
fn a_socket_is_read_until_it_closes() {
    assert_eq!(read_step(SocketMessage::Event), SocketStep::HandOn);
    assert_eq!(read_step(SocketMessage::Malformed), SocketStep::Read);
    assert_eq!(read_step(SocketMessage::Other), SocketStep::Read);
    for end in [SocketMessage::Close, SocketMessage::Failed, SocketMessage::End] {
        assert_eq!(read_step(end), SocketStep::Closed);
    }
    assert_eq!(handed_on(true), SocketStep::ReceiverGone);
    assert_eq!(handed_on(false), SocketStep::Read);
}
