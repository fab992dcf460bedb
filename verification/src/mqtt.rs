//! MQTT connector: what is asked of the client and what becomes of its packets.

use crate::kafka::optional_text;
use crate::text::{
    after, find_char, has_prefix, is_blank, is_blank_text, length, parse_u16, part, position,
    strip_prefix, u16_value,
};
use vstd::prelude::*;

verus! {

/// MQTT connection configuration.
#[derive(Debug)]
pub struct MqttConfig {
    pub broker_url: String,
    pub topic: String,
    pub client_id: String,
    pub qos: MqttQos,
    pub keep_alive_secs: u64,
    pub username: Option<String>,
    pub password: Option<String>,
}

/// MQTT Quality of Service levels.
#[derive(Debug, Clone, Copy, PartialEq, Eq, Structural)]
pub enum MqttQos {
    /// At most once (fire and forget).
    AtMostOnce,
    /// At least once (acknowledged delivery).
    AtLeastOnce,
    /// Exactly once (assured delivery).
    ExactlyOnce,
}

/// What a configuration says.
pub struct MqttConfigView {
    pub broker_url: Seq<char>,
    pub topic: Seq<char>,
    pub client_id: Seq<char>,
    pub qos: MqttQos,
    pub keep_alive_secs: u64,
    pub username: Option<Seq<char>>,
    pub password: Option<Seq<char>>,
}

impl View for MqttConfig {
    type V = MqttConfigView;

    open spec fn view(&self) -> MqttConfigView {
        MqttConfigView {
            broker_url: self.broker_url@,
            topic: self.topic@,
            client_id: self.client_id@,
            qos: self.qos,
            keep_alive_secs: self.keep_alive_secs,
            username: optional_text(self.username),
            password: optional_text(self.password),
        }
    }
}

/// A broker url without its scheme.
pub open spec fn schemeless(url: Seq<char>) -> Seq<char> {
    if has_prefix(url, "mqtt://"@) {
        after(url, "mqtt://"@.len() as int)
    } else if has_prefix(url, "tcp://"@) {
        after(url, "tcp://"@.len() as int)
    } else {
        url
    }
}

/// The host and port of a broker url, or the message that refuses it.
pub open spec fn address_of(url: Seq<char>) -> Result<(Seq<char>, u16), Seq<char>> {
    let raw = schemeless(url);
    let colon = find_char(raw, ':', 0);
    if colon == raw.len() || colon == 0 {
        Err("invalid broker url: "@ + url)
    } else {
        match u16_value(raw.subrange(colon + 1, raw.len() as int)) {
            Some(port) => Ok((raw.take(colon), port)),
            None => Err("invalid port in broker url: "@ + url),
        }
    }
}

impl MqttConfigView {
    /// A configuration for this broker and this topic, everything else at its default.
    pub open spec fn fresh(broker_url: Seq<char>, topic: Seq<char>) -> MqttConfigView {
        MqttConfigView {
            broker_url,
            topic,
            client_id: "fluvius-mqtt"@,
            qos: MqttQos::AtLeastOnce,
            keep_alive_secs: 30,
            username: None,
            password: None,
        }
    }

    /// Why the configuration cannot connect, if it cannot.
    pub open spec fn fault(self) -> Option<Seq<char>> {
        match address_of(self.broker_url) {
            Err(message) => Some(message),
            Ok(_) => if is_blank_text(self.topic) {
                Some("topic must not be empty"@)
            } else {
                None
            },
        }
    }
}

/// What a client connects with.
#[derive(Debug)]
pub struct MqttConnection {
    pub client_id: String,
    pub host: String,
    pub port: u16,
    pub keep_alive_secs: u64,
    /// User name and password, where both are set.
    pub credentials: Option<(String, String)>,
}

impl Clone for MqttConfig {
    fn clone(&self) -> (r: MqttConfig)
        ensures
            r@ == self@,
    {
        MqttConfig {
            broker_url: self.broker_url.clone(),
            topic: self.topic.clone(),
            client_id: self.client_id.clone(),
            qos: self.qos,
            keep_alive_secs: self.keep_alive_secs,
            username: self.username.clone(),
            password: self.password.clone(),
        }
    }
}

impl MqttConfig {
    /// A configuration for this broker and this topic, everything else at its default.
    pub fn new(broker_url: &str, topic: &str) -> (r: MqttConfig)
        ensures
            r@ == MqttConfigView::fresh(broker_url@, topic@),
    {
        MqttConfig {
            broker_url: broker_url.to_string(),
            topic: topic.to_string(),
            client_id: "fluvius-mqtt".to_string(),
            qos: MqttQos::AtLeastOnce,
            keep_alive_secs: 30,
            username: None,
            password: None,
        }
    }

    /// The configuration with a user name and password.
    pub fn with_credentials(self, username: &str, password: &str) -> (r: MqttConfig)
        ensures
            r@ == (MqttConfigView {
                username: Some(username@),
                password: Some(password@),
                ..self@
            }),
    {
        let mut r = self;
        r.username = Some(username.to_string());
        r.password = Some(password.to_string());
        r
    }

    /// The configuration with a quality of service.
    pub fn with_qos(self, qos: MqttQos) -> (r: MqttConfig)
        ensures
            r@ == (MqttConfigView { qos, ..self@ }),
    {
        let mut r = self;
        r.qos = qos;
        r
    }

    /// Reject configurations that cannot connect.
    pub fn validate(&self) -> (r: Result<(), MqttError>)
        ensures
            match r {
                Ok(_) => self@.fault() is None,
                Err(e) => self@.fault() is Some && e@ == MqttErrorView::Config(self@.fault()->0),
            },
    {
        match self.host_port() {
            Ok(_) => {},
            Err(e) => {
                return Err(e);
            },
        }
        if is_blank(self.topic.as_str()) {
            return Err(MqttError::Config("topic must not be empty".to_string()));
        }
        Ok(())
    }

    /// Parse `mqtt://host:port`, `tcp://host:port`, or `host:port`.
    pub fn host_port(&self) -> (r: Result<(String, u16), MqttError>)
        ensures
            match r {
                Ok((host, port)) => address_of(self@.broker_url) == Ok::<
                    (Seq<char>, u16),
                    Seq<char>,
                >((host@, port)),
                Err(e) => address_of(self@.broker_url) is Err && e@ == MqttErrorView::Config(
                    address_of(self@.broker_url)->Err_0,
                ),
            },
    {
        let url = self.broker_url.as_str();
        let raw = match strip_prefix(url, "mqtt://") {
            Some(rest) => rest,
            None => match strip_prefix(url, "tcp://") {
                Some(rest) => rest,
                None => url.to_string(),
            },
        };
        let colon: usize = match position(raw.as_str(), ':') {
            Some(i) => i,
            None => {
                return Err(refused("invalid broker url: ", url));
            },
        };
        if colon == 0 {
            return Err(refused("invalid broker url: ", url));
        }
        let end: usize = length(raw.as_str());
        let host = part(raw.as_str(), 0, colon);
        let rest = part(raw.as_str(), colon + 1, end);
        proof {
            assert(host@ =~= raw@.take(colon as int));
        }
        match parse_u16(rest.as_str()) {
            Some(port) => Ok((host, port)),
            None => Err(refused("invalid port in broker url: ", url)),
        }
    }

    /// What a client connects with. Credentials are used where both a user name and a
    /// password are set.
    pub fn options(&self) -> (r: Result<MqttConnection, MqttError>)
        ensures
            match r {
                Ok(c) => {
                    &&& address_of(self@.broker_url) == Ok::<(Seq<char>, u16), Seq<char>>(
                        (c.host@, c.port),
                    )
                    &&& c.client_id@ == self@.client_id
                    &&& c.keep_alive_secs == self@.keep_alive_secs
                    &&& match c.credentials {
                        Some((user, pass)) => self@.username == Some(user@) && self@.password
                            == Some(pass@),
                        None => self@.username is None || self@.password is None,
                    }
                },
                Err(e) => address_of(self@.broker_url) is Err && e@ == MqttErrorView::Config(
                    address_of(self@.broker_url)->Err_0,
                ),
            },
    {
        let (host, port) = match self.host_port() {
            Ok(address) => address,
            Err(e) => {
                return Err(e);
            },
        };
        let credentials = match &self.username {
            Some(user) => match &self.password {
                Some(pass) => Some((user.clone(), pass.clone())),
                None => None,
            },
            None => None,
        };
        Ok(
            MqttConnection {
                client_id: self.client_id.clone(),
                host,
                port,
                keep_alive_secs: self.keep_alive_secs,
                credentials,
            },
        )
    }
}

fn refused(message: &str, url: &str) -> (e: MqttError)
    ensures
        e@ == MqttErrorView::Config(message@ + url@),
{
    let mut text = message.to_string();
    text.append(url);
    MqttError::Config(text)
}

/// MQTT subscriber source: reads events from an MQTT topic.
pub struct MqttSource {
    config: MqttConfig,
}

/// What polling the client gave.
#[derive(Debug)]
pub enum MqttPacket {
    /// A published payload that is an event.
    Event,
    /// A published payload that is none, and why.
    Malformed(String),
    /// Any other packet.
    Other,
    /// No packet, and why.
    Failed(String),
}

/// What to do about it.
#[derive(Debug)]
pub enum MqttStep {
    /// Poll again.
    Poll,
    /// Hand the event on; report with `handed_on`.
    HandOn,
    /// Say so and poll again.
    Warn(String),
    /// Stop without an error.
    Stop,
    /// Stop with an error.
    Fail(MqttError),
}

/// What to do about a packet.
pub enum MqttStepView {
    Poll,
    HandOn,
    Warn(Seq<char>),
    Stop,
    Fail(MqttErrorView),
}

impl View for MqttStep {
    type V = MqttStepView;

    open spec fn view(&self) -> MqttStepView {
        match self {
            MqttStep::Poll => MqttStepView::Poll,
            MqttStep::HandOn => MqttStepView::HandOn,
            MqttStep::Warn(text) => MqttStepView::Warn(text@),
            MqttStep::Stop => MqttStepView::Stop,
            MqttStep::Fail(e) => MqttStepView::Fail(e@),
        }
    }
}

impl MqttSource {
    /// What the source connects with.
    pub closed spec fn spec_config(&self) -> MqttConfig {
        self.config
    }

    /// A source with this configuration.
    pub fn new(config: MqttConfig) -> (r: MqttSource)
        ensures
            r.spec_config() == config,
    {
        MqttSource { config }
    }

    /// What the source connects with.
    pub fn config(&self) -> (r: &MqttConfig)
        ensures
            *r == self.spec_config(),
    {
        &self.config
    }

    /// What to do about what polling the client gave: a malformed message is skipped, a
    /// lost connection ends the source.
    pub fn polled(&self, packet: MqttPacket) -> (r: MqttStep)
        ensures
            r@ == (match packet {
                MqttPacket::Event => MqttStepView::HandOn,
                MqttPacket::Malformed(why) => MqttStepView::Warn(
                    "Warning: skipping malformed mqtt message: "@ + MqttErrorView::Serialization(
                        why@,
                    ).text(),
                ),
                MqttPacket::Other => MqttStepView::Poll,
                MqttPacket::Failed(why) => MqttStepView::Fail(MqttErrorView::Connection(why@)),
            }),
    {
        match packet {
            MqttPacket::Event => MqttStep::HandOn,
            MqttPacket::Malformed(why) => {
                let mut warning = "Warning: skipping malformed mqtt message: ".to_string();
                warning.append(MqttError::Serialization(why).message().as_str());
                MqttStep::Warn(warning)
            },
            MqttPacket::Other => MqttStep::Poll,
            MqttPacket::Failed(why) => MqttStep::Fail(MqttError::Connection(why)),
        }
    }

    /// What to do once an event has been handed on, or could not be because the receiver
    /// is gone.
    pub fn handed_on(&self, receiver_gone: bool) -> (r: MqttStep)
        ensures
            r@ == (if receiver_gone {
                MqttStepView::Stop
            } else {
                MqttStepView::Poll
            }),
    {
        if receiver_gone {
            MqttStep::Stop
        } else {
            MqttStep::Poll
        }
    }
}

/// MQTT-related errors.
#[derive(Debug)]
pub enum MqttError {
    Config(String),
    Connection(String),
    Publish(String),
    Serialization(String),
}

/// MQTT-related errors.
pub enum MqttErrorView {
    Config(Seq<char>),
    Connection(Seq<char>),
    Publish(Seq<char>),
    Serialization(Seq<char>),
}

impl View for MqttError {
    type V = MqttErrorView;

    open spec fn view(&self) -> MqttErrorView {
        match self {
            MqttError::Config(text) => MqttErrorView::Config(text@),
            MqttError::Connection(text) => MqttErrorView::Connection(text@),
            MqttError::Publish(text) => MqttErrorView::Publish(text@),
            MqttError::Serialization(text) => MqttErrorView::Serialization(text@),
        }
    }
}

impl MqttErrorView {
    /// The error in words.
    pub open spec fn text(self) -> Seq<char> {
        match self {
            MqttErrorView::Config(text) => "MQTT config error: "@ + text,
            MqttErrorView::Connection(text) => "MQTT connection error: "@ + text,
            MqttErrorView::Publish(text) => "MQTT publish error: "@ + text,
            MqttErrorView::Serialization(text) => "Serialization error: "@ + text,
        }
    }
}

impl MqttError {
    /// The error in words.
    pub fn message(&self) -> (r: String)
        ensures
            r@ == self@.text(),
    {
        let (kind, text) = match self {
            MqttError::Config(text) => ("MQTT config error: ", text),
            MqttError::Connection(text) => ("MQTT connection error: ", text),
            MqttError::Publish(text) => ("MQTT publish error: ", text),
            MqttError::Serialization(text) => ("Serialization error: ", text),
        };
        let mut r = kind.to_string();
        r.append(text.as_str());
        r
    }
}

/// A broker address is read back from any of the three forms it may be written in.
pub proof fn law_the_three_url_forms_name_the_same_broker(host: Seq<char>, port: u16)
    requires
        host.len() > 0,
        forall|i: int| 0 <= i < host.len() ==> #[trigger] host[i] != ':',
    ensures
        ({
            let bare = host + seq![':'] + crate::text::numeral(port as nat);
            let read = Ok::<(Seq<char>, u16), Seq<char>>((host, port));
            &&& address_of("mqtt://"@ + bare) == read
            &&& address_of("tcp://"@ + bare) == read
            &&& address_of(bare) == read
        }),
{
    reveal_strlit("mqtt://");
    reveal_strlit("tcp://");
    let digits = crate::text::numeral(port as nat);
    let bare = host + seq![':'] + digits;
    crate::text::lemma_u16_reads_back(port);
    crate::text::lemma_numeral_value(port as nat);
    let n = host.len() as int;
    assert(bare[n] == ':');
    lemma_first_colon(bare, n, 0);
    assert(bare.take(n) =~= host);
    assert(bare.subrange(n + 1, bare.len() as int) =~= digits);
    let with_mqtt = "mqtt://"@ + bare;
    let with_tcp = "tcp://"@ + bare;
    assert(with_mqtt.take(7) =~= "mqtt://"@);
    assert(after(with_mqtt, 7) =~= bare);
    assert(with_tcp[0] == 't');
    assert(with_tcp.take(6) =~= "tcp://"@);
    assert(after(with_tcp, 6) =~= bare);
    assert(!has_prefix(with_tcp, "mqtt://"@)) by {
        if has_prefix(with_tcp, "mqtt://"@) {
            assert(with_tcp.take(7)[0] == "mqtt://"@[0]);
        }
    }
    assert(crate::text::is_digit(digits[0]));
    assert(!has_prefix(bare, "mqtt://"@)) by {
        if has_prefix(bare, "mqtt://"@) {
            assert(bare.take(7)[4] == ':' && bare.take(7)[5] == '/');
            assert(bare[4] == ':' && bare[5] == '/');
            if n > 4 {
                assert(bare[4] == host[4]);
            }
            if n < 4 {
                assert(crate::text::is_digit(digits[4 - n - 1]));
                assert(bare[4] == digits[4 - n - 1]);
            }
            assert(bare[5] == digits[0]);
        }
    }
    assert(!has_prefix(bare, "tcp://"@)) by {
        if has_prefix(bare, "tcp://"@) {
            assert(bare.take(6)[3] == ':' && bare.take(6)[4] == '/');
            assert(bare[3] == ':' && bare[4] == '/');
            if n > 3 {
                assert(bare[3] == host[3]);
            }
            if n < 3 {
                assert(crate::text::is_digit(digits[3 - n - 1]));
                assert(bare[3] == digits[3 - n - 1]);
            }
            assert(bare[4] == digits[0]);
        }
    }
}

proof fn lemma_first_colon(s: Seq<char>, n: int, i: int)
    requires
        0 <= i <= n < s.len(),
        s[n] == ':',
        forall|k: int| 0 <= k < n ==> #[trigger] s[k] != ':',
    ensures
        find_char(s, ':', i) == n,
    decreases n - i,
{
    if i < n {
        lemma_first_colon(s, n, i + 1);
    }
}

/// Whether a text is one of the two schemes, or none before a text that begins with neither.
pub open spec fn is_scheme_of(scheme: Seq<char>, rest: Seq<char>) -> bool {
    scheme == "mqtt://"@ || scheme == "tcp://"@ || (scheme.len() == 0 && !has_prefix(
        rest,
        "mqtt://"@,
    ) && !has_prefix(rest, "tcp://"@))
}

proof fn lemma_schemeless(scheme: Seq<char>, rest: Seq<char>)
    requires
        is_scheme_of(scheme, rest),
    ensures
        schemeless(scheme + rest) == rest,
{
    reveal_strlit("mqtt://");
    reveal_strlit("tcp://");
    let url = scheme + rest;
    assert(after(url, scheme.len() as int) =~= rest);
    assert(url.take(scheme.len() as int) =~= scheme);
    if scheme.len() == 0 {
        assert(url =~= rest);
    } else if scheme == "tcp://"@ {
        assert(url[0] == 't');
        if has_prefix(url, "mqtt://"@) {
            assert(url.take(7)[0] == "mqtt://"@[0]);
        }
    }
}

/// After its scheme, a broker url is refused where it holds no colon or begins with one. The
/// message quotes the whole url.
pub proof fn law_a_broker_url_needs_a_host_and_a_port(scheme: Seq<char>, rest: Seq<char>)
    requires
        is_scheme_of(scheme, rest),
        (forall|i: int| 0 <= i < rest.len() ==> #[trigger] rest[i] != ':') || rest[0] == ':',
    ensures
        address_of(scheme + rest) == Err::<(Seq<char>, u16), Seq<char>>(
            "invalid broker url: "@ + (scheme + rest),
        ),
{
    lemma_schemeless(scheme, rest);
    crate::text::lemma_find_bounds(rest, ':', 0);
}

/// After its scheme, the host of a broker url is what stands before the first colon, and what
/// follows it must be a port.
pub proof fn law_a_host_stands_before_the_first_colon(
    scheme: Seq<char>,
    host: Seq<char>,
    port: Seq<char>,
)
    requires
        is_scheme_of(scheme, host + seq![':'] + port),
        host.len() > 0,
        forall|i: int| 0 <= i < host.len() ==> #[trigger] host[i] != ':',
    ensures
        ({
            let url = scheme + (host + seq![':'] + port);
            &&& u16_value(port) is None ==> address_of(url) == Err::<(Seq<char>, u16), Seq<char>>(
                "invalid port in broker url: "@ + url,
            )
            &&& u16_value(port) is Some ==> address_of(url) == Ok::<(Seq<char>, u16), Seq<char>>(
                (host, u16_value(port)->0),
            )
        }),
{
    let rest = host + seq![':'] + port;
    lemma_schemeless(scheme, rest);
    let n = host.len() as int;
    assert(rest[n] == ':');
    assert forall|k: int| 0 <= k < n implies #[trigger] rest[k] != ':' by {
        assert(rest[k] == host[k]);
    }
    lemma_first_colon(rest, n, 0);
    assert(rest.take(n) =~= host);
    assert(rest.subrange(n + 1, rest.len() as int) =~= port);
}

/// A configuration can connect where its url leads to a broker and its topic is not blank. Of
/// two faults the url's is told.
pub proof fn law_a_configuration_needs_a_broker_and_a_topic(config: MqttConfigView)
    ensures
        address_of(config.broker_url) is Err ==> config.fault() == Some(
            address_of(config.broker_url)->Err_0,
        ),
        address_of(config.broker_url) is Ok && is_blank_text(config.topic) ==> config.fault()
            == Some("topic must not be empty"@),
        address_of(config.broker_url) is Ok && !is_blank_text(config.topic) ==> config.fault()
            is None,
{
}

/// An error in words says what kind it is and then what went wrong.
pub proof fn law_an_mqtt_error_says_its_kind(why: Seq<char>)
    ensures
        MqttErrorView::Config(why).text() == "MQTT config error: "@ + why,
        MqttErrorView::Connection(why).text() == "MQTT connection error: "@ + why,
        MqttErrorView::Publish(why).text() == "MQTT publish error: "@ + why,
        MqttErrorView::Serialization(why).text() == "Serialization error: "@ + why,
{
}

/// A configuration says what it is given, and otherwise asks for acknowledged delivery, keeps
/// the connection alive every half minute and has no credentials.
pub proof fn law_a_fresh_configuration_is_acknowledged(broker_url: Seq<char>, topic: Seq<char>)
    ensures
        ({
            let fresh = MqttConfigView::fresh(broker_url, topic);
            &&& fresh.broker_url == broker_url
            &&& fresh.topic == topic
            &&& fresh.client_id == "fluvius-mqtt"@
            &&& fresh.qos == MqttQos::AtLeastOnce
            &&& fresh.keep_alive_secs == 30
            &&& fresh.username is None && fresh.password is None
        }),
{
}

/// The view of a configuration shows every one of its fields as it is.
pub proof fn law_the_view_of_an_mqtt_configuration_shows_every_field(config: MqttConfig)
    ensures
        config@.broker_url == config.broker_url@,
        config@.topic == config.topic@,
        config@.client_id == config.client_id@,
        config@.qos == config.qos,
        config@.keep_alive_secs == config.keep_alive_secs,
        config@.username is Some <==> config.username is Some,
        config.username is Some ==> config@.username->0 == config.username->0@,
        config@.password is Some <==> config.password is Some,
        config.password is Some ==> config@.password->0 == config.password->0@,
{
}

} // verus!
