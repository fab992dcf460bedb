//! Topologies: pipelines declared in configuration.

use crate::number::{number_one, one, Number};
use crate::text::{decimal, numeral};
use vstd::prelude::*;

verus! {

/// Top-level topology configuration.
#[derive(Debug)]
pub struct TopologyConfig {
    pub pipeline: PipelineConfig,
}

/// Pipeline configuration.
#[derive(Debug)]
pub struct PipelineConfig {
    pub name: String,
    pub operators: Vec<OperatorConfig>,
    pub source: Option<SourceConfig>,
    pub sink: Option<SinkConfig>,
    pub window: Option<WindowConfig>,
    pub watermark: Option<WatermarkConfig>,
    pub metrics: Option<MetricsConfig>,
    pub checkpoint: Option<CheckpointConfig>,
    pub replay: Option<ReplayConfig>,
}

/// Operator definition.
#[derive(Debug)]
pub enum OperatorConfig {
    Filter {
        name: String,
        /// Simple expression: "speed > 5.0", "entity_id == 'vehicle1'"
        condition: String,
    },
    Geofence { name: String, zones: Vec<ZoneConfig> },
    Proximity { name: String, radius_m: Number },
    Trajectory {
        name: String,
        /// Speed above which an anomaly alert is emitted, in m/s.
        max_speed_mps: Number,
        max_buffer: usize,
    },
    RateLimit { name: String, max_per_second: Number },
    SpatialAgg { name: String, cell_size_deg: Number, function: String, threshold: u64 },
    Cep { name: String, pattern: PatternConfig },
    MapMatch { name: String, max_distance_m: Number, roads: Vec<RoadConfig> },
}

/// Zone configuration for geofence: a circle in degrees.
#[derive(Debug)]
pub struct ZoneConfig {
    pub name: String,
    pub center: (Number, Number),
    pub radius: Number,
}

/// Road configuration for map matching.
#[derive(Debug)]
pub struct RoadConfig {
    pub id: String,
    pub name: String,
    /// Longitude and latitude of each point.
    pub geometry: Vec<(Number, Number)>,
}

/// Pattern configuration.
#[derive(Debug)]
pub struct PatternConfig {
    pub name: String,
    pub within_secs: u64,
    pub steps: Vec<PatternStepConfig>,
}

/// Pattern step configuration.
#[derive(Debug)]
pub struct PatternStepConfig {
    pub name: String,
    pub condition: String,
    /// Longitude, latitude and radius in degrees.
    pub near: Option<(Number, Number, Number)>,
}

/// Source configuration.
#[derive(Debug)]
pub enum SourceConfig {
    WebSocket { url: String },
    File { path: String },
    Kafka { brokers: Vec<String>, topic: String, group_id: Option<String> },
    Mqtt {
        broker_url: String,
        topic: String,
        username: Option<String>,
        /// The environment variable that holds the password.
        password_env: Option<String>,
        qos: Option<u8>,
        client_id: Option<String>,
    },
}

/// Sink configuration.
#[derive(Debug)]
pub enum SinkConfig {
    WebSocket { url: String },
    File { path: String },
    Kafka { brokers: Vec<String>, topic: String },
    Mqtt {
        broker_url: String,
        topic: String,
        username: Option<String>,
        /// The environment variable that holds the password.
        password_env: Option<String>,
        qos: Option<u8>,
        client_id: Option<String>,
    },
    Stdout,
}

/// Window configuration.
#[derive(Debug)]
pub enum WindowConfig {
    Tumbling { duration_secs: u64 },
    Sliding { duration_secs: u64, slide_secs: u64 },
    Session { gap_secs: u64 },
    Count { count: usize },
}

/// Watermark configuration.
#[derive(Debug)]
pub struct WatermarkConfig {
    pub max_lateness_secs: u64,
}

/// Metrics endpoint configuration.
#[derive(Debug)]
pub struct MetricsConfig {
    pub enabled: bool,
    /// The port to serve on where the section names no address.
    pub port: u16,
    /// The address the endpoint is bound to: the one the section names, else the one that
    /// `metrics_bind` gives for the port.
    pub bind: String,
    pub path: String,
}

/// Whether a metrics section that does not say so serves.
pub fn default_metrics_enabled() -> (r: bool)
    ensures
        r,
{
    true
}

/// The port of a metrics section that names none.
pub fn default_metrics_port() -> (r: u16)
    ensures
        r == 9090,
{
    9090
}

/// The address of a metrics section that names none, given its port.
pub fn metrics_bind(port: u16) -> (r: String)
    ensures
        r@ == "127.0.0.1:"@ + numeral(port as nat),
{
    let mut bind = "127.0.0.1:".to_string();
    bind.append(decimal(port as u64).as_str());
    bind
}

/// The path of a metrics section that names none.
pub fn default_metrics_path() -> (r: String)
    ensures
        r@ == "/metrics"@,
{
    "/metrics".to_string()
}

impl Default for MetricsConfig {
    fn default() -> (r: MetricsConfig)
        ensures
            r.enabled,
            r.port == 9090,
            r.bind@ == "127.0.0.1:9090"@,
            r.path@ == "/metrics"@,
    {
        let port: u16 = default_metrics_port();
        let bind = metrics_bind(port);
        proof {
            reveal_strlit("127.0.0.1:");
            reveal_strlit("127.0.0.1:9090");
            reveal_with_fuel(numeral, 4);
            assert(bind@ =~= "127.0.0.1:9090"@);
        }
        MetricsConfig {
            enabled: default_metrics_enabled(),
            port,
            bind,
            path: default_metrics_path(),
        }
    }
}

/// Checkpoint configuration.
#[derive(Debug)]
pub struct CheckpointConfig {
    pub dir: String,
    pub interval_secs: u64,
    pub max_retained: usize,
}

/// The seconds between checkpoints where a section names none.
pub fn default_interval_secs() -> (r: u64)
    ensures
        r == 60,
{
    60
}

/// The checkpoints kept where a section does not say how many.
pub fn default_max_retained() -> (r: usize)
    ensures
        r == 5,
{
    5
}

/// The points a trajectory operator keeps per entity where it does not say how many.
pub fn default_max_buffer() -> (r: usize)
    ensures
        r == 1000,
{
    1000
}

/// Replay configuration.
#[derive(Debug)]
pub struct ReplayConfig {
    pub file: String,
    /// Playback multiplier over the recorded timestamps. Infinity replays as fast as the
    /// pipeline can take the events.
    pub speed: Number,
}

/// The playback multiplier where a section names none.
pub fn default_speed() -> (r: Number)
    ensures
        r == one(),
{
    number_one()
}

} // verus!
