//! Stream processing for moving-object events.

pub mod cep;
pub mod cli;
pub mod condition;
pub mod event;
pub mod geofence;
pub mod kafka;
pub mod keyed;
pub mod metrics;
pub mod mqtt;
pub mod number;
pub mod operator;
pub mod pipeline;
pub mod proximity;
pub mod run;
pub mod text;
pub mod time;
pub mod topology;
pub mod topology_run;
pub mod trajectory;
pub mod watermark;
pub mod websocket;
