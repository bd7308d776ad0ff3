//! Polling exporter for MikroTik RouterOS devices: the wire codec, the connection pool
//! bookkeeping, the parsers of device replies and the metrics registry.
use vstd::prelude::*;

pub mod codec;
pub mod text;
pub mod sentence;
pub mod duration;
pub mod types;
pub mod parse;
pub mod wireguard;
pub mod pool;
pub mod table;
pub mod registry;
pub mod exposition;
pub mod login;
pub mod health;
pub mod config;
pub mod collector;
pub mod cache;

pub use cache::SystemInfoCache;
pub use codec::encode_length;
pub use config::{Config, RouterConfig};
pub use duration::{parse_routeros_duration, parse_uptime_to_seconds};
pub use health::{HealthResponse, RouterHealth};
pub use parse::{extract_src_ip, parse_connection_tracking, parse_interfaces, parse_system};
pub use pool::{ConnectionPool, ConnectionState};
pub use registry::{InterfaceLabels, MetricsRegistry, RouterLabels, SystemInfoLabels};
pub use sentence::Sentence;
pub use types::{
    ConnectionTrackingStats, InterfaceStats, RouterMetrics, SystemResource, WireGuardInterfaceStats,
    WireGuardPeerStats,
};
pub use wireguard::{
    get_field_value, parse_handshake_to_timestamp, parse_wireguard_interfaces, parse_wireguard_peers,
};

verus! {

} // verus!
