//! Records parsed from device replies.
use vstd::prelude::*;

verus! {

/// Statistics of one network interface.
#[derive(Debug, Clone)]
pub struct InterfaceStats {
    pub name: String,
    pub rx_bytes: u64,
    pub tx_bytes: u64,
    pub rx_packets: u64,
    pub tx_packets: u64,
    pub rx_errors: u64,
    pub tx_errors: u64,
    pub running: bool,
}

/// System resources of a device.
#[derive(Debug, Clone)]
pub struct SystemResource {
    pub uptime: String,
    pub cpu_load: u64,
    pub free_memory: u64,
    pub total_memory: u64,
    pub version: String,
    pub board_name: String,
}

/// Number of tracked connections from one source address over one protocol.
#[derive(Debug, Clone)]
pub struct ConnectionTrackingStats {
    pub src_address: String,
    pub protocol: String,
    pub connection_count: u64,
    pub ip_version: String,
}

/// A WireGuard interface.
#[derive(Debug, Clone, PartialEq)]
pub struct WireGuardInterfaceStats {
    pub name: String,
    pub enabled: bool,
}

/// A WireGuard peer, identified by its allowed address.
#[derive(Debug, Clone, PartialEq)]
pub struct WireGuardPeerStats {
    pub interface: String,
    pub name: String,
    pub allowed_address: String,
    pub endpoint: Option<String>,
    pub rx_bytes: u64,
    pub tx_bytes: u64,
    /// Unix time of the latest handshake, if there was one.
    pub latest_handshake: Option<u64>,
}

/// Everything one scrape read from one device.
#[derive(Debug, Clone)]
pub struct RouterMetrics {
    pub router_name: String,
    pub interfaces: Vec<InterfaceStats>,
    pub system: SystemResource,
    pub connection_tracking: Vec<ConnectionTrackingStats>,
    pub wireguard_interfaces: Vec<WireGuardInterfaceStats>,
    pub wireguard_peers: Vec<WireGuardPeerStats>,
}

} // verus!
