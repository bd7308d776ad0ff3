use mikrotik_exporter::{
    ConnectionTrackingStats, InterfaceLabels, InterfaceStats, MetricsRegistry, RouterLabels,
    RouterMetrics, SystemResource, WireGuardPeerStats,
};

fn make_router_metrics(
    router_name: &str,
    interfaces: Vec<InterfaceStats>,
    system: SystemResource,
) -> RouterMetrics {
    RouterMetrics {
        router_name: router_name.to_string(),
        interfaces,
        system,
        connection_tracking: Vec::new(),
        wireguard_interfaces: Vec::new(),
        wireguard_peers: Vec::new(),
    }
}

fn make_conntrack(src: &str, protocol: &str, count: u64, ip_version: &str) -> ConnectionTrackingStats {
    ConnectionTrackingStats {
        src_address: src.to_string(),
        protocol: protocol.to_string(),
        connection_count: count,
        ip_version: ip_version.to_string(),
    }
}

#[allow(clippy::too_many_arguments)]
fn make_interface(
    name: &str,
    rx_bytes: u64,
    tx_bytes: u64,
    rx_packets: u64,
    tx_packets: u64,
    rx_errors: u64,
    tx_errors: u64,
    running: bool,
) -> InterfaceStats {
    InterfaceStats {
        name: name.to_string(),
        rx_bytes,
        tx_bytes,
        rx_packets,
        tx_packets,
        rx_errors,
        tx_errors,
        running,
    }
}

fn make_system(version: &str, board_name: &str, uptime: &str) -> SystemResource {
    SystemResource {
        uptime: uptime.to_string(),
        cpu_load: 10,
        free_memory: 1024 * 1024 * 512,
        total_memory: 1024 * 1024 * 1024,
        version: version.to_string(),
        board_name: board_name.to_string(),
    }
}

#[test]
fn test_new_registry_initializes_correctly() {
    let registry = MetricsRegistry::new();
    assert_eq!(registry.interface_totals("test", "ether1").rx_bytes, 0);
}

#[test]
fn test_update_metrics_first_time() {
    let mut registry = MetricsRegistry::new();
    let iface = make_interface("ether1", 1000, 2000, 10, 20, 0, 0, true);
    let metrics = make_router_metrics("router1", vec![iface], make_system("7.10", "RB750Gr3", "1d"));
    registry.update_metrics(&metrics, 0);
    let t = registry.interface_totals("router1", "ether1");
    assert_eq!(t.rx_bytes, 0);
    assert_eq!(t.tx_bytes, 0);
    assert_eq!(t.rx_packets, 0);
    assert_eq!(t.tx_packets, 0);
}

#[test]
fn test_update_metrics_with_deltas() {
    let mut registry = MetricsRegistry::new();
    let iface1 = make_interface("ether1", 1000, 2000, 10, 20, 0, 0, true);
    registry.update_metrics(&make_router_metrics("router1", vec![iface1], make_system("7.10", "RB750Gr3", "1d")), 0);
    let iface2 = make_interface("ether1", 1500, 2500, 15, 25, 0, 0, true);
    registry.update_metrics(&make_router_metrics("router1", vec![iface2], make_system("7.10", "RB750Gr3", "1d")), 1);
    let t = registry.interface_totals("router1", "ether1");
    assert_eq!(t.rx_bytes, 500);
    assert_eq!(t.tx_bytes, 500);
    assert_eq!(t.rx_packets, 5);
    assert_eq!(t.tx_packets, 5);
}

#[test]
fn test_update_metrics_counter_reset() {
    let mut registry = MetricsRegistry::new();
    let iface1 = make_interface("ether1", 5000, 6000, 50, 60, 2, 3, true);
    registry.update_metrics(&make_router_metrics("router1", vec![iface1], make_system("7.10", "RB750Gr3", "1d")), 0);
    let iface2 = make_interface("ether1", 1000, 2000, 10, 20, 0, 0, true);
    registry.update_metrics(&make_router_metrics("router1", vec![iface2], make_system("7.10", "RB750Gr3", "1d")), 1);
    let t = registry.interface_totals("router1", "ether1");
    assert_eq!(t.rx_bytes, 0);
    assert_eq!(t.tx_bytes, 0);
    assert_eq!(t.rx_errors, 0);
    assert_eq!(t.tx_errors, 0);
}

#[test]
fn test_encode_metrics_contains_expected_names() {
    let mut registry = MetricsRegistry::new();
    let iface = make_interface("ether1", 1000, 2000, 10, 20, 0, 0, true);
    registry.update_metrics(&make_router_metrics("router1", vec![iface], make_system("7.10", "RB750Gr3", "1d")), 0);
    let router_label = RouterLabels { router: "router1".to_string() };
    registry.record_scrape_success(&router_label, 1_700_000_000);
    registry.record_scrape_error(&router_label);
    let encoded = registry.encode_metrics().expect("Failed to encode");
    assert!(encoded.contains("mikrotik_interface_rx_bytes_total"));
    assert!(encoded.contains("mikrotik_interface_tx_bytes_total"));
    assert!(encoded.contains("mikrotik_interface_running"));
    assert!(encoded.contains("mikrotik_system_cpu_load"));
    assert!(encoded.contains("mikrotik_system_free_memory_bytes"));
    assert!(encoded.contains("mikrotik_scrape_success_total"));
    assert!(encoded.contains("mikrotik_scrape_errors_total"));
    assert!(encoded.contains("router=\"router1\""));
    assert!(encoded.contains("interface=\"ether1\""));
}

#[test]
fn test_record_scrape_success_increments() {
    let mut registry = MetricsRegistry::new();
    let labels = RouterLabels { router: "router1".to_string() };
    assert_eq!(registry.get_scrape_success_count(&labels), 0);
    registry.record_scrape_success(&labels, 1);
    assert_eq!(registry.get_scrape_success_count(&labels), 1);
    registry.record_scrape_success(&labels, 2);
    assert_eq!(registry.get_scrape_success_count(&labels), 2);
}

#[test]
fn test_record_scrape_error_increments() {
    let mut registry = MetricsRegistry::new();
    let labels = RouterLabels { router: "router1".to_string() };
    assert_eq!(registry.get_scrape_error_count(&labels), 0);
    registry.record_scrape_error(&labels);
    assert_eq!(registry.get_scrape_error_count(&labels), 1);
    registry.record_scrape_error(&labels);
    assert_eq!(registry.get_scrape_error_count(&labels), 2);
}

#[test]
fn test_update_pool_stats_sets_gauges() {
    let mut registry = MetricsRegistry::new();
    registry.update_pool_stats(10, 5);
    assert_eq!(registry.pool_size, 10);
    assert_eq!(registry.pool_active, 5);
    registry.update_pool_stats(20, 8);
    assert_eq!(registry.pool_size, 20);
    assert_eq!(registry.pool_active, 8);
}

#[test]
fn test_record_collection_cycle_duration_sets_gauge() {
    let mut registry = MetricsRegistry::new();
    registry.record_collection_cycle_duration(12);
    assert_eq!(registry.collection_cycle_duration_ms, 12);
    registry.record_collection_cycle_duration(1234);
    assert_eq!(registry.collection_cycle_duration_ms, 1234);
}

#[test]
fn test_update_connection_errors_sets_gauge() {
    let mut registry = MetricsRegistry::new();
    let labels = RouterLabels { router: "router1".to_string() };
    registry.update_connection_errors(&labels, 0);
    let encoded = registry.encode_metrics().unwrap();
    assert!(encoded.contains("mikrotik_connection_consecutive_errors{router=\"router1\"} 0"));
    registry.update_connection_errors(&labels, 3);
    let encoded = registry.encode_metrics().unwrap();
    assert!(encoded.contains("mikrotik_connection_consecutive_errors{router=\"router1\"} 3"));
}

#[test]
fn test_interface_labels_with_metrics() {
    let mut registry = MetricsRegistry::new();
    let iface1 = make_interface("ether1", 1000, 2000, 10, 20, 0, 0, true);
    let iface2 = make_interface("ether2", 3000, 4000, 30, 40, 1, 2, false);
    registry.update_metrics(&make_router_metrics("router1", vec![iface1, iface2], make_system("7.10", "RB750Gr3", "1d")), 0);
    assert_eq!(registry.interface_totals("router1", "ether1").rx_bytes, 0);
    assert_eq!(registry.interface_totals("router1", "ether2").rx_bytes, 0);
    assert_eq!(registry.interface_running("router1", "ether1"), Some(true));
    assert_eq!(registry.interface_running("router1", "ether2"), Some(false));
}

#[test]
fn test_system_metrics_gauge_values() {
    let mut registry = MetricsRegistry::new();
    let iface = make_interface("ether1", 1000, 2000, 10, 20, 0, 0, true);
    let system = SystemResource {
        uptime: "1d2h3m4s".to_string(),
        cpu_load: 50,
        free_memory: 512 * 1024 * 1024,
        total_memory: 1024 * 1024 * 1024,
        version: "7.10".to_string(),
        board_name: "RB750Gr3".to_string(),
    };
    registry.update_metrics(&make_router_metrics("router1", vec![iface], system), 0);
    let g = registry.system_gauges("router1").unwrap();
    assert_eq!(g.cpu_load, 50);
    assert_eq!(g.free_memory, 512 * 1024 * 1024);
    assert_eq!(g.total_memory, 1024 * 1024 * 1024);
    assert_eq!(g.uptime_seconds, 93784);
}

#[test]
fn test_connection_tracking_multi_router() {
    let mut registry = MetricsRegistry::new();
    let iface = make_interface("ether1", 1000, 2000, 10, 20, 0, 0, true);
    let system = make_system("7.10", "RB750Gr3", "1d2h3m4s");
    let mut metrics1 = make_router_metrics("router1", vec![iface.clone()], system.clone());
    metrics1.connection_tracking = vec![
        make_conntrack("192.168.1.1", "tcp", 100, "ipv4"),
        make_conntrack("192.168.1.1", "udp", 50, "ipv4"),
    ];
    registry.update_metrics(&metrics1, 0);
    let mut metrics2 = make_router_metrics("router2", vec![iface.clone()], system.clone());
    metrics2.connection_tracking = vec![
        make_conntrack("10.0.0.1", "tcp", 200, "ipv4"),
        make_conntrack("10.0.0.1", "icmp", 10, "ipv4"),
    ];
    registry.update_metrics(&metrics2, 0);
    assert_eq!(registry.conntrack_value("router1", "192.168.1.1", "tcp", "ipv4"), Some(100));
    assert_eq!(registry.conntrack_value("router1", "192.168.1.1", "udp", "ipv4"), Some(50));
    assert_eq!(registry.conntrack_value("router2", "10.0.0.1", "tcp", "ipv4"), Some(200));
    assert_eq!(registry.conntrack_value("router2", "10.0.0.1", "icmp", "ipv4"), Some(10));
    metrics1.connection_tracking = vec![make_conntrack("192.168.1.1", "tcp", 150, "ipv4")];
    registry.update_metrics(&metrics1, 1);
    assert_eq!(registry.conntrack_value("router1", "192.168.1.1", "tcp", "ipv4"), Some(150));
    assert_eq!(registry.conntrack_value("router1", "192.168.1.1", "udp", "ipv4"), Some(0));
    assert_eq!(registry.conntrack_value("router2", "10.0.0.1", "tcp", "ipv4"), Some(200));
    assert_eq!(registry.conntrack_value("router2", "10.0.0.1", "icmp", "ipv4"), Some(10));
}

#[test]
fn test_system_info_stale_label_reset_on_version_change() {
    let mut registry = MetricsRegistry::new();
    let iface = make_interface("ether1", 1000, 2000, 10, 20, 0, 0, true);
    registry.update_metrics(&make_router_metrics("R", vec![iface.clone()], make_system("7.10", "RB750Gr3", "1d")), 0);
    registry.update_metrics(&make_router_metrics("R", vec![iface], make_system("7.11", "RB750Gr3", "1d")), 1);
    assert_eq!(registry.system_info_value("R", "7.10", "RB750Gr3"), Some(0));
    assert_eq!(registry.system_info_value("R", "7.11", "RB750Gr3"), Some(1));
}

#[test]
fn test_system_info_no_reset_when_unchanged() {
    let mut registry = MetricsRegistry::new();
    let iface = make_interface("ether1", 1000, 2000, 10, 20, 0, 0, true);
    registry.update_metrics(&make_router_metrics("R", vec![iface.clone()], make_system("7.10", "RB750Gr3", "1d")), 0);
    registry.update_metrics(&make_router_metrics("R", vec![iface], make_system("7.10", "RB750Gr3", "1d")), 1);
    assert_eq!(registry.system_info_value("R", "7.10", "RB750Gr3"), Some(1));
}

#[test]
fn single_router_two_scrapes() {
    let mut registry = MetricsRegistry::new();
    let mut s1 = make_system("7.10", "RB750Gr3", "1d");
    s1.cpu_load = 10;
    s1.free_memory = 512 * 1024 * 1024;
    s1.total_memory = 1024 * 1024 * 1024;
    let i1 = make_interface("ether1", 1000, 2000, 0, 0, 0, 0, true);
    registry.update_metrics(&make_router_metrics("router1", vec![i1], s1.clone()), 0);
    let mut s2 = s1.clone();
    s2.cpu_load = 12;
    let i2 = make_interface("ether1", 1500, 2500, 0, 0, 0, 0, true);
    registry.update_metrics(&make_router_metrics("router1", vec![i2], s2), 1);
    let t = registry.interface_totals("router1", "ether1");
    assert_eq!(t.rx_bytes, 500);
    assert_eq!(t.tx_bytes, 500);
    assert_eq!(registry.interface_running("router1", "ether1"), Some(true));
    let g = registry.system_gauges("router1").unwrap();
    assert_eq!(g.cpu_load, 12);
    assert_eq!(g.uptime_seconds, 86400);
    assert_eq!(registry.system_info_value("router1", "7.10", "RB750Gr3"), Some(1));
}

#[test]
fn counter_reset_adds_nothing() {
    let mut registry = MetricsRegistry::new();
    let s = make_system("7.10", "RB750Gr3", "1d");
    registry.update_metrics(&make_router_metrics("r", vec![make_interface("e", 5000, 0, 0, 0, 0, 0, true)], s.clone()), 0);
    registry.update_metrics(&make_router_metrics("r", vec![make_interface("e", 1000, 0, 0, 0, 0, 0, true)], s.clone()), 1);
    assert_eq!(registry.interface_totals("r", "e").rx_bytes, 0);
    registry.update_metrics(&make_router_metrics("r", vec![make_interface("e", 1700, 0, 0, 0, 0, 0, true)], s), 2);
    assert_eq!(registry.interface_totals("r", "e").rx_bytes, 700);
}

#[test]
fn counters_never_decrease_over_a_series() {
    let mut registry = MetricsRegistry::new();
    let s = make_system("7.10", "RB750Gr3", "1d");
    let mut last = 0;
    for (t, rx) in [100u64, 50, 400, 400, 10, 9000].iter().enumerate() {
        registry.update_metrics(&make_router_metrics("r", vec![make_interface("e", *rx, 0, 0, 0, 0, 0, true)], s.clone()), t as u64);
        let now = registry.interface_totals("r", "e").rx_bytes;
        assert!(now >= last);
        last = now;
    }
    assert_eq!(last, 350 + 8990);
}

#[test]
fn dynamic_labels_expire_after_ttl() {
    let mut registry = MetricsRegistry::new();
    let mut m = make_router_metrics("r", vec![], make_system("7.10", "b", "1d"));
    m.connection_tracking = vec![make_conntrack("10.0.0.1", "tcp", 3, "ipv4")];
    registry.update_metrics(&m, 1_000);
    registry.cleanup_expired_dynamic_labels(1_800_000, 1_000 + 1_800_000);
    assert_eq!(registry.conntrack_value("r", "10.0.0.1", "tcp", "ipv4"), Some(3));
    registry.cleanup_expired_dynamic_labels(1_800_000, 1_000 + 1_800_001);
    assert_eq!(registry.conntrack_value("r", "10.0.0.1", "tcp", "ipv4"), None);
}

#[test]
fn stale_router_purge_removes_every_family() {
    let mut registry = MetricsRegistry::new();
    let iface = make_interface("ether1", 1, 1, 1, 1, 0, 0, true);
    registry.update_metrics(&make_router_metrics("gone", vec![iface.clone()], make_system("7.10", "b", "1d")), 0);
    registry.update_metrics(&make_router_metrics("kept", vec![iface], make_system("7.10", "b", "1d")), 0);
    registry.record_scrape_success(&RouterLabels { router: "gone".to_string() }, 5);
    registry.cleanup_stale_routers(&["kept".to_string()]);
    assert_eq!(registry.system_info_value("gone", "7.10", "b"), None);
    assert_eq!(registry.interface_running("gone", "ether1"), None);
    assert_eq!(registry.get_scrape_success_count(&RouterLabels { router: "gone".to_string() }), 0);
    assert_eq!(registry.system_info_value("kept", "7.10", "b"), Some(1));
}

#[test]
fn stale_interfaces_are_dropped() {
    let mut registry = MetricsRegistry::new();
    let a = make_interface("a", 1, 1, 1, 1, 0, 0, true);
    let b = make_interface("b", 1, 1, 1, 1, 0, 0, true);
    registry.update_metrics(&make_router_metrics("r", vec![a, b], make_system("7.10", "x", "1d")), 0);
    registry.cleanup_stale_interfaces(&[InterfaceLabels { router: "r".to_string(), interface: "a".to_string() }]);
    assert_eq!(registry.interface_running("r", "a"), Some(true));
    assert_eq!(registry.interface_running("r", "b"), None);
}

#[test]
fn peers_are_deduplicated_by_handshake_then_bytes() {
    let peer = |hs: Option<u64>, rx: u64, name: &str| WireGuardPeerStats {
        interface: "wg0".to_string(),
        name: name.to_string(),
        allowed_address: "10.0.0.2/32".to_string(),
        endpoint: None,
        rx_bytes: rx,
        tx_bytes: 0,
        latest_handshake: hs,
    };
    let mut registry = MetricsRegistry::new();
    let mut m = make_router_metrics("r", vec![], make_system("7.10", "x", "1d"));
    m.wireguard_peers = vec![peer(Some(10), 5, "a"), peer(Some(20), 1, "b"), peer(None, 999, "c")];
    registry.update_metrics(&m, 0);
    let g = registry.peer_gauges("r", "wg0", "10.0.0.2/32").unwrap();
    assert_eq!(g.latest_handshake, 20);
    assert_eq!(g.rx_bytes, 1);
    m.wireguard_peers = vec![];
    registry.update_metrics(&m, 1);
    let g = registry.peer_gauges("r", "wg0", "10.0.0.2/32").unwrap();
    assert_eq!((g.rx_bytes, g.tx_bytes, g.latest_handshake), (0, 0, 0));
}

#[test]
fn test_concurrent_updates() {
    let mut registry = MetricsRegistry::new();
    for i in 0..5u64 {
        let iface = make_interface(&format!("ether{}", i), 1000 * (i + 1), 2000 * (i + 1), 10 * (i + 1), 20 * (i + 1), 0, 0, true);
        let metrics = make_router_metrics(&format!("router{}", i), vec![iface], make_system("7.10", "RB750Gr3", "1d"));
        registry.update_metrics(&metrics, i);
    }
    let encoded = registry.encode_metrics().expect("Failed to encode");
    for i in 0..5 {
        assert!(encoded.contains(&format!("ether{}", i)));
        assert!(encoded.contains(&format!("router{}", i)));
    }
}

#[test]
fn metrics_contains_registered_metric_names() {
    let mut registry = MetricsRegistry::new();
    registry.initialize_router_metrics(&RouterLabels { router: "r1".to_string() });
    let body = registry.encode_metrics().unwrap();
    assert!(body.contains("mikrotik_connection_pool_size"));
    assert!(body.contains("mikrotik_connection_pool_active"));
    assert!(body.contains("mikrotik_collection_cycle_duration_milliseconds"));
}

#[test]
fn metrics_contains_router_data_after_update() {
    let mut registry = MetricsRegistry::new();
    let iface = make_interface("ether1", 1000, 2000, 10, 20, 0, 0, true);
    let system = SystemResource {
        uptime: "1d".to_string(),
        cpu_load: 42,
        free_memory: 512_000_000,
        total_memory: 1_024_000_000,
        version: "7.10".to_string(),
        board_name: "RB750Gr3".to_string(),
    };
    registry.update_metrics(&make_router_metrics("myrouter", vec![iface], system), 0);
    let body = registry.encode_metrics().unwrap();
    assert!(body.contains("router=\"myrouter\""));
    assert!(body.contains("interface=\"ether1\""));
    assert!(body.contains("mikrotik_system_cpu_load"));
}

#[test]
fn rendered_text_has_help_and_type_lines() {
    let mut registry = MetricsRegistry::new();
    let body = registry.encode_metrics().unwrap();
    assert!(body.contains("# HELP mikrotik_connection_pool_size Total number of connections in pool.\n"));
    assert!(body.contains("# TYPE mikrotik_connection_pool_size gauge\n"));
    assert!(!body.contains("mikrotik_scrape_success"));
    registry.record_scrape_success(&RouterLabels { router: "r".to_string() }, 1);
    let body = registry.encode_metrics().unwrap();
    assert!(body.contains("# HELP mikrotik_scrape_success Successful scrape cycles per router.\n"));
    assert!(body.contains("# TYPE mikrotik_scrape_success counter\n"));
    assert!(body.contains("mikrotik_scrape_success_total{router=\"r\"} 1"));
}
