use mikrotik_exporter::collector::{assemble_metrics, cleanup_due, finish_scrape, Replies};
use mikrotik_exporter::{MetricsRegistry, RouterLabels, Sentence, SystemInfoCache, SystemResource};

fn row_of(pairs: &[(&str, &str)]) -> Sentence {
    let mut s = Sentence::new();
    for (k, v) in pairs {
        s.insert(k, v);
    }
    s
}

fn resource(version: &str) -> SystemResource {
    SystemResource {
        uptime: "1d".to_string(),
        cpu_load: 1,
        free_memory: 2,
        total_memory: 3,
        version: version.to_string(),
        board_name: "b".to_string(),
    }
}

#[test]
fn scrape_fails_without_primary_replies() {
    let replies = Replies {
        system: None,
        interfaces: Some(vec![]),
        conntrack_v4: None,
        conntrack_v6: None,
        wireguard_interfaces: None,
        wireguard_peers: None,
    };
    assert!(assemble_metrics("r", &replies, 0).is_none());
}

#[test]
fn optional_failures_give_empty_domains() {
    let replies = Replies {
        system: Some(vec![row_of(&[("version", "7.10"), ("uptime", "1d")])]),
        interfaces: Some(vec![row_of(&[("name", "ether1"), ("rx-byte", "5")])]),
        conntrack_v4: Some(vec![row_of(&[("src-address", "10.0.0.1:1"), ("protocol", "tcp")])]),
        conntrack_v6: Some(vec![row_of(&[("src-address", "[::1]:2"), ("protocol", "udp")])]),
        wireguard_interfaces: None,
        wireguard_peers: None,
    };
    let m = assemble_metrics("r", &replies, 0).unwrap();
    assert_eq!(m.router_name, "r");
    assert_eq!(m.system.version, "7.10");
    assert_eq!(m.interfaces[0].rx_bytes, 5);
    assert_eq!(m.connection_tracking.len(), 2);
    assert_eq!(m.connection_tracking[1].ip_version, "ipv6");
    assert!(m.wireguard_interfaces.is_empty());
    assert!(m.wireguard_peers.is_empty());
}

#[test]
fn finish_scrape_counts_outcomes() {
    let mut registry = MetricsRegistry::new();
    let labels = RouterLabels { router: "r".to_string() };
    finish_scrape(&mut registry, "r", None, 12, 100, 1, Some(4));
    assert_eq!(registry.get_scrape_error_count(&labels), 1);
    assert_eq!(registry.get_scrape_success_count(&labels), 0);
}

#[test]
fn cleanup_runs_every_twentieth_cycle() {
    assert!(!cleanup_due(0));
    assert!(!cleanup_due(19));
    assert!(cleanup_due(20));
    assert!(cleanup_due(40));
}

#[test]
fn system_info_cache_set_get_cleanup() {
    let mut cache = SystemInfoCache::new();
    assert!(cache.get("a").is_none());
    cache.set("a".to_string(), resource("7.10"));
    cache.set("b".to_string(), resource("7.9"));
    cache.set("a".to_string(), resource("7.11"));
    assert_eq!(cache.get("a").unwrap().version, "7.11");
    assert_eq!(cache.entries.len(), 2);
    cache.cleanup_stale(&["b".to_string()]);
    assert!(cache.get("a").is_none());
    assert_eq!(cache.get("b").unwrap().version, "7.9");
}

#[test]
fn finish_scrape_records_duration_and_pool_errors() {
    let mut registry = MetricsRegistry::new();
    let labels = RouterLabels { router: "r".to_string() };
    let replies = Replies {
        system: Some(vec![row_of(&[("version", "7.10")])]),
        interfaces: Some(vec![row_of(&[("name", "ether1"), ("running", "true")])]),
        conntrack_v4: None,
        conntrack_v6: None,
        wireguard_interfaces: None,
        wireguard_peers: None,
    };
    let m = assemble_metrics("r", &replies, 0).unwrap();
    finish_scrape(&mut registry, "r", Some(&m), 42, 1_700_000_000, 5, Some(2));
    let rec = registry.scrape_record(&labels);
    assert_eq!(rec.success, 1);
    assert_eq!(rec.duration_ms, Some(42));
    assert_eq!(rec.connection_errors, Some(2));
    assert_eq!(rec.last_success_timestamp, Some(1_700_000_000));
    assert_eq!(registry.interface_running("r", "ether1"), Some(true));
    assert_eq!(registry.system_info_value("r", "7.10", "unknown"), Some(1));
}
