use mikrotik_exporter::health::health_report;
use mikrotik_exporter::{MetricsRegistry, RouterLabels};

#[test]
fn health_status_transitions() {
    let mut registry = MetricsRegistry::new();
    let routers = vec!["router1".to_string()];
    let (doc, code) = health_report(&registry, &routers, "0.1.0");
    assert_eq!((doc.status.as_str(), code), ("healthy", 200));
    assert_eq!(doc.routers[0].status, "unknown");
    let label = RouterLabels { router: "router1".to_string() };
    registry.record_scrape_success(&label, 100);
    let (doc, code) = health_report(&registry, &routers, "0.1.0");
    assert_eq!((doc.routers[0].status.as_str(), code), ("healthy", 200));
    assert!(doc.routers[0].has_successful_scrape);
    for _ in 0..3 {
        registry.record_scrape_error(&label);
    }
    let (doc, code) = health_report(&registry, &routers, "0.1.0");
    assert_eq!((doc.routers[0].status.as_str(), code), ("degraded", 503));
    assert_eq!(doc.status, "degraded");
    assert_eq!(doc.routers[0].consecutive_errors, 3);
}

#[test]
fn health_without_routers_is_healthy() {
    let registry = MetricsRegistry::new();
    let (doc, code) = health_report(&registry, &[], "0.1.0");
    assert_eq!(doc.status, "healthy");
    assert_eq!(code, 200);
    assert!(doc.routers.is_empty());
}

fn names_of(routers: &[&str]) -> Vec<String> {
    routers.iter().map(|r| r.to_string()).collect()
}

#[test]
fn health_returns_200_for_empty_config() {
    let registry = MetricsRegistry::new();
    let (doc, code) = health_report(&registry, &names_of(&[]), "0.1.0");
    assert_eq!(code, 200);
    assert_eq!(doc.status, "healthy");
}

#[test]
fn health_returns_unknown_before_first_scrape() {
    let registry = MetricsRegistry::new();
    let (doc, code) = health_report(&registry, &names_of(&["r1"]), "0.1.0");
    assert_eq!(code, 200);
    assert_eq!(doc.routers[0].status, "unknown");
    assert!(!doc.routers[0].has_successful_scrape);
}

#[test]
fn health_returns_healthy_after_successful_scrape() {
    let mut registry = MetricsRegistry::new();
    registry.record_scrape_success(&RouterLabels { router: "r1".to_string() }, 1);
    let (doc, code) = health_report(&registry, &names_of(&["r1"]), "0.1.0");
    assert_eq!(code, 200);
    assert_eq!(doc.status, "healthy");
    assert_eq!(doc.routers[0].status, "healthy");
    assert!(doc.routers[0].has_successful_scrape);
}

#[test]
fn health_returns_degraded_on_errors_without_success() {
    let mut registry = MetricsRegistry::new();
    registry.record_scrape_error(&RouterLabels { router: "r1".to_string() });
    let (doc, code) = health_report(&registry, &names_of(&["r1"]), "0.1.0");
    assert_eq!(code, 503);
    assert_eq!(doc.status, "degraded");
    assert_eq!(doc.routers[0].status, "degraded");
}

#[test]
fn health_returns_degraded_with_multiple_errors() {
    let mut registry = MetricsRegistry::new();
    let label = RouterLabels { router: "r1".to_string() };
    registry.record_scrape_error(&label);
    registry.record_scrape_error(&label);
    registry.record_scrape_error(&label);
    let (doc, code) = health_report(&registry, &names_of(&["r1"]), "0.1.0");
    assert_eq!(code, 503);
    assert_eq!(doc.routers[0].status, "degraded");
}

#[test]
fn health_multi_router_partial_degradation() {
    let mut registry = MetricsRegistry::new();
    registry.record_scrape_success(&RouterLabels { router: "healthy-r".to_string() }, 1);
    registry.record_scrape_error(&RouterLabels { router: "bad-r".to_string() });
    let (doc, code) = health_report(&registry, &names_of(&["healthy-r", "bad-r"]), "0.1.0");
    assert_eq!(code, 503);
    assert_eq!(doc.status, "degraded");
    let healthy = doc.routers.iter().find(|r| r.name == "healthy-r").unwrap();
    let bad = doc.routers.iter().find(|r| r.name == "bad-r").unwrap();
    assert_eq!(healthy.status, "healthy");
    assert_eq!(bad.status, "degraded");
}

#[test]
fn pool_errors_degrade_a_router_with_successes() {
    let mut registry = MetricsRegistry::new();
    let label = RouterLabels { router: "r1".to_string() };
    registry.record_scrape_success(&label, 1);
    registry.update_connection_errors(&label, 2);
    let (doc, code) = health_report(&registry, &names_of(&["r1"]), "0.1.0");
    assert_eq!((doc.routers[0].status.as_str(), code), ("healthy", 200));
    registry.update_connection_errors(&label, 3);
    let (doc, code) = health_report(&registry, &names_of(&["r1"]), "0.1.0");
    assert_eq!((doc.routers[0].status.as_str(), code), ("degraded", 503));
    assert_eq!(doc.routers[0].consecutive_errors, 3);
}
