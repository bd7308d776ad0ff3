use mikrotik_exporter::{
    get_field_value, parse_handshake_to_timestamp, parse_routeros_duration,
    parse_wireguard_interfaces, parse_wireguard_peers, Sentence,
};
use std::time::{SystemTime, UNIX_EPOCH};

fn unix_now() -> u64 {
    SystemTime::now().duration_since(UNIX_EPOCH).unwrap().as_secs()
}

#[test]
fn test_parse_wireguard_interfaces_empty() {
    let result = parse_wireguard_interfaces(&[]);
    assert_eq!(result.len(), 0);
}

#[test]
fn test_parse_wireguard_interfaces_single() {
    let mut data = Sentence::new();
    data.insert("name", "wg1");
    data.insert("disabled", "false");

    let result = parse_wireguard_interfaces(&[data]);
    assert_eq!(result.len(), 1);
    assert_eq!(result[0].name, "wg1");
    assert!(result[0].enabled);
}

#[test]
fn test_parse_wireguard_interfaces_disabled() {
    let mut data = Sentence::new();
    data.insert("name", "wg1");
    data.insert("disabled", "true");

    let result = parse_wireguard_interfaces(&[data]);
    assert_eq!(result.len(), 1);
    assert_eq!(result[0].name, "wg1");
    assert!(!result[0].enabled);
}

#[test]
fn test_parse_wireguard_interfaces_multiple() {
    let mut iface1 = Sentence::new();
    iface1.insert("name", "wg1");
    iface1.insert("disabled", "false");

    let mut iface2 = Sentence::new();
    iface2.insert("name", "wg2");
    iface2.insert("disabled", "true");

    let result = parse_wireguard_interfaces(&[iface1, iface2]);
    assert_eq!(result.len(), 2);
    assert_eq!(result[0].name, "wg1");
    assert!(result[0].enabled);
    assert_eq!(result[1].name, "wg2");
    assert!(!result[1].enabled);
}

#[test]
fn test_parse_wireguard_interfaces_missing_name() {
    let mut data = Sentence::new();
    data.insert("disabled", "false");

    let result = parse_wireguard_interfaces(&[data]);
    assert_eq!(result.len(), 0);
}

#[test]
fn test_parse_wireguard_interfaces_no_disabled_field() {
    let mut data = Sentence::new();
    data.insert("name", "wg1");

    let result = parse_wireguard_interfaces(&[data]);
    assert_eq!(result.len(), 1);
    assert_eq!(result[0].name, "wg1");
    assert!(result[0].enabled); // Default to enabled when disabled field is missing
}

#[test]
fn test_parse_wireguard_peers_empty() {
    let result = parse_wireguard_peers(&[], unix_now());
    assert_eq!(result.len(), 0);
}

#[test]
fn test_parse_wireguard_peers_single() {
    let mut data = Sentence::new();
    data.insert("interface", "wg1");
    data.insert("name", "peer1");
    data.insert("allowed-address", "10.10.10.1/32");
    data.insert("endpoint", "192.168.1.1:51820");
    data.insert("rx", "1024");
    data.insert("tx", "2048");
    data.insert("last-handshake", "never");

    let result = parse_wireguard_peers(&[data], unix_now());
    assert_eq!(result.len(), 1);
    assert_eq!(result[0].interface, "wg1");
    assert_eq!(result[0].name, "peer1");
    assert_eq!(result[0].allowed_address, "10.10.10.1/32");
    assert_eq!(result[0].endpoint, Some("192.168.1.1:51820".to_string()));
    assert_eq!(result[0].rx_bytes, 1024);
    assert_eq!(result[0].tx_bytes, 2048);
    assert_eq!(result[0].latest_handshake, None);
}

#[test]
fn test_parse_wireguard_peers_with_handshake() {
    let mut data = Sentence::new();
    data.insert("interface", "wg1");
    data.insert("name", "peer1");
    data.insert("allowed-address", "10.10.10.1/32");
    data.insert("endpoint", "192.168.1.1:51820");
    data.insert("rx", "1024");
    data.insert("tx", "2048");
    data.insert("last-handshake", "120"); // 120 seconds since last handshake

    let result = parse_wireguard_peers(&[data], unix_now());
    assert_eq!(result.len(), 1);
    assert_eq!(result[0].interface, "wg1");
    assert_eq!(result[0].name, "peer1");
    assert_eq!(result[0].allowed_address, "10.10.10.1/32");
    assert_eq!(result[0].endpoint, Some("192.168.1.1:51820".to_string()));
    assert_eq!(result[0].rx_bytes, 1024);
    assert_eq!(result[0].tx_bytes, 2048);
    assert!(result[0].latest_handshake.is_some());
    let handshake = result[0].latest_handshake.unwrap();
    let now = unix_now();
    assert!(handshake <= now);
    assert!(handshake >= now - 130); // account for test execution time
}

#[test]
fn test_parse_wireguard_peers_missing_fields() {
    let mut data = Sentence::new();
    data.insert("interface", "wg1");
    data.insert("name", "peer1");
    data.insert("allowed-address", "10.10.10.1/32");
    // Missing endpoint, rx, tx, last-handshake

    let result = parse_wireguard_peers(&[data], unix_now());
    assert_eq!(result.len(), 1);
    assert_eq!(result[0].interface, "wg1");
    assert_eq!(result[0].name, "peer1");
    assert_eq!(result[0].allowed_address, "10.10.10.1/32");
    assert_eq!(result[0].endpoint, None);
    assert_eq!(result[0].rx_bytes, 0);
    assert_eq!(result[0].tx_bytes, 0);
    assert_eq!(result[0].latest_handshake, None);
}

#[test]
fn test_parse_wireguard_peers_missing_name_field() {
    let mut data = Sentence::new();
    data.insert("interface", "wg1");
    data.insert("allowed-address", "10.10.10.1/32");
    // Missing name field

    let result = parse_wireguard_peers(&[data], unix_now());
    assert_eq!(result.len(), 1);
    assert_eq!(result[0].interface, "wg1");
    assert_eq!(result[0].name, "unnamed-peer"); // Should use default name
    assert_eq!(result[0].allowed_address, "10.10.10.1/32");
    assert_eq!(result[0].endpoint, None);
    assert_eq!(result[0].rx_bytes, 0);
    assert_eq!(result[0].tx_bytes, 0);
    assert_eq!(result[0].latest_handshake, None);
}

#[test]
fn test_parse_wireguard_peers_invalid_numbers() {
    let mut data = Sentence::new();
    data.insert("interface", "wg1");
    data.insert("name", "peer1");
    data.insert("allowed-address", "10.10.10.1/32");
    data.insert("rx", "invalid");
    data.insert("tx", "also-invalid");

    let result = parse_wireguard_peers(&[data], unix_now());
    assert_eq!(result.len(), 1);
    assert_eq!(result[0].rx_bytes, 0);
    assert_eq!(result[0].tx_bytes, 0);
}

#[test]
fn test_parse_wireguard_peers_missing_interface() {
    let mut data = Sentence::new();
    data.insert("allowed-address", "10.10.10.1/32");

    let result = parse_wireguard_peers(&[data], unix_now());
    assert_eq!(result.len(), 0);
}

#[test]
fn test_parse_wireguard_peers_missing_allowed_address() {
    let mut data = Sentence::new();
    data.insert("interface", "wg1");
    data.insert("name", "peer1");

    let result = parse_wireguard_peers(&[data], unix_now());
    assert_eq!(result.len(), 0);
}

#[test]
fn test_parse_wireguard_peers_multiple() {
    let mut peer1 = Sentence::new();
    peer1.insert("interface", "wg1");
    peer1.insert("name", "peer1");
    peer1.insert("allowed-address", "10.10.10.1/32");
    peer1.insert("endpoint", "192.168.1.1:51820");
    peer1.insert("rx", "1024");
    peer1.insert("tx", "2048");

    let mut peer2 = Sentence::new();
    peer2.insert("interface", "wg1");
    peer2.insert("name", "peer2");
    peer2.insert("allowed-address", "10.10.10.2/32");
    peer2.insert("endpoint", "192.168.1.2:51820");
    peer2.insert("rx", "2048");
    peer2.insert("tx", "4096");

    let result = parse_wireguard_peers(&[peer1, peer2], unix_now());
    assert_eq!(result.len(), 2);
    assert_eq!(result[0].interface, "wg1");
    assert_eq!(result[0].name, "peer1");
    assert_eq!(result[0].allowed_address, "10.10.10.1/32");
    assert_eq!(result[0].endpoint, Some("192.168.1.1:51820".to_string()));
    assert_eq!(result[0].rx_bytes, 1024);
    assert_eq!(result[0].tx_bytes, 2048);

    assert_eq!(result[1].interface, "wg1");
    assert_eq!(result[1].name, "peer2");
    assert_eq!(result[1].allowed_address, "10.10.10.2/32");
    assert_eq!(result[1].endpoint, Some("192.168.1.2:51820".to_string()));
    assert_eq!(result[1].rx_bytes, 2048);
    assert_eq!(result[1].tx_bytes, 4096);
}

#[test]
fn test_parse_handshake_to_timestamp() {
    let now = unix_now();

    // Test that the function returns None for "never"
    assert_eq!(parse_handshake_to_timestamp("never", now), None);

    // Test that the function returns None for empty string
    assert_eq!(parse_handshake_to_timestamp("", now), None);

    // Test that the function correctly parses plain integer values (backward compatibility)
    let ts0 = parse_handshake_to_timestamp("0", now).unwrap();
    assert!(ts0 <= now && ts0 >= now - 2);

    let ts120 = parse_handshake_to_timestamp("120", now).unwrap();
    assert!(ts120 <= now - 120 && ts120 >= now - 122);

    // Test that the function correctly parses RouterOS duration format
    let ts7s = parse_handshake_to_timestamp("7s", now).unwrap();
    assert!(ts7s <= now - 7 && ts7s >= now - 9);

    let ts90s = parse_handshake_to_timestamp("1m30s", now).unwrap();
    assert!(ts90s <= now - 90 && ts90s >= now - 92);

    // Test zero duration
    let ts0s = parse_handshake_to_timestamp("0s", now).unwrap();
    assert!(ts0s <= now && ts0s >= now - 2);
}

#[test]
fn test_parse_routeros_duration() {
    // Test the helper function directly
    assert_eq!(parse_routeros_duration("7s"), Some(7));
    assert_eq!(parse_routeros_duration("1m30s"), Some(90));
    assert_eq!(parse_routeros_duration("2h30m"), Some(9000));
    assert_eq!(parse_routeros_duration("1d2h"), Some(93600));
    assert_eq!(parse_routeros_duration("1w2d"), Some(777600));
    assert_eq!(parse_routeros_duration("1w4d9h15m7s"), Some(983707)); // Correct calculation
    assert_eq!(parse_routeros_duration(""), Some(0));
    assert_eq!(parse_routeros_duration("0s"), Some(0));
}

#[test]
fn test_get_field_value() {
    let mut data = Sentence::new();
    data.insert("last-handshake", "120");

    // Test exact match
    assert_eq!(
        get_field_value(&data, &["last-handshake"]),
        Some("120".to_string())
    );

    // Test fallback to second option
    assert_eq!(
        get_field_value(&data, &["latest-handshake", "last-handshake"]),
        Some("120".to_string())
    );

    // Test no match
    assert_eq!(get_field_value(&data, &["nonexistent"]), None);
}

#[test]
fn test_parse_routeros_duration_overflow_protection() {
    // Test with a very large number that could cause overflow
    // This should safely saturate rather than panic
    assert_eq!(
        parse_routeros_duration("9999999999999999999999999999999999999999s"),
        Some(u64::MAX)
    );
}

#[test]
fn handshake_at_fixed_time() {
    assert_eq!(parse_handshake_to_timestamp("1m30s", 1_000), Some(910));
    assert_eq!(parse_handshake_to_timestamp("120", 100), Some(0));
    assert_eq!(parse_handshake_to_timestamp("never", 1_000), None);
}

#[test]
fn peer_reads_older_handshake_field_name() {
    let mut data = Sentence::new();
    data.insert("interface", "wg0");
    data.insert("allowed-address", "10.0.0.2/32");
    data.insert("latest-handshake", "10s");
    let result = parse_wireguard_peers(&[data], 500);
    assert_eq!(result[0].latest_handshake, Some(490));
}
