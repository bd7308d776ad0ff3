use mikrotik_exporter::pool::Acquire;
use mikrotik_exporter::{ConnectionPool, ConnectionState};
use std::time::Duration;

#[test]
fn test_connection_state_new() {
    let state = ConnectionState::new();
    assert_eq!(state.consecutive_errors, 0);
    assert!(state.last_error_time.is_none());
    assert!(state.last_success_time.is_none());
}

#[test]
fn test_connection_state_record_success() {
    let mut state = ConnectionState::new();
    state.consecutive_errors = 5;
    state.record_success(1_000);
    assert_eq!(state.consecutive_errors, 0);
    assert!(state.last_success_time.is_some());
}

#[test]
fn test_connection_state_record_error() {
    let mut state = ConnectionState::new();
    state.record_error(1_000);
    assert_eq!(state.consecutive_errors, 1);
    assert!(state.last_error_time.is_some());
    state.record_error(2_000);
    assert_eq!(state.consecutive_errors, 2);
}

#[test]
fn test_connection_state_backoff_delay() {
    let mut state = ConnectionState::new();
    assert_eq!(Duration::from_secs(state.backoff_delay()), Duration::from_secs(1));
    state.record_error(0);
    assert_eq!(Duration::from_secs(state.backoff_delay()), Duration::from_secs(2));
    state.record_error(0);
    assert_eq!(Duration::from_secs(state.backoff_delay()), Duration::from_secs(4));
    state.record_error(0);
    assert_eq!(Duration::from_secs(state.backoff_delay()), Duration::from_secs(8));
    for _ in 0..5 {
        state.record_error(0);
    }
    assert_eq!(state.consecutive_errors, 8);
    assert_eq!(Duration::from_secs(state.backoff_delay()), Duration::from_secs(256));
    state.record_error(0);
    assert_eq!(state.consecutive_errors, 9);
    assert_eq!(Duration::from_secs(state.backoff_delay()), Duration::from_secs(256));
    for _ in 0..10 {
        state.record_error(0);
    }
    assert_eq!(Duration::from_secs(state.backoff_delay()), Duration::from_secs(256));
}

#[test]
fn test_connection_state_should_skip_attempt() {
    let mut state = ConnectionState::new();
    assert!(!state.should_skip_attempt(0));
    state.record_error(0);
    assert!(!state.should_skip_attempt(0));
    state.record_error(0);
    assert!(!state.should_skip_attempt(0));
    state.record_error(0);
    assert!(state.should_skip_attempt(0));
}

#[test]
fn test_connection_pool_new() {
    let pool: ConnectionPool<()> = ConnectionPool::new();
    assert_eq!(Duration::from_millis(pool.max_idle_ms), Duration::from_secs(300));
}

#[test]
fn test_connection_pool_default() {
    let pool: ConnectionPool<()> = ConnectionPool::default();
    assert_eq!(Duration::from_millis(pool.max_idle_ms), Duration::from_secs(300));
}

#[test]
fn test_connection_pool_stats_empty() {
    let pool: ConnectionPool<()> = ConnectionPool::new();
    let (total, active) = pool.get_pool_stats();
    assert_eq!(total, 0);
    assert_eq!(active, 0);
}

#[test]
fn test_record_success() {
    let mut pool: ConnectionPool<()> = ConnectionPool::new();
    pool.record_success("192.168.1.1", "admin", 10);
    assert_eq!(pool.get_connection_state("192.168.1.1", "admin"), Some((0, true)));
}

#[test]
fn test_record_error() {
    let mut pool: ConnectionPool<()> = ConnectionPool::new();
    pool.record_error("192.168.1.1", "admin", 10);
    assert_eq!(pool.get_connection_state("192.168.1.1", "admin"), Some((1, false)));
}

#[test]
fn test_get_connection_state() {
    let mut pool: ConnectionPool<()> = ConnectionPool::new();
    pool.record_error("192.168.1.1", "admin", 10);
    pool.record_error("192.168.1.1", "admin", 20);
    let result = pool.get_connection_state("192.168.1.1", "admin");
    assert!(result.is_some());
    let (errors, has_success) = result.unwrap();
    assert_eq!(errors, 2);
    assert!(!has_success);
}

#[test]
fn test_cleanup_empty_pool() {
    let mut pool: ConnectionPool<()> = ConnectionPool::new();
    pool.cleanup(1_000);
    let (total, _) = pool.get_pool_stats();
    assert_eq!(total, 0);
}

#[test]
fn backoff_after_failure_storm_then_recovery() {
    let mut pool: ConnectionPool<u32> = ConnectionPool::new();
    for t in [0u64, 300, 600] {
        match pool.begin_acquire("192.0.2.1:8728", "admin", t) {
            Acquire::Dial => pool.finish_dial("192.0.2.1:8728", "admin", false, t),
            _ => panic!("expected a dial"),
        }
    }
    match pool.begin_acquire("192.0.2.1:8728", "admin", 900) {
        Acquire::Disabled { consecutive_errors } => assert_eq!(consecutive_errors, 3),
        _ => panic!("expected the backoff gate"),
    }
    match pool.begin_acquire("192.0.2.1:8728", "admin", 600 + 8_000) {
        Acquire::Dial => pool.finish_dial("192.0.2.1:8728", "admin", true, 8_600),
        _ => panic!("expected a dial after the backoff"),
    }
    assert_eq!(pool.get_connection_state("192.0.2.1:8728", "admin"), Some((0, true)));
}

#[test]
fn long_hold_after_ten_errors() {
    let mut state = ConnectionState::new();
    for _ in 0..10 {
        state.record_error(0);
    }
    assert!(state.should_skip_attempt(300_000));
    assert!(state.should_skip_attempt(3_599_999));
    assert!(!state.should_skip_attempt(3_600_000));
}

#[test]
fn lease_is_reused_after_release() {
    let mut pool: ConnectionPool<u32> = ConnectionPool::new();
    assert!(matches!(pool.begin_acquire("a", "u", 0), Acquire::Dial));
    pool.finish_dial("a", "u", true, 0);
    assert_eq!(pool.get_pool_stats(), (0, 1));
    pool.release_connection("a", "u", 7, 100);
    assert_eq!(pool.get_pool_stats(), (1, 0));
    match pool.begin_acquire("a", "u", 200) {
        Acquire::Reused(c) => assert_eq!(c, 7),
        _ => panic!("expected reuse"),
    }
    pool.release_connection("a", "u", 7, 300);
    pool.cleanup(300 + 300_000);
    assert_eq!(pool.get_pool_stats(), (0, 0));
}

#[test]
fn different_users_are_different_keys() {
    let mut pool: ConnectionPool<u32> = ConnectionPool::new();
    pool.record_error("a", "u1", 0);
    assert_eq!(pool.get_connection_state("a", "u2"), None);
    pool.cleanup_states(&[("a".to_string(), "u2".to_string())]);
    assert_eq!(pool.get_connection_state("a", "u1"), None);
}

#[test]
fn release_during_shutdown_drops_connection() {
    let mut pool: ConnectionPool<u32> = ConnectionPool::new();
    pool.finish_dial("a", "u", true, 0);
    pool.begin_shutdown();
    pool.release_connection("a", "u", 1, 5);
    assert_eq!(pool.get_pool_stats(), (0, 0));
}
