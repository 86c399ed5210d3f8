use signalk::admin::LogEntry;
use signalk::statistics::StatisticsCollector;

#[test]
fn test_statistics_collection() {
    let mut stats = StatisticsCollector::new();
    stats.record_delta();
    stats.record_delta();
    stats.record_delta();
    stats.update_rate();

    let snapshot = stats.snapshot(0);
    assert_eq!(snapshot.delta_rate as f64, 3.0);
    assert_eq!(snapshot.ws_clients, 0);
}

#[test]
fn test_client_tracking() {
    let mut stats = StatisticsCollector::new();
    stats.client_connected();
    stats.client_connected();
    assert_eq!(stats.snapshot(0).ws_clients, 2);

    stats.client_disconnected();
    assert_eq!(stats.snapshot(0).ws_clients, 1);
}

#[test]
fn window_restarts_after_rate_update() {
    let mut stats = StatisticsCollector::new();
    stats.record_delta();
    stats.update_rate();
    stats.update_rate();
    stats.set_active_paths(7);
    let s = stats.snapshot(12);
    assert_eq!(s.delta_rate, 0);
    assert_eq!(s.number_of_available_paths, 7);
    assert_eq!(s.uptime, 12);
}

#[test]
fn log_entries() {
    let e = LogEntry::new("info", "started");
    assert_eq!(e.level, "info");
    assert_eq!(e.message, "started");
    assert!(e.namespace.is_none());
    let n = LogEntry::with_namespace("debug", "m", "signalk:ws");
    assert_eq!(n.namespace.as_deref(), Some("signalk:ws"));
}
