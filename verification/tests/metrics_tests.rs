use mles::metrics::Metrics;

#[test]
fn metrics_basic_counts() {
    let mut m = Metrics::new();
    assert_eq!(m.get_stats().active_connections, 0);
    m.increment_connections();
    m.increment_connections();
    assert_eq!(m.get_stats().active_connections, 2);
    m.decrement_connections();
    assert_eq!(m.get_stats().active_connections, 1);

    m.increment_messages_sent();
    m.increment_messages_received();
    m.increment_errors();

    let s = m.get_stats();
    assert_eq!(s.total_messages_sent, 1);
    assert_eq!(s.total_messages_received, 1);
    assert_eq!(s.total_errors, 1);
}

#[test]
fn metrics_dropped_by_ip() {
    let mut m = Metrics::new();
    m.increment_dropped_by_ip("1.2.3.4");
    m.increment_dropped_by_ip("1.2.3.4");
    m.increment_dropped_by_ip("10.0.0.1");

    let s = m.get_stats();
    assert_eq!(s.total_dropped_connections, 3);
    assert_eq!(s.dropped_by_ip.get("1.2.3.4"), Some(&2u64));
    assert_eq!(s.dropped_by_ip.get("10.0.0.1"), Some(&1u64));
}

#[test]
fn metrics_channel_count_is_set() {
    let mut m = Metrics::new();
    m.update_channel_count(5);
    m.update_channel_count(3);
    assert_eq!(m.get_stats().total_channels, 3);
}

#[test]
fn metrics_unknown_ip_has_no_count() {
    let m = Metrics::new();
    assert_eq!(m.get_stats().dropped_by_ip.get("9.9.9.9"), None);
    assert_eq!(m.get_stats().dropped_by_ip.len(), 0);
}

#[test]
fn metrics_decrement_below_zero_wraps() {
    let mut m = Metrics::new();
    m.decrement_connections();
    assert_eq!(m.get_stats().active_connections, usize::MAX);
}

#[test]
fn metrics_dropped_total_matches_per_address_counts() {
    let mut m = Metrics::new();
    assert_eq!(m.get_stats().dropped_by_ip.len(), 0);
    m.increment_dropped_by_ip("1.2.3.4");
    m.increment_dropped_by_ip("1.2.3.4");
    m.increment_dropped_by_ip("10.0.0.1");
    let s = m.get_stats();
    assert_eq!(s.dropped_by_ip.len(), 2);
    let sum = s.dropped_by_ip.get("1.2.3.4").unwrap() + s.dropped_by_ip.get("10.0.0.1").unwrap();
    assert_eq!(sum, s.total_dropped_connections);
}

#[test]
fn metrics_drop_total_agrees_across_other_counters() {
    let mut m = Metrics::new();
    m.increment_dropped_by_ip("a");
    m.increment_connections();
    m.increment_errors();
    m.update_channel_count(7);
    m.increment_dropped_by_ip("b");
    m.increment_dropped_by_ip("a");
    let s = m.get_stats();
    let sum = s.dropped_by_ip.get("a").unwrap() + s.dropped_by_ip.get("b").unwrap();
    assert_eq!(sum, 3);
    assert_eq!(s.total_dropped_connections, sum);
}
