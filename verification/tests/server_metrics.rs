use openscad_mcp::metrics::ServerMetrics;

#[test]
fn test_server_metrics_active_renders() {
    let metrics = ServerMetrics::new();
    metrics.increment_active();
    assert_eq!(metrics.active_count(), 1);
    metrics.increment_active();
    assert_eq!(metrics.active_count(), 2);
    metrics.decrement_active();
    assert_eq!(metrics.active_count(), 1);
}

#[test]
fn test_server_metrics_default() {
    let metrics = ServerMetrics::default();
    assert_eq!(metrics.active_count(), 0);
}

#[test]
fn test_list_renders_placeholder() {
    assert!(true);
}

#[test]
fn test_kill_render_placeholder() {
    assert!(true);
}

#[test]
fn render_totals_add_up() {
    let metrics = ServerMetrics::new();
    assert_eq!(metrics.total_renders(), 0);
    metrics.record_render(100);
    metrics.record_render(200);
    assert_eq!(metrics.total_renders(), 2);
    assert_eq!(metrics.render_totals(), (2, 300));
}

#[test]
fn clones_share_the_counters() {
    let metrics = ServerMetrics::new();
    let other = metrics.clone();
    other.increment_active();
    other.record_render(50);
    assert_eq!(metrics.active_count(), 1);
    assert_eq!(metrics.render_totals(), (1, 50));
}
