use grainx::config::DashboardConfig;

#[test]
fn test_default_config_creation() {
    let config = DashboardConfig::default_config();
    assert_eq!(config.name, "grainx_advanced");
    assert!(config.refresh_interval_ms > 0);
    assert!(config.cpu_warning_threshold > 0);
    assert!(config.memory_warning_threshold > 0);
    assert!(config.max_processes > 0);
    assert!(config.graph_history_size > 0);
    assert!(config.show_predictions);
    assert!(config.show_correlations);
}

#[test]
fn test_config_validation() {
    let config = DashboardConfig::default_config();

    assert!(config.cpu_warning_threshold <= 100_000);
    assert!(config.memory_warning_threshold <= 100_000);
    assert!(config.refresh_interval_ms >= 100);
    assert!(config.max_processes >= 1 && config.max_processes <= 50);
    assert!(config.graph_history_size >= 10 && config.graph_history_size <= 1000);
}

#[test]
fn default_layout_lists_the_panels() {
    let config = DashboardConfig::default_config();
    assert_eq!(
        config.layout,
        vec!["cpu_graph", "memory_usage", "network_stats", "process_list", "analytics"]
    );
    assert_eq!(config.cpu_warning_threshold, 80_000);
    assert_eq!(config.memory_warning_threshold, 85_000);
}
