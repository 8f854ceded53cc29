use vstd::prelude::*;
use vstd::string::*;

verus! {

/// Settings of the dashboard. Thresholds are in thousandths of a percent.
#[derive(Clone, Debug, PartialEq, Eq)]
pub struct DashboardConfig {
    pub name: String,
    pub layout: Vec<String>,
    pub refresh_interval_ms: u64,
    pub cpu_warning_threshold: u32,
    pub memory_warning_threshold: u32,
    pub show_predictions: bool,
    pub show_correlations: bool,
    pub max_processes: usize,
    pub graph_history_size: usize,
}

impl DashboardConfig {
    /// The panels of the default layout, top to bottom.
    pub open spec fn default_layout() -> Seq<Seq<char>> {
        seq![
            "cpu_graph"@,
            "memory_usage"@,
            "network_stats"@,
            "process_list"@,
            "analytics"@,
        ]
    }

    pub fn default_config() -> (r: Self)
        ensures
            r.name@ == "grainx_advanced"@,
            r.layout@.map_values(|s: String| s@) == Self::default_layout(),
            r.refresh_interval_ms == 500,
            r.cpu_warning_threshold == 80_000,
            r.memory_warning_threshold == 85_000,
            r.show_predictions,
            r.show_correlations,
            r.max_processes == 10,
            r.graph_history_size == 100,
    {
        let mut layout: Vec<String> = Vec::new();
        layout.push(String::from_str("cpu_graph"));
        layout.push(String::from_str("memory_usage"));
        layout.push(String::from_str("network_stats"));
        layout.push(String::from_str("process_list"));
        layout.push(String::from_str("analytics"));
        assert(layout@.map_values(|s: String| s@) =~= Self::default_layout());
        DashboardConfig {
            name: String::from_str("grainx_advanced"),
            layout,
            refresh_interval_ms: 500,
            cpu_warning_threshold: 80_000,
            memory_warning_threshold: 85_000,
            show_predictions: true,
            show_correlations: true,
            max_processes: 10,
            graph_history_size: 100,
        }
    }
}

} // verus!
