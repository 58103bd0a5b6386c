//! Metric records and configuration shared by the collector, the dashboards
//! and the tool handlers.
use std::collections::HashMap;
use vstd::prelude::*;
use vstd::string::*;

verus! {

/// Memory usage, in bytes, as /proc/meminfo reports it.
#[derive(Debug, Clone)]
pub struct MemoryMetrics {
    pub total_bytes: u64,
    pub used_bytes: u64,
    pub available_bytes: u64,
    pub swap_total_bytes: u64,
    pub swap_used_bytes: u64,
    /// Per-agent memory usage.
    pub agent_usage: HashMap<String, u64>,
}

/// Space and I/O of one mounted filesystem.
#[derive(Debug, Clone)]
pub struct DiskMetrics {
    pub mount_point: String,
    pub device: String,
    pub filesystem: String,
    pub total_bytes: u64,
    pub used_bytes: u64,
    pub available_bytes: u64,
    /// I/O read bytes since last snapshot.
    pub read_bytes: u64,
    /// I/O write bytes since last snapshot.
    pub write_bytes: u64,
}

/// Network totals since the previous reading.
#[derive(Debug, Clone)]
pub struct NetworkMetrics {
    pub interfaces: Vec<InterfaceMetrics>,
    /// Total bytes received since last snapshot.
    pub total_rx_bytes: u64,
    /// Total bytes transmitted since last snapshot.
    pub total_tx_bytes: u64,
    /// Active connections count.
    pub active_connections: u64,
}

/// Counters of one network interface.
#[derive(Debug, Clone)]
pub struct InterfaceMetrics {
    pub name: String,
    pub rx_bytes: u64,
    pub tx_bytes: u64,
    pub rx_packets: u64,
    pub tx_packets: u64,
    pub rx_errors: u64,
    pub tx_errors: u64,
    pub is_up: bool,
}

/// Lifecycle state of a monitored service.
#[derive(Debug, Clone, Copy, PartialEq, Eq, Structural)]
pub enum ServiceState {
    Running,
    Stopped,
    Failed,
    Starting,
    Unknown,
}

impl ServiceState {
    /// The lower-case name shown for the state.
    pub open spec fn spec_name(self) -> Seq<char> {
        match self {
            ServiceState::Running => "running"@,
            ServiceState::Stopped => "stopped"@,
            ServiceState::Failed => "failed"@,
            ServiceState::Starting => "starting"@,
            ServiceState::Unknown => "unknown"@,
        }
    }

    /// The lower-case name shown for the state.
    pub fn as_str(&self) -> (s: &'static str)
        ensures
            s@ == self.spec_name(),
    {
        match self {
            ServiceState::Running => "running",
            ServiceState::Stopped => "stopped",
            ServiceState::Failed => "failed",
            ServiceState::Starting => "starting",
            ServiceState::Unknown => "unknown",
        }
    }
}

/// Health of one AGNOS service.
#[derive(Debug, Clone)]
pub struct ServiceStatus {
    pub name: String,
    pub state: ServiceState,
    pub pid: Option<u32>,
    pub uptime_secs: Option<u64>,
    pub port: Option<u16>,
}

/// Monitor configuration.
#[derive(Debug, Clone)]
pub struct NazarConfig {
    /// Daimon API URL.
    pub api_url: String,
    /// Polling interval in seconds.
    pub poll_interval_secs: u64,
    /// Maximum data points to retain per metric.
    pub max_history_points: usize,
    /// Whether to show anomaly alerts.
    pub show_anomalies: bool,
    /// Whether to show per-agent breakdown.
    pub show_agents: bool,
    /// Refresh rate for the UI (ms).
    pub ui_refresh_ms: u64,
    /// Number of processes kept in a snapshot.
    pub top_processes: usize,
}

/// The address of the daimon API when none is configured.
pub open spec fn default_api_url() -> Seq<char> {
    "http://127.0.0.1:8090"@
}

impl NazarConfig {
    /// The configuration used when nothing else is given.
    pub open spec fn is_default(&self) -> bool {
        &&& self.api_url@ == default_api_url()
        &&& self.poll_interval_secs == 5
        &&& self.max_history_points == 720
        &&& self.show_anomalies
        &&& self.show_agents
        &&& self.ui_refresh_ms == 1000
        &&& self.top_processes == 10
    }
}

impl Default for NazarConfig {
    fn default() -> (c: Self)
        ensures
            c.is_default(),
    {
        NazarConfig {
            api_url: String::from_str("http://127.0.0.1:8090"),
            poll_interval_secs: 5,
            max_history_points: 720,  // 1 hour at 5s intervals
            show_anomalies: true,
            show_agents: true,
            ui_refresh_ms: 1000,
            top_processes: 10,
        }
    }
}

/// One process in the process table. Its CPU and memory shares are kept as
/// exact fractions: `cpu_ticks / cpu_ticks_total` of one core's time (a
/// process keeping one core busy has 1, that is 100%), and
/// `memory_bytes / memory_total_bytes` of its memory; a fraction with a
/// whole of 0 stands for 0.
#[derive(Debug, Clone)]
pub struct ProcessInfo {
    pub pid: u32,
    pub name: String,
    pub state: char,
    /// CPU time of the process since the previous reading, times the
    /// number of cores.
    pub cpu_ticks: u64,
    /// CPU time of the whole machine since the previous reading.
    pub cpu_ticks_total: u64,
    pub memory_bytes: u64,
    /// Memory of the machine (0 when unknown).
    pub memory_total_bytes: u64,
    pub threads: u64,
}

} // verus!
