//! The decisions of the MCP tool server: the tools it offers and their
//! input schemas, which tool a call names, the `nazar_config` get/set
//! requests and their validation, the `nazar_history` request, and the
//! JSON-RPC methods of the stdio transport.
use crate::json::{param_views, schema_json, schema_text, str_views};
use crate::metrics::NazarConfig;
use crate::text::{
    chars_of, parse_u64, parse_u64_spec, parse_usize, parse_usize_spec, str_eq, string_of,
};
use vstd::prelude::*;
use vstd::string::*;

verus! {

// ---------------------------------------------------------------------------
// Tools
// ---------------------------------------------------------------------------

/// An MCP tool: its name, what it does, and the JSON object schema of its
/// input.
#[derive(Debug, Clone)]
pub struct ToolDescription {
    pub name: String,
    pub description: String,
    /// JSON text of the input schema.
    pub input_schema: String,
}

/// The name, description and input schema of each tool, in order.
pub open spec fn tool_definitions_spec() -> Seq<(Seq<char>, Seq<char>, Seq<char>)> {
    seq![
        (
            "nazar_dashboard"@,
            "Get a system monitoring dashboard snapshot (CPU, memory, disk, agents)"@,
            schema_json(seq![], seq![]),
        ),
        (
            "nazar_alerts"@,
            "Get current system anomaly alerts and warnings"@,
            schema_json(
                seq![("severity"@, "string"@, "Filter by severity: info, warning, critical"@)],
                seq![],
            ),
        ),
        (
            "nazar_predict"@,
            "Predict resource exhaustion based on current trends"@,
            schema_json(
                seq![("metric"@, "string"@, "Metric to predict: memory, disk, cpu"@)],
                seq![],
            ),
        ),
        (
            "nazar_history"@,
            "Get historical metrics for a specific resource"@,
            schema_json(
                seq![
                    (
                        "metric"@,
                        "string"@,
                        "Metric: cpu, memory, network_rx, network_tx, or disk:<mount_point>"@,
                    ),
                    ("points"@, "integer"@, "Number of data points (default: 60)"@),
                ],
                seq!["metric"@],
            ),
        ),
        (
            "nazar_config"@,
            "Get or update Nazar monitor configuration"@,
            schema_json(
                seq![
                    ("action"@, "string"@, "Action: get or set"@),
                    ("key"@, "string"@, "Config key"@),
                    ("value"@, "string"@, "Config value (for set)"@),
                ],
                seq!["action"@],
            ),
        ),
    ]
}

/// The name, description and schema text of a tool.
pub open spec fn tool_view(t: ToolDescription) -> (Seq<char>, Seq<char>, Seq<char>) {
    (t.name@, t.description@, t.input_schema@)
}

fn tool(name: &str, description: &str, props: Vec<(&str, &str, &str)>, required: Vec<&str>) -> (t:
    ToolDescription)
    ensures
        tool_view(t) == (name@, description@, schema_json(param_views(props@), str_views(required@))),
{
    ToolDescription {
        name: String::from_str(name),
        description: String::from_str(description),
        input_schema: schema_text(&props, &required),
    }
}

/// The five tools of the server.
pub fn tool_definitions() -> (v: Vec<ToolDescription>)
    ensures
        v@.map_values(|t: ToolDescription| tool_view(t)) == tool_definitions_spec(),
{
    let none: Vec<(&str, &str, &str)> = Vec::new();
    let no_names: Vec<&str> = Vec::new();
    assert(param_views(none@) =~= seq![]);
    assert(str_views(no_names@) =~= seq![]);
    let t0 = tool(
        "nazar_dashboard",
        "Get a system monitoring dashboard snapshot (CPU, memory, disk, agents)",
        none,
        no_names,
    );

    let p1 = vec![("severity", "string", "Filter by severity: info, warning, critical")];
    let r1: Vec<&str> = Vec::new();
    assert(param_views(p1@) =~= seq![
        ("severity"@, "string"@, "Filter by severity: info, warning, critical"@),
    ]);
    assert(str_views(r1@) =~= seq![]);
    let t1 = tool("nazar_alerts", "Get current system anomaly alerts and warnings", p1, r1);

    let p2 = vec![("metric", "string", "Metric to predict: memory, disk, cpu")];
    let r2: Vec<&str> = Vec::new();
    assert(param_views(p2@) =~= seq![("metric"@, "string"@, "Metric to predict: memory, disk, cpu"@)]);
    assert(str_views(r2@) =~= seq![]);
    let t2 = tool("nazar_predict", "Predict resource exhaustion based on current trends", p2, r2);

    let p3 = vec![
        ("metric", "string", "Metric: cpu, memory, network_rx, network_tx, or disk:<mount_point>"),
        ("points", "integer", "Number of data points (default: 60)"),
    ];
    let r3 = vec!["metric"];
    assert(param_views(p3@) =~= seq![
        ("metric"@, "string"@, "Metric: cpu, memory, network_rx, network_tx, or disk:<mount_point>"@),
        ("points"@, "integer"@, "Number of data points (default: 60)"@),
    ]);
    assert(str_views(r3@) =~= seq!["metric"@]);
    let t3 = tool("nazar_history", "Get historical metrics for a specific resource", p3, r3);

    let p4 = vec![
        ("action", "string", "Action: get or set"),
        ("key", "string", "Config key"),
        ("value", "string", "Config value (for set)"),
    ];
    let r4 = vec!["action"];
    assert(param_views(p4@) =~= seq![
        ("action"@, "string"@, "Action: get or set"@),
        ("key"@, "string"@, "Config key"@),
        ("value"@, "string"@, "Config value (for set)"@),
    ]);
    assert(str_views(r4@) =~= seq!["action"@]);
    let t4 = tool("nazar_config", "Get or update Nazar monitor configuration", p4, r4);

    let v = vec![t0, t1, t2, t3, t4];
    assert(v@.map_values(|t: ToolDescription| tool_view(t)) =~= tool_definitions_spec());
    v
}

/// The tools the server runs.
#[derive(Debug, Clone, Copy, PartialEq, Eq, Structural)]
pub enum ToolName {
    Dashboard,
    Alerts,
    Predict,
    History,
    Config,
}

impl ToolName {
    /// The name a call gives the tool.
    pub open spec fn spec_name(self) -> Seq<char> {
        match self {
            ToolName::Dashboard => "nazar_dashboard"@,
            ToolName::Alerts => "nazar_alerts"@,
            ToolName::Predict => "nazar_predict"@,
            ToolName::History => "nazar_history"@,
            ToolName::Config => "nazar_config"@,
        }
    }

    /// The name a call gives the tool.
    pub fn name(&self) -> (s: &'static str)
        ensures
            s@ == self.spec_name(),
    {
        match self {
            ToolName::Dashboard => "nazar_dashboard",
            ToolName::Alerts => "nazar_alerts",
            ToolName::Predict => "nazar_predict",
            ToolName::History => "nazar_history",
            ToolName::Config => "nazar_config",
        }
    }

    /// The tool a call names; `None` for an unknown name.
    pub fn from_name(name: &str) -> (r: Option<ToolName>)
        ensures
            r == tool_named(name@),
    {
        if str_eq(name, "nazar_dashboard") {
            Some(ToolName::Dashboard)
        } else if str_eq(name, "nazar_alerts") {
            Some(ToolName::Alerts)
        } else if str_eq(name, "nazar_predict") {
            Some(ToolName::Predict)
        } else if str_eq(name, "nazar_history") {
            Some(ToolName::History)
        } else if str_eq(name, "nazar_config") {
            Some(ToolName::Config)
        } else {
            None
        }
    }
}

/// The tool a name calls, if any.
pub open spec fn tool_named(n: Seq<char>) -> Option<ToolName> {
    if n == "nazar_dashboard"@ {
        Some(ToolName::Dashboard)
    } else if n == "nazar_alerts"@ {
        Some(ToolName::Alerts)
    } else if n == "nazar_predict"@ {
        Some(ToolName::Predict)
    } else if n == "nazar_history"@ {
        Some(ToolName::History)
    } else if n == "nazar_config"@ {
        Some(ToolName::Config)
    } else {
        None
    }
}

/// A tool is found again by its own name, and a name that finds a tool is
/// that tool's name.
pub proof fn lemma_tool_names_round_trip(t: ToolName, n: Seq<char>)
    ensures
        tool_named(t.spec_name()) == Some(t),
        tool_named(n) matches Some(u) ==> u.spec_name() == n,
{
    reveal_strlit("nazar_dashboard");
    reveal_strlit("nazar_alerts");
    reveal_strlit("nazar_predict");
    reveal_strlit("nazar_history");
    reveal_strlit("nazar_config");
    match t {
        ToolName::Dashboard => {},
        ToolName::Alerts => {
            assert("nazar_alerts"@[6] != "nazar_dashboard"@[6]);
        },
        ToolName::Predict => {
            assert("nazar_predict"@[6] != "nazar_dashboard"@[6]);
            assert("nazar_predict"@[6] != "nazar_alerts"@[6]);
        },
        ToolName::History => {
            assert("nazar_history"@[6] != "nazar_dashboard"@[6]);
            assert("nazar_history"@[6] != "nazar_alerts"@[6]);
            assert("nazar_history"@[6] != "nazar_predict"@[6]);
        },
        ToolName::Config => {
            assert("nazar_config"@[6] != "nazar_dashboard"@[6]);
            assert("nazar_config"@[6] != "nazar_alerts"@[6]);
            assert("nazar_config"@[6] != "nazar_predict"@[6]);
            assert("nazar_config"@[6] != "nazar_history"@[6]);
        },
    }
}

/// The error a call of an unknown tool gets.
pub fn unknown_tool_message(name: &str) -> (m: String)
    ensures
        m@ == "Unknown tool: "@ + name@,
{
    let mut m = String::from_str("Unknown tool: ");
    m.append(name);
    m
}

// ---------------------------------------------------------------------------
// nazar_config
// ---------------------------------------------------------------------------

/// A setting that `nazar_config` can change.
#[derive(Debug, Clone, Copy, PartialEq, Eq, Structural)]
pub enum ConfigKey {
    PollIntervalSecs,
    ShowAnomalies,
    ShowAgents,
    UiRefreshMs,
    CpuThreshold,
    MemoryThreshold,
    DiskThreshold,
    TopProcesses,
}

impl ConfigKey {
    /// The key's name in a request.
    pub open spec fn spec_name(self) -> Seq<char> {
        match self {
            ConfigKey::PollIntervalSecs => "poll_interval_secs"@,
            ConfigKey::ShowAnomalies => "show_anomalies"@,
            ConfigKey::ShowAgents => "show_agents"@,
            ConfigKey::UiRefreshMs => "ui_refresh_ms"@,
            ConfigKey::CpuThreshold => "cpu_threshold"@,
            ConfigKey::MemoryThreshold => "memory_threshold"@,
            ConfigKey::DiskThreshold => "disk_threshold"@,
            ConfigKey::TopProcesses => "top_processes"@,
        }
    }

    /// Whether the key is one of the percentage thresholds, whose values are
    /// decimal fractions.
    pub open spec fn is_threshold(self) -> bool {
        self is CpuThreshold || self is MemoryThreshold || self is DiskThreshold
    }

    /// The key's name in a request.
    pub fn name(&self) -> (s: &'static str)
        ensures
            s@ == self.spec_name(),
    {
        match self {
            ConfigKey::PollIntervalSecs => "poll_interval_secs",
            ConfigKey::ShowAnomalies => "show_anomalies",
            ConfigKey::ShowAgents => "show_agents",
            ConfigKey::UiRefreshMs => "ui_refresh_ms",
            ConfigKey::CpuThreshold => "cpu_threshold",
            ConfigKey::MemoryThreshold => "memory_threshold",
            ConfigKey::DiskThreshold => "disk_threshold",
            ConfigKey::TopProcesses => "top_processes",
        }
    }

    /// The key a request names; `None` for an unknown key.
    pub fn from_name(name: &str) -> (r: Option<ConfigKey>)
        ensures
            r == config_key_named(name@),
    {
        if str_eq(name, "poll_interval_secs") {
            Some(ConfigKey::PollIntervalSecs)
        } else if str_eq(name, "show_anomalies") {
            Some(ConfigKey::ShowAnomalies)
        } else if str_eq(name, "show_agents") {
            Some(ConfigKey::ShowAgents)
        } else if str_eq(name, "ui_refresh_ms") {
            Some(ConfigKey::UiRefreshMs)
        } else if str_eq(name, "cpu_threshold") {
            Some(ConfigKey::CpuThreshold)
        } else if str_eq(name, "memory_threshold") {
            Some(ConfigKey::MemoryThreshold)
        } else if str_eq(name, "disk_threshold") {
            Some(ConfigKey::DiskThreshold)
        } else if str_eq(name, "top_processes") {
            Some(ConfigKey::TopProcesses)
        } else {
            None
        }
    }
}

/// The setting a name stands for, if any.
pub open spec fn config_key_named(n: Seq<char>) -> Option<ConfigKey> {
    if n == "poll_interval_secs"@ {
        Some(ConfigKey::PollIntervalSecs)
    } else if n == "show_anomalies"@ {
        Some(ConfigKey::ShowAnomalies)
    } else if n == "show_agents"@ {
        Some(ConfigKey::ShowAgents)
    } else if n == "ui_refresh_ms"@ {
        Some(ConfigKey::UiRefreshMs)
    } else if n == "cpu_threshold"@ {
        Some(ConfigKey::CpuThreshold)
    } else if n == "memory_threshold"@ {
        Some(ConfigKey::MemoryThreshold)
    } else if n == "disk_threshold"@ {
        Some(ConfigKey::DiskThreshold)
    } else if n == "top_processes"@ {
        Some(ConfigKey::TopProcesses)
    } else {
        None
    }
}

/// A setting is found again by its own name, and a name that finds a
/// setting is that setting's name.
pub proof fn lemma_config_names_round_trip(k: ConfigKey, n: Seq<char>)
    ensures
        config_key_named(k.spec_name()) == Some(k),
        config_key_named(n) matches Some(c) ==> c.spec_name() == n,
{
    reveal_strlit("poll_interval_secs");
    reveal_strlit("show_anomalies");
    reveal_strlit("show_agents");
    reveal_strlit("ui_refresh_ms");
    reveal_strlit("cpu_threshold");
    reveal_strlit("memory_threshold");
    reveal_strlit("disk_threshold");
    reveal_strlit("top_processes");
    assert("show_anomalies"@.len() != "poll_interval_secs"@.len());
    assert("show_agents"@.len() != "poll_interval_secs"@.len());
    assert("show_agents"@.len() != "show_anomalies"@.len());
    assert("ui_refresh_ms"@[0] != "poll_interval_secs"@[0]);
    assert("ui_refresh_ms"@[0] != "show_anomalies"@[0]);
    assert("ui_refresh_ms"@[0] != "show_agents"@[0]);
    assert("cpu_threshold"@[0] != "poll_interval_secs"@[0]);
    assert("cpu_threshold"@[0] != "show_anomalies"@[0]);
    assert("cpu_threshold"@[0] != "show_agents"@[0]);
    assert("cpu_threshold"@[0] != "ui_refresh_ms"@[0]);
    assert("memory_threshold"@[0] != "poll_interval_secs"@[0]);
    assert("memory_threshold"@[0] != "show_anomalies"@[0]);
    assert("memory_threshold"@[0] != "show_agents"@[0]);
    assert("memory_threshold"@[0] != "ui_refresh_ms"@[0]);
    assert("memory_threshold"@[0] != "cpu_threshold"@[0]);
    assert("disk_threshold"@[0] != "poll_interval_secs"@[0]);
    assert("disk_threshold"@[0] != "show_anomalies"@[0]);
    assert("disk_threshold"@[0] != "show_agents"@[0]);
    assert("disk_threshold"@[0] != "ui_refresh_ms"@[0]);
    assert("disk_threshold"@[0] != "cpu_threshold"@[0]);
    assert("disk_threshold"@[0] != "memory_threshold"@[0]);
    assert("top_processes"@[0] != "poll_interval_secs"@[0]);
    assert("top_processes"@[0] != "show_anomalies"@[0]);
    assert("top_processes"@[0] != "show_agents"@[0]);
    assert("top_processes"@[0] != "ui_refresh_ms"@[0]);
    assert("top_processes"@[0] != "cpu_threshold"@[0]);
    assert("top_processes"@[0] != "memory_threshold"@[0]);
    assert("top_processes"@[0] != "disk_threshold"@[0]);
}

/// What setting a key to a value comes to.
#[derive(Debug, Clone, PartialEq, Eq)]
pub enum ConfigUpdate {
    /// The configuration now holds the value.
    Applied,
    /// A threshold: its value is a decimal fraction, parsed and range
    /// checked by the caller.
    Threshold(ConfigKey),
}

/// A boolean setting's value: `true` or `false` exactly.
pub open spec fn parse_flag(v: Seq<char>) -> Option<bool> {
    if v == "true"@ {
        Some(true)
    } else if v == "false"@ {
        Some(false)
    } else {
        None
    }
}

/// The error for a value that is not a number at all.
pub open spec fn invalid_value_spec(key: Seq<char>) -> Seq<char> {
    "Invalid value for "@ + key
}

/// What `apply_config_value` does: the new configuration, or the error.
pub open spec fn config_set_spec(c: NazarConfig, key: ConfigKey, v: Seq<char>) -> Result<
    NazarConfig,
    Seq<char>,
> {
    match key {
        ConfigKey::PollIntervalSecs => match parse_u64_spec(v) {
            Some(n) => if n >= 1 {
                Ok(NazarConfig { poll_interval_secs: n, ..c })
            } else {
                Err("poll_interval_secs must be >= 1"@)
            },
            None => Err(invalid_value_spec(key.spec_name())),
        },
        ConfigKey::ShowAnomalies => match parse_flag(v) {
            Some(b) => Ok(NazarConfig { show_anomalies: b, ..c }),
            None => Err("show_anomalies must be 'true' or 'false'"@),
        },
        ConfigKey::ShowAgents => match parse_flag(v) {
            Some(b) => Ok(NazarConfig { show_agents: b, ..c }),
            None => Err("show_agents must be 'true' or 'false'"@),
        },
        ConfigKey::UiRefreshMs => match parse_u64_spec(v) {
            Some(n) => if n >= 100 {
                Ok(NazarConfig { ui_refresh_ms: n, ..c })
            } else {
                Err("ui_refresh_ms must be >= 100"@)
            },
            None => Err(invalid_value_spec(key.spec_name())),
        },
        ConfigKey::TopProcesses => match parse_usize_spec(v) {
            Some(n) => if 1 <= n <= 50 {
                Ok(NazarConfig { top_processes: n, ..c })
            } else {
                Err("top_processes must be between 1 and 50"@)
            },
            None => Err(invalid_value_spec(key.spec_name())),
        },
        _ => Ok(c),
    }
}

/// Whether `nazar_config` accepts `v` for a setting other than a
/// threshold: a whole number of at least 1 for the poll interval and of at
/// least 100 for the UI refresh, `true` or `false` for the display
/// switches, a count from 1 to 50 for the process table.
pub open spec fn config_accepts(k: ConfigKey, v: Seq<char>) -> bool {
    match k {
        ConfigKey::PollIntervalSecs => parse_u64_spec(v) matches Some(n) && n >= 1,
        ConfigKey::ShowAnomalies | ConfigKey::ShowAgents => v == "true"@ || v == "false"@,
        ConfigKey::UiRefreshMs => parse_u64_spec(v) matches Some(n) && n >= 100,
        ConfigKey::TopProcesses => parse_usize_spec(v) matches Some(n) && 1 <= n <= 50,
        _ => true,
    }
}

/// Setting a value succeeds exactly when the value is accepted; then the
/// named setting takes the value and every other setting stays as it was.
pub proof fn lemma_config_set_law(c: NazarConfig, k: ConfigKey, v: Seq<char>)
    requires
        !k.is_threshold(),
    ensures
        config_set_spec(c, k, v) is Ok <==> config_accepts(k, v),
        config_set_spec(c, k, v) matches Ok(c2) ==> {
            &&& c2.api_url == c.api_url
            &&& c2.max_history_points == c.max_history_points
            &&& c2.poll_interval_secs == (if k is PollIntervalSecs {
                parse_u64_spec(v)->0
            } else {
                c.poll_interval_secs
            })
            &&& c2.show_anomalies == (if k is ShowAnomalies {
                v == "true"@
            } else {
                c.show_anomalies
            })
            &&& c2.show_agents == (if k is ShowAgents {
                v == "true"@
            } else {
                c.show_agents
            })
            &&& c2.ui_refresh_ms == (if k is UiRefreshMs {
                parse_u64_spec(v)->0
            } else {
                c.ui_refresh_ms
            })
            &&& c2.top_processes == (if k is TopProcesses {
                parse_usize_spec(v)->0
            } else {
                c.top_processes
            })
        },
{
    reveal_strlit("true");
    reveal_strlit("false");
    assert("true"@ != "false"@) by {
        assert("true"@.len() != "false"@.len());
    }
}

fn error_text(s: &str) -> (r: Result<ConfigUpdate, String>)
    ensures
        r matches Err(m) && m@ == s@,
{
    Err(String::from_str(s))
}

fn invalid_value(key: ConfigKey) -> (r: Result<ConfigUpdate, String>)
    ensures
        r matches Err(m) && m@ == invalid_value_spec(key.spec_name()),
{
    let mut m = String::from_str("Invalid value for ");
    m.append(key.name());
    Err(m)
}

/// Sets `key` to `value` in `config`, after checking the value: the poll
/// interval must be a whole number of at least 1 second, the UI refresh at
/// least 100 ms, the process count between 1 and 50, and the two display
/// switches `true` or `false`. A threshold is left to the caller. On an
/// error the configuration is left as it was.
pub fn apply_config_value(config: &mut NazarConfig, key: ConfigKey, value: &str) -> (r: Result<
    ConfigUpdate,
    String,
>)
    ensures
        key.is_threshold() ==> r == Ok::<ConfigUpdate, String>(ConfigUpdate::Threshold(key))
            && *final(config) == *old(config),
        !key.is_threshold() ==> match config_set_spec(*old(config), key, value@) {
            Ok(c) => r == Ok::<ConfigUpdate, String>(ConfigUpdate::Applied) && *final(config) == c,
            Err(m) => (r matches Err(e) && e@ == m) && *final(config) == *old(config),
        },
{
    let v = chars_of(value);
    match key {
        ConfigKey::PollIntervalSecs => match parse_u64(v.as_slice()) {
            Some(n) => {
                if n >= 1 {
                    config.poll_interval_secs = n;
                    Ok(ConfigUpdate::Applied)
                } else {
                    error_text("poll_interval_secs must be >= 1")
                }
            },
            None => invalid_value(key),
        },
        ConfigKey::ShowAnomalies => {
            if str_eq(value, "true") {
                config.show_anomalies = true;
                Ok(ConfigUpdate::Applied)
            } else if str_eq(value, "false") {
                config.show_anomalies = false;
                Ok(ConfigUpdate::Applied)
            } else {
                error_text("show_anomalies must be 'true' or 'false'")
            }
        },
        ConfigKey::ShowAgents => {
            if str_eq(value, "true") {
                config.show_agents = true;
                Ok(ConfigUpdate::Applied)
            } else if str_eq(value, "false") {
                config.show_agents = false;
                Ok(ConfigUpdate::Applied)
            } else {
                error_text("show_agents must be 'true' or 'false'")
            }
        },
        ConfigKey::UiRefreshMs => match parse_u64(v.as_slice()) {
            Some(n) => {
                if n >= 100 {
                    config.ui_refresh_ms = n;
                    Ok(ConfigUpdate::Applied)
                } else {
                    error_text("ui_refresh_ms must be >= 100")
                }
            },
            None => invalid_value(key),
        },
        ConfigKey::TopProcesses => match parse_usize(v.as_slice()) {
            Some(n) => {
                if 1 <= n && n <= 50 {
                    config.top_processes = n;
                    Ok(ConfigUpdate::Applied)
                } else {
                    error_text("top_processes must be between 1 and 50")
                }
            },
            None => invalid_value(key),
        },
        ConfigKey::CpuThreshold | ConfigKey::MemoryThreshold | ConfigKey::DiskThreshold => Ok(
            ConfigUpdate::Threshold(key),
        ),
    }
}

/// The error for a threshold value outside 0 to 100 or not finite.
pub fn threshold_range_message(key: ConfigKey) -> (m: String)
    ensures
        m@ == key.spec_name() + " must be a finite number between 0.0 and 100.0"@,
{
    let mut m = String::from_str(key.name());
    m.append(" must be a finite number between 0.0 and 100.0");
    m
}

/// The error for a value that is not a number.
pub fn invalid_value_message(key: ConfigKey) -> (m: String)
    ensures
        m@ == invalid_value_spec(key.spec_name()),
{
    let mut m = String::from_str("Invalid value for ");
    m.append(key.name());
    m
}

/// The answer to a `nazar_config` call.
#[derive(Debug, Clone, PartialEq, Eq)]
pub enum ConfigReply {
    /// Report the configuration.
    Show,
    /// The setting was changed; the configuration is to be saved and the
    /// change reported.
    Updated,
    /// A threshold is to be set from the value.
    SetThreshold(ConfigKey),
    /// The request was refused with this message.
    Error(String),
}

/// Whether a reply is the error with message `m`.
pub open spec fn is_error_with(r: ConfigReply, m: Seq<char>) -> bool {
    r matches ConfigReply::Error(e) && e@ == m
}

/// The `nazar_config` tool: `get` reports the configuration; `set` changes
/// the setting `key` to `value` (see `apply_config_value`). Missing or
/// unknown actions, missing key or value and unknown keys are refused, and
/// then, as on any refusal, the configuration is left as it was.
pub fn handle_config(
    action: Option<&str>,
    key: Option<&str>,
    value: Option<&str>,
    config: &mut NazarConfig,
) -> (r: ConfigReply)
    ensures
        !(r is Updated) ==> *final(config) == *old(config),
        action is None ==> is_error_with(r, "'action' parameter is required"@),
        action matches Some(a) && a@ == "get"@ ==> r is Show,
        action matches Some(a) && a@ != "get"@ && a@ != "set"@ ==> is_error_with(
            r,
            "Action must be 'get' or 'set'"@,
        ),
        action matches Some(a) && a@ == "set"@ ==> match (key, value) {
            (Some(k), Some(v)) => match config_key_named(k@) {
                None => is_error_with(r, "Unknown config key: "@ + k@),
                Some(ck) => if ck.is_threshold() {
                    r == ConfigReply::SetThreshold(ck)
                } else {
                    match config_set_spec(*old(config), ck, v@) {
                        Ok(c) => r is Updated && *final(config) == c,
                        Err(m) => is_error_with(r, m),
                    }
                },
            },
            _ => is_error_with(r, "'key' and 'value' are required for set action"@),
        },
{
    let a = match action {
        Some(a) => a,
        None => {
            return ConfigReply::Error(String::from_str("'action' parameter is required"));
        },
    };
    proof {
        reveal_strlit("get");
        reveal_strlit("set");
        assert("get"@[0] != "set"@[0]);
        assert("get"@ != "set"@);
    }
    if str_eq(a, "get") {
        return ConfigReply::Show;
    }
    if !str_eq(a, "set") {
        return ConfigReply::Error(String::from_str("Action must be 'get' or 'set'"));
    }
    match (key, value) {
        (Some(k), Some(v)) => {
            match ConfigKey::from_name(k) {
                None => {
                    let mut m = String::from_str("Unknown config key: ");
                    m.append(k);
                    ConfigReply::Error(m)
                },
                Some(ck) => {
                    match apply_config_value(config, ck, v) {
                        Ok(ConfigUpdate::Applied) => ConfigReply::Updated,
                        Ok(ConfigUpdate::Threshold(t)) => ConfigReply::SetThreshold(t),
                        Err(m) => ConfigReply::Error(m),
                    }
                },
            }
        },
        _ => ConfigReply::Error(String::from_str("'key' and 'value' are required for set action")),
    }
}

// ---------------------------------------------------------------------------
// nazar_history
// ---------------------------------------------------------------------------

/// The series a `nazar_history` call asks for.
#[derive(Debug, Clone, PartialEq, Eq)]
pub enum HistoryMetric {
    Cpu,
    Memory,
    NetworkRx,
    NetworkTx,
    /// The usage of the disk mounted at this point.
    Disk(String),
}

/// The series a metric name asks for: a fixed name, or `disk:` followed by
/// a mount point.
pub open spec fn history_metric_spec(m: Seq<char>) -> Option<(int, Seq<char>)> {
    if m == "cpu"@ {
        Some((0, seq![]))
    } else if m == "memory"@ {
        Some((1, seq![]))
    } else if m == "network_rx"@ {
        Some((2, seq![]))
    } else if m == "network_tx"@ {
        Some((3, seq![]))
    } else if m.len() >= 5 && m.take(5) == "disk:"@ {
        Some((4, m.skip(5)))
    } else {
        None
    }
}

/// A metric as a tag and, for a disk, its mount point.
pub open spec fn history_metric_view(h: HistoryMetric) -> (int, Seq<char>) {
    match h {
        HistoryMetric::Cpu => (0, seq![]),
        HistoryMetric::Memory => (1, seq![]),
        HistoryMetric::NetworkRx => (2, seq![]),
        HistoryMetric::NetworkTx => (3, seq![]),
        HistoryMetric::Disk(m) => (4, m@),
    }
}

/// The message for a metric that has no series.
pub open spec fn unknown_metric_spec(m: Seq<char>) -> Seq<char> {
    "Unknown metric '"@ + m + "'. Available: cpu, memory, network_rx, network_tx, disk:<mount>"@
}

/// The message for a metric that has no series.
pub fn unknown_metric_message(metric: &str) -> (m: String)
    ensures
        m@ == unknown_metric_spec(metric@),
{
    let mut m = String::from_str("Unknown metric '");
    m.append(metric);
    m.append("'. Available: cpu, memory, network_rx, network_tx, disk:<mount>");
    m
}

/// How many points a call asks for: the `points` argument, 60 when absent
/// (capped at the largest machine word).
pub open spec fn history_points_spec(points: Option<u64>) -> usize {
    match points {
        Some(p) => if p <= usize::MAX {
            p as usize
        } else {
            usize::MAX
        },
        None => 60,
    }
}

/// Reads a `nazar_history` call: which series, and how many of its newest
/// points. `metric` is required; a name that is no series is refused with
/// the list of available ones. (Whether a disk series exists is for the
/// caller to see; it answers `unknown_metric_message` when not.)
pub fn parse_history_request(metric: Option<&str>, points: Option<u64>) -> (r: Result<
    (HistoryMetric, usize),
    String,
>)
    ensures
        metric is None ==> (r matches Err(e) && e@ == "'metric' parameter is required"@),
        metric matches Some(m) ==> match history_metric_spec(m@) {
            Some(h) => (r matches Ok((hm, n)) && history_metric_view(hm) == h && n
                == history_points_spec(points)),
            None => (r matches Err(e) && e@ == unknown_metric_spec(m@)),
        },
{
    let m = match metric {
        Some(m) => m,
        None => {
            return Err(String::from_str("'metric' parameter is required"));
        },
    };
    let n: usize = match points {
        Some(p) => if (p as u128) <= (usize::MAX as u128) {
            p as usize
        } else {
            usize::MAX
        },
        None => 60,
    };
    let h = if str_eq(m, "cpu") {
        HistoryMetric::Cpu
    } else if str_eq(m, "memory") {
        HistoryMetric::Memory
    } else if str_eq(m, "network_rx") {
        HistoryMetric::NetworkRx
    } else if str_eq(m, "network_tx") {
        HistoryMetric::NetworkTx
    } else {
        let cs = chars_of(m);
        if crate::text::starts_with_str(cs.as_slice(), "disk:") {
            proof {
                reveal_strlit("disk:");
            }
            let mut mount: Vec<char> = Vec::new();
            let mut i: usize = 5;
            while i < cs.len()
                invariant
                    5 <= i <= cs@.len(),
                    mount@ == cs@.subrange(5, i as int),
                decreases cs@.len() - i,
            {
                mount.push(cs[i]);
                i = i + 1;
                assert(mount@ =~= cs@.subrange(5, i as int));
            }
            assert(mount@ =~= m@.skip(5));
            HistoryMetric::Disk(string_of(mount.as_slice()))
        } else {
            proof {
                reveal_strlit("disk:");
            }
            return Err(unknown_metric_message(m));
        }
    };
    Ok((h, n))
}

// ---------------------------------------------------------------------------
// JSON-RPC transport
// ---------------------------------------------------------------------------

/// The MCP protocol version the server speaks.
pub const PROTOCOL_VERSION: &'static str = "2024-11-05";

/// JSON-RPC error code for a line that is not JSON.
pub const PARSE_ERROR: i32 = -32700;

/// JSON-RPC error code for an unknown method.
pub const METHOD_NOT_FOUND: i32 = -32601;

/// What the transport does with a request, by its method.
#[derive(Debug, Clone, Copy, PartialEq, Eq, Structural)]
pub enum RpcMethod {
    Initialize,
    ToolsList,
    ToolsCall,
    /// A notification: no answer is sent.
    Notification,
    /// Answered with a method-not-found error.
    Unknown,
}

/// The action for a request's method (a missing method counts as the
/// empty one).
pub open spec fn rpc_method_spec(m: Seq<char>) -> RpcMethod {
    if m == "notifications/initialized"@ || m == "notifications/cancelled"@ {
        RpcMethod::Notification
    } else if m == "initialize"@ {
        RpcMethod::Initialize
    } else if m == "tools/list"@ {
        RpcMethod::ToolsList
    } else if m == "tools/call"@ {
        RpcMethod::ToolsCall
    } else {
        RpcMethod::Unknown
    }
}

impl RpcMethod {
    /// The action for a request's method.
    pub fn classify(method: &str) -> (r: RpcMethod)
        ensures
            r == rpc_method_spec(method@),
    {
        if str_eq(method, "notifications/initialized") || str_eq(method, "notifications/cancelled") {
            RpcMethod::Notification
        } else if str_eq(method, "initialize") {
            RpcMethod::Initialize
        } else if str_eq(method, "tools/list") {
            RpcMethod::ToolsList
        } else if str_eq(method, "tools/call") {
            RpcMethod::ToolsCall
        } else {
            RpcMethod::Unknown
        }
    }
}

/// The error message for an unknown method.
pub fn method_not_found_message(method: &str) -> (m: String)
    ensures
        m@ == "Method not found: "@ + method@,
{
    let mut m = String::from_str("Method not found: ");
    m.append(method);
    m
}

} // verus!
