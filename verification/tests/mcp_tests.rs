use nazar::mcp::{
    apply_config_value, handle_config, invalid_value_message, method_not_found_message,
    parse_history_request, threshold_range_message, tool_definitions, unknown_metric_message,
    unknown_tool_message, ConfigKey, ConfigReply, ConfigUpdate, HistoryMetric, RpcMethod,
    ToolName, METHOD_NOT_FOUND, PARSE_ERROR, PROTOCOL_VERSION,
};
use nazar::metrics::NazarConfig;
use nazar::series::TimeSeries;

fn set(key: &str, value: &str, config: &mut NazarConfig) -> ConfigReply {
    handle_config(Some("set"), Some(key), Some(value), config)
}

#[test]
fn tool_definitions_count() {
    assert_eq!(tool_definitions().len(), 5);
}

#[test]
fn tool_names() {
    let tools = tool_definitions();
    let names: Vec<&str> = tools.iter().map(|t| t.name.as_str()).collect();
    assert!(names.contains(&"nazar_dashboard"));
    assert!(names.contains(&"nazar_alerts"));
    assert!(names.contains(&"nazar_predict"));
    assert!(names.contains(&"nazar_history"));
    assert!(names.contains(&"nazar_config"));
}

#[test]
fn tool_schemas_valid_json() {
    for tool in tool_definitions() {
        let schema: serde_json::Value = serde_json::from_str(&tool.input_schema).unwrap();
        assert!(schema.is_object());
        assert_eq!(schema["type"], "object");
        assert!(schema["properties"].is_object());
        assert!(schema["required"].is_array());
    }
}

#[test]
fn tool_schemas_hold_the_parameters() {
    let tools = tool_definitions();
    let history: serde_json::Value = serde_json::from_str(&tools[3].input_schema).unwrap();
    assert_eq!(history["properties"]["points"]["type"], "integer");
    assert_eq!(
        history["properties"]["metric"]["description"],
        "Metric: cpu, memory, network_rx, network_tx, or disk:<mount_point>"
    );
    assert_eq!(history["required"], serde_json::Value::Array(vec!["metric".into()]));
    let config: serde_json::Value = serde_json::from_str(&tools[4].input_schema).unwrap();
    assert_eq!(config["properties"].as_object().unwrap().len(), 3);
    assert_eq!(config["required"][0], "action");
    let dashboard: serde_json::Value = serde_json::from_str(&tools[0].input_schema).unwrap();
    assert!(dashboard["properties"].as_object().unwrap().is_empty());
    assert_eq!(tools[1].description, "Get current system anomaly alerts and warnings");
}

#[test]
fn tools_list_returns_five() {
    let tools = tool_definitions();
    assert_eq!(tools.len(), 5);
    for t in &tools {
        assert_eq!(ToolName::from_name(&t.name).unwrap().name(), t.name);
    }
}

#[test]
fn unknown_tool() {
    assert_eq!(ToolName::from_name("nazar_foo"), None);
    assert_eq!(unknown_tool_message("nazar_foo"), "Unknown tool: nazar_foo");
}

#[test]
fn tools_call_unknown() {
    assert_eq!(ToolName::from_name("unknown"), None);
    assert_eq!(ToolName::from_name(""), None);
}

#[test]
fn history_requires_metric() {
    let r = parse_history_request(None, None);
    assert_eq!(r.unwrap_err(), "'metric' parameter is required");
}

#[test]
fn history_cpu() {
    let mut cpu: TimeSeries<f64> = TimeSeries::new("cpu", "%", 720);
    cpu.push(42.0);
    cpu.push(55.0);
    let (metric, n) = parse_history_request(Some("cpu"), Some(10)).unwrap();
    assert_eq!(metric, HistoryMetric::Cpu);
    assert_eq!(n, 10);
    assert_eq!(cpu.last_n(n).len(), 2);
}

#[test]
fn history_metrics_and_defaults() {
    assert_eq!(parse_history_request(Some("memory"), None).unwrap(), (HistoryMetric::Memory, 60));
    assert_eq!(
        parse_history_request(Some("network_tx"), Some(3)).unwrap(),
        (HistoryMetric::NetworkTx, 3)
    );
    assert_eq!(
        parse_history_request(Some("disk:/home"), None).unwrap(),
        (HistoryMetric::Disk("/home".to_string()), 60)
    );
    let err = parse_history_request(Some("gpu"), None).unwrap_err();
    assert_eq!(
        err,
        "Unknown metric 'gpu'. Available: cpu, memory, network_rx, network_tx, disk:<mount>"
    );
    assert_eq!(unknown_metric_message("disk:/nope"), "Unknown metric 'disk:/nope'. Available: cpu, memory, network_rx, network_tx, disk:<mount>");
}

#[test]
fn config_get() {
    let mut c = NazarConfig::default();
    assert_eq!(handle_config(Some("get"), None, None, &mut c), ConfigReply::Show);
    assert_eq!(c.poll_interval_secs, 5);
}

#[test]
fn tools_call_config_get() {
    let mut c = NazarConfig::default();
    let r = handle_config(Some("get"), Some("ignored"), None, &mut c);
    assert_eq!(r, ConfigReply::Show);
}

#[test]
fn config_set() {
    let mut c = NazarConfig::default();
    assert_eq!(set("poll_interval_secs", "10", &mut c), ConfigReply::Updated);
    assert_eq!(c.poll_interval_secs, 10);
    let d = NazarConfig::default();
    assert_eq!(c.api_url, d.api_url);
    assert_eq!(c.max_history_points, d.max_history_points);
    assert_eq!(c.show_anomalies, d.show_anomalies);
    assert_eq!(c.show_agents, d.show_agents);
    assert_eq!(c.ui_refresh_ms, d.ui_refresh_ms);
    assert_eq!(c.top_processes, d.top_processes);
}

#[test]
fn config_set_poll_interval_zero_rejected() {
    let mut c = NazarConfig::default();
    let r = set("poll_interval_secs", "0", &mut c);
    assert_eq!(r, ConfigReply::Error("poll_interval_secs must be >= 1".to_string()));
    assert_eq!(c.poll_interval_secs, 5);
    let r = set("poll_interval_secs", "soon", &mut c);
    assert_eq!(r, ConfigReply::Error("Invalid value for poll_interval_secs".to_string()));
}

#[test]
fn config_set_ui_refresh_too_low_rejected() {
    let mut c = NazarConfig::default();
    let r = set("ui_refresh_ms", "10", &mut c);
    assert_eq!(r, ConfigReply::Error("ui_refresh_ms must be >= 100".to_string()));
    assert_eq!(c.ui_refresh_ms, 1000);
    assert_eq!(set("ui_refresh_ms", "100", &mut c), ConfigReply::Updated);
    assert_eq!(c.ui_refresh_ms, 100);
}

#[test]
fn config_set_threshold_goes_to_caller() {
    let mut c = NazarConfig::default();
    let r = set("cpu_threshold", "150.0", &mut c);
    assert_eq!(r, ConfigReply::SetThreshold(ConfigKey::CpuThreshold));
    assert_eq!(
        threshold_range_message(ConfigKey::CpuThreshold),
        "cpu_threshold must be a finite number between 0.0 and 100.0"
    );
    assert_eq!(invalid_value_message(ConfigKey::DiskThreshold), "Invalid value for disk_threshold");
}

#[test]
fn config_set_unknown_key_rejected() {
    let mut c = NazarConfig::default();
    let r = set("nonexistent", "42", &mut c);
    assert_eq!(r, ConfigReply::Error("Unknown config key: nonexistent".to_string()));
}

#[test]
fn config_set_bool_validates() {
    let mut c = NazarConfig::default();
    let r = set("show_anomalies", "yes", &mut c);
    assert_eq!(r, ConfigReply::Error("show_anomalies must be 'true' or 'false'".to_string()));
    assert!(c.show_anomalies);
    let r = set("show_anomalies", "false", &mut c);
    assert_eq!(r, ConfigReply::Updated);
    assert!(!c.show_anomalies);
    assert_eq!(set("show_agents", "false", &mut c), ConfigReply::Updated);
    assert!(!c.show_agents);
}

#[test]
fn config_set_top_processes_range() {
    let mut c = NazarConfig::default();
    assert_eq!(
        set("top_processes", "0", &mut c),
        ConfigReply::Error("top_processes must be between 1 and 50".to_string())
    );
    assert_eq!(
        set("top_processes", "51", &mut c),
        ConfigReply::Error("top_processes must be between 1 and 50".to_string())
    );
    assert_eq!(
        set("top_processes", "-3", &mut c),
        ConfigReply::Error("Invalid value for top_processes".to_string())
    );
    assert_eq!(set("top_processes", "50", &mut c), ConfigReply::Updated);
    assert_eq!(c.top_processes, 50);
}

#[test]
fn config_requests_need_action_key_and_value() {
    let mut c = NazarConfig::default();
    assert_eq!(
        handle_config(None, None, None, &mut c),
        ConfigReply::Error("'action' parameter is required".to_string())
    );
    assert_eq!(
        handle_config(Some("delete"), None, None, &mut c),
        ConfigReply::Error("Action must be 'get' or 'set'".to_string())
    );
    assert_eq!(
        handle_config(Some("set"), Some("show_agents"), None, &mut c),
        ConfigReply::Error("'key' and 'value' are required for set action".to_string())
    );
}

#[test]
fn apply_config_value_reports_thresholds() {
    let mut c = NazarConfig::default();
    assert_eq!(
        apply_config_value(&mut c, ConfigKey::MemoryThreshold, "80"),
        Ok(ConfigUpdate::Threshold(ConfigKey::MemoryThreshold))
    );
    assert_eq!(apply_config_value(&mut c, ConfigKey::PollIntervalSecs, "+7"), Ok(ConfigUpdate::Applied));
    assert_eq!(c.poll_interval_secs, 7);
    assert_eq!(ConfigKey::from_name("disk_threshold"), Some(ConfigKey::DiskThreshold));
    assert_eq!(ConfigKey::from_name("Disk_threshold"), None);
}

#[test]
fn rpc_methods() {
    assert_eq!(RpcMethod::classify("initialize"), RpcMethod::Initialize);
    assert_eq!(RpcMethod::classify("tools/list"), RpcMethod::ToolsList);
    assert_eq!(RpcMethod::classify("tools/call"), RpcMethod::ToolsCall);
    assert_eq!(RpcMethod::classify("notifications/initialized"), RpcMethod::Notification);
    assert_eq!(RpcMethod::classify("notifications/cancelled"), RpcMethod::Notification);
    assert_eq!(RpcMethod::classify(""), RpcMethod::Unknown);
    assert_eq!(method_not_found_message("foo"), "Method not found: foo");
    assert_eq!(PROTOCOL_VERSION, "2024-11-05");
    assert_eq!(PARSE_ERROR, -32700);
    assert_eq!(METHOD_NOT_FOUND, -32601);
}
