use nazar::alerts::{
    disk_component, minutes_until, push_bounded, severity_filter_passes, AlertCooldown,
    AlertSeverity, ALERT_COOLDOWN_NANOS, MAX_ALERTS,
};
use nazar::metrics::{NazarConfig, ServiceState};
use nazar::series::TimeSeries;

fn average(ts: &TimeSeries<f64>) -> f64 {
    if ts.points.is_empty() {
        return 0.0;
    }
    ts.points.iter().sum::<f64>() / ts.points.len() as f64
}

fn min(ts: &TimeSeries<f64>) -> Option<f64> {
    ts.points.iter().copied().reduce(f64::min)
}

fn max(ts: &TimeSeries<f64>) -> Option<f64> {
    ts.points.iter().copied().reduce(f64::max)
}

const SECOND: i64 = 1_000_000_000;

#[test]
fn service_state_display() {
    assert_eq!(ServiceState::Running.as_str(), "running");
    assert_eq!(ServiceState::Failed.as_str(), "failed");
    assert_eq!(ServiceState::Unknown.as_str(), "unknown");
    assert_eq!(ServiceState::Stopped.as_str(), "stopped");
    assert_eq!(ServiceState::Starting.as_str(), "starting");
}

#[test]
fn default_config() {
    let cfg = NazarConfig::default();
    assert_eq!(cfg.poll_interval_secs, 5);
    assert_eq!(cfg.max_history_points, 720);
    assert!(cfg.show_anomalies);
    assert!(cfg.show_agents);
    assert_eq!(cfg.ui_refresh_ms, 1000);
    assert_eq!(cfg.api_url, "http://127.0.0.1:8090");
    assert_eq!(cfg.top_processes, 10);
}

#[test]
fn time_series_push_and_query() {
    let mut ts: TimeSeries<f64> = TimeSeries::new("cpu", "%", 5);
    ts.push(10.0);
    ts.push(20.0);
    ts.push(30.0);
    assert_eq!(ts.latest(), Some(30.0));
    assert!((average(&ts) - 20.0).abs() < 0.01);
    assert_eq!(min(&ts), Some(10.0));
    assert_eq!(max(&ts), Some(30.0));
    assert_eq!(ts.name, "cpu");
    assert_eq!(ts.unit, "%");
}

#[test]
fn time_series_max_points() {
    let mut ts: TimeSeries<f64> = TimeSeries::new("mem", "bytes", 3);
    for i in 0..5 {
        ts.push(i as f64);
    }
    assert_eq!(ts.points.len(), 3);
    assert_eq!(ts.latest(), Some(4.0));
    assert_eq!(ts.points, vec![2.0, 3.0, 4.0]);
}

#[test]
fn time_series_empty() {
    let ts: TimeSeries<f64> = TimeSeries::new("empty", "", 10);
    assert_eq!(ts.latest(), None);
    assert_eq!(average(&ts), 0.0);
    assert_eq!(min(&ts), None);
    assert_eq!(max(&ts), None);
    assert_eq!(ts.len(), 0);
}

#[test]
fn time_series_last_n_keeps_newest() {
    let mut ts: TimeSeries<u64> = TimeSeries::new("x", "", 10);
    for i in 0..6u64 {
        ts.push(i);
    }
    assert_eq!(ts.last_n(3), vec![3, 4, 5]);
    assert_eq!(ts.last_n(60), vec![0, 1, 2, 3, 4, 5]);
    assert_eq!(ts.last_n(0), Vec::<u64>::new());
}

#[test]
fn time_series_holds_any_points() {
    let mut ts: TimeSeries<String> = TimeSeries::new("names", "", 2);
    ts.push("a".to_string());
    ts.push("b".to_string());
    ts.push("c".to_string());
    assert_eq!(ts.points, vec!["b".to_string(), "c".to_string()]);
}

#[test]
fn alert_cooldown_spaces_alerts() {
    let mut c = AlertCooldown::new();
    let t0 = 1_700_000_000 * SECOND;
    assert!(c.should_alert("cpu", t0));
    assert!(!c.should_alert("cpu", t0 + 59 * SECOND));
    assert!(c.should_alert("memory", t0 + 59 * SECOND));
    assert!(c.should_alert("cpu", t0 + ALERT_COOLDOWN_NANOS));
    assert!(!c.should_alert("cpu", t0 + ALERT_COOLDOWN_NANOS + 1));
    assert!(!c.should_alert("memory", t0 + 100 * SECOND));
    assert!(c.should_alert("memory", t0 + 119 * SECOND));
}

#[test]
fn alert_cooldown_refused_alert_keeps_the_old_time() {
    let mut c = AlertCooldown::new();
    assert!(c.should_alert("disk:/", 0));
    assert!(!c.should_alert("disk:/", 30 * SECOND));
    // The refused attempt at 30 s did not restart the cooldown.
    assert!(c.should_alert("disk:/", 60 * SECOND));
}

#[test]
fn disk_components_are_named_by_mount() {
    assert_eq!(disk_component("/home"), "disk:/home");
    assert_eq!(disk_component(""), "disk:");
}

#[test]
fn alerts_severity_filter_case_insensitive() {
    let alerts = [AlertSeverity::Warning];
    let count = alerts.iter().filter(|s| severity_filter_passes(Some("WARNING"), **s)).count();
    assert_eq!(count, 1);
    assert!(severity_filter_passes(Some("Critical"), AlertSeverity::Critical));
    assert!(!severity_filter_passes(Some("critical"), AlertSeverity::Warning));
    assert!(!severity_filter_passes(Some("warn"), AlertSeverity::Warning));
    assert!(severity_filter_passes(None, AlertSeverity::Info));
    assert_eq!(AlertSeverity::Info.as_str(), "INFO");
    assert_eq!(AlertSeverity::Warning.as_str(), "WARNING");
    assert_eq!(AlertSeverity::Critical.as_str(), "CRITICAL");
}

#[test]
fn prediction_minutes() {
    assert_eq!(minutes_until(24, 5), 2);
    assert_eq!(minutes_until(11, 5), 0);
    assert_eq!(minutes_until(0, 5), 0);
}

#[test]
fn bounded_push_keeps_the_newest() {
    let mut items = vec![1, 2, 3];
    push_bounded(&mut items, vec![4, 5], 4);
    assert_eq!(items, vec![2, 3, 4, 5]);
    push_bounded(&mut items, vec![], 4);
    assert_eq!(items, vec![2, 3, 4, 5]);
    push_bounded(&mut items, vec![6, 7, 8, 9, 10], 3);
    assert_eq!(items, vec![8, 9, 10]);
    push_bounded(&mut items, vec![11], 0);
    assert!(items.is_empty());
}

#[test]
fn alert_history_is_capped() {
    assert_eq!(MAX_ALERTS, 100);
    let mut alerts: Vec<u32> = (0..90).collect();
    push_bounded(&mut alerts, (90..130).collect(), MAX_ALERTS);
    assert_eq!(alerts.len(), 100);
    assert_eq!(alerts[0], 30);
    assert_eq!(alerts[99], 129);
}

#[test]
fn alert_cooldown_holds_through_other_requests() {
    let mut c = AlertCooldown::new();
    let t1 = 5_000 * SECOND;
    assert!(c.should_alert("cpu", t1));
    // Requests in between: other components, and refused ones for cpu.
    assert!(c.should_alert("memory", t1 + SECOND));
    assert!(!c.should_alert("cpu", t1 + 10 * SECOND));
    assert!(c.should_alert("disk:/", t1 + 20 * SECOND));
    assert!(!c.should_alert("cpu", t1 + 59 * SECOND));
    assert!(!c.should_alert("cpu", t1 + ALERT_COOLDOWN_NANOS - 1));
    assert!(c.should_alert("cpu", t1 + ALERT_COOLDOWN_NANOS));
}

#[test]
fn alert_cooldown_same_time_fires_once() {
    let mut c = AlertCooldown::new();
    assert!(c.should_alert("memory", 7 * SECOND));
    assert!(!c.should_alert("memory", 7 * SECOND));
}
