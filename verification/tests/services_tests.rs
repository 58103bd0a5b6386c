use nazar::metrics::ServiceState;
use nazar::services::{
    known_services, service_host_from_api_url, status_from_probe, ProbeOutcome, ProbeSchedule,
    ServiceChecker, PROBE_TIMEOUT_SECS,
};

#[test]
fn known_services_defined() {
    let services = known_services();
    assert!(services.len() >= 2);
    assert!(services.iter().any(|(n, _)| *n == "daimon"));
    assert!(services.iter().any(|(n, _)| *n == "hoosh"));
    assert_eq!(services, vec![("daimon", 8090), ("hoosh", 8088)]);
}

#[test]
fn valid_host_accepted() {
    assert!(ServiceChecker::new("127.0.0.1").is_some());
    assert!(ServiceChecker::new("localhost").is_some());
}

#[test]
fn invalid_host_rejected() {
    assert!(ServiceChecker::new("").is_none());
    assert!(ServiceChecker::new("http://localhost").is_none());
    assert!(ServiceChecker::new("host:8090").is_none());
    assert!(ServiceChecker::new("host/path").is_none());
}

#[test]
fn host_is_trimmed_and_checked() {
    let c = ServiceChecker::new("  example.local \n").unwrap();
    assert_eq!(c.host(), "example.local");
    assert!(ServiceChecker::new("   ").is_none());
    assert!(ServiceChecker::new("two words").is_none());
}

#[test]
fn probe_urls() {
    let c = ServiceChecker::new("10.0.0.5").unwrap();
    assert_eq!(c.health_url(8090), "http://10.0.0.5:8090/v1/health");
    assert_eq!(c.health_url(0), "http://10.0.0.5:0/v1/health");
    assert_eq!(c.agents_url(), "http://10.0.0.5:8090/v1/agents");
}

#[test]
fn probe_outcomes_become_statuses() {
    let healthy = status_from_probe(
        "daimon",
        8090,
        ProbeOutcome::Healthy { uptime_secs: Some(120), pid: Some(4_294_967_296 + 7) },
    );
    assert_eq!(healthy.name, "daimon");
    assert_eq!(healthy.state, ServiceState::Running);
    assert_eq!(healthy.pid, Some(7));
    assert_eq!(healthy.uptime_secs, Some(120));
    assert_eq!(healthy.port, Some(8090));

    let bare = status_from_probe("hoosh", 8088, ProbeOutcome::Healthy { uptime_secs: None, pid: None });
    assert_eq!(bare.state, ServiceState::Running);
    assert_eq!(bare.pid, None);

    let failed = status_from_probe("hoosh", 8088, ProbeOutcome::Unhealthy);
    assert_eq!(failed.state, ServiceState::Failed);
    assert_eq!(failed.port, Some(8088));
    assert_eq!(failed.pid, None);

    let stopped = status_from_probe("hoosh", 8088, ProbeOutcome::Unreachable);
    assert_eq!(stopped.state, ServiceState::Stopped);
    assert_eq!(stopped.uptime_secs, None);
}

#[test]
fn service_host_from_urls() {
    assert_eq!(service_host_from_api_url("http://127.0.0.1:8090"), "127.0.0.1");
    assert_eq!(service_host_from_api_url("https://agnos.local:443"), "agnos.local");
    assert_eq!(service_host_from_api_url("http://http://box"), "box");
    assert_eq!(service_host_from_api_url("plainhost"), "plainhost");
    assert_eq!(service_host_from_api_url(""), "");
}

#[test]
fn probes_run_on_first_and_every_sixth_tick() {
    let mut s = ProbeSchedule::new();
    let probes: Vec<bool> = (0..13).map(|_| s.tick()).collect();
    assert_eq!(
        probes,
        vec![true, false, false, false, false, false, true, false, false, false, false, false, true]
    );
}

#[test]
fn checker_client_times_out_after_two_seconds() {
    assert_eq!(PROBE_TIMEOUT_SECS, 2);
    let c = ServiceChecker::new("localhost").unwrap();
    assert_eq!(c.timeout_secs(), Some(2));
}
