use nazar::alerts::AlertSeverity;
use nazar::metrics::{NazarConfig, ProcessInfo, ServiceState, ServiceStatus};
use nazar::panels::{
    age_label, choose_layout, core_cell, core_rows, cpu_panel_shows_cores, gpu_band_height,
    help_entries, help_popup, interface_error_suffix, interface_status, process_header,
    severity_tag, shown_interface_count, uptime_hours_minutes, FrameLayout, PanelRect,
};
use nazar::tui::{is_agnos, KeyInput, ProcessSort, Tab, TuiApp};

fn make_app() -> TuiApp {
    TuiApp::new(&NazarConfig::default())
}

fn sample_processes() -> Vec<ProcessInfo> {
    vec![
        ProcessInfo {
            pid: 100,
            name: "alpha".into(),
            state: 'R',
            cpu_ticks: 1,
            cpu_ticks_total: 2,
            memory_bytes: 200_000_000,
            memory_total_bytes: 2_000_000_000,
            threads: 4,
        },
        ProcessInfo {
            pid: 200,
            name: "beta".into(),
            state: 'S',
            cpu_ticks: 80,
            cpu_ticks_total: 100,
            memory_bytes: 100_000_000,
            memory_total_bytes: 2_000_000_000,
            threads: 2,
        },
        ProcessInfo {
            pid: 50,
            name: "gamma".into(),
            state: 'R',
            cpu_ticks: 1_000,
            cpu_ticks_total: 10_000,
            memory_bytes: 500_000_000,
            memory_total_bytes: 2_000_000_000,
            threads: 8,
        },
    ]
}

fn daimon(state: ServiceState) -> ServiceStatus {
    ServiceStatus {
        name: "daimon".into(),
        state,
        pid: Some(1234),
        uptime_secs: Some(3600),
        port: Some(8090),
    }
}

// ---- Tab tests ----

#[test]
fn tab_all_has_six_entries() {
    assert_eq!(Tab::all().len(), 6);
}

#[test]
fn tab_labels_are_nonempty() {
    for tab in Tab::all() {
        assert!(!tab.label().is_empty());
    }
}

#[test]
fn tab_keys_are_unique() {
    let keys: Vec<char> = Tab::all().iter().map(|t| t.key()).collect();
    let unique: std::collections::HashSet<char> = keys.iter().copied().collect();
    assert_eq!(keys.len(), unique.len());
}

#[test]
fn tab_keys_are_1_through_6() {
    let keys: Vec<char> = Tab::all().iter().map(|t| t.key()).collect();
    assert_eq!(keys, vec!['1', '2', '3', '4', '5', '6']);
}

#[test]
fn tab_key_round_trip() {
    for tab in Tab::all() {
        assert_eq!(Tab::from_key(tab.key()), Some(tab));
        assert_eq!(Tab::from_index(tab.index()), tab);
    }
    assert_eq!(Tab::from_key('7'), None);
    assert_eq!(Tab::Insights.label(), "AI Insights");
}

// ---- ProcessSort tests ----

#[test]
fn process_sort_cycles_through_all() {
    let start = ProcessSort::Cpu;
    let s1 = start.next();
    assert_eq!(s1, ProcessSort::Memory);
    let s2 = s1.next();
    assert_eq!(s2, ProcessSort::Pid);
    let s3 = s2.next();
    assert_eq!(s3, ProcessSort::Name);
    let s4 = s3.next();
    assert_eq!(s4, ProcessSort::Cpu);
}

#[test]
fn process_sort_labels_nonempty() {
    for sort in [ProcessSort::Cpu, ProcessSort::Memory, ProcessSort::Pid, ProcessSort::Name] {
        assert!(!sort.label().is_empty());
    }
    assert_eq!(ProcessSort::Memory.label(), "MEM");
}

// ---- TuiApp tests ----

#[test]
fn app_new_defaults() {
    let app = make_app();
    assert_eq!(app.active_tab, Tab::Processes);
    assert_eq!(app.scroll_offset, 0);
    assert_eq!(app.process_sort, ProcessSort::Cpu);
    assert!(app.sort_reverse);
    assert!(!app.show_help);
    assert_eq!(app.refresh_ms, 1000);
}

#[test]
fn app_next_tab_cycles() {
    let mut app = make_app();
    assert_eq!(app.active_tab, Tab::Processes);
    app.next_tab();
    assert_eq!(app.active_tab, Tab::Alerts);
    app.next_tab();
    assert_eq!(app.active_tab, Tab::Predictions);
    app.next_tab();
    assert_eq!(app.active_tab, Tab::Agents);
    app.next_tab();
    assert_eq!(app.active_tab, Tab::Services);
    app.next_tab();
    assert_eq!(app.active_tab, Tab::Insights);
    app.next_tab();
    assert_eq!(app.active_tab, Tab::Processes);
}

#[test]
fn app_prev_tab_cycles() {
    let mut app = make_app();
    assert_eq!(app.active_tab, Tab::Processes);
    app.prev_tab();
    assert_eq!(app.active_tab, Tab::Insights);
    app.prev_tab();
    assert_eq!(app.active_tab, Tab::Services);
}

#[test]
fn app_tab_change_resets_scroll() {
    let mut app = make_app();
    app.scroll_offset = 10;
    app.next_tab();
    assert_eq!(app.scroll_offset, 0);
}

#[test]
fn app_scroll_up_down() {
    let mut app = make_app();
    assert_eq!(app.scroll_offset, 0);
    app.scroll_down();
    assert_eq!(app.scroll_offset, 1);
    app.scroll_down();
    assert_eq!(app.scroll_offset, 2);
    app.scroll_up();
    assert_eq!(app.scroll_offset, 1);
    app.scroll_up();
    assert_eq!(app.scroll_offset, 0);
}

#[test]
fn app_scroll_up_saturates_at_zero() {
    let mut app = make_app();
    app.scroll_up();
    assert_eq!(app.scroll_offset, 0);
    app.scroll_up();
    assert_eq!(app.scroll_offset, 0);
}

#[test]
fn app_scroll_down_saturates_at_max() {
    let mut app = make_app();
    app.scroll_offset = u16::MAX;
    app.scroll_down();
    assert_eq!(app.scroll_offset, u16::MAX);
}

#[test]
fn app_cycle_sort() {
    let mut app = make_app();
    assert_eq!(app.process_sort, ProcessSort::Cpu);
    app.cycle_sort();
    assert_eq!(app.process_sort, ProcessSort::Memory);
    app.cycle_sort();
    assert_eq!(app.process_sort, ProcessSort::Pid);
}

#[test]
fn app_toggle_sort_order() {
    let mut app = make_app();
    assert!(app.sort_reverse);
    app.toggle_sort_order();
    assert!(!app.sort_reverse);
    app.toggle_sort_order();
    assert!(app.sort_reverse);
}

#[test]
fn app_keys_drive_the_dashboard() {
    let mut app = make_app();
    assert!(!app.handle_key(KeyInput::Char('?')));
    assert!(app.show_help);
    assert!(!app.handle_key(KeyInput::Char('3')));
    assert_eq!(app.active_tab, Tab::Predictions);
    assert!(!app.handle_key(KeyInput::Tab { shift: true }));
    assert_eq!(app.active_tab, Tab::Alerts);
    assert!(!app.handle_key(KeyInput::BackTab));
    assert_eq!(app.active_tab, Tab::Processes);
    assert!(!app.handle_key(KeyInput::Down));
    assert_eq!(app.scroll_offset, 1);
    assert!(!app.handle_key(KeyInput::Char('s')));
    assert_eq!(app.process_sort, ProcessSort::Memory);
    assert!(!app.handle_key(KeyInput::Char('r')));
    assert!(!app.sort_reverse);
    assert!(app.handle_key(KeyInput::Char('q')));
    assert!(app.handle_key(KeyInput::Esc));
}

// ---- Process sorting tests ----

#[test]
fn sorted_by_cpu_desc() {
    let app = make_app();
    let sorted = app.sorted_processes(&sample_processes());
    assert_eq!(sorted[0].name, "beta");
    assert_eq!(sorted[1].name, "alpha");
    assert_eq!(sorted[2].name, "gamma");
}

#[test]
fn sorted_by_cpu_asc() {
    let mut app = make_app();
    app.sort_reverse = false;
    let sorted = app.sorted_processes(&sample_processes());
    assert_eq!(sorted[0].name, "gamma");
    assert_eq!(sorted[2].name, "beta");
}

#[test]
fn sorted_by_memory_desc() {
    let mut app = make_app();
    app.process_sort = ProcessSort::Memory;
    let sorted = app.sorted_processes(&sample_processes());
    assert_eq!(sorted[0].name, "gamma");
    assert_eq!(sorted[1].name, "alpha");
    assert_eq!(sorted[2].name, "beta");
}

#[test]
fn sorted_by_pid_asc() {
    let mut app = make_app();
    app.process_sort = ProcessSort::Pid;
    app.sort_reverse = false;
    let sorted = app.sorted_processes(&sample_processes());
    assert_eq!(sorted[0].pid, 50);
    assert_eq!(sorted[1].pid, 100);
    assert_eq!(sorted[2].pid, 200);
}

#[test]
fn sorted_by_name_asc() {
    let mut app = make_app();
    app.process_sort = ProcessSort::Name;
    app.sort_reverse = false;
    let sorted = app.sorted_processes(&sample_processes());
    assert_eq!(sorted[0].name, "alpha");
    assert_eq!(sorted[1].name, "beta");
    assert_eq!(sorted[2].name, "gamma");
}

#[test]
fn sorted_empty_processes() {
    let app = make_app();
    let sorted = app.sorted_processes(&[]);
    assert!(sorted.is_empty());
}

#[test]
fn sorted_ties_keep_their_order() {
    let mut procs = sample_processes();
    procs[2].cpu_ticks = 5_000;
    let app = make_app();
    let sorted = app.sorted_processes(&procs);
    assert_eq!(sorted[0].name, "beta");
    assert_eq!(sorted[1].name, "alpha");
    assert_eq!(sorted[2].name, "gamma");
}

#[test]
fn sorted_by_exact_cpu_share() {
    let mut procs = sample_processes();
    procs[0].cpu_ticks = 100;
    procs[0].cpu_ticks_total = 1_000_000;
    procs[1].cpu_ticks = 105;
    procs[1].cpu_ticks_total = 1_000_000;
    procs[2].cpu_ticks = 7;
    procs[2].cpu_ticks_total = 0;
    let app = make_app();
    let sorted = app.sorted_processes(&procs);
    assert_eq!(sorted[0].name, "beta");
    assert_eq!(sorted[1].name, "alpha");
    assert_eq!(sorted[2].name, "gamma");
}

// ---- AGNOS detection ----

#[test]
fn frame_data_detects_agnos_by_agents() {
    assert!(is_agnos(3, &[]));
}

#[test]
fn frame_data_detects_agnos_by_daimon_service() {
    assert!(is_agnos(0, &[daimon(ServiceState::Running)]));
}

#[test]
fn frame_data_not_agnos_without_agents_or_daimon() {
    assert!(!is_agnos(0, &[]));
}

#[test]
fn frame_data_not_agnos_daimon_stopped() {
    assert!(!is_agnos(0, &[daimon(ServiceState::Stopped)]));
}

// ---- Panels ----

#[test]
fn layout_follows_snapshot_height_and_host() {
    assert_eq!(choose_layout(false, 40, true), FrameLayout::Waiting);
    assert_eq!(choose_layout(true, 9, true), FrameLayout::Minimal);
    assert_eq!(choose_layout(true, 10, true), FrameLayout::Agnos);
    assert_eq!(choose_layout(true, 10, false), FrameLayout::Standard);
    assert_eq!(gpu_band_height(false, false), 0);
    assert_eq!(gpu_band_height(true, false), 6);
    assert_eq!(gpu_band_height(false, true), 6);
}

#[test]
fn help_popup_is_centred() {
    assert_eq!(help_entries().len(), 8);
    assert_eq!(help_entries()[0], ("q / Esc", "Quit"));
    let r = help_popup(PanelRect { x: 0, y: 0, width: 80, height: 24 });
    assert_eq!(r, PanelRect { x: 15, y: 6, width: 50, height: 12 });
    let small = help_popup(PanelRect { x: 2, y: 1, width: 10, height: 5 });
    assert_eq!(small, PanelRect { x: 4, y: 2, width: 6, height: 3 });
    let tiny = help_popup(PanelRect { x: 0, y: 0, width: 3, height: 1 });
    assert_eq!(tiny, PanelRect { x: 1, y: 0, width: 0, height: 0 });
}

#[test]
fn core_gauges_fill_rows_of_eight() {
    assert_eq!(core_rows(0), 0);
    assert_eq!(core_rows(1), 1);
    assert_eq!(core_rows(8), 1);
    assert_eq!(core_rows(9), 2);
    assert_eq!(core_rows(64), 3);
    assert!(cpu_panel_shows_cores(6, 2));
    assert!(!cpu_panel_shows_cores(5, 2));
    let area = PanelRect { x: 2, y: 10, width: 80, height: 2 };
    assert_eq!(core_cell(area, 0), Some(PanelRect { x: 2, y: 10, width: 10, height: 1 }));
    assert_eq!(core_cell(area, 9), Some(PanelRect { x: 12, y: 11, width: 10, height: 1 }));
    assert_eq!(core_cell(area, 16), None);
}

#[test]
fn network_panel_labels() {
    let names: Vec<String> = ["lo", "eth0", "wlan0", "lo", "br0", "tun0", "veth1"]
        .iter()
        .map(|s| s.to_string())
        .collect();
    assert_eq!(shown_interface_count(&names), 4);
    assert_eq!(shown_interface_count(&vec!["lo".to_string(), "eth0".to_string()]), 1);
    assert_eq!(interface_status(true), "UP");
    assert_eq!(interface_status(false), "DN");
    assert_eq!(interface_error_suffix(0, 0), "");
    assert_eq!(interface_error_suffix(3, 0), " err:rx=3 tx=0");
}

#[test]
fn uptime_and_age_labels() {
    assert_eq!(uptime_hours_minutes(3600 * 5 + 60 * 7 + 59), (5, 7));
    assert_eq!(age_label(7300), "2h ago");
    assert_eq!(age_label(3599), "59m ago");
    assert_eq!(age_label(59), "59s ago");
    assert_eq!(age_label(-5), "-5s ago");
    assert_eq!(severity_tag(AlertSeverity::Critical), "CRIT");
    assert_eq!(severity_tag(AlertSeverity::Warning), "WARN");
    assert_eq!(severity_tag(AlertSeverity::Info), "INFO");
}

#[test]
fn process_headers_mark_the_sorted_column() {
    assert_eq!(process_header(2, ProcessSort::Cpu, true), "CPU%v");
    assert_eq!(process_header(2, ProcessSort::Cpu, false), "CPU%^");
    assert_eq!(process_header(0, ProcessSort::Cpu, true), "PID");
    assert_eq!(process_header(1, ProcessSort::Name, false), "Name^");
    assert_eq!(process_header(6, ProcessSort::Memory, true), "Thr");
}
