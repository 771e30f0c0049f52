use rustrland::shift_monitors::{
    can_shift, default_animation_duration, default_shift_delay, default_true, get_ordered_monitors,
    listing_report, parse_direction, status_report, shift_assignments, shifted_message, MonitorInfo, ShiftMonitorsConfig,
    WorkspaceInfo,
};

#[test]
fn shift_monitors_test_config_defaults() {
    let config = ShiftMonitorsConfig::default();
    assert_eq!(config.shift_delay, 200);
    assert_eq!(config.animation_duration, 300);
    assert!(!config.debug_logging);
    assert!(config.enable_animations);
}

#[test]
fn test_shift_debounce() {
    // Configured with a 100 ms delay.
    assert!(can_shift(None, 100));
    assert!(!can_shift(Some(0), 100));
    assert!(can_shift(Some(150), 100));
}

#[test]
fn test_monitor_ordering() {
    let monitors = vec![
        MonitorInfo { id: 1, name: "DP-2".to_string(), focused: false, active_workspace: 2, width: 1920, height: 1080, x: 1920, y: 0 },
        MonitorInfo { id: 0, name: "DP-1".to_string(), focused: true, active_workspace: 1, width: 1920, height: 1080, x: 0, y: 0 },
    ];
    let ordered = get_ordered_monitors(&monitors);
    assert_eq!(ordered.len(), 2);
    assert_eq!(monitors[ordered[0]].name, "DP-1");
    assert_eq!(monitors[ordered[1]].name, "DP-2");
    assert_eq!(monitors[ordered[0]].x, 0);
    assert_eq!(monitors[ordered[1]].x, 1920);
}

#[test]
fn shift_monitors_test_monitor_info_structure() {
    let monitor = MonitorInfo { id: 0, name: "DP-1".to_string(), focused: true, active_workspace: 1, width: 1920, height: 1080, x: 0, y: 0 };
    assert_eq!(monitor.name, "DP-1");
    assert!(monitor.focused);
    assert_eq!(monitor.active_workspace, 1);
    assert_eq!(monitor.width, 1920);
    assert_eq!(monitor.height, 1080);
}

#[test]
fn shift_monitors_test_workspace_info_structure() {
    let workspace = WorkspaceInfo { id: 1, name: "1".to_string(), monitor: "DP-1".to_string(), windows: 3 };
    assert_eq!(workspace.id, 1);
    assert_eq!(workspace.name, "1");
    assert_eq!(workspace.monitor, "DP-1");
    assert_eq!(workspace.windows, 3);
}

#[test]
fn test_direction_parsing() {
    assert_eq!(parse_direction("+1").unwrap(), 1);
    assert_eq!(parse_direction("-1").unwrap(), -1);
    assert_eq!(parse_direction("3").unwrap(), 3);
    assert!(parse_direction("invalid").is_err());
}

#[test]
fn direction_errors_and_default() {
    assert_eq!(parse_direction("").unwrap(), 1);
    assert_eq!(parse_direction("0").unwrap_err(), "Direction cannot be 0. Use +1 for forward, -1 for backward");
    assert_eq!(parse_direction("x").unwrap_err(), "Invalid direction: x. Use +1 for forward, -1 for backward");
}

#[test]
fn shift_monitors_test_default_functions() {
    assert_eq!(default_shift_delay(), 200);
    assert_eq!(default_animation_duration(), 300);
    assert_eq!(default_true(), true);
}

fn mapping(v: &[(&str, i32)]) -> Vec<(String, i32)> {
    v.iter().map(|(n, w)| (n.to_string(), *w)).collect()
}

#[test]
fn shifting_rotates_workspaces() {
    let m = mapping(&[("DP-1", 1), ("DP-2", 2), ("DP-3", 3)]);
    assert_eq!(shift_assignments(&m, 1).unwrap(), mapping(&[("DP-1", 2), ("DP-2", 3), ("DP-3", 1)]));
    assert_eq!(shift_assignments(&m, -1).unwrap(), mapping(&[("DP-1", 3), ("DP-2", 1), ("DP-3", 2)]));
    assert_eq!(
        shift_assignments(&mapping(&[("DP-1", 1)]), 1).unwrap_err(),
        "Need at least 2 monitors to shift workspaces"
    );
}

#[test]
fn shift_there_and_back_restores() {
    let m = mapping(&[("DP-1", 4), ("DP-2", 7), ("DP-3", 9), ("DP-4", 2)]);
    let forward = shift_assignments(&m, 2).unwrap();
    let back = shift_assignments(&forward, -5).unwrap();
    assert_eq!(back, m);
}

#[test]
fn shift_message_text() {
    assert_eq!(shifted_message(1, 2), "Shifted workspaces forward across 2 monitors");
    assert_eq!(shifted_message(-1, 3), "Shifted workspaces backward across 3 monitors");
}

#[test]
fn status_and_listing_reports() {
    let monitors = vec![
        MonitorInfo { id: 1, name: "DP-2".to_string(), focused: false, active_workspace: 2, width: 1920, height: 1080, x: 1920, y: 0 },
        MonitorInfo { id: 0, name: "DP-1".to_string(), focused: true, active_workspace: 1, width: 2560, height: 1440, x: 0, y: -10 },
    ];
    let workspaces = vec![
        WorkspaceInfo { id: 1, name: "1".to_string(), monitor: "DP-1".to_string(), windows: 3 },
        WorkspaceInfo { id: 5, name: "5".to_string(), monitor: "DP-2".to_string(), windows: 1 },
    ];
    let order = get_ordered_monitors(&monitors);
    let status = status_report(&monitors, &order, &workspaces, &ShiftMonitorsConfig::default());
    assert_eq!(
        status,
        "ShiftMonitors: 2 monitors, 2 workspaces\nCurrent mapping:\n🎯 DP-1: Workspace 1 (2560x1440 @ 0,-10) - 3 windows\n   DP-2: Workspace 2 (1920x1080 @ 1920,0) - 0 windows\n\nConfig:\n  - Shift delay: 200ms\n  - Animations: true (300ms)\n  - Debug logging: false\n"
    );
    let listing = listing_report(&monitors, &order, &workspaces);
    assert_eq!(
        listing,
        "🖥️  Monitors and Workspaces:\n🎯 [1] DP-1: 2560x1440 @ (0,-10) - Workspace 1 (3 windows)\n   [2] DP-2: 1920x1080 @ (1920,0) - Workspace 2 (0 windows)\n\nUse 'shift_monitors +1' to shift workspaces forward or 'shift_monitors -1' to shift backward.\n"
    );
}
