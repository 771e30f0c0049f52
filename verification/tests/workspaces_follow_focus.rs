use rustrland::scratchpad_geometry::MonitorInfo;
use rustrland::workspaces_follow_focus::{
    active_workspace_of, can_switch_workspace, change_target, enforcement_target, follow_status, default_animation_duration, default_animation_easing,
    default_switching_delay, default_true, get_locked_monitor_for_workspace, get_workspace_monitor,
    parse_command, plan_switch, urgent_workspace, workspace_listing, FollowCommand, WorkspaceInfo,
    WorkspacesFollowFocusConfig,
};

fn create_test_config() -> WorkspacesFollowFocusConfig {
    let mut config = WorkspacesFollowFocusConfig::default();
    config.workspace_rules.push(("1".to_string(), "DP-1".to_string()));
    config.workspace_rules.push(("2".to_string(), "HDMI-1".to_string()));
    config.animation_duration = 200;
    config.workspace_switching_delay = 50;
    config
}

fn ws(id: i32, monitor: &str) -> (i32, WorkspaceInfo) {
    (id, WorkspaceInfo { id, name: id.to_string(), monitor: monitor.to_string(), windows: 0, last_window_addr: "".to_string() })
}

fn monitor(name: &str, active: i32) -> MonitorInfo {
    MonitorInfo { name: name.to_string(), width: 1920, height: 1080, x: 0, y: 0, is_focused: false, active_workspace_id: active, percent_pixels: Vec::new() }
}

#[test]
fn workspaces_follow_focus_test_config_defaults() {
    let config = WorkspacesFollowFocusConfig::default();
    assert!(config.follow_window_focus);
    assert!(config.follow_workspace_request);
    assert!(config.allow_cross_monitor_switch);
    assert!(config.follow_urgent_windows);
    assert!(config.enable_animations);
    assert_eq!(config.animation_duration, 300);
    assert_eq!(config.animation_easing, "ease-out");
    assert_eq!(config.workspace_switching_delay, 100);
    assert!(!config.debug_logging);
    assert!(config.workspace_rules.is_empty());
}

#[test]
fn test_workspace_rules() {
    let config = create_test_config();
    assert_eq!(get_locked_monitor_for_workspace(&config.workspace_rules, 1), Some("DP-1".to_string()));
    assert_eq!(get_locked_monitor_for_workspace(&config.workspace_rules, 2), Some("HDMI-1".to_string()));
    assert_eq!(get_locked_monitor_for_workspace(&config.workspace_rules, 3), None);
}

#[test]
fn test_workspace_switching_debounce() {
    let config = create_test_config();
    assert!(can_switch_workspace(None, config.workspace_switching_delay));
    assert!(!can_switch_workspace(Some(0), config.workspace_switching_delay));
    assert!(can_switch_workspace(Some(100), config.workspace_switching_delay));
}

#[test]
fn workspaces_follow_focus_test_workspace_info_structure() {
    let workspace = WorkspaceInfo {
        id: 1,
        name: "1".to_string(),
        monitor: "DP-1".to_string(),
        windows: 3,
        last_window_addr: "0x12345".to_string(),
    };
    assert_eq!(workspace.id, 1);
    assert_eq!(workspace.name, "1");
    assert_eq!(workspace.monitor, "DP-1");
    assert_eq!(workspace.windows, 3);
    assert_eq!(workspace.last_window_addr, "0x12345");
}

#[test]
fn test_urgent_window_parsing() {
    assert_eq!(urgent_workspace("0x12345,1"), Some(1));
    assert_eq!(urgent_workspace("0x67890,3"), Some(3));
    assert_eq!(urgent_workspace("invalid"), None);
    assert_eq!(urgent_workspace(""), None);
    assert_eq!(urgent_workspace("0x1,2,extra"), Some(2));
}

#[test]
fn test_workspace_monitor_mapping() {
    let workspaces = vec![ws(1, "DP-1")];
    assert_eq!(get_workspace_monitor(&workspaces, 1), Some("DP-1".to_string()));
    assert_eq!(get_workspace_monitor(&workspaces, 999), None);
}

#[test]
fn test_animation_system_integration() {
    let mut config = WorkspacesFollowFocusConfig::default();
    config.enable_animations = false;
    config.animation_duration = 100;
    config.animation_easing = "ease-in".to_string();
    assert!(!config.enable_animations);
    assert_eq!(config.animation_duration, 100);
    assert_eq!(config.animation_easing, "ease-in");
}

#[test]
fn test_command_parsing() {
    let args = |v: &[&str]| v.iter().map(|s| s.to_string()).collect::<Vec<String>>();
    assert!(matches!(parse_command("switch", &args(&["5"])), Ok(FollowCommand::Switch(5))));
    assert!(matches!(parse_command("change", &args(&["+2"])), Ok(FollowCommand::Change(2))));
    assert!(matches!(parse_command("change", &args(&["-1"])), Ok(FollowCommand::Change(-1))));
}

#[test]
fn command_errors() {
    let args = |v: &[&str]| v.iter().map(|s| s.to_string()).collect::<Vec<String>>();
    assert_eq!(parse_command("switch", &args(&[])).unwrap_err(), "Switch command requires workspace ID");
    assert_eq!(parse_command("switch", &args(&["x"])).unwrap_err(), "Invalid workspace ID: x");
    assert_eq!(parse_command("change", &args(&["y"])).unwrap_err(), "Invalid offset: y");
    assert!(matches!(parse_command("list", &args(&[])), Ok(FollowCommand::List)));
    assert!(matches!(parse_command("foo", &args(&[])), Ok(FollowCommand::Unknown(m)) if m == "Unknown workspaces_follow_focus command: foo"));
}

#[test]
fn workspaces_follow_focus_test_default_functions() {
    assert!(default_true());
    assert_eq!(default_animation_duration(), 300);
    assert_eq!(default_animation_easing(), "ease-out");
    assert_eq!(default_switching_delay(), 100);
}

#[test]
fn switch_plans() {
    let config = create_test_config();
    let monitors = vec![monitor("DP-1", 3), monitor("HDMI-1", 4)];
    let workspaces = vec![ws(1, "HDMI-1"), ws(5, "HDMI-1"), ws(2, "HDMI-1")];
    assert_eq!(plan_switch(5, &None, &monitors, &workspaces, &config).unwrap_err(), "No focused monitor found");

    let p = plan_switch(5, &Some("DP-1".to_string()), &monitors, &workspaces, &config).unwrap();
    assert_eq!(p.move_to, Some("DP-1".to_string()));
    assert_eq!(p.focused_monitor, "DP-1");
    assert_eq!(p.animate_from, Some(3));
    assert_eq!(p.message, "Switched to workspace 5 on monitor DP-1");

    let p = plan_switch(1, &Some("HDMI-1".to_string()), &monitors, &workspaces, &config).unwrap();
    assert_eq!(p.move_to, Some("DP-1".to_string()));
    assert_eq!(p.focused_monitor, "DP-1");
    assert_eq!(p.message, "Switched to workspace 1 on monitor DP-1");

    let p = plan_switch(2, &Some("HDMI-1".to_string()), &monitors, &workspaces, &config).unwrap();
    assert_eq!(p.move_to, None);
    assert_eq!(p.focused_monitor, "HDMI-1");
}

#[test]
fn change_targets() {
    assert_eq!(change_target(3, 1), Ok(4));
    assert_eq!(change_target(10, 1).unwrap_err(), "Workspace 11 out of range (1-10)");
    assert_eq!(change_target(1, -1).unwrap_err(), "Workspace 0 out of range (1-10)");
}

#[test]
fn locked_workspaces_are_moved_back() {
    let config = create_test_config();
    let workspaces = vec![ws(1, "HDMI-1"), ws(2, "HDMI-1"), ws(3, "DP-1")];
    assert_eq!(enforcement_target(&config.workspace_rules, &workspaces, 1), Some("DP-1".to_string()));
    assert_eq!(enforcement_target(&config.workspace_rules, &workspaces, 2), None);
    assert_eq!(enforcement_target(&config.workspace_rules, &workspaces, 3), None);
    assert_eq!(enforcement_target(&config.workspace_rules, &workspaces, 7), None);
}

#[test]
fn active_workspace_of_monitor() {
    let monitors = vec![monitor("DP-1", 4), monitor("HDMI-1", 6)];
    assert_eq!(active_workspace_of(&monitors, "HDMI-1"), 6);
    assert_eq!(active_workspace_of(&monitors, "DP-9"), 1);
}

#[test]
fn follow_status_report() {
    let config = create_test_config();
    assert_eq!(
        follow_status(2, 5, &Some("DP-1".to_string()), &config),
        "WorkspacesFollowFocus: 2 monitors, 5 workspaces\nFocused: DP-1\nAnimation: Idle\nConfig:\n  - Follow window focus: true\n  - Cross-monitor switch: true\n  - Follow urgent: true\n  - Animations: true (200ms, ease-out)\n  - Switching delay: 50ms\n  - Workspace rules: 2 configured\n    Workspace 1 → Monitor DP-1\n    Workspace 2 → Monitor HDMI-1\n"
    );
    let plain = WorkspacesFollowFocusConfig::default();
    assert!(follow_status(0, 0, &None, &plain).ends_with("Focused: None\nAnimation: Idle\nConfig:\n  - Follow window focus: true\n  - Cross-monitor switch: true\n  - Follow urgent: true\n  - Animations: true (300ms, ease-out)\n  - Switching delay: 100ms\n  - Workspace rules: None configured\n"));
}

#[test]
fn workspace_listing_orders_by_id_and_name() {
    let workspaces = vec![ws(3, "DP-1"), ws(1, "HDMI-1"), ws(2, "DP-1")];
    let mut a = monitor("HDMI-1", 1);
    a.is_focused = true;
    let b = monitor("DP-1", 2);
    let text = workspace_listing(&workspaces, &vec![a, b]);
    let expected = [
        "🏢 Workspaces:\n",
        "🎯 Workspace 1: 0 windows on monitor HDMI-1 (1)\n",
        "🎯 Workspace 2: 0 windows on monitor DP-1 (2)\n",
        "   Workspace 3: 0 windows on monitor DP-1 (3)\n",
        "\n🖥️  Monitors:\n",
        "   DP-1: 1920x1080 @ (0,0) - Workspace 2\n",
        "🎯 HDMI-1: 1920x1080 @ (0,0) - Workspace 1\n",
    ]
    .concat();
    assert_eq!(text, expected);
}
