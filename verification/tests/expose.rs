use rustrland::expose::{
    expose_windows, get_current_workspace, parse_command, unknown_command_message, ExposeCandidate,
    ExposeCommand, ExposeConfig, ExposeState, WindowState, WorkspaceSummary,
};

fn ws(address: &str, workspace: i32, title: &str) -> WindowState {
    WindowState { address: address.to_string(), original_workspace: workspace, title: title.to_string() }
}

#[test]
fn test_window_state_creation() {
    let window_state = ws("0x12345", 2, "Test Window");
    assert_eq!(window_state.address, "0x12345");
    assert_eq!(window_state.original_workspace, 2);
    assert_eq!(window_state.title, "Test Window");
}

#[test]
fn test_expose_state_default() {
    let state = ExposeState::default();
    assert_eq!(state.is_active, false);
    assert_eq!(state.original_workspace, 1);
    assert_eq!(state.original_windows.len(), 0);
    assert_eq!(state.target_monitor, None);
}

#[test]
fn test_expose_config_default() {
    let config = ExposeConfig::default();
    assert_eq!(config.debug_logging, false);
    assert_eq!(config.include_special, false);
    assert_eq!(config.target_monitor, None);
}

#[test]
fn test_get_status_inactive() {
    assert_eq!(ExposeState::default().get_status(), "Expose: Inactive");
}

#[test]
fn test_get_status_active() {
    let mut state = ExposeState::default();
    state.is_active = true;
    state.original_workspace = 2;
    state.original_windows = vec![ws("0x1", 1, "Window 1"), ws("0x2", 2, "Window 2")];
    let status = state.get_status();
    assert!(status.contains("Expose: Active"));
    assert!(status.contains("Windows: 2"));
    assert!(status.contains("Original Workspace: 2"));
}

#[test]
fn test_window_state_clone() {
    let window_state = ws("0x12345", 3, "Test Window");
    let cloned = window_state.clone();
    assert_eq!(cloned.address, window_state.address);
    assert_eq!(cloned.original_workspace, window_state.original_workspace);
    assert_eq!(cloned.title, window_state.title);
}

#[test]
fn test_expose_state_clone() {
    let mut state = ExposeState::default();
    state.is_active = true;
    state.original_workspace = 5;
    state.original_windows.push(ws("0x123", 2, "Window"));
    let cloned = state.clone();
    assert_eq!(cloned.is_active, state.is_active);
    assert_eq!(cloned.original_workspace, state.original_workspace);
    assert_eq!(cloned.original_windows.len(), state.original_windows.len());
    assert_eq!(cloned.original_windows[0].address, state.original_windows[0].address);
}

#[test]
fn test_expose_workflow_simulation() {
    let mut state = ExposeState::default();
    let msg = state.enter(3, vec![ws("0x123", 1, "Firefox"), ws("0x456", 2, "Terminal")]);
    assert_eq!(msg, "Expose mode activated with 2 windows");
    let status = state.get_status();
    assert!(status.contains("Expose: Active"));
    assert!(status.contains("Windows: 2"));
    assert!(status.contains("Original Workspace: 3"));
    let (msg, restore) = state.exit();
    assert_eq!(msg, "Expose mode deactivated");
    let restore = restore.unwrap();
    assert_eq!(restore.workspace, 3);
    assert_eq!(restore.windows.len(), 2);
    assert_eq!(restore.windows[1].title, "Terminal");
    assert_eq!(state.get_status(), "Expose: Inactive");
    assert_eq!(state.original_workspace, 1);
}

#[test]
fn expose_enter_and_exit_edges() {
    let mut state = ExposeState::default();
    assert_eq!(state.exit().0, "Expose not active");
    assert_eq!(state.enter(4, Vec::new()), "No windows to expose");
    assert!(!state.is_active);
    assert_eq!(state.original_workspace, 4);
    state.enter(4, vec![ws("0x1", 1, "A")]);
    assert_eq!(state.enter(6, vec![ws("0x2", 1, "B")]), "Expose already active");
    assert_eq!(state.original_workspace, 4);
}

#[test]
fn test_multiple_command_aliases() {
    for c in ["toggle", "show", "enter"] {
        assert_eq!(parse_command(c), ExposeCommand::Toggle);
    }
    for c in ["hide", "exit"] {
        assert_eq!(parse_command(c), ExposeCommand::Exit);
    }
    assert_eq!(parse_command("status"), ExposeCommand::Status);
    assert_eq!(parse_command("unknown"), ExposeCommand::Unknown);
    assert!(unknown_command_message("unknown").contains("Unknown expose command"));
    assert_eq!(
        unknown_command_message("zap"),
        "Unknown expose command: zap. Available: toggle, show, enter, hide, exit, status"
    );
}

fn cand(address: &str, w: i32, h: i32, workspace: &str, mapped: bool, focus: i32) -> ExposeCandidate {
    ExposeCandidate {
        address: address.to_string(),
        title: address.to_string(),
        workspace_id: 1,
        workspace_name: workspace.to_string(),
        width: w,
        height: h,
        mapped,
        focus_history_id: focus,
    }
}

#[test]
fn expose_window_selection() {
    let cs = vec![
        cand("a", 800, 600, "1", true, 0),
        cand("tiny", 40, 600, "1", true, 5),
        cand("hidden", 800, 600, "special:x", true, 3),
        cand("unmapped", 800, 600, "1", false, 4),
        cand("b", 800, 600, "2", true, 2),
        cand("c", 50, 30, "2", true, 2),
    ];
    assert_eq!(expose_windows(&cs, false), vec![4, 5, 0]);
    assert_eq!(expose_windows(&cs, true), vec![2, 4, 5, 0]);
}

#[test]
fn expose_return_workspace() {
    let w = |id: i32, m: &str, n: u16| WorkspaceSummary { id, monitor: m.to_string(), windows: n };
    let list = vec![w(1, "DP-1", 0), w(2, "DP-2", 1), w(3, "DP-1", 2)];
    assert_eq!(get_current_workspace(&list, &Some("DP-1".to_string())), 3);
    assert_eq!(get_current_workspace(&list, &None), 2);
    assert_eq!(get_current_workspace(&vec![w(1, "DP-1", 0)], &None), 1);
}
