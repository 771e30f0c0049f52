use rustrland::toggle_special::{
    action_message, can_perform_operation, decide_toggle, default_animation_duration,
    default_operation_delay, default_special_name, default_true, get_focused_window,
    get_window_special_workspace, is_window_in_special, move_target, special_listing, toggle_status, toggle_target, update_special_workspace_states, windows_by_address,
    SpecialWorkspaceState, ToggleAction, ToggleSpecialConfig, WindowInfo,
};

fn win(address: &str, title: &str, workspace_id: i32, workspace_name: &str, focused: bool) -> (String, WindowInfo) {
    (
        address.to_string(),
        WindowInfo {
            address: address.to_string(),
            title: title.to_string(),
            class: "test-app".to_string(),
            workspace_id,
            workspace_name: workspace_name.to_string(),
            focused,
            x: 0,
            y: 0,
            width: 800,
            height: 600,
        },
    )
}

#[test]
fn toggle_special_test_config_defaults() {
    let config = ToggleSpecialConfig::default();
    assert_eq!(config.default_special_name, "special");
    assert_eq!(config.animation_duration, 250);
    assert_eq!(config.operation_delay, 100);
    assert!(!config.debug_logging);
    assert!(config.enable_animations);
    assert!(config.auto_close_empty);
    assert!(config.remember_position);
}

#[test]
fn test_operation_debounce() {
    // Configured with a 50 ms delay.
    assert!(can_perform_operation(None, 50));
    assert!(!can_perform_operation(Some(0), 50));
    assert!(can_perform_operation(Some(100), 50));
}

#[test]
fn test_window_info_structure() {
    let window = WindowInfo {
        address: "0x12345".to_string(),
        title: "Test Window".to_string(),
        class: "test-app".to_string(),
        workspace_id: 1,
        workspace_name: "1".to_string(),
        focused: true,
        x: 100,
        y: 200,
        width: 800,
        height: 600,
    };
    assert_eq!(window.address, "0x12345");
    assert_eq!(window.title, "Test Window");
    assert_eq!(window.class, "test-app");
    assert_eq!(window.workspace_id, 1);
    assert!(window.focused);
    assert_eq!(window.x, 100);
    assert_eq!(window.y, 200);
    assert_eq!(window.width, 800);
    assert_eq!(window.height, 600);
}

#[test]
fn test_special_workspace_state() {
    let state = SpecialWorkspaceState {
        name: "special:test".to_string(),
        windows: vec!["0x12345".to_string(), "0x67890".to_string()],
        visible: true,
        last_focused_window: Some("0x12345".to_string()),
    };
    assert_eq!(state.name, "special:test");
    assert_eq!(state.windows.len(), 2);
    assert!(state.visible);
    assert_eq!(state.last_focused_window, Some("0x12345".to_string()));
}

#[test]
fn test_is_window_in_special() {
    let windows = vec![
        win("0x12345", "Regular Window", 1, "1", false),
        win("0x67890", "Special Window", -99, "special:test", false),
    ];
    assert!(!is_window_in_special(&windows, "0x12345"));
    assert!(is_window_in_special(&windows, "0x67890"));
    assert!(!is_window_in_special(&windows, "0xnonexistent"));
}

#[test]
fn test_get_window_special_workspace() {
    let windows = vec![win("0x67890", "Special Window", -99, "special:minimized", false)];
    assert_eq!(get_window_special_workspace(&windows, "0x67890"), Some("special:minimized".to_string()));
    assert_eq!(get_window_special_workspace(&windows, "0xnonexistent"), None);
}

#[test]
fn toggle_special_test_default_functions() {
    assert_eq!(default_special_name(), "special");
    assert_eq!(default_animation_duration(), 250);
    assert_eq!(default_operation_delay(), 100);
    assert_eq!(default_true(), true);
}

#[test]
fn test_focused_window_detection() {
    let windows = vec![
        win("0x12345", "Unfocused Window", 1, "1", false),
        win("0x67890", "Focused Window", 1, "1", true),
    ];
    let focused = get_focused_window(&windows);
    assert!(focused.is_some());
    assert_eq!(windows[focused.unwrap()].1.title, "Focused Window");
    assert_eq!(windows[focused.unwrap()].1.address, "0x67890");
}

#[test]
fn toggle_decisions_and_messages() {
    let regular = vec![win("0x1", "Editor", 1, "1", true)];
    let a = decide_toggle(&regular, None, "special");
    assert!(matches!(&a, ToggleAction::MoveToSpecial(n, t) if n == "special" && t == "Editor"));
    assert_eq!(action_message(&a), "Moved window 'Editor' to special workspace 'special'");

    let inside = vec![win("0x2", "Notes", -98, "special:notes", true)];
    let b = decide_toggle(&inside, Some("x"), "special");
    assert!(matches!(&b, ToggleAction::MoveFromSpecial(addr, _) if addr == "0x2"));
    assert_eq!(action_message(&b), "Moved window 'Notes' from special workspace back to regular workspace");

    let c = decide_toggle(&Vec::new(), Some("music"), "special");
    assert!(matches!(&c, ToggleAction::ToggleVisibility(n) if n == "music"));
    assert_eq!(action_message(&c), "Toggled visibility of special workspace 'music'");

    assert_eq!(toggle_target("special"), "special");
    assert_eq!(toggle_target("music"), "special:music");
    assert_eq!(move_target("special"), "special:special");
}

fn state(name: &str, windows: &[&str], visible: bool) -> (String, SpecialWorkspaceState) {
    (
        name.to_string(),
        SpecialWorkspaceState {
            name: name.to_string(),
            windows: windows.iter().map(|w| w.to_string()).collect(),
            visible,
            last_focused_window: None,
        },
    )
}

#[test]
fn special_workspace_states_follow_windows() {
    let windows = vec![
        win("0x1", "One", -98, "special:scratch", false),
        win("0x2", "Two", -98, "special:scratch", true),
        win("0x3", "Three", 1, "1", false),
        win("0x4", "Four", -97, "special:notes", false),
    ];
    let old = vec![state("special:scratch", &["0x1", "0x9"], false), state("special:empty", &["0x8"], false)];
    let shown = vec!["1".to_string(), "special:notes".to_string()];
    let r = update_special_workspace_states(&old, &windows, &shown);
    assert_eq!(r.len(), 2);
    assert_eq!(r[0].0, "special:scratch");
    assert_eq!(r[0].1.windows, vec!["0x1".to_string(), "0x2".to_string()]);
    assert!(!r[0].1.visible);
    assert_eq!(r[0].1.last_focused_window, Some("0x2".to_string()));
    assert_eq!(r[1].0, "special:notes");
    assert_eq!(r[1].1.windows, vec!["0x4".to_string()]);
    assert!(r[1].1.visible);
    assert_eq!(r[1].1.last_focused_window, None);
}

#[test]
fn shown_special_workspaces_stay_without_windows() {
    let old = vec![state("special:kept", &[], true)];
    let r = update_special_workspace_states(&old, &Vec::new(), &Vec::new());
    assert_eq!(r.len(), 1);
    assert!(r[0].1.visible);
}

#[test]
fn status_and_listing_of_special_workspaces() {
    let windows = vec![
        win("0x1", "One", -98, "special:scratch", true),
        win("0x2", "Two", 1, "1", false),
    ];
    let states = vec![state("special:scratch", &["0x1", "0x7"], false), state("special:notes", &[], true)];
    let config = ToggleSpecialConfig::default();
    assert_eq!(
        toggle_status(&windows, &states, &config),
        "ToggleSpecial: 2 total windows, 2 special workspaces, 2 windows in special\nFocused window: 'One' (in special)\nConfig:\n  - Default special: 'special'\n  - Animations: true (250ms)\n  - Operation delay: 100ms\n  - Auto-close empty: true\n  - Remember position: true\n  - Debug logging: false\n"
    );
    assert_eq!(
        special_listing(&windows, &states, &config),
        "🎯 Special Workspaces:\n  special:scratch (🙈 hidden) - 2 windows :\n    🎯 One (test-app)\n  special:notes (👁️  visible) - 0 windows \n\nConfig: default='special', animations=true, auto-close=true\n"
    );
    assert_eq!(
        special_listing(&Vec::new(), &Vec::new(), &config),
        "🎯 Special Workspaces:\n  No special workspaces currently active\n\nConfig: default='special', animations=true, auto-close=true\n"
    );
    let regular = vec![win("0x2", "Two", 1, "1", true)];
    assert!(toggle_status(&regular, &Vec::new(), &config).contains("Focused window: 'Two' (regular)\n"));
    assert!(toggle_status(&Vec::new(), &Vec::new(), &config).contains("Focused window: None\n"));
}

#[test]
fn updated_states_list_live_windows_once() {
    let windows = vec![
        win("0x1", "One", -98, "special:scratch", false),
        win("0x2", "Two", -98, "special:scratch", false),
        win("0x4", "Four", -97, "special:notes", false),
    ];
    let old = vec![state("special:scratch", &["0x2", "0x7"], false), state("special:gone", &["0x9"], false)];
    let r = update_special_workspace_states(&old, &windows, &Vec::new());
    for (_, s) in &r {
        assert!(!s.windows.is_empty() || s.visible);
        for (i, a) in s.windows.iter().enumerate() {
            assert!(windows.iter().any(|(k, _)| k == a));
            assert!(!s.windows[i + 1..].contains(a));
        }
    }
    for (_, w) in &windows {
        let st = r.iter().find(|(k, _)| *k == w.workspace_name).unwrap();
        assert!(st.1.windows.contains(&w.address));
    }
    assert_eq!(r[0].1.windows, vec!["0x2".to_string(), "0x1".to_string()]);
}

#[test]
fn reported_windows_are_held_under_their_addresses() {
    let list = vec![
        win("0x1", "One", 1, "1", false).1,
        win("0x2", "Two", 1, "1", false).1,
        win("0x1", "Again", 2, "2", true).1,
    ];
    let r = windows_by_address(&list);
    assert_eq!(r.len(), 2);
    assert_eq!(r[0].0, "0x1");
    assert_eq!(r[0].1.title, "Again");
    assert_eq!(r[1].0, "0x2");
    for (k, w) in &r {
        assert_eq!(k, &w.address);
    }
}
