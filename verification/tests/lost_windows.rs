use rustrland::lost_windows::{parse_command, LostCommand};
use rustrland::lost_windows::{
    default_animation_duration, default_check_interval, default_margin, default_max_windows,
    default_min_size, default_rescue_strategy, default_true, find_lost_windows,
    is_window_contained, lost_listing, positions_fit_check, should_check, strategy_command, LostWindowsConfig, RescueStrategy,
    WindowInfo, WindowPositioner,
};
use rustrland::scratchpad_geometry::MonitorInfo;
use std::time::Instant;

fn monitor() -> MonitorInfo {
    MonitorInfo {
        name: "DP-1".to_string(),
        width: 1920,
        height: 1080,
        x: 0,
        y: 0,
        is_focused: true,
        active_workspace_id: 1,
        percent_pixels: Vec::new(),
    }
}

fn window(position: (i32, i32), size: (i32, i32)) -> WindowInfo {
    WindowInfo {
        address: "0x1".to_string(),
        pid: 1,
        class: "test".to_string(),
        title: "Test".to_string(),
        position,
        size,
        workspace: "1".to_string(),
        monitor: None,
        is_floating: true,
        is_lost: false,
        last_seen: Instant::now(),
    }
}

#[test]
fn lost_windows_test_config_defaults() {
    let config = LostWindowsConfig::default();
    assert!(matches!(config.rescue_strategy, RescueStrategy::Smart));
    assert!(config.auto_recovery);
    assert_eq!(config.check_interval, 30);
    assert_eq!(config.margin, 50);
    assert_eq!(config.max_windows, 10);
}

#[test]
fn lost_windows_default_functions() {
    assert_eq!(default_rescue_strategy(), RescueStrategy::Smart);
    assert!(default_true());
    assert_eq!(default_check_interval(), 30);
    assert_eq!(default_margin(), 50);
    assert_eq!(default_max_windows(), 10);
    assert_eq!(default_min_size(), (100, 100));
    assert_eq!(default_animation_duration(), 300);
}

#[test]
fn test_window_positioning_grid() {
    let monitor = monitor();
    let mut w = window((0, 0), (100, 100));
    w.is_lost = true;
    let windows = vec![w; 4];
    let positions = WindowPositioner::calculate_positions(&RescueStrategy::Grid, &windows, &monitor, 50);
    assert_eq!(positions.len(), 4);
    assert!(positions.iter().all(|(x, y)| *x >= 50 && *y >= 50));
}

#[test]
fn grid_positions_are_exact() {
    let windows = vec![window((0, 0), (100, 100)); 4];
    let positions = WindowPositioner::calculate_positions(&RescueStrategy::Grid, &windows, &monitor(), 50);
    // 2 x 2 cells of 910 x 490 inside a 50 pixel margin, a quarter cell in.
    assert_eq!(positions, vec![(277, 172), (1187, 172), (277, 662), (1187, 662)]);
}

#[test]
fn distribute_cascade_center_positions() {
    let windows = vec![window((0, 0), (100, 100)); 3];
    let m = monitor();
    assert_eq!(
        WindowPositioner::calculate_positions(&RescueStrategy::Distribute, &windows, &m, 50),
        vec![(505, 295), (960, 540), (1415, 785)]
    );
    assert_eq!(
        WindowPositioner::calculate_positions(&RescueStrategy::Cascade, &windows, &m, 50),
        vec![(50, 50), (90, 90), (130, 130)]
    );
    assert_eq!(
        WindowPositioner::calculate_positions(&RescueStrategy::Center, &windows, &m, 50),
        vec![(960, 540); 3]
    );
    assert!(WindowPositioner::calculate_positions(&RescueStrategy::Grid, &Vec::new(), &m, 50).is_empty());
}

#[test]
fn smart_positions_avoid_overlap() {
    let windows = vec![window((0, 0), (400, 300)); 2];
    let m = monitor();
    let positions = WindowPositioner::calculate_positions(&RescueStrategy::Smart, &windows, &m, 50);
    assert_eq!(positions, vec![(50, 50), (450, 50)]);
    let restore = WindowPositioner::calculate_positions(&RescueStrategy::Restore, &windows, &m, 50);
    assert_eq!(restore, positions);
    // A window larger than the monitor gets the corner inside the margin.
    let big = vec![window((0, 0), (4000, 4000))];
    assert_eq!(WindowPositioner::calculate_positions(&RescueStrategy::Smart, &big, &m, 50), vec![(50, 50)]);
}

#[test]
fn test_overlap_calculation() {
    let overlap = WindowPositioner::calculate_overlap_area(100, 100, 200, 200, &vec![(150, 150, 200, 200)]);
    assert_eq!(overlap, 22500);
}

#[test]
fn overlap_of_apart_rectangles_is_zero() {
    assert_eq!(WindowPositioner::calculate_overlap_area(0, 0, 10, 10, &vec![(20, 20, 5, 5), (10, 0, 5, 5)]), 0);
    assert_eq!(WindowPositioner::calculate_overlap_area(0, 0, 10, 10, &vec![(5, 5, 10, 10), (0, 0, 2, 2)]), 29);
}

#[test]
fn test_window_containment() {
    let w = window((-100, -100), (200, 200));
    let monitors = vec![monitor()];
    assert!(is_window_contained(&w, &monitors));
    let lost_window = WindowInfo { position: (-300, -300), ..w };
    assert!(!is_window_contained(&lost_window, &monitors));
}

#[test]
fn lost_windows_are_found() {
    let monitors = vec![monitor()];
    let mut tiled = window((-5000, 0), (300, 300));
    tiled.is_floating = false;
    let mut small = window((-5000, 0), (50, 300));
    small.class = "small".to_string();
    let mut excluded = window((-5000, 0), (300, 300));
    excluded.class = "skip".to_string();
    let visible = window((10, 10), (300, 300));
    let lost = window((-5000, 0), (300, 300));
    let mut config = LostWindowsConfig::default();
    config.exclude_classes = vec!["skip".to_string()];
    let windows = vec![tiled, small, excluded, visible, lost];
    assert_eq!(find_lost_windows(&windows, &monitors, &config), vec![4]);
}

#[test]
fn strategy_command_answers() {
    let (s, msg) = strategy_command(RescueStrategy::Smart, Some("GRID")).unwrap();
    assert_eq!(s, RescueStrategy::Grid);
    assert_eq!(msg, "\u{2705} Rescue strategy set to: Grid");
    let (s, msg) = strategy_command(RescueStrategy::Cascade, None).unwrap();
    assert_eq!(s, RescueStrategy::Cascade);
    assert_eq!(msg, "Current strategy: Cascade");
    assert_eq!(strategy_command(RescueStrategy::Smart, Some("zigzag")).unwrap_err(), "Unknown strategy: zigzag");
}

#[test]
fn auto_check_is_due() {
    assert!(should_check(None, 30));
    assert!(!should_check(Some(29), 30));
    assert!(should_check(Some(30), 30));
}

#[test]
fn positions_fit_on_ordinary_monitors() {
    let windows = vec![window((5000, 5000), (400, 300)), window((-3000, 0), (800, 600))];
    for s in [RescueStrategy::Distribute, RescueStrategy::Grid, RescueStrategy::Cascade, RescueStrategy::Center,
              RescueStrategy::Restore, RescueStrategy::Smart] {
        assert!(positions_fit_check(&s, &windows, &monitor(), 50));
    }
}

#[test]
fn positions_that_leave_i32_are_refused() {
    let mut far = monitor();
    far.x = i32::MAX - 10;
    let windows = vec![window((0, 0), (400, 300))];
    assert!(!positions_fit_check(&RescueStrategy::Cascade, &windows, &far, 50));
    assert!(!positions_fit_check(&RescueStrategy::Smart, &windows, &far, 50));
    assert!(positions_fit_check(&RescueStrategy::Cascade, &Vec::new(), &far, 50));
}

#[test]
fn lost_window_listing() {
    assert_eq!(lost_listing(&Vec::new()), "✅ No lost windows found");
    let lost = vec![window((-5000, 20), (800, 600))];
    assert_eq!(
        lost_listing(&lost),
        "🔍 Found 1 lost windows:\n\n[1] Test (0x1)\n    Class: test | Position: (-5000, 20) | Size: 800x600\n\nUse 'lost_windows recover' to rescue these windows\n"
    );
}

#[test]
fn overlap_is_symmetric_and_adds_up() {
    let a = (100, 100, 200, 200);
    let b = (150, 120, 300, 50);
    let c = (0, 0, 120, 120);
    let ab = WindowPositioner::calculate_overlap_area(a.0, a.1, a.2, a.3, &vec![b]);
    let ba = WindowPositioner::calculate_overlap_area(b.0, b.1, b.2, b.3, &vec![a]);
    assert_eq!(ab, ba);
    assert_eq!(ab, 150 * 50);
    let ac = WindowPositioner::calculate_overlap_area(a.0, a.1, a.2, a.3, &vec![c]);
    let both = WindowPositioner::calculate_overlap_area(a.0, a.1, a.2, a.3, &vec![b, c]);
    assert_eq!(both, ab + ac);
    assert_eq!(WindowPositioner::calculate_overlap_area(a.0, a.1, a.2, a.3, &Vec::new()), 0);
}

#[test]
fn lost_window_commands_are_read() {
    let none: Vec<String> = Vec::new();
    assert!(matches!(parse_command("rescue", &none), Ok(LostCommand::Recover)));
    assert!(matches!(parse_command("recover", &none), Ok(LostCommand::Recover)));
    assert!(matches!(parse_command("strategy", &vec!["grid".to_string()]), Ok(LostCommand::Strategy(Some(s))) if s == "grid"));
    assert!(matches!(parse_command("strategy", &none), Ok(LostCommand::Strategy(None))));
    assert_eq!(
        parse_command("dance", &none).unwrap_err(),
        "Unknown lost_windows command: dance. Available: list, recover, status, enable, disable, strategy, check"
    );
}
