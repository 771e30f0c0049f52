use rustrland::monitors::{
    calculate_position, default_monitor_delay, default_true, extract_alignment_from_direction_key,
    find_monitor, layout_result, monitor_exists, placement_command, placement_test, rules_test_report, parse_direction_key, parse_placement_rule, DirectionTarget,
    MonitorInfo, PlacementAlignment, PlacementDirection, PlacementRuleConfig, ResolvedPlacementRule,
};

fn create_test_monitor(name: &str, x: i32, y: i32, width: u16, height: u16) -> MonitorInfo {
    MonitorInfo {
        id: 0,
        name: name.to_string(),
        description: format!("{name} Description"),
        make: "TestMake".to_string(),
        model: "TestModel".to_string(),
        serial: "12345".to_string(),
        active_workspace_id: 1,
        active_workspace_name: "1".to_string(),
        focused: false,
        width,
        height,
        x,
        y,
        transform: 0,
        disabled: false,
    }
}

#[test]
fn test_direction_key_parsing() {
    let (direction, alignment) = parse_direction_key("leftOf");
    assert!(matches!(direction, PlacementDirection::Left));
    assert!(alignment.is_none());

    let (direction, alignment) = parse_direction_key("topCenterOf");
    assert!(matches!(direction, PlacementDirection::Top));
    assert!(matches!(alignment, Some(PlacementAlignment::Center)));

    let (direction, alignment) = parse_direction_key("rightEndOf");
    assert!(matches!(direction, PlacementDirection::Right));
    assert!(matches!(alignment, Some(PlacementAlignment::End)));
}

#[test]
fn test_position_calculation() {
    let source = create_test_monitor("DP-1", 0, 0, 1920, 1080);
    let target = create_test_monitor("DP-2", 1920, 0, 1920, 1080);

    let rule = ResolvedPlacementRule {
        source_monitor: "DP-1".to_string(),
        target_monitor: "DP-2".to_string(),
        direction: PlacementDirection::Left,
        alignment: None,
    };
    let (new_x, new_y) = calculate_position(&source, &target, &rule);
    assert_eq!(new_x, 0);
    assert_eq!(new_y, 0);

    let rule_right = ResolvedPlacementRule {
        source_monitor: "DP-1".to_string(),
        target_monitor: "DP-2".to_string(),
        direction: PlacementDirection::Right,
        alignment: None,
    };
    let (new_x, new_y) = calculate_position(&source, &target, &rule_right);
    assert_eq!(new_x, 3840);
    assert_eq!(new_y, 0);
}

#[test]
fn aligned_positions() {
    let source = create_test_monitor("DP-1", 0, 0, 1280, 720);
    let target = create_test_monitor("DP-2", 0, 0, 1920, 1080);
    let rule = |d, a| ResolvedPlacementRule {
        source_monitor: "DP-1".to_string(),
        target_monitor: "DP-2".to_string(),
        direction: d,
        alignment: a,
    };
    assert_eq!(calculate_position(&source, &target, &rule(PlacementDirection::Right, Some(PlacementAlignment::Center))), (1920, 180));
    assert_eq!(calculate_position(&source, &target, &rule(PlacementDirection::Left, Some(PlacementAlignment::End))), (-1280, 360));
    assert_eq!(calculate_position(&source, &target, &rule(PlacementDirection::Top, Some(PlacementAlignment::Middle))), (320, -720));
    assert_eq!(calculate_position(&source, &target, &rule(PlacementDirection::Bottom, Some(PlacementAlignment::Start))), (0, 1080));
}

#[test]
fn test_monitor_exists() {
    let monitors = vec![("DP-1".to_string(), create_test_monitor("DP-1", 0, 0, 1920, 1080))];
    assert!(monitor_exists("DP-1", &monitors, true));
    assert!(monitor_exists("dp-1", &monitors, true));
    assert!(!monitor_exists("HDMI-1", &monitors, true));
    assert!(monitor_exists("DP-1", &monitors, false));
    assert!(!monitor_exists("dp-1", &monitors, false));
}

#[test]
fn test_find_monitor() {
    let monitors = vec![("DP-1".to_string(), create_test_monitor("DP-1", 0, 0, 1920, 1080))];
    let found = find_monitor("DP-1", &monitors, true);
    assert!(found.is_some());
    assert_eq!(monitors[found.unwrap()].1.name, "DP-1");
    assert!(find_monitor("dp-1", &monitors, true).is_some());
    assert!(find_monitor("HDMI-1", &monitors, true).is_none());
}

#[test]
fn monitors_found_by_details() {
    let monitors = vec![("DP-1".to_string(), create_test_monitor("DP-1", 0, 0, 1920, 1080))];
    assert!(monitor_exists("TestModel", &monitors, false));
    assert!(monitor_exists("testmake", &monitors, true));
    assert!(monitor_exists("DP-1 Desc", &monitors, false));
    assert_eq!(find_monitor("TestMake", &monitors, false), Some(0));
}

#[test]
fn test_resolved_placement_rule() {
    let rule = ResolvedPlacementRule {
        source_monitor: "DP-1".to_string(),
        target_monitor: "DP-2".to_string(),
        direction: PlacementDirection::Top,
        alignment: Some(PlacementAlignment::Center),
    };
    assert_eq!(rule.source_monitor, "DP-1");
    assert_eq!(rule.target_monitor, "DP-2");
    assert!(matches!(rule.direction, PlacementDirection::Top));
    assert!(matches!(rule.alignment, Some(PlacementAlignment::Center)));
}

#[test]
fn monitors_test_default_functions() {
    assert!(default_true());
    assert_eq!(default_monitor_delay(), 1000);
}

#[test]
fn alignment_keys() {
    assert_eq!(extract_alignment_from_direction_key("topMiddleOf"), Some(PlacementAlignment::Middle));
    assert_eq!(extract_alignment_from_direction_key("Left"), None);
    assert_eq!(extract_alignment_from_direction_key("leftEndOf"), Some(PlacementAlignment::End));
}

#[test]
fn placement_rules_resolve_existing_targets() {
    let monitors = vec![("DP-2".to_string(), create_test_monitor("DP-2", 0, 0, 1920, 1080))];
    let simple = parse_placement_rule("DP-1", &PlacementRuleConfig::Simple("DP-2".to_string()), &monitors, true);
    assert_eq!(simple.len(), 1);
    assert_eq!(simple[0].direction, PlacementDirection::Left);
    let missing = parse_placement_rule("DP-1", &PlacementRuleConfig::Simple("X".to_string()), &monitors, true);
    assert!(missing.is_empty());
    let keyed = PlacementRuleConfig::PyprlandStyle(vec![
        ("topCenterOf".to_string(), vec!["DP-2".to_string(), "X".to_string()]),
    ]);
    let r = parse_placement_rule("DP-1", &keyed, &monitors, true);
    assert_eq!(r.len(), 1);
    assert_eq!(r[0].direction, PlacementDirection::Top);
    assert_eq!(r[0].alignment, Some(PlacementAlignment::Center));
    let complex = PlacementRuleConfig::Complex {
        direction_target: Box::new(DirectionTarget {
            left_of: None,
            right_of: Some(vec!["DP-2".to_string()]),
            top_of: None,
            bottom_of: None,
            left_center_of: None,
            right_center_of: None,
            top_center_of: None,
            bottom_center_of: Some(vec!["dp-2".to_string()]),
            left_end_of: None,
            right_end_of: None,
            top_end_of: None,
            bottom_end_of: None,
        }),
        alignment: Some(PlacementAlignment::End),
    };
    let r = parse_placement_rule("DP-1", &complex, &monitors, true);
    assert_eq!(r.len(), 2);
    assert_eq!(r[0].direction, PlacementDirection::Right);
    assert_eq!(r[0].alignment, Some(PlacementAlignment::End));
    assert_eq!(r[1].direction, PlacementDirection::Bottom);
    assert_eq!(r[1].target_monitor, "dp-2");
    assert_eq!(r[1].alignment, Some(PlacementAlignment::End));
}

#[test]
fn complex_fields_take_the_configured_alignment() {
    let monitors = vec![("DP-2".to_string(), create_test_monitor("DP-2", 1920, 0, 1920, 1080))];
    let complex = PlacementRuleConfig::Complex {
        direction_target: Box::new(DirectionTarget {
            left_of: None,
            right_of: None,
            top_of: None,
            bottom_of: None,
            left_center_of: None,
            right_center_of: None,
            top_center_of: Some(vec!["DP-2".to_string()]),
            bottom_center_of: None,
            left_end_of: None,
            right_end_of: None,
            top_end_of: None,
            bottom_end_of: Some(vec!["DP-2".to_string()]),
        }),
        alignment: None,
    };
    let r = parse_placement_rule("DP-1", &complex, &monitors, false);
    assert_eq!(r.len(), 2);
    assert_eq!(r[0].source_monitor, "DP-1");
    assert_eq!(r[0].target_monitor, "DP-2");
    assert_eq!(r[0].direction, PlacementDirection::Top);
    assert_eq!(r[0].alignment, None);
    assert_eq!(r[1].direction, PlacementDirection::Bottom);
    assert_eq!(r[1].alignment, None);
}

fn rule(source: &str, target: &str, direction: PlacementDirection, alignment: Option<PlacementAlignment>) -> ResolvedPlacementRule {
    ResolvedPlacementRule { source_monitor: source.to_string(), target_monitor: target.to_string(), direction, alignment }
}

#[test]
fn placement_commands() {
    let monitors = vec![
        ("DP-1".to_string(), create_test_monitor("DP-1", 0, 0, 1920, 1080)),
        ("HDMI-A-1".to_string(), create_test_monitor("HDMI-A-1", 1920, 0, 1280, 720)),
    ];
    let r = rule("HDMI-A-1", "DP-1", PlacementDirection::Right, None);
    assert_eq!(placement_command(&r, &monitors, true), Ok("HDMI-A-1@1280x720,1920x0".to_string()));
    let r = rule("HDMI-A-1", "DP-1", PlacementDirection::Left, Some(PlacementAlignment::Center));
    assert_eq!(placement_command(&r, &monitors, true), Ok("HDMI-A-1@1280x720,-1280x180".to_string()));
    let r = rule("DP-1", "HDMI-A-1", PlacementDirection::Top, Some(PlacementAlignment::End));
    assert_eq!(placement_command(&r, &monitors, true), Ok("DP-1@1920x1080,1280x-1080".to_string()));
    let r = rule("DP-9", "DP-1", PlacementDirection::Left, None);
    assert_eq!(placement_command(&r, &monitors, true), Err("Source monitor 'DP-9' not found".to_string()));
    let r = rule("DP-1", "DP-9", PlacementDirection::Left, None);
    assert_eq!(placement_command(&r, &monitors, true), Err("Target monitor 'DP-9' not found".to_string()));
}

#[test]
fn far_monitors_that_no_rule_uses_do_not_fail_the_layout_test() {
    let monitors = vec![
        ("DP-1".to_string(), create_test_monitor("DP-1", 0, 0, 1920, 1080)),
        ("HDMI-A-1".to_string(), create_test_monitor("HDMI-A-1", 1920, 0, 1280, 720)),
        ("FAR".to_string(), create_test_monitor("FAR", i32::MAX - 10, 0, 1920, 1080)),
    ];
    let r = rule("HDMI-A-1", "DP-1", PlacementDirection::Bottom, None);
    let report = rules_test_report(&vec![r], &monitors, true);
    assert!(report.ends_with("\n✅ Layout test passed - no errors detected\n"));
    let far = rule("DP-1", "FAR", PlacementDirection::Right, None);
    assert_eq!(placement_command(&far, &monitors, true), Ok("DP-1@1920x1080,2147485557x0".to_string()));
}

#[test]
fn layout_results() {
    assert_eq!(layout_result(3, &Vec::new()), "Applied 3 monitor layout commands");
    let errors = vec!["first failed".to_string(), "second failed".to_string()];
    assert_eq!(layout_result(1, &errors), "Applied 1 monitor layout commands with 2 errors:\nfirst failed\nsecond failed");
}

#[test]
fn placement_tests_report_moves_and_missing_monitors() {
    let monitors = vec![
        ("DP-1".to_string(), create_test_monitor("DP-1", 0, 0, 1920, 1080)),
        ("HDMI-A-1".to_string(), create_test_monitor("HDMI-A-1", 1920, 0, 1280, 720)),
    ];
    let r = rule("HDMI-A-1", "DP-1", PlacementDirection::Bottom, None);
    assert_eq!(
        placement_test(&r, &monitors, true),
        Ok("  ✅ HDMI-A-1 → Bottom DP-1: would move to (0, 1080) (current: (1920, 0))\n".to_string())
    );
    let r = rule("HDMI-A-1", "DP-7", PlacementDirection::Bottom, None);
    assert_eq!(placement_test(&r, &monitors, true), Err("Target monitor 'DP-7' not found".to_string()));
}

#[test]
fn layout_test_tallies_rule_errors() {
    let monitors = vec![
        ("DP-1".to_string(), create_test_monitor("DP-1", 0, 0, 1920, 1080)),
        ("HDMI-A-1".to_string(), create_test_monitor("HDMI-A-1", 1920, 0, 1280, 720)),
    ];
    let good = rule("HDMI-A-1", "DP-1", PlacementDirection::Bottom, None);
    let bad = rule("HDMI-A-1", "DP-7", PlacementDirection::Bottom, None);
    let report = rules_test_report(&vec![good.clone(), bad], &monitors, true);
    assert_eq!(
        report,
        [
            "\n📐 Placement Rules:\n",
            "  ✅ HDMI-A-1 → Bottom DP-1: would move to (0, 1080) (current: (1920, 0))\n",
            "  ❌ Target monitor 'DP-7' not found\n",
            "\n❌ Layout test found 1 errors\n",
        ]
        .concat()
    );
    let passed = rules_test_report(&vec![good], &monitors, true);
    assert!(passed.ends_with("\n✅ Layout test passed - no errors detected\n"));
    let empty = rules_test_report(&Vec::new(), &monitors, true);
    assert_eq!(empty, "\n📐 Placement Rules:\n\n✅ Layout test passed - no errors detected\n");
}

#[test]
fn center_and_middle_place_alike() {
    let source = create_test_monitor("HDMI-A-1", 0, 0, 1280, 720);
    let target = create_test_monitor("DP-1", 1920, 0, 1920, 1080);
    for d in [PlacementDirection::Left, PlacementDirection::Right, PlacementDirection::Top, PlacementDirection::Bottom] {
        let c = calculate_position(&source, &target, &rule("HDMI-A-1", "DP-1", d, Some(PlacementAlignment::Center)));
        let m = calculate_position(&source, &target, &rule("HDMI-A-1", "DP-1", d, Some(PlacementAlignment::Middle)));
        let s = calculate_position(&source, &target, &rule("HDMI-A-1", "DP-1", d, Some(PlacementAlignment::Start)));
        let n = calculate_position(&source, &target, &rule("HDMI-A-1", "DP-1", d, None));
        assert_eq!(c, m);
        assert_eq!(s, n);
    }
}
