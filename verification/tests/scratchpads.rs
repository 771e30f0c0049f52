use rustrland::scratchpad_commands::{hide_plan, show_plan, spawn_plan, WindowStep};
use rustrland::scratchpad_config::{excludes_from, size_or_default, ExcludesEntry};
use rustrland::geometry_cache::GeometryCache;
use rustrland::scratchpad_commands::{
    find_active_window, find_visible_window, hide_message, parse_command, should_spawn_instance,
    target_monitor, ScratchpadCommand,
};
use rustrland::scratchpad_config::{ScratchpadConfig, ValidatedConfig};
use rustrland::scratchpad_geometry::{
    percent_texts, slide_check, slide_position, AnimationKind, GeometryCalculator, MonitorInfo, WindowGeometry,
};
use rustrland::scratchpad_state::{ScratchpadRegistry, ScratchpadState, WindowState};
use rustrland::scratchpad_validation::ConfigValidator;

fn create_test_monitor() -> MonitorInfo {
    MonitorInfo {
        name: "DP-1".to_string(),
        width: 1920,
        height: 1080,
        x: 0,
        y: 0,
        is_focused: true,
        active_workspace_id: 1,
        percent_pixels: Vec::new(),
    }
}

fn names(v: &[&str]) -> Vec<String> {
    v.iter().map(|s| s.to_string()).collect()
}

#[test]
fn test_geometry_calculation() {
    let monitor = create_test_monitor();

    let (width, height) = GeometryCalculator::parse_size("75% 60%", &monitor, None).unwrap();
    assert_eq!(width, 1440);
    assert_eq!(height, 648);

    let (width, height) = GeometryCalculator::parse_size("800px 600px", &monitor, None).unwrap();
    assert_eq!(width, 800);
    assert_eq!(height, 600);

    let (width, height) = GeometryCalculator::parse_size("50% 500px", &monitor, None).unwrap();
    assert_eq!(width, 960);
    assert_eq!(height, 500);

    let (width, height) =
        GeometryCalculator::parse_size("90% 90%", &monitor, Some("1600px 900px")).unwrap();
    assert_eq!(width, 1600);
    assert_eq!(height, 900);
}

#[test]
fn test_dimension_parsing() {
    assert_eq!(GeometryCalculator::parse_dimension("50%", 1920, &Vec::new()).unwrap(), 960);
    assert_eq!(GeometryCalculator::parse_dimension("75%", 1080, &Vec::new()).unwrap(), 810);
    assert_eq!(GeometryCalculator::parse_dimension("800px", 1920, &Vec::new()).unwrap(), 800);
    assert_eq!(GeometryCalculator::parse_dimension("600", 1080, &Vec::new()).unwrap(), 600);
    assert!(GeometryCalculator::parse_dimension("invalid", 1920, &Vec::new()).is_err());
    assert!(GeometryCalculator::parse_dimension("200%px", 1920, &Vec::new()).is_err());
}

#[test]
fn test_offset_parsing() {
    let monitor = create_test_monitor();

    let (x, y) = GeometryCalculator::parse_offset(Some("50px 100px"), &monitor).unwrap();
    assert_eq!(x, 50);
    assert_eq!(y, 100);

    let (x, y) = GeometryCalculator::parse_offset(Some("10% 20%"), &monitor).unwrap();
    assert_eq!(x, 192);
    assert_eq!(y, 216);

    let (x, y) = GeometryCalculator::parse_offset(None, &monitor).unwrap();
    assert_eq!(x, 0);
    assert_eq!(y, 0);
}

#[test]
fn test_variable_expansion() {
    let variables = vec![("term_class".to_string(), "foot".to_string())];
    assert_eq!(
        ConfigValidator::expand_variables("foot --app-id=[term_class]", &variables),
        "foot --app-id=foot"
    );
    assert_eq!(ConfigValidator::expand_variables("echo [missing_var]", &variables), "echo [missing_var]");
    assert_eq!(ConfigValidator::expand_variables("no variables here", &variables), "no variables here");
}

#[test]
fn test_configuration_defaults() {
    let config = ScratchpadConfig::default();

    assert_eq!(config.command, "");
    assert_eq!(config.class, None);
    assert_eq!(config.size, "50% 50%");
    assert!(!config.lazy);
    assert!(config.pinned);
    assert!(config.excludes.is_empty());
    assert!(!config.restore_excluded);
    assert!(!config.preserve_aspect);
    assert!(config.force_monitor.is_none());
    assert!(!config.alt_toggle);
    assert!(!config.allow_special_workspaces);
    assert!(config.smart_focus);
    assert!(!config.close_on_hide);
    assert!(config.unfocus.is_none());
    assert!(config.max_size.is_none());
    assert!(config.use_template.is_none());
    assert!(!config.multi_window);
    assert_eq!(config.max_instances, Some(1));
}

#[test]
fn test_config_validation() {
    let monitors = vec![create_test_monitor()];
    let configs = vec![(
        "term".to_string(),
        ScratchpadConfig {
            command: "foot".to_string(),
            class: Some("foot".to_string()),
            size: "75% 60%".to_string(),
            ..Default::default()
        },
    )];
    let variables: Vec<(String, String)> = Vec::new();
    let validated = ConfigValidator::validate_configs(&configs, &monitors, &variables);
    let term_config = &validated.iter().find(|(n, _)| n == "term").unwrap().1;

    assert!(term_config.validation_errors.is_empty());
    assert_eq!(term_config.command, "foot");
    assert_eq!(term_config.class, "foot");
    assert!(term_config.parsed_size.is_some());
}

#[test]
fn test_window_geometry_structure() {
    let geometry = WindowGeometry {
        x: 100,
        y: 200,
        width: 800,
        height: 600,
        workspace: "1".to_string(),
        monitor: 0,
        floating: true,
    };

    assert_eq!(geometry.x, 100);
    assert_eq!(geometry.y, 200);
    assert_eq!(geometry.width, 800);
    assert_eq!(geometry.height, 600);
    assert_eq!(geometry.workspace, "1");
    assert_eq!(geometry.monitor, 0);
    assert!(geometry.floating);
}

#[test]
fn test_enhanced_window_geometry_calculation() {
    let monitor = create_test_monitor();
    let config = ValidatedConfig {
        command: "test".to_string(),
        class: "test".to_string(),
        size: "50% 60%".to_string(),
        animation: None,
        margin: Some(10),
        offset: None,
        hide_delay: None,
        lazy: false,
        pinned: true,
        excludes: Vec::new(),
        restore_excluded: false,
        preserve_aspect: false,
        force_monitor: None,
        alt_toggle: false,
        allow_special_workspaces: false,
        smart_focus: true,
        close_on_hide: false,
        unfocus: None,
        max_size: None,
        use_template: None,
        position: None,
        hysteresis_ms: Some(400),
        restore_focus: true,
        multi: false,
        multi_window: false,
        max_instances: Some(1),
        validation_errors: Vec::new(),
        validation_warnings: Vec::new(),
        parsed_size: Some((960, 648)),
        parsed_offset: None,
        parsed_max_size: None,
        parsed_position: None,
    };
    let geometry = GeometryCalculator::calculate_geometry(&config, &monitor).unwrap();

    assert_eq!(geometry.workspace, "e+0");
    assert_eq!(geometry.monitor, 0);
    assert!(geometry.floating);
    assert_eq!(geometry.width, 960);
    assert_eq!(geometry.height, 648);
}

#[test]
fn test_configuration_validation_with_enhanced_features() {
    let monitors = vec![create_test_monitor()];
    let configs = vec![(
        "advanced".to_string(),
        ScratchpadConfig {
            command: "advanced-app".to_string(),
            class: Some("advanced".to_string()),
            size: "80% 70%".to_string(),
            lazy: true,
            pinned: false,
            multi_window: true,
            max_instances: Some(3),
            smart_focus: true,
            preserve_aspect: true,
            max_size: Some("1600px 900px".to_string()),
            ..Default::default()
        },
    )];
    let variables: Vec<(String, String)> = Vec::new();
    let validated = ConfigValidator::validate_configs(&configs, &monitors, &variables);
    let advanced_config = &validated.iter().find(|(n, _)| n == "advanced").unwrap().1;

    assert!(advanced_config.validation_errors.is_empty());
    assert!(advanced_config.multi_window);
    assert_eq!(advanced_config.max_instances, Some(3));
    assert!(advanced_config.smart_focus);
    assert!(advanced_config.preserve_aspect);
    assert!(advanced_config.max_size.is_some());
}

#[test]
fn scratchpad_state_starts_fresh() {
    let state = ScratchpadState::new();
    assert!(state.windows.is_empty());
    assert!(!state.is_spawned);
    assert!(state.is_attached);
    assert!(state.excluded_by.is_empty());
}

#[test]
fn shown_window_is_visible_and_owned() {
    let mut reg = ScratchpadRegistry::new();
    assert!(!reg.is_scratchpad_visible("term"));
    reg.mark_window_visible("term", "0x12345");
    assert!(reg.is_scratchpad_visible("term"));
    assert_eq!(reg.scratchpad_of_window("0x12345"), Some("term".to_string()));
    reg.mark_scratchpad_hidden("term");
    assert!(!reg.is_scratchpad_visible("term"));
    assert_eq!(reg.scratchpad_of_window("0x12345"), Some("term".to_string()));
}

#[test]
fn closed_window_is_forgotten() {
    let mut reg = ScratchpadRegistry::new();
    reg.mark_window_visible("term", "0x1");
    reg.mark_window_visible("term", "0x2");
    reg.focused_window = Some("0x1".to_string());
    assert_eq!(reg.handle_window_closed("0x1"), Some("term".to_string()));
    assert_eq!(reg.scratchpad_of_window("0x1"), None);
    assert!(reg.focused_window.is_none());
    assert_eq!(reg.states[0].1.windows.len(), 1);
    assert_eq!(reg.handle_window_closed("0x2"), Some("term".to_string()));
    assert!(!reg.states[0].1.is_spawned);
    assert_eq!(reg.handle_window_closed("0x3"), None);
}

#[test]
fn exclusions_are_recorded_and_restored() {
    let mut reg = ScratchpadRegistry::new();
    let all = names(&["term", "browser", "music"]);
    reg.handle_excludes("term", &names(&["*"]), &all);
    let restored = reg.restore_excluded_scratchpads("term");
    assert_eq!(restored, names(&["browser", "music"]));
    assert!(reg.restore_excluded_scratchpads("term").is_empty());

    reg.handle_excludes("term", &names(&["music", "nothere"]), &all);
    assert_eq!(reg.restore_excluded_scratchpads("term"), names(&["music"]));
}

#[test]
fn attach_toggles_with_messages() {
    let mut reg = ScratchpadRegistry::new();
    assert_eq!(reg.toggle_attach("term", false), "No windows found for scratchpad 'term'");
    assert_eq!(reg.toggle_attach("term", true), "Scratchpad 'term' is now detached from scratchpad system");
    assert_eq!(reg.toggle_attach("term", true), "Scratchpad 'term' is now attached to scratchpad system");
}

#[test]
fn list_reports_each_scratchpad() {
    let mut reg = ScratchpadRegistry::new();
    reg.mark_window_visible("term", "0x1");
    let out = reg.list_status(&names(&["term", "browser"]));
    assert_eq!(out, "Scratchpads: term (visible: 1/1), browser (not spawned)");
}

#[test]
fn focus_loss_schedules_hide() {
    let mut reg = ScratchpadRegistry::new();
    reg.mark_window_visible("term", "0x1");
    let mut cfg = ValidatedConfig::default();
    cfg.unfocus = Some("hide".to_string());
    let configs = vec![("term".to_string(), cfg)];
    let a = reg.handle_focus_changed("0x1", &configs);
    assert_eq!(a.cancel, Some("term".to_string()));
    assert!(a.to_hide.is_none());
    let b = reg.handle_focus_changed("0x9", &configs);
    assert_eq!(b.to_hide, Some(("term".to_string(), 400)));
    assert!(b.cancel.is_none());
    let c = reg.handle_focus_changed("0x1", &configs);
    assert_eq!(reg.previous_focused_window, Some("0x9".to_string()));
    assert!(c.to_hide.is_none());
}

#[test]
fn opened_window_joins_matching_scratchpad() {
    let mut reg = ScratchpadRegistry::new();
    let configs = vec![
        ("term".to_string(), ScratchpadConfig { class: Some("foot".to_string()), ..Default::default() }),
        ("web".to_string(), ScratchpadConfig { class: Some("firefox".to_string()), ..Default::default() }),
    ];
    assert_eq!(reg.register_opened_window("0x5", "firefox", &configs), Some("web".to_string()));
    assert!(reg.is_scratchpad_visible("web"));
    assert_eq!(reg.register_opened_window("0x6", "kitty", &configs), None);
}

#[test]
fn commands_are_parsed() {
    let known = names(&["term"]);
    assert!(matches!(parse_command("toggle", &names(&["term"]), &known), Ok(ScratchpadCommand::Toggle(n)) if n == "term"));
    assert!(matches!(parse_command("list", &Vec::new(), &known), Ok(ScratchpadCommand::List)));
    assert_eq!(parse_command("show", &Vec::new(), &known).unwrap_err(), "No scratchpad name provided");
    assert_eq!(parse_command("hide", &names(&["x"]), &known).unwrap_err(), "Scratchpad 'x' not found");
    assert_eq!(parse_command("zap", &Vec::new(), &known).unwrap_err(), "Unknown command: zap");
}

#[test]
fn target_monitor_prefers_forced_then_focused() {
    let mut a = create_test_monitor();
    a.is_focused = false;
    let mut b = create_test_monitor();
    b.name = "HDMI-1".to_string();
    let monitors = vec![a, b];
    assert_eq!(target_monitor(&monitors, &Some("HDMI-1".to_string())), Ok(1));
    assert_eq!(target_monitor(&monitors, &None), Ok(1));
    assert_eq!(target_monitor(&monitors, &Some("nope".to_string())), Ok(1));
    assert_eq!(target_monitor(&Vec::new(), &None), Err("No monitors available".to_string()));
}

#[test]
fn visible_and_active_windows() {
    let windows = vec![(2, "2".to_string()), (1, "special:scratch".to_string()), (1, "1".to_string())];
    assert_eq!(find_visible_window(&windows, "1"), Some(2));
    assert_eq!(find_visible_window(&windows, "3"), None);
    assert_eq!(find_active_window(&names(&["special:a", "4"])), Some(1));
    assert_eq!(find_active_window(&names(&["special:a"])), None);
}

#[test]
fn instances_and_hide_messages() {
    assert!(should_spawn_instance(0, None));
    assert!(!should_spawn_instance(1, None));
    assert!(should_spawn_instance(2, Some(3)));
    assert_eq!(hide_message("term", Some(250)), "Scratchpad 'term' will hide in 250ms");
    assert_eq!(hide_message("term", None), "Scratchpad 'term' hidden");
}

fn resting(x: i32, y: i32, width: i32, height: i32) -> WindowGeometry {
    WindowGeometry { x, y, width, height, workspace: "1".to_string(), monitor: 0, floating: true }
}

#[test]
fn slides_are_checked_before_they_are_computed() {
    let g = resting(480, 270, 960, 540);
    assert!(slide_check(AnimationKind::FromTop, &g, None, &Vec::new()));
    assert_eq!(slide_position(AnimationKind::FromTop, &g, None, true, &Vec::new()).unwrap(), Some((480, 270 - 640)));
    assert_eq!(slide_position(AnimationKind::FromTop, &g, None, false, &Vec::new()).unwrap(), Some((480, 270 - 540 - 640)));
    assert_eq!(slide_position(AnimationKind::FromRight, &g, Some("50"), true, &Vec::new()).unwrap(), Some((1970, 270)));
    assert!(slide_check(AnimationKind::Fade, &resting(i32::MIN, 0, 10, 10), None, &Vec::new()));
    assert!(!slide_check(AnimationKind::FromLeft, &resting(i32::MIN + 5, 0, 100, 100), None, &Vec::new()));
}

#[test]
fn visibility_follows_reported_workspaces() {
    let mut reg = ScratchpadRegistry::new();
    reg.mark_window_visible("term", "0x1");
    reg.mark_window_visible("web", "0x2");
    reg.mark_scratchpad_hidden("web");
    let placements = vec![
        ("0x1".to_string(), "special:term".to_string()),
        ("0x2".to_string(), "3".to_string()),
    ];
    reg.refresh_visibility(&placements);
    assert!(!reg.is_scratchpad_visible("term"));
    assert!(reg.is_scratchpad_visible("web"));
    reg.refresh_visibility(&Vec::new());
    assert!(!reg.is_scratchpad_visible("term"));
    assert!(reg.is_scratchpad_visible("web"));
}

#[test]
fn test_focus_tracking() {
    let mut reg = ScratchpadRegistry::new();
    let mut state = ScratchpadState::default();
    let now = std::time::Instant::now();
    state.windows.push(WindowState {
        address: "0x12345".to_string(),
        is_visible: true,
        last_position: None,
        monitor: Some("DP-1".to_string()),
        workspace: Some("1".to_string()),
        last_focus: Some(now),
    });
    reg.states.push(("term".to_string(), state));
    reg.window_to_scratchpad.push(("0x12345".to_string(), "term".to_string()));
    while std::time::Instant::now() <= now {}

    reg.handle_focus_changed("0x12345", &Vec::new());

    assert_eq!(reg.focused_window, Some("0x12345".to_string()));
    let term_state = &reg.states[0].1;
    let window_state = &term_state.windows[0];
    assert!(window_state.last_focus.unwrap() > now);
    assert!(term_state.last_used.unwrap() > now);
}

#[test]
fn showing_a_known_window_keeps_the_others() {
    let mut reg = ScratchpadRegistry::new();
    reg.mark_window_visible("term", "0x1");
    reg.mark_window_visible("term", "0x2");
    reg.mark_scratchpad_hidden("term");
    reg.mark_window_visible("term", "0x1");
    let ws = &reg.states[0].1.windows;
    assert_eq!(ws.len(), 2);
    assert_eq!(ws[0].address, "0x1");
    assert!(ws[0].is_visible);
    assert_eq!(ws[1].address, "0x2");
    assert!(!ws[1].is_visible);
}

#[test]
fn percentages_take_every_real_number_form() {
    assert_eq!(GeometryCalculator::parse_dimension("1e2%", 100, &Vec::new()).unwrap(), 100);
    assert_eq!(GeometryCalculator::parse_dimension("5E-1%", 1000, &Vec::new()).unwrap(), 5);
    assert_eq!(GeometryCalculator::parse_dimension(".5%", 1000, &Vec::new()).unwrap(), 5);
    assert_eq!(GeometryCalculator::parse_dimension("50.%", 1920, &Vec::new()).unwrap(), 960);
    assert_eq!(GeometryCalculator::parse_dimension("+25%%", 400, &Vec::new()).unwrap(), 100);
    assert_eq!(GeometryCalculator::parse_dimension("-50%", 1920, &Vec::new()).unwrap(), -960);
    assert_eq!(GeometryCalculator::parse_dimension("33.33333333333333333333333%", 300, &Vec::new()).unwrap(), 99);
    assert_eq!(GeometryCalculator::parse_dimension("inf%", 1920, &Vec::new()).unwrap(), i32::MAX);
    assert_eq!(GeometryCalculator::parse_dimension("-Infinity%", 1920, &Vec::new()).unwrap(), i32::MIN);
    assert_eq!(GeometryCalculator::parse_dimension("inf%", 0, &Vec::new()).unwrap(), 0);
    assert_eq!(GeometryCalculator::parse_dimension("NaN%", 1920, &Vec::new()).unwrap(), 0);
    assert_eq!(GeometryCalculator::parse_dimension("1e30%", 1920, &Vec::new()).unwrap(), i32::MAX);
    assert_eq!(GeometryCalculator::parse_dimension("1e-30%", 1920, &Vec::new()).unwrap(), 0);
    assert_eq!(GeometryCalculator::parse_dimension("1e99999999999999999999999%", 1920, &Vec::new()).unwrap(), i32::MAX);
    assert_eq!(GeometryCalculator::parse_dimension("1e-99999999999999999999999%", 1920, &Vec::new()).unwrap(), 0);
    assert_eq!(GeometryCalculator::parse_dimension("0e99999999999999999999999%", 1920, &Vec::new()).unwrap(), 0);
    assert!(GeometryCalculator::parse_dimension("1e%", 100, &Vec::new()).is_err());
    assert!(GeometryCalculator::parse_dimension("e1%", 100, &Vec::new()).is_err());
    assert!(GeometryCalculator::parse_dimension(".%", 100, &Vec::new()).is_err());
    assert!(GeometryCalculator::parse_dimension("1.2.3%", 100, &Vec::new()).is_err());
    assert!(GeometryCalculator::parse_dimension("infinit%", 100, &Vec::new()).is_err());
}

#[test]
fn spawned_window_is_recorded() {
    let mut reg = ScratchpadRegistry::new();
    reg.record_spawn("term", "0x5");
    assert!(reg.is_scratchpad_visible("term"));
    assert!(reg.states[0].1.is_spawned);
    assert!(reg.states[0].1.last_used.is_some());
    assert_eq!(reg.states[0].1.windows.len(), 1);
    assert_eq!(reg.scratchpad_of_window("0x5"), Some("term".to_string()));
    reg.record_spawn("term", "0x5");
    assert_eq!(reg.states[0].1.windows.len(), 2);
    assert_eq!(reg.states[0].1.windows[1].address, "0x5");
    assert!(reg.states[0].1.windows[1].is_visible);
}

fn geometry(x: i32, y: i32, workspace: &str) -> WindowGeometry {
    WindowGeometry { x, y, width: 800, height: 600, workspace: workspace.to_string(), monitor: 0, floating: true }
}

#[test]
fn test_geometry_caching() {
    let cache = GeometryCache::new();
    let cached = cache.get_cached_geometry("0x12345");
    assert!(cached.is_none());
    assert!(cache.entries.is_empty());
}

#[test]
fn geometry_cache_stores_only_changes() {
    let mut cache = GeometryCache::new();
    assert!(cache.update("0x1", geometry(10, 20, "1")));
    assert!(!cache.update("0x1", geometry(10, 20, "1")));
    assert!(cache.update("0x1", geometry(10, 25, "1")));
    assert!(cache.update("0x1", geometry(10, 25, "2")));
    assert_eq!(cache.get_cached_geometry("0x1").unwrap().workspace, "2");
    cache.forget("0x1");
    assert!(cache.get_cached_geometry("0x1").is_none());

    let mut reg = ScratchpadRegistry::new();
    reg.mark_window_visible("term", "0x2");
    cache.window_moved(&reg, "0x2", geometry(1, 2, "1"));
    cache.window_moved(&reg, "0x3", geometry(3, 4, "1"));
    assert_eq!(cache.get_cached_geometry("0x2").unwrap().x, 1);
    assert!(cache.get_cached_geometry("0x3").is_none());

    cache.store_all(vec![
        ("0x4".to_string(), geometry(5, 5, "1")),
        ("0x2".to_string(), geometry(6, 6, "1")),
        ("0x4".to_string(), geometry(7, 7, "1")),
    ]);
    assert_eq!(cache.get_cached_geometry("0x4").unwrap().x, 7);
    assert_eq!(cache.get_cached_geometry("0x2").unwrap().x, 6);
}

#[test]
fn percentages_take_the_measured_pixels() {
    let measured = (1000f32 * "16.3".parse::<f32>().unwrap() / 100.0) as i32;
    let pixels = vec![("16.3".to_string(), 1000, measured)];
    assert_eq!(GeometryCalculator::parse_dimension("16.3%", 1000, &pixels).unwrap(), measured);
    assert_eq!(GeometryCalculator::parse_dimension("16.3%", 1000, &Vec::new()).unwrap(), 163);
    assert_eq!(GeometryCalculator::parse_dimension("16.3%", 2000, &pixels).unwrap(), 326);
    assert!(GeometryCalculator::parse_dimension("abc%", 1000, &vec![("abc".to_string(), 1000, 5)]).is_err());
    assert_eq!(percent_texts("16.3% 50px  20%%"), vec!["16.3".to_string(), "20".to_string()]);
}

#[test]
fn section_defaults_and_excludes() {
    assert_eq!(size_or_default(None), "50% 50%");
    assert_eq!(size_or_default(Some("80% 60%".to_string())), "80% 60%");
    assert_eq!(excludes_from(&ExcludesEntry::Text("*".to_string())), vec!["*".to_string()]);
    assert!(excludes_from(&ExcludesEntry::Text("term".to_string())).is_empty());
    assert_eq!(
        excludes_from(&ExcludesEntry::List(vec![Some("a".to_string()), None, Some("b".to_string())])),
        vec!["a".to_string(), "b".to_string()]
    );
    assert!(excludes_from(&ExcludesEntry::Other).is_empty());
}

#[test]
fn registered_scratchpads_get_fresh_states() {
    let mut reg = ScratchpadRegistry::new();
    reg.mark_window_visible("term", "0x1");
    reg.register_scratchpads(&vec!["term".to_string(), "web".to_string()]);
    assert_eq!(reg.states.len(), 2);
    assert_eq!(reg.states[0].1.windows.len(), 1);
    assert_eq!(reg.states[1].0, "web");
    assert!(reg.states[1].1.windows.is_empty());
}

#[test]
fn show_hide_and_spawn_follow_their_plans() {
    assert_eq!(
        show_plan((10, 20), Some((10, -500)), true, false),
        vec![
            WindowStep::MoveToMonitorWorkspace,
            WindowStep::PlaceAt(10, -500),
            WindowStep::Wait(30),
            WindowStep::PlaceAt(10, 20),
            WindowStep::Focus,
            WindowStep::RecordShown,
        ]
    );
    assert_eq!(
        show_plan((10, 20), None, false, true),
        vec![WindowStep::MoveToMonitorWorkspace, WindowStep::PlaceAt(10, 20), WindowStep::RecordSpawned]
    );
    assert_eq!(
        hide_plan(Some((AnimationKind::FromTop, (10, 20), Some((10, -600)))), true, true),
        vec![
            WindowStep::PlaceAt(10, 20),
            WindowStep::Wait(30),
            WindowStep::PlaceAt(10, -600),
            WindowStep::Wait(250),
            WindowStep::MoveToSpecial,
            WindowStep::RecordHidden,
            WindowStep::RestorePreviousFocus,
        ]
    );
    assert_eq!(
        hide_plan(Some((AnimationKind::Fade, (0, 0), None)), true, false),
        vec![WindowStep::Wait(200), WindowStep::MoveToSpecial, WindowStep::RecordHidden]
    );
    assert_eq!(hide_plan(None, false, true), vec![WindowStep::MoveToSpecial, WindowStep::RecordHidden]);
    assert_eq!(spawn_plan(true), vec![WindowStep::Spawn, WindowStep::AwaitWindow, WindowStep::AdoptClass, WindowStep::Float]);
    assert_eq!(spawn_plan(false), vec![WindowStep::Spawn, WindowStep::AwaitWindow, WindowStep::Float]);
}
