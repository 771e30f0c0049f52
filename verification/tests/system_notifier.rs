use rustrland::system_notifier::{
    argb_hex, checked_notification_text, compile_parser, configured_message, convert_color, convert_sed_replacement,
    filter_source_command, get_hyprland_icon, get_icon_from_urgency, in_startup_grace, merge_with_defaults, notify_command,
    notification_text, notifier_status, parse_notify_args, sent_message, urgency_of, HyprColor,
    NotificationAnimation, NotificationConfig, ParserConfig, SystemNotifierConfig, UrgencyLevel,
};

fn parser_config(pattern: &str, filter: Option<&str>) -> NotificationConfig {
    NotificationConfig {
        basic: ParserConfig {
            pattern: pattern.to_string(),
            filter: filter.map(|f| f.to_string()),
            color: None,
            timeout: None,
            urgency: None,
            icon: None,
            sound: None,
        },
        animation: None,
    }
}

fn color(c: &str) -> String {
    match convert_color(c) {
        HyprColor::Ready(s) => s,
        HyprColor::Rgba { r, g, b, alpha } => match alpha.parse::<f32>() {
            Ok(a) => argb_hex((a * 255.0) as u8, r, g, b),
            Err(_) => "0".to_string(),
        },
    }
}

#[test]
fn test_parser_compilation() {
    let mut config = parser_config(r"(\w+): Link UP$", Some("s/.*: (\\w+): Link.*/\\1 is active/"));
    config.basic.color = Some("#00aa00".to_string());
    config.basic.timeout = Some(5000);
    config.basic.urgency = Some("normal".to_string());
    config.basic.icon = Some("network-wired".to_string());
    config.animation = Some(NotificationAnimation { display_duration: Some(3000), smooth_transitions: Some(true) });
    let compiled = compile_parser(&config, &SystemNotifierConfig::default());
    assert!(compiled.is_ok());
    assert!(compiled.unwrap().animation.is_some());
}

#[test]
fn test_regex_pattern_matching() {
    let mut config = parser_config(r"ERROR: (.+)", Some("s/ERROR: (.*)/Application error: \\1/"));
    config.basic.urgency = Some("critical".to_string());
    let compiled = compile_parser(&config, &SystemNotifierConfig::default()).unwrap();
    assert_eq!(compiled.urgency, UrgencyLevel::Critical);
    assert_eq!(
        notification_text(&compiled, "ERROR: Database connection failed"),
        Some("Application error: Database connection failed".to_string())
    );
    assert_eq!(notification_text(&compiled, "all good"), None);
    let plain = compile_parser(&parser_config(r"ERROR: (.+)", None), &SystemNotifierConfig::default()).unwrap();
    assert_eq!(notification_text(&plain, "ERROR: Database connection failed"), Some("Database connection failed".to_string()));
    let whole = compile_parser(&parser_config(r"UP", None), &SystemNotifierConfig::default()).unwrap();
    assert_eq!(notification_text(&whole, "link UP now"), Some("UP".to_string()));
}

#[test]
fn compile_errors() {
    let d = SystemNotifierConfig::default();
    assert_eq!(compile_parser(&parser_config("(", None), &d).unwrap_err(), "Invalid regex pattern: (");
    assert_eq!(
        compile_parser(&parser_config("x", Some("y/a/b/")), &d).unwrap_err(),
        "Filter must be in s/pattern/replacement/ format"
    );
    assert_eq!(compile_parser(&parser_config("x", Some("s/abc")), &d).unwrap_err(), "Invalid filter format: s/abc");
    assert_eq!(compile_parser(&parser_config("x", Some("s/(/b/")), &d).unwrap_err(), "Invalid filter regex: (");
}

#[test]
fn test_parser_color_overrides() {
    let main = SystemNotifierConfig { color: Some("#0088ff".to_string()), ..SystemNotifierConfig::default() };
    let inherit = compile_parser(&parser_config("default", None), &main).unwrap();
    assert_eq!(inherit.color, Some("#0088ff".to_string()));
    let mut custom = parser_config("custom", None);
    custom.basic.color = Some("#ff0000".to_string());
    let custom = compile_parser(&custom, &main).unwrap();
    assert_eq!(custom.color, Some("#ff0000".to_string()));
}

#[test]
fn test_fallback_to_defaults_when_no_main_config() {
    let empty = SystemNotifierConfig { timeout: None, urgency: None, color: None, icon: None, sound: None };
    let merged = merge_with_defaults(&empty);
    assert_eq!(merged.timeout, Some(5000));
    assert_eq!(merged.color, Some("#0088ff".to_string()));
    assert_eq!(merged.icon, Some("info".to_string()));
    let parser = compile_parser(&parser_config("test", None), &merged).unwrap();
    assert_eq!(parser.timeout, Some(5000));
}

#[test]
fn test_icon_name_conversion() {
    assert_eq!(get_hyprland_icon(&Some("error".to_string()), UrgencyLevel::Normal), "3");
    assert_eq!(get_hyprland_icon(&Some("none".to_string()), UrgencyLevel::Normal), "-1");
}

#[test]
fn test_icon_fallback_to_urgency() {
    assert_eq!(get_hyprland_icon(&None, UrgencyLevel::Critical), "3");
    assert_eq!(get_hyprland_icon(&Some("network".to_string()), UrgencyLevel::Low), "2");
    assert_eq!(get_icon_from_urgency(UrgencyLevel::Normal), "1");
}

#[test]
fn test_color_format_conversion() {
    assert_eq!(color("rgb(255,68,68)"), "0xffff4444");
    assert_eq!(color("rgba(255,68,68,0.9)"), "0xe5ff4444");
    assert_eq!(color("#ff4444"), "0xffff4444");
    assert_eq!(color("#ff4444aa"), "0xaaff4444");
    assert_eq!(color("0xff4444ff"), "0xff4444ff");
    assert_eq!(color("0"), "0");
    assert_eq!(color("invalid"), "0");
}

#[test]
fn color_edge_cases() {
    assert_eq!(color("rgb( 1 , 2 ,3 )"), "0xff010203");
    assert_eq!(color("rgb(256,0,0)"), "0");
    assert_eq!(color("rgba(1,2,3,x)"), "0");
    assert_eq!(color("#abc"), "0");
}

#[test]
fn sed_replacements() {
    assert_eq!(convert_sed_replacement("\\1 is \\2"), "$1 is $2");
    assert_eq!(convert_sed_replacement("plain"), "plain");
}

#[test]
fn notify_arguments() {
    let args = |v: &[&str]| v.iter().map(|s| s.to_string()).collect::<Vec<String>>();
    assert_eq!(
        parse_notify_args(&args(&[])).unwrap_err(),
        "Usage: notify <message> [urgency] [timeout] [--animated]"
    );
    let r = parse_notify_args(&args(&["Test message", "normal", "1000"])).unwrap();
    assert_eq!(r.message, "Test message");
    assert_eq!(r.urgency, UrgencyLevel::Normal);
    assert_eq!(r.timeout, 1000);
    assert!(!r.animated);
    let r = parse_notify_args(&args(&["m", "critical", "x", "--animated"])).unwrap();
    assert_eq!(r.urgency, UrgencyLevel::Critical);
    assert_eq!(r.timeout, 5000);
    assert!(r.animated);
    assert_eq!(sent_message("hi", true), "Sent notification: hi (animated)");
    assert_eq!(sent_message("hi", false), "Sent notification: hi");
    assert_eq!(urgency_of("low"), UrgencyLevel::Low);
}

#[test]
fn source_commands() {
    assert_eq!(filter_source_command("journalctl -f"), "journalctl -f --since 'now'");
    assert_eq!(filter_source_command("journalctl -f | grep x"), "journalctl -f --since 'now' | grep x");
    assert_eq!(filter_source_command("journalctl --since today"), "journalctl --since today");
    assert_eq!(filter_source_command("tail -f /var/log/x"), "tail -f /var/log/x");
}

#[test]
fn configured_lists() {
    let names = vec!["a".to_string(), "b".to_string()];
    assert_eq!(configured_message("sources", &names), "Configured sources: a, b");
    assert_eq!(configured_message("parsers", &Vec::new()), "Configured parsers: ");
}

#[test]
fn startup_grace_applies_to_tail_only() {
    assert!(in_startup_grace("tail -f /var/log/syslog", 3));
    assert!(!in_startup_grace("tail -f /var/log/syslog", 10));
    assert!(!in_startup_grace("journalctl -f", 3));
}

#[test]
fn notify_command_lines() {
    assert_eq!(notify_command("1", 5000, "0xff0088ff", "Hello"), "hyprctl notify 1 5000 0xff0088ff 'Hello'");
    assert_eq!(notify_command("-1", 3000, "0", "say \"hi\""), "hyprctl notify -1 3000 0 'say \\\"hi\\\"'");
}

#[test]
fn notifier_status_report() {
    assert_eq!(
        notifier_status(2, 3, 1),
        "System Notifier Status:\n- Simple Mode (Hyprland-native notifications)\n- Sources: 2\n- Parsers: 3\n- Active monitors: 1"
    );
}

#[test]
fn parsers_of_any_origin_are_checked_before_use() {
    let mut compiled = compile_parser(&parser_config(r"(\w+): Link UP$", None), &SystemNotifierConfig::default()).unwrap();
    assert_eq!(checked_notification_text(&compiled, "eth0: Link UP"), Some("eth0".to_string()));
    assert_eq!(checked_notification_text(&compiled, "eth0: Link DOWN"), None);
    compiled.pattern = "(unclosed".to_string();
    assert_eq!(checked_notification_text(&compiled, "eth0: Link UP"), None);
}

#[test]
fn compiled_parser_keeps_its_animation() {
    let mut config = parser_config("x", None);
    config.animation = Some(NotificationAnimation { display_duration: Some(1500), smooth_transitions: Some(false) });
    let compiled = compile_parser(&config, &SystemNotifierConfig::default()).unwrap();
    let a = compiled.animation.unwrap();
    assert_eq!(a.display_duration, Some(1500));
    assert_eq!(a.smooth_transitions, Some(false));
}

#[test]
fn colours_that_do_not_split_into_bytes_give_zero() {
    assert_eq!(color("#1é23456"), "0");
    assert_eq!(color("#11223344"), "0x44112233");
}
