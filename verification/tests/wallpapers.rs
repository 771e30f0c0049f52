use rustrland::wallpapers::{parse_command, WallpaperCommand};
use rustrland::wallpapers::{
    build_command, default_command, default_extensions, default_interval, default_preload_count,
    find_by_filename, finish_scan, get_next_wallpaper, has_wallpaper_extension, next_message,
    not_found_message, rotation_index, scanned_message, wallpaper_status, unknown_command_message, MonitorState, WallpaperInfo,
    WallpaperPath, WallpapersConfig,
};
use std::time::{Instant, SystemTime};

fn create_test_wallpaper(filename: &str) -> WallpaperInfo {
    WallpaperInfo {
        path: format!("/tmp/{}", filename),
        filename: filename.to_string(),
        size_bytes: 1024,
        last_modified: SystemTime::now(),
        dimensions: Some((1920, 1080)),
    }
}

#[test]
fn test_config_default() {
    let config = WallpapersConfig::default();
    assert_eq!(config.interval, 600);
    assert_eq!(config.extensions.len(), 5);
    assert!(!config.recurse);
    assert!(!config.unique);
    assert!(!config.debug_logging);
    assert_eq!(config.preload_count, 3);
}

#[test]
fn wallpaper_default_functions() {
    assert_eq!(default_interval(), 600);
    assert_eq!(default_extensions(), vec!["jpg", "jpeg", "png", "webp", "bmp"]);
    assert_eq!(default_command(), "swaybg -i \"[file]\" -m fill");
    assert_eq!(default_preload_count(), 3);
}

#[test]
fn test_wallpaper_info_creation() {
    let wallpaper = create_test_wallpaper("test.jpg");
    assert_eq!(wallpaper.filename, "test.jpg");
    assert_eq!(wallpaper.size_bytes, 1024);
    assert_eq!(wallpaper.dimensions, Some((1920, 1080)));
}

#[test]
fn test_wallpaper_path_enum() {
    let single_path = WallpaperPath::Single("/home/user/Pictures".to_string());
    let multiple_paths = WallpaperPath::Multiple(vec![
        "/home/user/Pictures".to_string(),
        "/home/user/Wallpapers".to_string(),
    ]);
    match single_path {
        WallpaperPath::Single(_) => (),
        _ => panic!("Expected Single variant"),
    }
    match multiple_paths {
        WallpaperPath::Multiple(paths) => assert_eq!(paths.len(), 2),
        _ => panic!("Expected Multiple variant"),
    }
}

#[test]
fn test_monitor_state_creation() {
    let monitor = MonitorState {
        name: "DP-1".to_string(),
        current_wallpaper: None,
        wallpaper_index: 0,
        last_change: Instant::now(),
    };
    assert_eq!(monitor.name, "DP-1");
    assert!(monitor.current_wallpaper.is_none());
    assert_eq!(monitor.wallpaper_index, 0);
}

#[test]
fn next_wallpaper_indices() {
    let mut monitors: Vec<(String, MonitorState)> = Vec::new();
    assert_eq!(get_next_wallpaper(&mut monitors, 0, false, "DP-1"), None);
    assert!(monitors.is_empty());
    assert_eq!(get_next_wallpaper(&mut monitors, 3, false, "DP-1"), Some(1));
    assert_eq!(get_next_wallpaper(&mut monitors, 3, false, "DP-1"), Some(2));
    assert_eq!(get_next_wallpaper(&mut monitors, 3, false, "DP-1"), Some(0));
    // Unique: a new monitor moves on by the number of monitors known before it.
    assert_eq!(get_next_wallpaper(&mut monitors, 3, true, "DP-2"), Some(1));
    assert_eq!(get_next_wallpaper(&mut monitors, 3, true, "DP-2"), Some(0));
}

#[test]
fn wallpaper_commands() {
    assert_eq!(build_command("swaybg -i \"[file]\" -m fill", "/a.png", "DP-1"), "swaybg -i \"/a.png\" -m fill -o DP-1");
    assert_eq!(build_command("feh --bg-fill [file]", "/a.png", "DP-1"), "feh --bg-fill /a.png");
}

#[test]
fn wallpaper_extensions() {
    let exts = default_extensions();
    assert!(has_wallpaper_extension("JPG", &exts));
    assert!(has_wallpaper_extension("png", &exts));
    assert!(!has_wallpaper_extension("gif", &exts));
}

#[test]
fn scan_keeps_every_wallpaper() {
    let found = vec![create_test_wallpaper("a.jpg"), create_test_wallpaper("b.jpg"), create_test_wallpaper("c.jpg")];
    let mut names: Vec<String> = finish_scan(found).into_iter().map(|w| w.filename).collect();
    names.sort();
    assert_eq!(names, vec!["a.jpg", "b.jpg", "c.jpg"]);
}

#[test]
fn wallpaper_messages() {
    let walls = vec![create_test_wallpaper("test1.jpg"), create_test_wallpaper("test2.png")];
    assert_eq!(find_by_filename(&walls, "test2.png"), Some(1));
    assert_eq!(find_by_filename(&walls, "nope"), None);
    assert_eq!(not_found_message("x", &walls), "File not found: x. Available wallpapers: test1.jpg, test2.png");
    assert_eq!(not_found_message("x", &Vec::new()), "File not found: x. Run 'wall scan' first to discover wallpapers");
    assert_eq!(
        next_message(&vec![("DP-1".to_string(), "a.jpg".to_string()), ("DP-2".to_string(), "b.jpg".to_string())]),
        "Set wallpapers: DP-1: a.jpg, DP-2: b.jpg"
    );
    assert_eq!(scanned_message(2), "Scanned wallpapers: 2 found");
    assert!(unknown_command_message("zap").starts_with("Unknown wallpapers command: zap."));
}

#[test]
fn rotation_picks() {
    assert_eq!(rotation_index(0, 0, 3, false), (0, 1));
    assert_eq!(rotation_index(2, 1, 3, false), (2, 0));
    assert_eq!(rotation_index(2, 1, 3, true), (0, 0));
    assert_eq!(rotation_index(1, 1, 3, true), (2, 2));
}

#[test]
fn wallpaper_status_report() {
    let monitors = vec![
        ("DP-1".to_string(), MonitorState { name: "DP-1".to_string(), current_wallpaper: Some("/w/a.png".to_string()), wallpaper_index: 0, last_change: Instant::now() }),
        ("HDMI-1".to_string(), MonitorState { name: "HDMI-1".to_string(), current_wallpaper: None, wallpaper_index: 0, last_change: Instant::now() }),
    ];
    let config = WallpapersConfig::default();
    assert_eq!(
        wallpaper_status(4, &monitors, false, &config, Some(12)),
        "📊 Wallpapers Plugin Status\n  • Wallpapers loaded: 4\n  • Monitors tracked: 2\n  • Rotation active: false\n  • Interval: 600s\n  • Unique per monitor: false\n  • Last scan: 12s ago\n  • DP-1: /w/a.png\n  • HDMI-1: None\n"
    );
    assert_eq!(
        wallpaper_status(0, &Vec::new(), true, &config, None),
        "📊 Wallpapers Plugin Status\n  • Wallpapers loaded: 0\n  • Monitors tracked: 0\n  • Rotation active: true\n  • Interval: 600s\n  • Unique per monitor: false\n"
    );
}

#[test]
fn wallpaper_commands_are_read() {
    let none: Vec<String> = Vec::new();
    assert!(matches!(parse_command("next", &none), Ok(WallpaperCommand::Next)));
    assert!(matches!(parse_command("set", &vec!["a.png".to_string()]), Ok(WallpaperCommand::SetTo(a)) if a == "a.png"));
    assert_eq!(parse_command("set", &none).unwrap_err(), "Usage: wall set <path|filename>");
    assert!(matches!(parse_command("stop", &none), Ok(WallpaperCommand::Stop)));
    assert!(matches!(parse_command("dance", &none), Ok(WallpaperCommand::Unknown)));
}
