//! Window-management logic for the Hyprland compositor: scratchpad geometry and
//! configuration, lost-window rescue, monitor placement, workspace shifting,
//! special workspaces, expose, wallpapers and notification formatting.
//!
//! Everything here is pure decision logic over plain values; talking to the
//! compositor, spawning processes and reading files happens in the daemon.
pub mod keyed;
pub mod lost_windows;
pub mod monitors;
pub mod scratchpad_commands;
pub mod scratchpad_config;
pub mod scratchpad_geometry;
pub mod scratchpad_state;
pub mod scratchpad_validation;
pub mod shift_monitors;
pub mod real_text;
pub mod text;
pub mod toggle_special;
pub mod workspaces_follow_focus;
pub mod expose;
pub mod geometry_cache;
pub mod wallpapers;
pub mod system_notifier;
