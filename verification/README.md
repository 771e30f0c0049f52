# rustrland

Window-management plugins for the Hyprland compositor: scratchpads, monitor
placement, workspace shifting and following, special workspaces, expose,
lost-window rescue, wallpapers and log-driven notifications.

The decision logic is a library verified with Verus: every public function
states what it returns in `requires`/`ensures` over mathematical models
(`Seq`, `Map`, `int`), and the laws that relate functions (showing then
hiding, excluding then restoring, shifting one way and back, overlap
symmetry, what an update of special workspaces keeps) are proof functions.

## Layout

- `src/` – the verified library, one module per concern:
  - `text`, `real_text`, `keyed` – strings, numbers as text, and lists used
    as maps keyed by name;
  - `scratchpad_config`, `scratchpad_validation`, `scratchpad_geometry`,
    `scratchpad_state`, `scratchpad_commands` – scratchpads: settings and
    their validation, where a window goes, what is remembered of each
    scratchpad, and the command language;
  - `monitors`, `shift_monitors`, `workspaces_follow_focus`,
    `toggle_special`, `expose`, `lost_windows`, `wallpapers`,
    `system_notifier` – the other plugins' decisions and reports.
- `tests/` – tests of the library on concrete values.
- `app/` – the daemon side: talking to Hyprland, timers, processes, files,
  configuration parsing and everything that computes with floating-point
  numbers. It hands the library plain values and acts on what comes back.

Calls into `regex` and `rand` stand behind small trusted wrappers in `src/`
whose contracts say what those crates document; everything else in `src/`
is proved.
