//! Switching workspaces so that they follow the focused monitor, with
//! workspaces that may be locked to a monitor.
use vstd::prelude::*;
use crate::keyed::{find_key, value_of};
use crate::scratchpad_geometry::MonitorInfo;
use crate::text::{
    append_bool, append_int, append_nat, append_str, bool_text, chars_eq, chars_of, copy_string, i32_of, int_text,
    nat_digits, opt_chars, owned, parse_i32, string_of_range,
};

verus! {

/// Direction of a workspace animation.
#[derive(Debug, Clone, Copy, PartialEq, Eq, Structural)]
pub enum SimpleAnimationDirection {
    Forward,
    Reverse,
}

/// Animation settings for workspace transitions.
#[derive(Debug, Clone)]
pub struct WorkspaceAnimationConfig {
    pub enabled: bool,
    pub duration_ms: u64,
    pub easing: String,
}

/// Settings of workspace following.
#[derive(Debug, Clone)]
pub struct WorkspacesFollowFocusConfig {
    pub follow_window_focus: bool,
    pub follow_workspace_request: bool,
    pub allow_cross_monitor_switch: bool,
    pub follow_urgent_windows: bool,
    /// Workspace number (as text), then the monitor it is locked to.
    pub workspace_rules: Vec<(String, String)>,
    pub enable_animations: bool,
    /// Milliseconds.
    pub animation_duration: u64,
    pub animation_easing: String,
    /// Milliseconds that must pass between two switches.
    pub workspace_switching_delay: u64,
    pub debug_logging: bool,
}

pub fn default_true() -> (b: bool)
    ensures
        b,
{
    true
}

pub fn default_animation_duration() -> (n: u64)
    ensures
        n == 300,
{
    300
}

pub fn default_animation_easing() -> (s: String)
    ensures
        s@ == "ease-out"@,
{
    owned("ease-out")
}

pub fn default_switching_delay() -> (n: u64)
    ensures
        n == 100,
{
    100
}

impl Default for WorkspacesFollowFocusConfig {
    fn default() -> (c: Self)
        ensures
            c.follow_window_focus,
            c.follow_workspace_request,
            c.allow_cross_monitor_switch,
            c.follow_urgent_windows,
            c.workspace_rules@.len() == 0,
            c.enable_animations,
            c.animation_duration == 300,
            c.animation_easing@ == "ease-out"@,
            c.workspace_switching_delay == 100,
            !c.debug_logging,
    {
        WorkspacesFollowFocusConfig {
            follow_window_focus: default_true(),
            follow_workspace_request: default_true(),
            allow_cross_monitor_switch: default_true(),
            follow_urgent_windows: default_true(),
            workspace_rules: Vec::new(),
            enable_animations: default_true(),
            animation_duration: default_animation_duration(),
            animation_easing: default_animation_easing(),
            workspace_switching_delay: default_switching_delay(),
            debug_logging: false,
        }
    }
}

/// A workspace and the monitor it is on.
#[derive(Debug, Clone)]
pub struct WorkspaceInfo {
    pub id: i32,
    pub name: String,
    pub monitor: String,
    pub windows: u16,
    pub last_window_addr: String,
}

/// Whether a switch may happen now: never switched, or at least `delay`
/// milliseconds since the last switch.
pub fn can_switch_workspace(elapsed_ms_since_last: Option<u128>, delay: u64) -> (b: bool)
    ensures
        b == match elapsed_ms_since_last { Some(e) => e >= delay, None => true },
{
    match elapsed_ms_since_last {
        Some(e) => e >= delay as u128,
        None => true,
    }
}

/// The monitor of the first listed workspace numbered `id`.
pub open spec fn monitor_of(ws: Seq<(i32, WorkspaceInfo)>, id: i32) -> Option<Seq<char>> {
    if exists|i: int| 0 <= i < ws.len() && (#[trigger] ws[i]).0 == id {
        let i = choose|i: int| 0 <= i < ws.len() && (#[trigger] ws[i]).0 == id
            && forall|j: int| 0 <= j < i ==> (#[trigger] ws[j]).0 != id;
        Some(ws[i].1.monitor@)
    } else {
        None
    }
}

/// The monitor workspace `workspace_id` is on.
pub fn get_workspace_monitor(workspaces: &Vec<(i32, WorkspaceInfo)>, workspace_id: i32) -> (r: Option<String>)
    ensures
        match r {
            Some(m) => monitor_of(workspaces@, workspace_id) == Some(m@),
            None => monitor_of(workspaces@, workspace_id) is None,
        },
{
    let mut i: usize = 0;
    while i < workspaces.len()
        invariant
            i <= workspaces@.len(),
            forall|j: int| 0 <= j < i ==> (#[trigger] workspaces@[j]).0 != workspace_id,
        decreases workspaces@.len() - i,
    {
        if workspaces[i].0 == workspace_id {
            proof {
                let k = choose|k: int| 0 <= k < workspaces@.len() && (#[trigger] workspaces@[k]).0 == workspace_id
                    && forall|j: int| 0 <= j < k ==> (#[trigger] workspaces@[j]).0 != workspace_id;
                if k < i { assert(workspaces@[k].0 != workspace_id); }
                if k > i { assert(workspaces@[i as int].0 != workspace_id); }
            }
            return Some(copy_string(&workspaces[i].1.monitor));
        }
        i = i + 1;
    }
    None
}

/// The monitor workspace `id` is locked to.
pub open spec fn locked_monitor(rules: Seq<(String, String)>, id: i32) -> Option<Seq<char>> {
    match value_of(rules, int_text(id as int)) {
        Some(m) => Some(m@),
        None => None,
    }
}

/// The monitor workspace `workspace_id` is locked to, if a rule names it.
pub fn get_locked_monitor_for_workspace(rules: &Vec<(String, String)>, workspace_id: i32) -> (r: Option<String>)
    ensures
        match r {
            Some(m) => locked_monitor(rules@, workspace_id) == Some(m@),
            None => locked_monitor(rules@, workspace_id) is None,
        },
{
    let mut key = String::new();
    append_int(&mut key, workspace_id as i64);
    match find_key(rules, key.as_str()) {
        Some(i) => Some(copy_string(&rules[i].1)),
        None => None,
    }
}

/// Where a locked workspace must move: its locked monitor, when the workspace
/// is known to be on another one.
pub open spec fn enforced_monitor(rules: Seq<(String, String)>, ws: Seq<(i32, WorkspaceInfo)>, id: i32) -> Option<Seq<char>> {
    match (locked_monitor(rules, id), monitor_of(ws, id)) {
        (Some(req), Some(cur)) => if cur != req { Some(req) } else { None },
        _ => None,
    }
}

/// The monitor workspace `workspace_id` has to be moved to under the lock
/// rules, if any (see `enforced_monitor`).
pub fn enforcement_target(rules: &Vec<(String, String)>, workspaces: &Vec<(i32, WorkspaceInfo)>, workspace_id: i32) -> (r: Option<String>)
    ensures
        match r {
            Some(m) => enforced_monitor(rules@, workspaces@, workspace_id) == Some(m@),
            None => enforced_monitor(rules@, workspaces@, workspace_id) is None,
        },
{
    match get_locked_monitor_for_workspace(rules, workspace_id) {
        Some(required) => match get_workspace_monitor(workspaces, workspace_id) {
            Some(current) => {
                if chars_eq(&chars_of(current.as_str()), &chars_of(required.as_str())) {
                    None
                } else {
                    Some(required)
                }
            },
            None => None,
        },
        None => None,
    }
}

// ---------------------------------------------------------------------------
// Urgent windows
// ---------------------------------------------------------------------------

/// Index of the first comma at or after `from`, or the length.
pub open spec fn comma_from(s: Seq<char>, from: int) -> int
    decreases s.len() - from,
{
    if from >= s.len() {
        s.len() as int
    } else if s[from] == ',' {
        from
    } else {
        comma_from(s, from + 1)
    }
}

/// The second comma-separated field of `s`, if there is one.
pub open spec fn second_field(s: Seq<char>) -> Option<Seq<char>> {
    let a = comma_from(s, 0);
    if a >= s.len() {
        None
    } else {
        Some(s.subrange(a + 1, comma_from(s, a + 1)))
    }
}

proof fn lemma_comma_from(s: Seq<char>, from: int)
    requires
        0 <= from <= s.len(),
    ensures
        from <= comma_from(s, from) <= s.len(),
        comma_from(s, from) < s.len() ==> s[comma_from(s, from)] == ',',
        forall|k: int| from <= k < comma_from(s, from) ==> s[k] != ',',
    decreases s.len() - from,
{
    if from < s.len() && s[from] != ',' {
        lemma_comma_from(s, from + 1);
    }
}

fn find_comma(v: &Vec<char>, from: usize) -> (k: usize)
    requires
        from <= v@.len(),
    ensures
        k == comma_from(v@, from as int),
{
    let mut k = from;
    while k < v.len() && v[k] != ','
        invariant
            from <= k <= v@.len(),
            comma_from(v@, k as int) == comma_from(v@, from as int),
        decreases v@.len() - k,
    {
        k = k + 1;
    }
    k
}

/// The workspace an urgent-window event names: its second comma-separated
/// field, read as an `i32`.
pub fn urgent_workspace(window_data: &str) -> (r: Option<i32>)
    ensures
        r == match second_field(window_data@) { Some(f) => i32_of(f), None => None },
{
    let v = chars_of(window_data);
    let a = find_comma(&v, 0);
    proof { lemma_comma_from(v@, 0); }
    if a >= v.len() {
        return None;
    }
    let b = find_comma(&v, a + 1);
    proof { lemma_comma_from(v@, a + 1); }
    let field = string_of_range(&v, a + 1, b);
    parse_i32(&chars_of(field.as_str()))
}

// ---------------------------------------------------------------------------
// Switching
// ---------------------------------------------------------------------------

/// What a switch to a workspace does, before the switch itself.
#[derive(Debug)]
pub struct SwitchPlan {
    /// Move the workspace to this monitor first.
    pub move_to: Option<String>,
    /// The monitor that counts as focused afterwards.
    pub focused_monitor: String,
    /// Animate from this workspace, when it is another one.
    pub animate_from: Option<i32>,
    /// The answer once switched.
    pub message: String,
}

/// The active workspace of the monitor called `name` (the first one so
/// called), or workspace 1.
pub open spec fn current_workspace(ms: Seq<MonitorInfo>, name: Seq<char>) -> i32 {
    if exists|i: int| 0 <= i < ms.len() && (#[trigger] ms[i]).name@ == name {
        let i = choose|i: int| 0 <= i < ms.len() && (#[trigger] ms[i]).name@ == name
            && forall|j: int| 0 <= j < i ==> (#[trigger] ms[j]).name@ != name;
        ms[i].active_workspace_id
    } else {
        1
    }
}

/// The active workspace of the monitor named `name` (see `current_workspace`).
pub fn active_workspace_of(monitors: &Vec<MonitorInfo>, name: &str) -> (w: i32)
    ensures
        w == current_workspace(monitors@, name@),
{
    let target = chars_of(name);
    let mut i: usize = 0;
    while i < monitors.len()
        invariant
            i <= monitors@.len(),
            target@ == name@,
            forall|j: int| 0 <= j < i ==> (#[trigger] monitors@[j]).name@ != name@,
        decreases monitors@.len() - i,
    {
        if chars_eq(&chars_of(monitors[i].name.as_str()), &target) {
            proof {
                let k = choose|k: int| 0 <= k < monitors@.len() && (#[trigger] monitors@[k]).name@ == name@
                    && forall|j: int| 0 <= j < k ==> (#[trigger] monitors@[j]).name@ != name@;
                if k < i { assert(monitors@[k].name@ != name@); }
                if k > i { assert(monitors@[i as int].name@ != name@); }
            }
            return monitors[i].active_workspace_id;
        }
        i = i + 1;
    }
    1
}

/// Where the workspace is moved before the switch: to the monitor it is
/// locked to when focus is elsewhere and it is on another monitor; without a
/// lock, to the focused monitor when cross-monitor switching is allowed and
/// it is on another monitor.
pub open spec fn planned_move(locked: Option<Seq<char>>, on: Option<Seq<char>>, focused: Seq<char>, allow_cross: bool) -> Option<Seq<char>> {
    match locked {
        Some(req) => if req != focused {
            match on {
                Some(cur) => if cur != req { Some(req) } else { None },
                None => None,
            }
        } else {
            None
        },
        None => match on {
            Some(m) => if m != focused && allow_cross { Some(focused) } else { None },
            None => None,
        },
    }
}

/// Without a lock rule for the workspace, a switch moves it to the focused
/// monitor only where cross-monitor switching is allowed: with the setting off
/// the workspace stays on the monitor it is on.
pub proof fn lemma_no_move_without_cross_switching(config: WorkspacesFollowFocusConfig, workspaces: Seq<(i32, WorkspaceInfo)>, workspace_id: i32, focused: Seq<char>)
    requires
        !config.allow_cross_monitor_switch,
        locked_monitor(config.workspace_rules@, workspace_id) is None,
    ensures
        planned_move(locked_monitor(config.workspace_rules@, workspace_id), monitor_of(workspaces, workspace_id), focused,
            config.allow_cross_monitor_switch) is None,
{
}

/// A planned move takes the workspace off the monitor it is on, and only ever
/// to the monitor its lock rule names or, without a rule, to the focused
/// monitor with cross-monitor switching allowed. Planning again once it has
/// moved there moves nothing.
pub proof fn lemma_planned_move_target(locked: Option<Seq<char>>, on: Option<Seq<char>>, focused: Seq<char>, allow_cross: bool, target: Seq<char>)
    requires
        planned_move(locked, on, focused, allow_cross) == Some(target),
    ensures
        on is Some && on != Some(target),
        locked is None ==> target == focused && allow_cross,
        locked is Some ==> locked == Some(target) && target != focused,
        planned_move(locked, Some(target), focused, allow_cross) is None,
{
}

/// Plans a switch to `workspace_id` from the focused monitor; there must be
/// one.
pub fn plan_switch(
    workspace_id: i32,
    focused_monitor: &Option<String>,
    monitors: &Vec<MonitorInfo>,
    workspaces: &Vec<(i32, WorkspaceInfo)>,
    config: &WorkspacesFollowFocusConfig,
) -> (r: Result<SwitchPlan, String>)
    ensures
        match *focused_monitor {
            None => r matches Err(e) && e@ == "No focused monitor found"@,
            Some(f) => r matches Ok(p) && {
                let locked = locked_monitor(config.workspace_rules@, workspace_id);
                let target = match locked { Some(l) => l, None => f@ };
                let cur = current_workspace(monitors@, f@);
                &&& match p.move_to {
                    Some(m) => planned_move(locked, monitor_of(workspaces@, workspace_id), f@, config.allow_cross_monitor_switch) == Some(m@),
                    None => planned_move(locked, monitor_of(workspaces@, workspace_id), f@, config.allow_cross_monitor_switch) is None,
                }
                &&& p.focused_monitor@ == match locked { Some(l) => if l != f@ { l } else { f@ }, None => f@ }
                &&& p.animate_from == if cur != workspace_id { Some(cur) } else { None }
                &&& p.message@ == "Switched to workspace "@ + int_text(workspace_id as int) + " on monitor "@ + target
            },
        },
{
    let f = match focused_monitor {
        Some(f) => f,
        None => {
            let mut e = String::new();
            append_str(&mut e, "No focused monitor found");
            return Err(e);
        },
    };
    let cur = active_workspace_of(monitors, f.as_str());
    let on = get_workspace_monitor(workspaces, workspace_id);
    let locked = get_locked_monitor_for_workspace(&config.workspace_rules, workspace_id);
    let fc = chars_of(f.as_str());
    let mut move_to: Option<String> = None;
    let mut new_focus = copy_string(f);
    match &locked {
        Some(req) => {
            let rc = chars_of(req.as_str());
            if !chars_eq(&rc, &fc) {
                match &on {
                    Some(c) => {
                        if !chars_eq(&chars_of(c.as_str()), &rc) {
                            move_to = Some(copy_string(req));
                        }
                    },
                    None => {},
                }
                new_focus = copy_string(req);
            }
        },
        None => {
            match &on {
                Some(m) => {
                    if !chars_eq(&chars_of(m.as_str()), &fc) && config.allow_cross_monitor_switch {
                        move_to = Some(copy_string(f));
                    }
                },
                None => {},
            }
        },
    }
    let animate_from = if cur != workspace_id { Some(cur) } else { None };
    let mut message = String::new();
    append_str(&mut message, "Switched to workspace ");
    append_int(&mut message, workspace_id as i64);
    append_str(&mut message, " on monitor ");
    match &locked {
        Some(l) => append_str(&mut message, l.as_str()),
        None => append_str(&mut message, f.as_str()),
    }
    Ok(SwitchPlan { move_to, focused_monitor: new_focus, animate_from, message })
}

/// The workspace `offset` away from `current`, which must lie in 1 to 10.
pub fn change_target(current: i32, offset: i32) -> (r: Result<i32, String>)
    ensures
        1 <= current + offset <= 10 ==> r == Ok::<i32, String>((current + offset) as i32),
        !(1 <= current + offset <= 10) ==> (r matches Err(e)
            && e@ == "Workspace "@ + int_text(current + offset) + " out of range (1-10)"@),
{
    let t = current as i64 + offset as i64;
    if 1 <= t && t <= 10 {
        Ok(t as i32)
    } else {
        let mut e = String::new();
        append_str(&mut e, "Workspace ");
        append_int(&mut e, t);
        append_str(&mut e, " out of range (1-10)");
        Err(e)
    }
}

/// A command to the plugin.
#[derive(Debug)]
pub enum FollowCommand {
    Switch(i32),
    Change(i32),
    List,
    Status,
    /// An unknown command, answered with this text.
    Unknown(String),
}

/// Reads a command: `switch` and `change` take an `i32` argument.
pub fn parse_command(command: &str, args: &Vec<String>) -> (r: Result<FollowCommand, String>)
    ensures
        command@ == "switch"@ ==> if args@.len() == 0 {
            r matches Err(e) && e@ == "Switch command requires workspace ID"@
        } else {
            match i32_of(args@[0]@) {
                Some(w) => r matches Ok(FollowCommand::Switch(x)) && x == w,
                None => r matches Err(e) && e@ == "Invalid workspace ID: "@ + args@[0]@,
            }
        },
        command@ == "change"@ ==> if args@.len() == 0 {
            r matches Err(e) && e@ == "Change command requires offset (+1, -1, etc.)"@
        } else {
            match i32_of(args@[0]@) {
                Some(w) => r matches Ok(FollowCommand::Change(x)) && x == w,
                None => r matches Err(e) && e@ == "Invalid offset: "@ + args@[0]@,
            }
        },
        command@ == "list"@ ==> r matches Ok(FollowCommand::List),
        command@ == "status"@ ==> r matches Ok(FollowCommand::Status),
        command@ != "switch"@ && command@ != "change"@ && command@ != "list"@ && command@ != "status"@
            ==> (r matches Ok(FollowCommand::Unknown(m)) && m@ == "Unknown workspaces_follow_focus command: "@ + command@),
{
    proof {
        reveal_strlit("switch");
        reveal_strlit("change");
        reveal_strlit("list");
        reveal_strlit("status");
        assert("switch"@[0] != "change"@[0]);
        assert("switch"@[0] != "list"@[0]);
        assert("switch"@[1] != "status"@[1]);
        assert("change"@[0] != "list"@[0]);
        assert("change"@[0] != "status"@[0]);
        assert("list"@[0] != "status"@[0]);
    }
    let c = chars_of(command);
    let mut e = String::new();
    if chars_eq(&c, &chars_of("switch")) {
        if args.len() == 0 {
            append_str(&mut e, "Switch command requires workspace ID");
            return Err(e);
        }
        match parse_i32(&chars_of(args[0].as_str())) {
            Some(w) => Ok(FollowCommand::Switch(w)),
            None => {
                append_str(&mut e, "Invalid workspace ID: ");
                append_str(&mut e, args[0].as_str());
                Err(e)
            },
        }
    } else if chars_eq(&c, &chars_of("change")) {
        if args.len() == 0 {
            append_str(&mut e, "Change command requires offset (+1, -1, etc.)");
            return Err(e);
        }
        match parse_i32(&chars_of(args[0].as_str())) {
            Some(w) => Ok(FollowCommand::Change(w)),
            None => {
                append_str(&mut e, "Invalid offset: ");
                append_str(&mut e, args[0].as_str());
                Err(e)
            },
        }
    } else if chars_eq(&c, &chars_of("list")) {
        Ok(FollowCommand::List)
    } else if chars_eq(&c, &chars_of("status")) {
        Ok(FollowCommand::Status)
    } else {
        append_str(&mut e, "Unknown workspaces_follow_focus command: ");
        append_str(&mut e, command);
        Ok(FollowCommand::Unknown(e))
    }
}


// ---------------------------------------------------------------------------
// Reports
// ---------------------------------------------------------------------------

pub open spec fn rule_lines(rules: Seq<(String, String)>) -> Seq<char>
    decreases rules.len(),
{
    if rules.len() == 0 {
        Seq::empty()
    } else {
        rule_lines(rules.drop_last()) + "    Workspace "@ + rules.last().0@ + " \u{2192} Monitor "@ + rules.last().1@ + "\n"@
    }
}

/// The status report: counts, the focused monitor, the settings and the
/// lock rules.
pub open spec fn follow_status_text(monitor_count: nat, workspace_count: nat, focused: Option<Seq<char>>,
    c: WorkspacesFollowFocusConfig) -> Seq<char> {
    "WorkspacesFollowFocus: "@ + nat_digits(monitor_count) + " monitors, "@ + nat_digits(workspace_count) + " workspaces\nFocused: "@
        + (match focused { Some(f) => f, None => "None"@ }) + "\nAnimation: Idle\n"@
        + "Config:\n  - Follow window focus: "@ + bool_text(c.follow_window_focus) + "\n  - Cross-monitor switch: "@
        + bool_text(c.allow_cross_monitor_switch) + "\n  - Follow urgent: "@ + bool_text(c.follow_urgent_windows) + "\n"@
        + "  - Animations: "@ + bool_text(c.enable_animations) + " ("@ + nat_digits(c.animation_duration as nat) + "ms, "@
        + c.animation_easing@ + ")\n  - Switching delay: "@ + nat_digits(c.workspace_switching_delay as nat) + "ms\n"@
        + if c.workspace_rules@.len() > 0 {
            "  - Workspace rules: "@ + nat_digits(c.workspace_rules@.len()) + " configured\n"@ + rule_lines(c.workspace_rules@)
        } else {
            "  - Workspace rules: None configured\n"@
        }
}

/// The status report (see `follow_status_text`).
#[verifier::rlimit(40)]
pub fn follow_status(monitor_count: usize, workspace_count: usize, focused: &Option<String>, config: &WorkspacesFollowFocusConfig) -> (s: String)
    ensures
        s@ == follow_status_text(monitor_count as nat, workspace_count as nat, opt_chars(*focused), *config),
{
    let mut s = owned("WorkspacesFollowFocus: ");
    append_nat(&mut s, monitor_count as u64);
    append_str(&mut s, " monitors, ");
    append_nat(&mut s, workspace_count as u64);
    append_str(&mut s, " workspaces\nFocused: ");
    match focused {
        Some(f) => append_str(&mut s, f.as_str()),
        None => append_str(&mut s, "None"),
    }
    append_str(&mut s, "\nAnimation: Idle\n");
    append_str(&mut s, "Config:\n  - Follow window focus: ");
    append_bool(&mut s, config.follow_window_focus);
    append_str(&mut s, "\n  - Cross-monitor switch: ");
    append_bool(&mut s, config.allow_cross_monitor_switch);
    append_str(&mut s, "\n  - Follow urgent: ");
    append_bool(&mut s, config.follow_urgent_windows);
    append_str(&mut s, "\n");
    append_str(&mut s, "  - Animations: ");
    append_bool(&mut s, config.enable_animations);
    append_str(&mut s, " (");
    append_nat(&mut s, config.animation_duration);
    append_str(&mut s, "ms, ");
    append_str(&mut s, config.animation_easing.as_str());
    append_str(&mut s, ")\n  - Switching delay: ");
    append_nat(&mut s, config.workspace_switching_delay);
    append_str(&mut s, "ms\n");
    let rules = &config.workspace_rules;
    if rules.len() > 0 {
        append_str(&mut s, "  - Workspace rules: ");
        append_nat(&mut s, rules.len() as u64);
        append_str(&mut s, " configured\n");
        let ghost head = s@;
        let mut i: usize = 0;
        while i < rules.len()
            invariant
                i <= rules@.len(),
                s@ == head + rule_lines(rules@.take(i as int)),
            decreases rules@.len() - i,
        {
            let ghost t = rules@.take(i as int + 1);
            assert(t.drop_last() =~= rules@.take(i as int));
            let ghost before = s@;
            append_str(&mut s, "    Workspace ");
            append_str(&mut s, rules[i].0.as_str());
            append_str(&mut s, " \u{2192} Monitor ");
            append_str(&mut s, rules[i].1.as_str());
            append_str(&mut s, "\n");
            assert(s@ =~= before + "    Workspace "@ + rules@[i as int].0@ + " \u{2192} Monitor "@ + rules@[i as int].1@ + "\n"@);
            i = i + 1;
        }
        assert(rules@.take(rules@.len() as int) =~= rules@);
    } else {
        append_str(&mut s, "  - Workspace rules: None configured\n");
    }
    s
}

// ---------------------------------------------------------------------------
// Listing
// ---------------------------------------------------------------------------

/// `a` comes before `b` in the order of `str`'s comparison: at the first
/// character where they differ, or `a` is a proper prefix of `b`.
pub open spec fn name_before(a: Seq<char>, b: Seq<char>) -> bool {
    exists|k: int| 0 <= k <= a.len() && k <= b.len() && a.take(k) == b.take(k)
        && ((k == a.len() && k < b.len()) || (k < a.len() && k < b.len() && a[k] < b[k]))
}

/// Whether `a` comes before `b` (see `name_before`).
fn name_before_exec(a: &str, b: &str) -> (r: bool)
    ensures
        r == name_before(a@, b@),
{
    let av = chars_of(a);
    let bv = chars_of(b);
    let mut k: usize = 0;
    while k < av.len() && k < bv.len() && av[k] == bv[k]
        invariant
            av@ == a@,
            bv@ == b@,
            k <= av@.len(),
            k <= bv@.len(),
            av@.take(k as int) == bv@.take(k as int),
        decreases av@.len() - k,
    {
        proof {
            assert(av@.take(k as int + 1) =~= av@.take(k as int).push(av@[k as int]));
            assert(bv@.take(k as int + 1) =~= bv@.take(k as int).push(bv@[k as int]));
        }
        k = k + 1;
    }
    let r = if k < av.len() && k < bv.len() { av[k] < bv[k] } else { k == av.len() && k < bv.len() };
    proof {
        let (x, y) = (a@, b@);
        if r {
            assert(x.take(k as int) == y.take(k as int));
        } else if name_before(x, y) {
            let q = choose|q: int| 0 <= q <= x.len() && q <= y.len() && x.take(q) == y.take(q)
                && ((q == x.len() && q < y.len()) || (q < x.len() && q < y.len() && x[q] < y[q]));
            if q < k {
                assert(x.take(k as int)[q] == x[q]);
                assert(y.take(k as int)[q] == y[q]);
            } else if q > k {
                assert(x.take(q)[k as int] == x[k as int]);
                assert(y.take(q)[k as int] == y[k as int]);
            }
        }
    }
    r
}

/// Index, among the positions `rest` of `ws`, of the first workspace with the
/// smallest id.
pub open spec fn first_min_id(ws: Seq<(i32, WorkspaceInfo)>, rest: Seq<usize>) -> int
    decreases rest.len(),
{
    if rest.len() <= 1 {
        0
    } else {
        let j = first_min_id(ws, rest.drop_last());
        if ws[rest.last() as int].1.id < ws[rest[j] as int].1.id { rest.len() - 1 } else { j }
    }
}

/// Index, among the positions `rest` of `ms`, of the first monitor with the
/// name that comes first.
pub open spec fn first_min_name(ms: Seq<MonitorInfo>, rest: Seq<usize>) -> int
    decreases rest.len(),
{
    if rest.len() <= 1 {
        0
    } else {
        let j = first_min_name(ms, rest.drop_last());
        if name_before(ms[rest.last() as int].name@, ms[rest[j] as int].name@) { rest.len() - 1 } else { j }
    }
}

pub open spec fn marker(on: bool) -> Seq<char> {
    if on { "\u{1f3af}"@ } else { "  "@ }
}

/// Some monitor shows workspace `id`.
pub open spec fn shown_anywhere(ms: Seq<MonitorInfo>, id: i32) -> bool {
    exists|i: int| 0 <= i < ms.len() && #[trigger] ms[i].active_workspace_id == id
}

/// One workspace's line of the listing.
pub open spec fn workspace_line(w: WorkspaceInfo, ms: Seq<MonitorInfo>) -> Seq<char> {
    marker(shown_anywhere(ms, w.id)) + " Workspace "@ + int_text(w.id as int) + ": "@ + nat_digits(w.windows as nat)
        + " windows on monitor "@ + w.monitor@ + " ("@ + w.name@ + ")\n"@
}

/// One monitor's line of the listing.
pub open spec fn monitor_line(m: MonitorInfo) -> Seq<char> {
    marker(m.is_focused) + " "@ + m.name@ + ": "@ + int_text(m.width as int) + "x"@ + int_text(m.height as int)
        + " @ ("@ + int_text(m.x as int) + ","@ + int_text(m.y as int) + ") - Workspace "@
        + int_text(m.active_workspace_id as int) + "\n"@
}

/// The lines of the workspaces at positions `rest`, by id (the earlier one
/// first among equal ids).
pub open spec fn workspace_lines(ws: Seq<(i32, WorkspaceInfo)>, ms: Seq<MonitorInfo>, rest: Seq<usize>) -> Seq<char>
    decreases rest.len(),
{
    if rest.len() == 0 {
        Seq::empty()
    } else {
        let j = first_min_id(ws, rest);
        proof { lemma_first_min_bounds_id(ws, rest); }
        workspace_line(ws[rest[j] as int].1, ms) + workspace_lines(ws, ms, rest.remove(j))
    }
}

/// The lines of the monitors at positions `rest`, by name (the earlier one
/// first among equal names).
pub open spec fn monitor_lines(ms: Seq<MonitorInfo>, rest: Seq<usize>) -> Seq<char>
    decreases rest.len(),
{
    if rest.len() == 0 {
        Seq::empty()
    } else {
        let j = first_min_name(ms, rest);
        proof { lemma_first_min_bounds_name(ms, rest); }
        monitor_line(ms[rest[j] as int]) + monitor_lines(ms, rest.remove(j))
    }
}

pub open spec fn all_positions(n: nat) -> Seq<usize> {
    Seq::new(n, |i: int| i as usize)
}

/// The `list` answer: the workspaces by id, then the monitors by name.
pub open spec fn workspace_listing_text(ws: Seq<(i32, WorkspaceInfo)>, ms: Seq<MonitorInfo>) -> Seq<char> {
    "\u{1f3e2} Workspaces:\n"@ + workspace_lines(ws, ms, all_positions(ws.len())) + "\n\u{1f5a5}\u{fe0f}  Monitors:\n"@
        + monitor_lines(ms, all_positions(ms.len()))
}

/// The workspace chosen first is one of `rest`.
pub proof fn lemma_first_min_bounds_id(ws: Seq<(i32, WorkspaceInfo)>, rest: Seq<usize>)
    requires
        rest.len() > 0,
    ensures
        0 <= first_min_id(ws, rest) < rest.len(),
    decreases rest.len(),
{
    if rest.len() > 1 {
        lemma_first_min_bounds_id(ws, rest.drop_last());
    }
}

/// The monitor chosen first is one of `rest`.
pub proof fn lemma_first_min_bounds_name(ms: Seq<MonitorInfo>, rest: Seq<usize>)
    requires
        rest.len() > 0,
    ensures
        0 <= first_min_name(ms, rest) < rest.len(),
    decreases rest.len(),
{
    if rest.len() > 1 {
        lemma_first_min_bounds_name(ms, rest.drop_last());
    }
}

fn first_min_id_exec(ws: &Vec<(i32, WorkspaceInfo)>, rest: &Vec<usize>) -> (j: usize)
    requires
        rest@.len() > 0,
        forall|q: int| 0 <= q < rest@.len() ==> (#[trigger] rest@[q]) < ws@.len(),
    ensures
        j as int == first_min_id(ws@, rest@),
        j < rest@.len(),
{
    let mut j: usize = 0;
    let mut k: usize = 1;
    proof { assert(rest@.take(1).len() == 1); }
    while k < rest.len()
        invariant
            1 <= k <= rest@.len(),
            forall|q: int| 0 <= q < rest@.len() ==> (#[trigger] rest@[q]) < ws@.len(),
            j as int == first_min_id(ws@, rest@.take(k as int)),
            j < k,
        decreases rest@.len() - k,
    {
        proof {
            let t = rest@.take(k as int + 1);
            assert(t.drop_last() =~= rest@.take(k as int));
            assert(t.last() == rest@[k as int]);
            assert(t[j as int] == rest@[j as int]);
        }
        if ws[rest[k]].1.id < ws[rest[j]].1.id {
            j = k;
        }
        k = k + 1;
    }
    proof { assert(rest@.take(rest@.len() as int) =~= rest@); }
    j
}

fn first_min_name_exec(ms: &Vec<MonitorInfo>, rest: &Vec<usize>) -> (j: usize)
    requires
        rest@.len() > 0,
        forall|q: int| 0 <= q < rest@.len() ==> (#[trigger] rest@[q]) < ms@.len(),
    ensures
        j as int == first_min_name(ms@, rest@),
        j < rest@.len(),
{
    let mut j: usize = 0;
    let mut k: usize = 1;
    while k < rest.len()
        invariant
            1 <= k <= rest@.len(),
            forall|q: int| 0 <= q < rest@.len() ==> (#[trigger] rest@[q]) < ms@.len(),
            j as int == first_min_name(ms@, rest@.take(k as int)),
            j < k,
        decreases rest@.len() - k,
    {
        proof {
            let t = rest@.take(k as int + 1);
            assert(t.drop_last() =~= rest@.take(k as int));
            assert(t.last() == rest@[k as int]);
            assert(t[j as int] == rest@[j as int]);
        }
        if name_before_exec(ms[rest[k]].name.as_str(), ms[rest[j]].name.as_str()) {
            j = k;
        }
        k = k + 1;
    }
    proof { assert(rest@.take(rest@.len() as int) =~= rest@); }
    j
}

fn positions(n: usize) -> (v: Vec<usize>)
    ensures
        v@ == all_positions(n as nat),
{
    let mut v: Vec<usize> = Vec::new();
    let mut i: usize = 0;
    while i < n
        invariant
            i <= n,
            v@ == all_positions(i as nat),
        decreases n - i,
    {
        v.push(i);
        i = i + 1;
        assert(v@ =~= all_positions(i as nat));
    }
    v
}

fn marker_text(s: &mut String, on: bool)
    ensures
        final(s)@ == old(s)@ + marker(on),
{
    if on { append_str(s, "\u{1f3af}") } else { append_str(s, "  ") }
}

fn append_workspace_line(out: &mut String, w: &WorkspaceInfo, monitors: &Vec<MonitorInfo>)
    ensures
        final(out)@ == old(out)@ + workspace_line(*w, monitors@),
{
    let mut on = false;
    let mut i: usize = 0;
    while i < monitors.len()
        invariant
            i <= monitors@.len(),
            on == exists|q: int| 0 <= q < i && #[trigger] monitors@[q].active_workspace_id == w.id,
        decreases monitors@.len() - i,
    {
        if monitors[i].active_workspace_id == w.id {
            on = true;
        }
        i = i + 1;
    }
    let ghost o = out@;
    marker_text(out, on);
    append_str(out, " Workspace ");
    append_int(out, w.id as i64);
    append_str(out, ": ");
    append_nat(out, w.windows as u64);
    append_str(out, " windows on monitor ");
    append_str(out, w.monitor.as_str());
    append_str(out, " (");
    append_str(out, w.name.as_str());
    append_str(out, ")\n");
    assert(out@ =~= o + workspace_line(*w, monitors@));
}

fn append_monitor_line(out: &mut String, m: &MonitorInfo)
    ensures
        final(out)@ == old(out)@ + monitor_line(*m),
{
    let ghost o = out@;
    marker_text(out, m.is_focused);
    append_str(out, " ");
    append_str(out, m.name.as_str());
    append_str(out, ": ");
    append_int(out, m.width as i64);
    append_str(out, "x");
    append_int(out, m.height as i64);
    append_str(out, " @ (");
    append_int(out, m.x as i64);
    append_str(out, ",");
    append_int(out, m.y as i64);
    append_str(out, ") - Workspace ");
    append_int(out, m.active_workspace_id as i64);
    append_str(out, "\n");
    assert(out@ =~= o + monitor_line(*m));
}

/// The `list` answer (see `workspace_listing_text`): the workspaces by id,
/// marked when a monitor shows them, then the monitors by name, marked when
/// focused.
#[verifier::rlimit(40)]
pub fn workspace_listing(workspaces: &Vec<(i32, WorkspaceInfo)>, monitors: &Vec<MonitorInfo>) -> (s: String)
    ensures
        s@ == workspace_listing_text(workspaces@, monitors@),
{
    let mut out = owned("\u{1f3e2} Workspaces:\n");
    let ghost head = out@;
    let mut rest = positions(workspaces.len());
    let ghost all = rest@;
    while rest.len() > 0
        invariant
            forall|q: int| 0 <= q < rest@.len() ==> (#[trigger] rest@[q]) < workspaces@.len(),
            out@ + workspace_lines(workspaces@, monitors@, rest@) == head + workspace_lines(workspaces@, monitors@, all),
        decreases rest@.len(),
    {
        let j = first_min_id_exec(workspaces, &rest);
        let ghost before = rest@;
        let ghost o = out@;
        append_workspace_line(&mut out, &workspaces[rest[j]].1, monitors);
        rest.remove(j);
        proof {
            assert(rest@ == before.remove(j as int));
            assert forall|q: int| 0 <= q < rest@.len() implies (#[trigger] rest@[q]) < workspaces@.len() by {
                if q < j { assert(rest@[q] == before[q]); } else { assert(rest@[q] == before[q + 1]); }
            }
            assert(out@ + workspace_lines(workspaces@, monitors@, rest@)
                =~= o + workspace_lines(workspaces@, monitors@, before));
        }
    }
    append_str(&mut out, "\n\u{1f5a5}\u{fe0f}  Monitors:\n");
    let ghost head2 = out@;
    let mut mrest = positions(monitors.len());
    let ghost mall = mrest@;
    while mrest.len() > 0
        invariant
            forall|q: int| 0 <= q < mrest@.len() ==> (#[trigger] mrest@[q]) < monitors@.len(),
            out@ + monitor_lines(monitors@, mrest@) == head2 + monitor_lines(monitors@, mall),
        decreases mrest@.len(),
    {
        let j = first_min_name_exec(monitors, &mrest);
        let ghost before = mrest@;
        let ghost o = out@;
        append_monitor_line(&mut out, &monitors[mrest[j]]);
        mrest.remove(j);
        proof {
            assert(mrest@ == before.remove(j as int));
            assert forall|q: int| 0 <= q < mrest@.len() implies (#[trigger] mrest@[q]) < monitors@.len() by {
                if q < j { assert(mrest@[q] == before[q]); } else { assert(mrest@[q] == before[q + 1]); }
            }
            assert(out@ + monitor_lines(monitors@, mrest@) =~= o + monitor_lines(monitors@, before));
        }
    }
    assert(workspace_lines(workspaces@, monitors@, Seq::<usize>::empty()) == Seq::<char>::empty());
    assert(monitor_lines(monitors@, Seq::<usize>::empty()) == Seq::<char>::empty());
    out
}

} // verus!
