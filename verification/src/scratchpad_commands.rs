//! The scratchpad plugin's decisions that need no state: which command was
//! asked for, which monitor a scratchpad goes to, which window counts as shown,
//! whether another instance is spawned, the answers it gives, and the steps
//! that show, hide and spawn a window.
use vstd::prelude::*;
use crate::text::{append_nat, append_str, chars_eq, chars_of, copy_string, has_prefix, int_text, starts_with};
use crate::scratchpad_geometry::{AnimationKind, MonitorInfo};
use crate::scratchpad_state::name_set;

verus! {

/// A scratchpad command with its target.
#[derive(Debug)]
pub enum ScratchpadCommand {
    Toggle(String),
    Show(String),
    Hide(String),
    Attach(String),
    List,
}

/// Which of the named commands `c` is: 0 toggle, 1 show, 2 hide, 3 attach,
/// 4 list, 5 none.
pub open spec fn command_word(c: Seq<char>) -> int {
    if c == "toggle"@ { 0 }
    else if c == "show"@ { 1 }
    else if c == "hide"@ { 2 }
    else if c == "attach"@ { 3 }
    else if c == "list"@ { 4 }
    else { 5 }
}

/// The command `parse_command` gives, with the text of its error.
pub open spec fn command_of(c: Seq<char>, args: Seq<Seq<char>>, names: Set<Seq<char>>) -> Result<(int, Seq<char>), Seq<char>> {
    let w = command_word(c);
    if w == 5 {
        Err("Unknown command: "@ + c)
    } else if w == 4 {
        Ok((4, Seq::empty()))
    } else if args.len() == 0 {
        Err("No scratchpad name provided"@)
    } else if !names.contains(args[0]) {
        Err("Scratchpad '"@ + args[0] + "' not found"@)
    } else {
        Ok((w, args[0]))
    }
}

pub open spec fn command_view(c: ScratchpadCommand) -> (int, Seq<char>) {
    match c {
        ScratchpadCommand::Toggle(n) => (0, n@),
        ScratchpadCommand::Show(n) => (1, n@),
        ScratchpadCommand::Hide(n) => (2, n@),
        ScratchpadCommand::Attach(n) => (3, n@),
        ScratchpadCommand::List => (4, Seq::empty()),
    }
}

/// Reads a command to the scratchpad plugin: `toggle`, `show`, `hide` and
/// `attach` take the name of a configured scratchpad as first argument;
/// `list` takes none.
pub fn parse_command(command: &str, args: &Vec<String>, names: &Vec<String>) -> (r: Result<ScratchpadCommand, String>)
    ensures
        match (r, command_of(command@, args@.map_values(|a: String| a@), name_set(names@))) {
            (Ok(c), Ok(v)) => command_view(c) == v,
            (Err(e), Err(f)) => e@ == f,
            _ => false,
        },
{
    let c = chars_of(command);
    let w: u8 = if chars_eq(&c, &chars_of("toggle")) { 0 }
        else if chars_eq(&c, &chars_of("show")) { 1 }
        else if chars_eq(&c, &chars_of("hide")) { 2 }
        else if chars_eq(&c, &chars_of("attach")) { 3 }
        else if chars_eq(&c, &chars_of("list")) { 4 }
        else { 5 };
    let mut msg = String::new();
    if w == 5 {
        append_str(&mut msg, "Unknown command: ");
        append_str(&mut msg, command);
        return Err(msg);
    }
    if w == 4 {
        return Ok(ScratchpadCommand::List);
    }
    if args.len() == 0 {
        append_str(&mut msg, "No scratchpad name provided");
        return Err(msg);
    }
    let ghost a = args@.map_values(|a: String| a@);
    assert(a[0] == args@[0]@);
    let name = &args[0];
    let target = chars_of(name.as_str());
    let mut k: usize = 0;
    let mut known = false;
    while k < names.len() && !known
        invariant
            k <= names@.len(),
            target@ == name@,
            known ==> name_set(names@).contains(name@),
            !known ==> forall|q: int| 0 <= q < k ==> (#[trigger] names@[q])@ != name@,
        decreases names@.len() - k,
    {
        if chars_eq(&chars_of(names[k].as_str()), &target) {
            assert(names@[k as int]@ == name@);
            known = true;
        }
        k = k + 1;
    }
    if !known {
        proof {
            if name_set(names@).contains(name@) {
                let q = choose|q: int| 0 <= q < names@.len() && #[trigger] names@[q]@ == name@;
                assert(names@[q]@ != name@);
            }
        }
        append_str(&mut msg, "Scratchpad '");
        append_str(&mut msg, name.as_str());
        append_str(&mut msg, "' not found");
        return Err(msg);
    }
    let n = copy_string(name);
    if w == 0 {
        Ok(ScratchpadCommand::Toggle(n))
    } else if w == 1 {
        Ok(ScratchpadCommand::Show(n))
    } else if w == 2 {
        Ok(ScratchpadCommand::Hide(n))
    } else {
        Ok(ScratchpadCommand::Attach(n))
    }
}

/// Index of the monitor a scratchpad goes to: the first one named
/// `force_monitor` if there is one, else the first focused one, else the
/// first; the error when there is no monitor at all.
pub fn target_monitor(monitors: &Vec<MonitorInfo>, force_monitor: &Option<String>) -> (r: Result<usize, String>)
    ensures
        match r {
            Ok(i) => i < monitors@.len()
                && match force_monitor {
                    Some(f) => if exists|j: int| 0 <= j < monitors@.len() && #[trigger] monitors@[j].name@ == f@ {
                        monitors@[i as int].name@ == f@ && forall|j: int| 0 <= j < i ==> monitors@[j].name@ != f@
                    } else {
                        focused_or_first(monitors@, i as int)
                    },
                    None => focused_or_first(monitors@, i as int),
                },
            Err(e) => monitors@.len() == 0 && e@ == "No monitors available"@,
        },
{
    let forced = match force_monitor {
        Some(f) => monitor_named(monitors, f.as_str()),
        None => None,
    };
    match forced {
        Some(i) => return Ok(i),
        None => {},
    }
    match first_focused(monitors) {
        Some(i) => Ok(i),
        None => if monitors.len() > 0 {
            Ok(0)
        } else {
            let mut e = String::new();
            append_str(&mut e, "No monitors available");
            Err(e)
        },
    }
}

/// Index of the first monitor called `name`.
fn monitor_named(monitors: &Vec<MonitorInfo>, name: &str) -> (r: Option<usize>)
    ensures
        match r {
            Some(i) => i < monitors@.len() && monitors@[i as int].name@ == name@
                && forall|j: int| 0 <= j < i ==> monitors@[j].name@ != name@,
            None => forall|j: int| 0 <= j < monitors@.len() ==> (#[trigger] monitors@[j]).name@ != name@,
        },
{
    let target = chars_of(name);
    let mut i: usize = 0;
    while i < monitors.len()
        invariant
            i <= monitors@.len(),
            target@ == name@,
            forall|j: int| 0 <= j < i ==> (#[trigger] monitors@[j]).name@ != name@,
        decreases monitors@.len() - i,
    {
        if chars_eq(&chars_of(monitors[i].name.as_str()), &target) {
            return Some(i);
        }
        i = i + 1;
    }
    None
}

/// Index of the first focused monitor.
fn first_focused(monitors: &Vec<MonitorInfo>) -> (r: Option<usize>)
    ensures
        match r {
            Some(i) => i < monitors@.len() && monitors@[i as int].is_focused
                && forall|j: int| 0 <= j < i ==> !monitors@[j].is_focused,
            None => forall|j: int| 0 <= j < monitors@.len() ==> !(#[trigger] monitors@[j]).is_focused,
        },
{
    let mut i: usize = 0;
    while i < monitors.len()
        invariant
            i <= monitors@.len(),
            forall|j: int| 0 <= j < i ==> !(#[trigger] monitors@[j]).is_focused,
        decreases monitors@.len() - i,
    {
        if monitors[i].is_focused {
            return Some(i);
        }
        i = i + 1;
    }
    None
}

/// `i` is the first focused monitor, or 0 when none is focused.
pub open spec fn focused_or_first(ms: Seq<MonitorInfo>, i: int) -> bool {
    if exists|j: int| 0 <= j < ms.len() && #[trigger] ms[j].is_focused {
        ms[i].is_focused && forall|j: int| 0 <= j < i ==> !ms[j].is_focused
    } else {
        i == 0
    }
}

/// A window counts as shown when it is on the current workspace (compared
/// by the workspace's number) and not on a special workspace.
pub open spec fn shown_on(id: i32, ws_name: Seq<char>, current: Seq<char>) -> bool {
    int_text(id as int) == current && !has_prefix(ws_name, "special:"@)
}

/// The first window, given as (workspace number, workspace name), that is
/// shown on `current_workspace`.
pub fn find_visible_window(windows: &Vec<(i32, String)>, current_workspace: &str) -> (r: Option<usize>)
    ensures
        match r {
            Some(i) => i < windows@.len() && shown_on(windows@[i as int].0, windows@[i as int].1@, current_workspace@)
                && forall|j: int| 0 <= j < i ==> !shown_on(windows@[j].0, windows@[j].1@, current_workspace@),
            None => forall|j: int| 0 <= j < windows@.len() ==> !shown_on(windows@[j].0, windows@[j].1@, current_workspace@),
        },
{
    let cur = chars_of(current_workspace);
    let special = chars_of("special:");
    let mut i: usize = 0;
    while i < windows.len()
        invariant
            i <= windows@.len(),
            cur@ == current_workspace@,
            special@ == "special:"@,
            forall|j: int| 0 <= j < i ==> !shown_on(windows@[j].0, windows@[j].1@, current_workspace@),
        decreases windows@.len() - i,
    {
        let mut id_text = String::new();
        crate::text::append_int(&mut id_text, windows[i].0 as i64);
        let on_current = chars_eq(&chars_of(id_text.as_str()), &cur);
        if on_current && !starts_with(&chars_of(windows[i].1.as_str()), &special) {
            return Some(i);
        }
        i = i + 1;
    }
    None
}

/// The first workspace name that is not a special workspace: the window
/// that a direct `hide` acts on.
pub fn find_active_window(workspace_names: &Vec<String>) -> (r: Option<usize>)
    ensures
        match r {
            Some(i) => i < workspace_names@.len() && !has_prefix(workspace_names@[i as int]@, "special:"@)
                && forall|j: int| 0 <= j < i ==> has_prefix(workspace_names@[j]@, "special:"@),
            None => forall|j: int| 0 <= j < workspace_names@.len() ==> has_prefix(workspace_names@[j]@, "special:"@),
        },
{
    let special = chars_of("special:");
    let mut i: usize = 0;
    while i < workspace_names.len()
        invariant
            i <= workspace_names@.len(),
            special@ == "special:"@,
            forall|j: int| 0 <= j < i ==> has_prefix(workspace_names@[j]@, "special:"@),
        decreases workspace_names@.len() - i,
    {
        if !starts_with(&chars_of(workspace_names[i].as_str()), &special) {
            return Some(i);
        }
        i = i + 1;
    }
    None
}

/// Whether another instance of a multi-window scratchpad is spawned: while
/// fewer than `max_instances` (one when unset) exist.
pub fn should_spawn_instance(existing: usize, max_instances: Option<u32>) -> (b: bool)
    ensures
        b == (existing < match max_instances { Some(m) => m as int, None => 1 }),
{
    let max: u32 = match max_instances {
        Some(m) => m,
        None => 1,
    };
    (existing as u64) < (max as u64)
}

/// The answer to hiding scratchpad `name`: when it hides, or that it did.
pub fn hide_message(name: &str, hide_delay: Option<u32>) -> (s: String)
    ensures
        s@ == match hide_delay {
            Some(d) => "Scratchpad '"@ + name@ + "' will hide in "@ + crate::text::nat_digits(d as nat) + "ms"@,
            None => "Scratchpad '"@ + name@ + "' hidden"@,
        },
{
    let mut s = String::new();
    append_str(&mut s, "Scratchpad '");
    append_str(&mut s, name);
    match hide_delay {
        Some(d) => {
            append_str(&mut s, "' will hide in ");
            append_nat(&mut s, d as u64);
            append_str(&mut s, "ms");
        },
        None => {
            append_str(&mut s, "' hidden");
        },
    }
    s
}


// ---------------------------------------------------------------------------
// Showing, hiding and spawning, step by step
// ---------------------------------------------------------------------------

/// One step the daemon takes on a scratchpad window.
#[derive(Debug, Clone, Copy, PartialEq, Eq, Structural)]
pub enum WindowStep {
    /// Run the scratchpad's command.
    Spawn,
    /// Wait for the new window to appear.
    AwaitWindow,
    /// Take the new window's class as the scratchpad's class.
    AdoptClass,
    /// Make the window float.
    Float,
    /// Move the window to the active workspace of its monitor.
    MoveToMonitorWorkspace,
    /// Move the window (at the scratchpad's size) to this point.
    PlaceAt(i32, i32),
    /// Wait this many milliseconds.
    Wait(u64),
    /// Focus the window.
    Focus,
    /// Record the window as shown.
    RecordShown,
    /// Record the window as newly spawned and shown.
    RecordSpawned,
    /// Move the window to the scratchpad's special workspace.
    MoveToSpecial,
    /// Record the scratchpad as hidden.
    RecordHidden,
    /// Focus the window that had focus before the scratchpad.
    RestorePreviousFocus,
}

/// The steps that show a window resting at `at`: onto the monitor's
/// workspace, first to `slide_from` when it slides in (then a short pause),
/// then to its place, focused when `smart_focus`, then recorded (as spawned
/// when `spawned`).
pub open spec fn show_steps(at: (i32, i32), slide_from: Option<(i32, i32)>, smart_focus: bool, spawned: bool) -> Seq<WindowStep> {
    seq![WindowStep::MoveToMonitorWorkspace]
        + (match slide_from { Some(p) => seq![WindowStep::PlaceAt(p.0, p.1), WindowStep::Wait(30)], None => Seq::empty() })
        + seq![WindowStep::PlaceAt(at.0, at.1)]
        + (if smart_focus { seq![WindowStep::Focus] } else { Seq::empty() })
        + seq![if spawned { WindowStep::RecordSpawned } else { WindowStep::RecordShown }]
}

/// How a hiding window is animated: not at all (`None`), or with its kind,
/// its resting point and the point a slide ends at.
pub open spec fn hide_animation_steps(anim: Option<(AnimationKind, (i32, i32), Option<(i32, i32)>)>) -> Seq<WindowStep> {
    match anim {
        None => Seq::empty(),
        Some((kind, at, end)) => match kind {
            AnimationKind::Fade | AnimationKind::Scale => seq![WindowStep::Wait(200)],
            AnimationKind::Other => Seq::empty(),
            _ => match end {
                Some(e) => seq![WindowStep::PlaceAt(at.0, at.1), WindowStep::Wait(30), WindowStep::PlaceAt(e.0, e.1), WindowStep::Wait(250)],
                None => Seq::empty(),
            },
        },
    }
}

/// The steps that hide a window: its animation, the move to the special
/// workspace, the record, and focus given back when `restore_focus` and a
/// window had it before.
pub open spec fn hide_steps(anim: Option<(AnimationKind, (i32, i32), Option<(i32, i32)>)>, restore_focus: bool, has_previous: bool) -> Seq<WindowStep> {
    hide_animation_steps(anim) + seq![WindowStep::MoveToSpecial, WindowStep::RecordHidden]
        + (if restore_focus && has_previous { seq![WindowStep::RestorePreviousFocus] } else { Seq::empty() })
}

/// The steps before a spawned window is shown: run the command, wait for the
/// window, take its class when the class is detected, make it float.
pub open spec fn spawn_steps(auto_detect: bool) -> Seq<WindowStep> {
    seq![WindowStep::Spawn, WindowStep::AwaitWindow]
        + (if auto_detect { seq![WindowStep::AdoptClass] } else { Seq::empty() })
        + seq![WindowStep::Float]
}

/// The steps that show a window (see `show_steps`).
pub fn show_plan(at: (i32, i32), slide_from: Option<(i32, i32)>, smart_focus: bool, spawned: bool) -> (r: Vec<WindowStep>)
    ensures
        r@ == show_steps(at, slide_from, smart_focus, spawned),
{
    let mut r: Vec<WindowStep> = Vec::new();
    r.push(WindowStep::MoveToMonitorWorkspace);
    match slide_from {
        Some(p) => {
            r.push(WindowStep::PlaceAt(p.0, p.1));
            r.push(WindowStep::Wait(30));
        },
        None => {},
    }
    r.push(WindowStep::PlaceAt(at.0, at.1));
    if smart_focus {
        r.push(WindowStep::Focus);
    }
    r.push(if spawned { WindowStep::RecordSpawned } else { WindowStep::RecordShown });
    assert(r@ =~= show_steps(at, slide_from, smart_focus, spawned));
    r
}

/// The steps that hide a window (see `hide_steps`).
pub fn hide_plan(anim: Option<(AnimationKind, (i32, i32), Option<(i32, i32)>)>, restore_focus: bool, has_previous: bool) -> (r: Vec<WindowStep>)
    ensures
        r@ == hide_steps(anim, restore_focus, has_previous),
{
    let mut r: Vec<WindowStep> = Vec::new();
    match anim {
        None => {},
        Some((kind, at, end)) => match kind {
            AnimationKind::Fade | AnimationKind::Scale => r.push(WindowStep::Wait(200)),
            AnimationKind::Other => {},
            _ => match end {
                Some(e) => {
                    r.push(WindowStep::PlaceAt(at.0, at.1));
                    r.push(WindowStep::Wait(30));
                    r.push(WindowStep::PlaceAt(e.0, e.1));
                    r.push(WindowStep::Wait(250));
                },
                None => {},
            },
        },
    }
    assert(r@ =~= hide_animation_steps(anim));
    r.push(WindowStep::MoveToSpecial);
    r.push(WindowStep::RecordHidden);
    if restore_focus && has_previous {
        r.push(WindowStep::RestorePreviousFocus);
    }
    assert(r@ =~= hide_steps(anim, restore_focus, has_previous));
    r
}

/// The steps before a spawned window is shown (see `spawn_steps`).
pub fn spawn_plan(auto_detect: bool) -> (r: Vec<WindowStep>)
    ensures
        r@ == spawn_steps(auto_detect),
{
    let mut r: Vec<WindowStep> = Vec::new();
    r.push(WindowStep::Spawn);
    r.push(WindowStep::AwaitWindow);
    if auto_detect {
        r.push(WindowStep::AdoptClass);
    }
    r.push(WindowStep::Float);
    assert(r@ =~= spawn_steps(auto_detect));
    r
}

} // verus!
