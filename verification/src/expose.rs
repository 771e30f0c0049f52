//! Expose: gathering the windows into one special workspace and putting
//! them back. The state machine and its choices live here; the daemon runs
//! the compositor commands.
use vstd::prelude::*;
use crate::text::{
    append_int, append_nat, append_str, chars_eq, chars_of, copy_opt, copy_string, has_prefix,
    int_text, nat_digits, opt_chars, starts_with,
};

verus! {

/// Settings of expose.
#[derive(Debug)]
pub struct ExposeConfig {
    pub include_special: bool,
    pub target_monitor: Option<String>,
    pub debug_logging: bool,
}

impl Default for ExposeConfig {
    fn default() -> (c: Self)
        ensures
            !c.include_special,
            c.target_monitor is None,
            !c.debug_logging,
    {
        ExposeConfig { include_special: false, target_monitor: None, debug_logging: false }
    }
}

/// A window gathered by expose and where it came from.
#[derive(Debug)]
pub struct WindowState {
    pub address: String,
    pub original_workspace: i32,
    pub title: String,
}

impl Clone for WindowState {
    fn clone(&self) -> (w: Self)
        ensures
            w.address@ == self.address@,
            w.original_workspace == self.original_workspace,
            w.title@ == self.title@,
    {
        WindowState {
            address: copy_string(&self.address),
            original_workspace: self.original_workspace,
            title: copy_string(&self.title),
        }
    }
}

/// A window as plain values.
pub open spec fn window_view(w: WindowState) -> (Seq<char>, i32, Seq<char>) {
    (w.address@, w.original_workspace, w.title@)
}

pub open spec fn windows_view(ws: Seq<WindowState>) -> Seq<(Seq<char>, i32, Seq<char>)> {
    ws.map_values(|w: WindowState| window_view(w))
}

/// Whether expose is on, where to return to, and the gathered windows.
#[derive(Debug)]
pub struct ExposeState {
    pub is_active: bool,
    pub original_workspace: i32,
    pub original_windows: Vec<WindowState>,
    pub target_monitor: Option<String>,
}

/// The state expose starts in and returns to: off, workspace 1, no windows.
pub open spec fn is_initial(s: ExposeState) -> bool {
    &&& !s.is_active
    &&& s.original_workspace == 1
    &&& s.original_windows@.len() == 0
    &&& s.target_monitor is None
}

impl Default for ExposeState {
    fn default() -> (s: Self)
        ensures
            is_initial(s),
    {
        ExposeState { is_active: false, original_workspace: 1, original_windows: Vec::new(), target_monitor: None }
    }
}

fn copy_windows(v: &Vec<WindowState>) -> (out: Vec<WindowState>)
    ensures
        windows_view(out@) == windows_view(v@),
{
    let mut out: Vec<WindowState> = Vec::new();
    let mut i: usize = 0;
    while i < v.len()
        invariant
            i <= v@.len(),
            out@.len() == i,
            forall|k: int| 0 <= k < i ==> window_view(#[trigger] out@[k]) == window_view(v@[k]),
        decreases v@.len() - i,
    {
        out.push(v[i].clone());
        i = i + 1;
    }
    assert(windows_view(out@) =~= windows_view(v@));
    out
}

impl Clone for ExposeState {
    fn clone(&self) -> (s: Self)
        ensures
            s.is_active == self.is_active,
            s.original_workspace == self.original_workspace,
            windows_view(s.original_windows@) == windows_view(self.original_windows@),
            opt_chars(s.target_monitor) == opt_chars(self.target_monitor),
    {
        ExposeState {
            is_active: self.is_active,
            original_workspace: self.original_workspace,
            original_windows: copy_windows(&self.original_windows),
            target_monitor: copy_opt(&self.target_monitor),
        }
    }
}

// ---------------------------------------------------------------------------
// Choosing windows
// ---------------------------------------------------------------------------

/// A window as the compositor reports it, as far as expose cares.
#[derive(Debug, Clone)]
pub struct ExposeCandidate {
    pub address: String,
    pub title: String,
    pub workspace_id: i32,
    pub workspace_name: String,
    pub width: i32,
    pub height: i32,
    pub mapped: bool,
    pub focus_history_id: i32,
}

/// A window is gathered when it is at least 50 by 30, mapped, and not on a
/// special workspace unless those are included.
pub open spec fn gathered(c: ExposeCandidate, include_special: bool) -> bool {
    &&& c.width > 0 && c.height > 0
    &&& c.width >= 50 && c.height >= 30
    &&& (has_prefix(c.workspace_name@, "special:"@) ==> include_special)
    &&& c.mapped
}

/// Gathered window `a` comes before `b`: more recently focused (a higher
/// focus-history number first), or listed earlier.
pub open spec fn comes_first(cs: Seq<ExposeCandidate>, a: int, b: int) -> bool {
    cs[a].focus_history_id > cs[b].focus_history_id
        || (cs[a].focus_history_id == cs[b].focus_history_id && a < b)
}

/// The indices of the gathered windows, ordered by `comes_first`.
pub fn expose_windows(candidates: &Vec<ExposeCandidate>, include_special: bool) -> (r: Vec<usize>)
    ensures
        forall|k: int| 0 <= k < r@.len() ==> (#[trigger] r@[k]) < candidates@.len()
            && gathered(candidates@[r@[k] as int], include_special),
        forall|j: int| 0 <= j < candidates@.len() && gathered(candidates@[j], include_special) ==> r@.contains(j as usize),
        forall|k: int, l: int| 0 <= k < l < r@.len() ==> comes_first(candidates@, r@[k] as int, r@[l] as int),
{
    let ghost cs = candidates@;
    let special = chars_of("special:");
    let mut r: Vec<usize> = Vec::new();
    let mut i: usize = 0;
    while i < candidates.len()
        invariant
            cs == candidates@,
            special@ == "special:"@,
            i <= cs.len(),
            forall|k: int| 0 <= k < r@.len() ==> (#[trigger] r@[k]) < i && gathered(cs[r@[k] as int], include_special),
            forall|j: int| 0 <= j < i && gathered(cs[j], include_special) ==> r@.contains(j as usize),
            forall|k: int, l: int| 0 <= k < l < r@.len() ==> comes_first(cs, r@[k] as int, r@[l] as int),
        decreases cs.len() - i,
    {
        let c = &candidates[i];
        let keep = c.width > 0 && c.height > 0 && c.width >= 50 && c.height >= 30
            && (include_special || !starts_with(&chars_of(c.workspace_name.as_str()), &special))
            && c.mapped;
        if keep {
            let f = c.focus_history_id;
            let mut p: usize = 0;
            while p < r.len() && candidates[r[p]].focus_history_id >= f
                invariant
                    cs == candidates@,
                    i < cs.len(),
                    f == cs[i as int].focus_history_id,
                    p <= r@.len(),
                    forall|k: int| 0 <= k < r@.len() ==> (#[trigger] r@[k]) < i,
                    forall|k: int| 0 <= k < p ==> cs[r@[k] as int].focus_history_id >= f,
                decreases r@.len() - p,
            {
                p = p + 1;
            }
            let ghost old_r = r@;
            r.insert(p, i);
            proof {
                assert(r@ =~= old_r.insert(p as int, i));
                assert(gathered(cs[i as int], include_special));
                assert forall|k: int| 0 <= k < r@.len() implies (#[trigger] r@[k]) < i + 1 && gathered(cs[r@[k] as int], include_special) by {
                    if k < p { assert(r@[k] == old_r[k]); } else if k > p { assert(r@[k] == old_r[k - 1]); }
                }
                assert forall|j: int| 0 <= j < i + 1 && gathered(cs[j], include_special) implies r@.contains(j as usize) by {
                    if j == i {
                        assert(r@[p as int] == i);
                    } else {
                        let q = choose|q: int| 0 <= q < old_r.len() && old_r[q] == j as usize;
                        if q < p { assert(r@[q] == old_r[q]); } else { assert(r@[q + 1] == old_r[q]); }
                    }
                }
                assert forall|k: int, l: int| 0 <= k < l < r@.len() implies comes_first(cs, r@[k] as int, r@[l] as int) by {
                    if l < p {
                        assert(r@[k] == old_r[k] && r@[l] == old_r[l]);
                    } else if l == p {
                        assert(r@[k] == old_r[k]);
                    } else if k < p {
                        assert(r@[k] == old_r[k] && r@[l] == old_r[l - 1]);
                    } else if k == p {
                        assert(r@[l] == old_r[l - 1]);
                        assert(!(cs[old_r[p as int] as int].focus_history_id >= f));
                        if l - 1 > p {
                            assert(comes_first(cs, old_r[p as int] as int, old_r[l - 1] as int));
                        }
                    } else {
                        assert(r@[k] == old_r[k - 1] && r@[l] == old_r[l - 1]);
                    }
                }
            }
        } else {
            proof {
                assert(!gathered(cs[i as int], include_special));
                assert forall|j: int| 0 <= j < i + 1 && gathered(cs[j], include_special) implies r@.contains(j as usize) by {}
            }
        }
        i = i + 1;
    }
    r
}

/// A workspace as the compositor reports it.
#[derive(Debug, Clone)]
pub struct WorkspaceSummary {
    pub id: i32,
    pub monitor: String,
    pub windows: u16,
}

/// The workspace expose returns to: the first non-empty one on the target
/// monitor, else the first non-empty one, else workspace 1.
pub open spec fn return_workspace(ws: Seq<WorkspaceSummary>, target: Option<Seq<char>>) -> i32 {
    let on_target = |i: int| target matches Some(t) && ws[i].monitor@ == t && ws[i].windows > 0;
    let non_empty = |i: int| ws[i].windows > 0;
    if exists|i: int| 0 <= i < ws.len() && #[trigger] on_target(i) {
        ws[choose|i: int| 0 <= i < ws.len() && #[trigger] on_target(i) && forall|j: int| 0 <= j < i ==> !#[trigger] on_target(j)].id
    } else if exists|i: int| 0 <= i < ws.len() && #[trigger] non_empty(i) {
        ws[choose|i: int| 0 <= i < ws.len() && #[trigger] non_empty(i) && forall|j: int| 0 <= j < i ==> !#[trigger] non_empty(j)].id
    } else {
        1
    }
}

/// The workspace expose returns to (see `return_workspace`).
pub fn get_current_workspace(workspaces: &Vec<WorkspaceSummary>, target_monitor: &Option<String>) -> (w: i32)
    ensures
        w == return_workspace(workspaces@, opt_chars(*target_monitor)),
{
    let ghost ws = workspaces@;
    let ghost target = opt_chars(*target_monitor);
    let ghost on_target = |i: int| target matches Some(t) && ws[i].monitor@ == t && ws[i].windows > 0;
    let ghost non_empty = |i: int| ws[i].windows > 0;
    match target_monitor {
        Some(t) => {
            let tc = chars_of(t.as_str());
            let mut i: usize = 0;
            while i < workspaces.len()
                invariant
                    ws == workspaces@,
                    target == opt_chars(*target_monitor),
                    *target_monitor matches Some(u) && u@ == t@,
                    tc@ == t@,
                    on_target == (|i: int| target matches Some(t) && ws[i].monitor@ == t && ws[i].windows > 0),
                    i <= ws.len(),
                    forall|j: int| 0 <= j < i ==> !#[trigger] on_target(j),
                decreases ws.len() - i,
            {
                if chars_eq(&chars_of(workspaces[i].monitor.as_str()), &tc) && workspaces[i].windows > 0 {
                    proof {
                        assert(on_target(i as int));
                        let k = choose|k: int| 0 <= k < ws.len() && #[trigger] on_target(k) && forall|j: int| 0 <= j < k ==> !#[trigger] on_target(j);
                        if k < i { assert(!on_target(k)); }
                        if k > i { assert(!on_target(i as int)); }
                    }
                    return workspaces[i].id;
                }
                i = i + 1;
            }
        },
        None => {},
    }
    proof {
        if exists|i: int| 0 <= i < ws.len() && #[trigger] on_target(i) {
            let k = choose|k: int| 0 <= k < ws.len() && #[trigger] on_target(k);
            assert(!on_target(k));
        }
    }
    let mut i: usize = 0;
    while i < workspaces.len()
        invariant
            ws == workspaces@,
            target == opt_chars(*target_monitor),
            on_target == (|i: int| target matches Some(t) && ws[i].monitor@ == t && ws[i].windows > 0),
            !exists|k: int| 0 <= k < ws.len() && #[trigger] on_target(k),
            non_empty == (|i: int| ws[i].windows > 0),
            i <= ws.len(),
            forall|j: int| 0 <= j < i ==> !#[trigger] non_empty(j),
        decreases ws.len() - i,
    {
        if workspaces[i].windows > 0 {
            proof {
                assert(non_empty(i as int));
                let k = choose|k: int| 0 <= k < ws.len() && #[trigger] non_empty(k) && forall|j: int| 0 <= j < k ==> !#[trigger] non_empty(j);
                if k < i { assert(!non_empty(k)); }
                if k > i { assert(!non_empty(i as int)); }
            }
            return workspaces[i].id;
        }
        i = i + 1;
    }
    proof {
        if exists|i: int| 0 <= i < ws.len() && #[trigger] non_empty(i) {
            let k = choose|k: int| 0 <= k < ws.len() && #[trigger] non_empty(k);
            assert(!non_empty(k));
        }
    }
    1
}

// ---------------------------------------------------------------------------
// The state machine
// ---------------------------------------------------------------------------

/// What leaving expose asks of the compositor: put each window back on its
/// workspace, then show the workspace expose started from.
#[derive(Debug)]
pub struct Restore {
    pub windows: Vec<WindowState>,
    pub workspace: i32,
}

/// A command to expose.
#[derive(Debug, Clone, Copy, PartialEq, Eq, Structural)]
pub enum ExposeCommand {
    Toggle,
    Exit,
    Status,
    Unknown,
}

/// Reads a command: `toggle`, `show` and `enter` toggle; `hide` and `exit`
/// leave; `status` reports.
pub fn parse_command(command: &str) -> (c: ExposeCommand)
    ensures
        c == if command@ == "toggle"@ || command@ == "show"@ || command@ == "enter"@ { ExposeCommand::Toggle }
            else if command@ == "hide"@ || command@ == "exit"@ { ExposeCommand::Exit }
            else if command@ == "status"@ { ExposeCommand::Status }
            else { ExposeCommand::Unknown },
{
    let c = chars_of(command);
    if chars_eq(&c, &chars_of("toggle")) || chars_eq(&c, &chars_of("show")) || chars_eq(&c, &chars_of("enter")) {
        ExposeCommand::Toggle
    } else if chars_eq(&c, &chars_of("hide")) || chars_eq(&c, &chars_of("exit")) {
        ExposeCommand::Exit
    } else if chars_eq(&c, &chars_of("status")) {
        ExposeCommand::Status
    } else {
        ExposeCommand::Unknown
    }
}

/// The answer to an unknown command.
pub fn unknown_command_message(command: &str) -> (s: String)
    ensures
        s@ == "Unknown expose command: "@ + command@ + ". Available: toggle, show, enter, hide, exit, status"@,
{
    let mut s = String::new();
    append_str(&mut s, "Unknown expose command: ");
    append_str(&mut s, command);
    append_str(&mut s, ". Available: toggle, show, enter, hide, exit, status");
    s
}

/// The status line.
pub open spec fn status_text(s: ExposeState) -> Seq<char> {
    if !s.is_active {
        "Expose: Inactive"@
    } else {
        "Expose: Active | Windows: "@ + nat_digits(s.original_windows@.len()) + " | Original Workspace: "@
            + int_text(s.original_workspace as int)
    }
}

/// What entering expose does: when already active nothing changes; with no
/// windows only the workspace is remembered; otherwise the windows are
/// remembered and expose is on.
pub open spec fn entered(s0: ExposeState, current: i32, windows: Seq<WindowState>, s1: ExposeState, msg: Seq<char>) -> bool {
    if s0.is_active {
        s1 == s0 && msg == "Expose already active"@
    } else if windows.len() == 0 {
        &&& !s1.is_active
        &&& s1.original_workspace == current
        &&& s1.original_windows == s0.original_windows
        &&& s1.target_monitor == s0.target_monitor
        &&& msg == "No windows to expose"@
    } else {
        &&& s1.is_active
        &&& s1.original_workspace == current
        &&& s1.original_windows@ == windows
        &&& s1.target_monitor == s0.target_monitor
        &&& msg == "Expose mode activated with "@ + nat_digits(windows.len()) + " windows"@
    }
}

/// What leaving expose does: when active, it hands back the windows and the
/// workspace to restore and returns to the initial state; otherwise nothing
/// changes.
pub open spec fn exited(s0: ExposeState, s1: ExposeState, msg: Seq<char>, rest: Option<Restore>) -> bool {
    if s0.is_active {
        &&& is_initial(s1)
        &&& msg == "Expose mode deactivated"@
        &&& rest matches Some(r) && r.windows@ == s0.original_windows@ && r.workspace == s0.original_workspace
    } else {
        s1 == s0 && msg == "Expose not active"@ && rest is None
    }
}

impl ExposeState {
    /// The status line (see `status_text`).
    pub fn get_status(&self) -> (s: String)
        ensures
            s@ == status_text(*self),
    {
        let mut s = String::new();
        if !self.is_active {
            append_str(&mut s, "Expose: Inactive");
            return s;
        }
        append_str(&mut s, "Expose: Active | Windows: ");
        append_nat(&mut s, self.original_windows.len() as u64);
        append_str(&mut s, " | Original Workspace: ");
        append_int(&mut s, self.original_workspace as i64);
        s
    }

    /// Enters expose from workspace `current` with the gathered `windows`
    /// (see `entered`).
    pub fn enter(&mut self, current: i32, windows: Vec<WindowState>) -> (msg: String)
        ensures
            entered(*old(self), current, windows@, *final(self), msg@),
    {
        let mut msg = String::new();
        if self.is_active {
            append_str(&mut msg, "Expose already active");
            return msg;
        }
        self.original_workspace = current;
        if windows.len() == 0 {
            append_str(&mut msg, "No windows to expose");
            return msg;
        }
        let n = windows.len();
        self.original_windows = windows;
        self.is_active = true;
        append_str(&mut msg, "Expose mode activated with ");
        append_nat(&mut msg, n as u64);
        append_str(&mut msg, " windows");
        msg
    }

    /// Leaves expose: when active, hands back what to restore and returns to
    /// the initial state (see `exited`).
    pub fn exit(&mut self) -> (r: (String, Option<Restore>))
        ensures
            exited(*old(self), *final(self), r.0@, r.1),
    {
        let mut msg = String::new();
        if !self.is_active {
            append_str(&mut msg, "Expose not active");
            return (msg, None);
        }
        let mut fresh = ExposeState::default();
        std::mem::swap(self, &mut fresh);
        append_str(&mut msg, "Expose mode deactivated");
        (msg, Some(Restore { windows: fresh.original_windows, workspace: fresh.original_workspace }))
    }
}

/// Leaving expose after entering it with windows gives back exactly those
/// windows and the workspace it was entered from, and leaves expose in its
/// initial state.
pub proof fn lemma_enter_exit_round_trip(
    s0: ExposeState, current: i32, windows: Seq<WindowState>, m1: Seq<char>,
    s1: ExposeState, s2: ExposeState, m2: Seq<char>, rest: Option<Restore>,
)
    requires
        !s0.is_active,
        windows.len() > 0,
        entered(s0, current, windows, s1, m1),
        exited(s1, s2, m2, rest),
    ensures
        rest matches Some(r) && r.windows@ == windows && r.workspace == current,
        is_initial(s2),
{
}

/// Leaving expose twice does no more than leaving it once: the second time
/// nothing changes and there is nothing to restore.
pub proof fn lemma_exit_idempotent(s0: ExposeState, s1: ExposeState, m1: Seq<char>, r1: Option<Restore>,
    s2: ExposeState, m2: Seq<char>, r2: Option<Restore>)
    requires
        exited(s0, s1, m1, r1),
        exited(s1, s2, m2, r2),
    ensures
        s2 == s1,
        r2 is None,
        m2 == "Expose not active"@,
{
}

} // verus!
