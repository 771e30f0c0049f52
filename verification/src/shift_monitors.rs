//! Rotating the active workspaces across the monitors, ordered left to right.
use vstd::prelude::*;
use crate::text::{
    append_bool, append_int, append_nat, append_str, bool_text, chars_of, copy_string, i32_of, int_text, nat_digits, owned,
    parse_i32,
};

verus! {

/// Settings of workspace shifting.
#[derive(Debug, Clone)]
pub struct ShiftMonitorsConfig {
    /// Milliseconds that must pass between two shifts.
    pub shift_delay: u64,
    /// Milliseconds.
    pub animation_duration: u64,
    pub debug_logging: bool,
    pub enable_animations: bool,
}

pub fn default_shift_delay() -> (n: u64)
    ensures
        n == 200,
{
    200
}

pub fn default_animation_duration() -> (n: u64)
    ensures
        n == 300,
{
    300
}

pub fn default_true() -> (b: bool)
    ensures
        b,
{
    true
}

impl Default for ShiftMonitorsConfig {
    fn default() -> (c: Self)
        ensures
            c.shift_delay == 200,
            c.animation_duration == 300,
            !c.debug_logging,
            c.enable_animations,
    {
        ShiftMonitorsConfig {
            shift_delay: default_shift_delay(),
            animation_duration: default_animation_duration(),
            debug_logging: false,
            enable_animations: default_true(),
        }
    }
}

/// A monitor and the workspace it shows.
#[derive(Debug, Clone)]
pub struct MonitorInfo {
    pub id: i128,
    pub name: String,
    pub focused: bool,
    pub active_workspace: i32,
    pub width: u16,
    pub height: u16,
    pub x: i32,
    pub y: i32,
}

/// A workspace and where it lives.
#[derive(Debug, Clone)]
pub struct WorkspaceInfo {
    pub id: i32,
    pub name: String,
    pub monitor: String,
    pub windows: u16,
}

/// Whether a shift may happen now: never shifted, or at least `shift_delay`
/// milliseconds since the last shift.
pub fn can_shift(elapsed_ms_since_last: Option<u128>, shift_delay: u64) -> (b: bool)
    ensures
        b == match elapsed_ms_since_last { Some(e) => e >= shift_delay, None => true },
{
    match elapsed_ms_since_last {
        Some(e) => e >= shift_delay as u128,
        None => true,
    }
}

// ---------------------------------------------------------------------------
// Ordering
// ---------------------------------------------------------------------------

/// Monitor `a` comes before monitor `b`: further left, or as far left and
/// earlier in the list (the order is stable).
pub open spec fn before(ms: Seq<MonitorInfo>, a: int, b: int) -> bool {
    ms[a].x < ms[b].x || (ms[a].x == ms[b].x && a < b)
}

/// `r` lists every monitor index once, left to right.
pub open spec fn ordered(ms: Seq<MonitorInfo>, r: Seq<usize>) -> bool {
    &&& r.len() == ms.len()
    &&& forall|k: int| 0 <= k < r.len() ==> (#[trigger] r[k]) < ms.len()
    &&& forall|k: int, l: int| 0 <= k < l < r.len() ==> before(ms, r[k] as int, r[l] as int)
}

/// The monitors' indices ordered by their left edge; monitors with the same
/// left edge keep their order.
pub fn get_ordered_monitors(monitors: &Vec<MonitorInfo>) -> (r: Vec<usize>)
    ensures
        ordered(monitors@, r@),
{
    let ghost ms = monitors@;
    let mut r: Vec<usize> = Vec::new();
    let mut i: usize = 0;
    while i < monitors.len()
        invariant
            ms == monitors@,
            i <= ms.len(),
            r@.len() == i,
            forall|k: int| 0 <= k < r@.len() ==> (#[trigger] r@[k]) < i,
            forall|k: int, l: int| 0 <= k < l < r@.len() ==> before(ms, r@[k] as int, r@[l] as int),
        decreases ms.len() - i,
    {
        let xi = monitors[i].x;
        let mut p: usize = 0;
        while p < r.len() && monitors[r[p]].x <= xi
            invariant
                ms == monitors@,
                i < ms.len(),
                xi == ms[i as int].x,
                p <= r@.len(),
                forall|k: int| 0 <= k < r@.len() ==> (#[trigger] r@[k]) < i,
                forall|k: int| 0 <= k < p ==> ms[r@[k] as int].x <= xi,
            decreases r@.len() - p,
        {
            p = p + 1;
        }
        let ghost old_r = r@;
        r.insert(p, i);
        proof {
            assert(r@ =~= old_r.insert(p as int, i));
            assert forall|k: int| 0 <= k < r@.len() implies (#[trigger] r@[k]) < i + 1 by {
                if k < p { assert(r@[k] == old_r[k]); } else if k > p { assert(r@[k] == old_r[k - 1]); }
            }
            assert forall|k: int, l: int| 0 <= k < l < r@.len() implies before(ms, r@[k] as int, r@[l] as int) by {
                if l < p {
                    assert(r@[k] == old_r[k] && r@[l] == old_r[l]);
                } else if l == p {
                    assert(r@[k] == old_r[k]);
                    assert(ms[old_r[k] as int].x <= xi);
                } else if k < p {
                    assert(r@[k] == old_r[k] && r@[l] == old_r[l - 1]);
                } else if k == p {
                    assert(r@[l] == old_r[l - 1]);
                    assert(!(ms[old_r[p as int] as int].x <= xi));
                    if l - 1 > p {
                        assert(before(ms, old_r[p as int] as int, old_r[l - 1] as int));
                    }
                } else {
                    assert(r@[k] == old_r[k - 1] && r@[l] == old_r[l - 1]);
                }
            }
        }
        i = i + 1;
    }
    r
}

// ---------------------------------------------------------------------------
// Shifting
// ---------------------------------------------------------------------------

/// How far the workspaces move: one monitor forward for a positive
/// direction, one back (that is `n - 1` forward) otherwise.
pub open spec fn shift_amount(n: int, direction: int) -> int {
    if direction > 0 { 1 } else { n - 1 }
}

/// Monitor `i` takes the workspace of monitor `(i + k) mod n`.
pub open spec fn rotate(ws: Seq<i32>, k: int) -> Seq<i32> {
    Seq::new(ws.len(), |i: int| ws[(i + k) % (ws.len() as int)])
}

pub open spec fn workspaces_of(mw: Seq<(String, i32)>) -> Seq<i32> {
    mw.map_values(|p: (String, i32)| p.1)
}

/// The new workspace of every monitor (given left to right with its
/// workspace) after a shift in `direction`; at least two monitors are
/// needed.
pub fn shift_assignments(monitor_workspaces: &Vec<(String, i32)>, direction: i32) -> (r: Result<Vec<(String, i32)>, String>)
    ensures
        match r {
            Ok(v) => monitor_workspaces@.len() >= 2
                && v@.len() == monitor_workspaces@.len()
                && (forall|i: int| 0 <= i < v@.len() ==> (#[trigger] v@[i]).0@ == monitor_workspaces@[i].0@)
                && workspaces_of(v@) == rotate(workspaces_of(monitor_workspaces@), shift_amount(monitor_workspaces@.len() as int, direction as int)),
            Err(e) => monitor_workspaces@.len() < 2 && e@ == "Need at least 2 monitors to shift workspaces"@,
        },
{
    let n = monitor_workspaces.len();
    if n < 2 {
        let mut e = String::new();
        append_str(&mut e, "Need at least 2 monitors to shift workspaces");
        return Err(e);
    }
    let shift: usize = if direction > 0 { 1 } else { n - 1 };
    assert(1 <= shift < n);
    let ghost ws = workspaces_of(monitor_workspaces@);
    let mut out: Vec<(String, i32)> = Vec::new();
    let mut i: usize = 0;
    while i < n
        invariant
            n == monitor_workspaces@.len(),
            n >= 2,
            shift as int == shift_amount(n as int, direction as int),
            1 <= shift < n,
            ws == workspaces_of(monitor_workspaces@),
            i <= n,
            out@.len() == i,
            forall|k: int| 0 <= k < i ==> (#[trigger] out@[k]).0@ == monitor_workspaces@[k].0@
                && out@[k].1 == ws[(k + shift) % (n as int)],
        decreases n - i,
    {
        let src = if i >= n - shift { i - (n - shift) } else { i + shift };
        proof { lemma_mod_small(i + shift, n as int); }
        out.push((copy_string(&monitor_workspaces[i].0), monitor_workspaces[src].1));
        i = i + 1;
    }
    proof {
        assert(workspaces_of(out@) =~= rotate(ws, shift as int));
    }
    Ok(out)
}

proof fn lemma_mod_small(x: int, n: int)
    requires
        n > 0,
        0 <= x < 2 * n,
    ensures
        x % n == if x < n { x } else { x - n },
{
    if x < n {
        assert(x % n == x) by (nonlinear_arith) requires 0 <= x < n;
    } else {
        assert(x % n == x - n) by (nonlinear_arith) requires n <= x < 2 * n;
    }
}

/// A shift one way followed by a shift the other way gives every monitor
/// its workspace back.
pub proof fn lemma_shift_round_trip(ws: Seq<i32>, d1: int, d2: int)
    requires
        ws.len() >= 2,
        (d1 > 0) != (d2 > 0),
    ensures
        rotate(rotate(ws, shift_amount(ws.len() as int, d1)), shift_amount(ws.len() as int, d2)) == ws,
{
    let n = ws.len() as int;
    let a = shift_amount(n, d1);
    let b = shift_amount(n, d2);
    let once = rotate(ws, a);
    let twice = rotate(once, b);
    assert forall|i: int| 0 <= i < n implies twice[i] == ws[i] by {
        lemma_mod_small(i + b, n);
        let j = (i + b) % n;
        lemma_mod_small(j + a, n);
        assert(a + b == n);
    }
    assert(twice =~= ws);
}

/// The text of a direction: `forward` for positive, else `backward`.
pub open spec fn direction_text(direction: int) -> Seq<char> {
    if direction > 0 { "forward"@ } else { "backward"@ }
}

/// The answer after a shift across `count` monitors.
pub fn shifted_message(direction: i32, count: usize) -> (s: String)
    ensures
        s@ == "Shifted workspaces "@ + direction_text(direction as int) + " across "@
            + crate::text::nat_digits(count as nat) + " monitors"@,
{
    let mut s = String::new();
    append_str(&mut s, "Shifted workspaces ");
    if direction > 0 {
        append_str(&mut s, "forward");
    } else {
        append_str(&mut s, "backward");
    }
    append_str(&mut s, " across ");
    append_nat(&mut s, count as u64);
    append_str(&mut s, " monitors");
    s
}

/// The direction a command asks for: an empty command is `1`; otherwise the
/// command must be a non-zero `i32`.
pub fn parse_direction(command: &str) -> (r: Result<i32, String>)
    ensures
        command@.len() == 0 ==> r == Ok::<i32, String>(1),
        command@.len() > 0 ==> match i32_of(command@) {
            None => r matches Err(e) && e@ == "Invalid direction: "@ + command@ + ". Use +1 for forward, -1 for backward"@,
            Some(0) => r matches Err(e) && e@ == "Direction cannot be 0. Use +1 for forward, -1 for backward"@,
            Some(d) => r == Ok::<i32, String>(d),
        },
{
    let c = chars_of(command);
    if c.len() == 0 {
        return Ok(1);
    }
    let mut e = String::new();
    match parse_i32(&c) {
        None => {
            append_str(&mut e, "Invalid direction: ");
            append_str(&mut e, command);
            append_str(&mut e, ". Use +1 for forward, -1 for backward");
            Err(e)
        },
        Some(d) => {
            if d == 0 {
                append_str(&mut e, "Direction cannot be 0. Use +1 for forward, -1 for backward");
                Err(e)
            } else {
                Ok(d)
            }
        },
    }
}


// ---------------------------------------------------------------------------
// Reports
// ---------------------------------------------------------------------------

/// The windows on workspace `id`: those of the first workspace listed with
/// that number, else none.
pub open spec fn windows_on(ws: Seq<WorkspaceInfo>, id: i32) -> nat
    decreases ws.len(),
{
    if ws.len() == 0 {
        0
    } else if ws[0].id == id {
        ws[0].windows as nat
    } else {
        windows_on(ws.drop_first(), id)
    }
}

fn windows_on_exec(ws: &Vec<WorkspaceInfo>, id: i32) -> (n: u16)
    ensures
        n as nat == windows_on(ws@, id),
{
    assert(ws@.skip(0) =~= ws@);
    let mut i: usize = 0;
    while i < ws.len()
        invariant
            i <= ws@.len(),
            windows_on(ws@, id) == windows_on(ws@.skip(i as int), id),
        decreases ws@.len() - i,
    {
        assert(ws@.skip(i as int).drop_first() =~= ws@.skip(i as int + 1));
        assert(ws@.skip(i as int)[0] == ws@[i as int]);
        if ws[i].id == id {
            return ws[i].windows;
        }
        i = i + 1;
    }
    assert(ws@.skip(i as int).len() == 0);
    0
}

/// The mark in front of the focused monitor.
pub open spec fn focus_marker(focused: bool) -> Seq<char> {
    if focused { "🎯"@ } else { "  "@ }
}

/// The line of the status report for monitor `m`.
pub open spec fn mapping_line(m: MonitorInfo, ws: Seq<WorkspaceInfo>) -> Seq<char> {
    focus_marker(m.focused) + " "@ + m.name@ + ": Workspace "@ + int_text(m.active_workspace as int) + " ("@
        + nat_digits(m.width as nat) + "x"@ + nat_digits(m.height as nat) + " @ "@ + int_text(m.x as int) + ","@
        + int_text(m.y as int) + ") - "@ + nat_digits(windows_on(ws, m.active_workspace)) + " windows\n"@
}

/// The line of the listing for monitor `m`, the `index`-th from the left
/// (counting from 0).
pub open spec fn listing_line(index: nat, m: MonitorInfo, ws: Seq<WorkspaceInfo>) -> Seq<char> {
    focus_marker(m.focused) + " ["@ + nat_digits(index + 1) + "] "@ + m.name@ + ": "@ + nat_digits(m.width as nat) + "x"@
        + nat_digits(m.height as nat) + " @ ("@ + int_text(m.x as int) + ","@ + int_text(m.y as int) + ") - Workspace "@
        + int_text(m.active_workspace as int) + " ("@ + nat_digits(windows_on(ws, m.active_workspace)) + " windows)\n"@
}

pub open spec fn mapping_lines(ms: Seq<MonitorInfo>, order: Seq<usize>, ws: Seq<WorkspaceInfo>) -> Seq<char>
    decreases order.len(),
{
    if order.len() == 0 {
        Seq::empty()
    } else {
        mapping_lines(ms, order.drop_last(), ws) + mapping_line(ms[order.last() as int], ws)
    }
}

pub open spec fn listing_lines(ms: Seq<MonitorInfo>, order: Seq<usize>, ws: Seq<WorkspaceInfo>) -> Seq<char>
    decreases order.len(),
{
    if order.len() == 0 {
        Seq::empty()
    } else {
        listing_lines(ms, order.drop_last(), ws) + listing_line((order.len() - 1) as nat, ms[order.last() as int], ws)
    }
}

/// The status report: counts, every monitor in `order` with its workspace,
/// and the settings.
pub open spec fn status_text(ms: Seq<MonitorInfo>, order: Seq<usize>, ws: Seq<WorkspaceInfo>, c: ShiftMonitorsConfig) -> Seq<char> {
    "ShiftMonitors: "@ + nat_digits(ms.len()) + " monitors, "@ + nat_digits(ws.len()) + " workspaces\n"@
        + "Current mapping:\n"@ + mapping_lines(ms, order, ws)
        + "\nConfig:\n  - Shift delay: "@ + nat_digits(c.shift_delay as nat) + "ms\n  - Animations: "@
        + bool_text(c.enable_animations) + " ("@ + nat_digits(c.animation_duration as nat) + "ms)\n  - Debug logging: "@
        + bool_text(c.debug_logging) + "\n"@
}

/// The listing: every monitor in `order`, numbered, with its workspace.
pub open spec fn listing_text(ms: Seq<MonitorInfo>, order: Seq<usize>, ws: Seq<WorkspaceInfo>) -> Seq<char> {
    "🖥️  Monitors and Workspaces:\n"@ + listing_lines(ms, order, ws)
        + "\nUse 'shift_monitors +1' to shift workspaces forward or 'shift_monitors -1' to shift backward.\n"@
}

fn append_marker(s: &mut String, focused: bool)
    ensures
        final(s)@ == old(s)@ + focus_marker(focused),
{
    if focused { append_str(s, "🎯") } else { append_str(s, "  ") }
}

#[verifier::rlimit(40)]
fn mapping_line_text(m: &MonitorInfo, workspaces: &Vec<WorkspaceInfo>) -> (s: String)
    ensures
        s@ == mapping_line(*m, workspaces@),
{
    let mut s = String::new();
    append_marker(&mut s, m.focused);
    append_str(&mut s, " ");
    append_str(&mut s, m.name.as_str());
    append_str(&mut s, ": Workspace ");
    append_int(&mut s, m.active_workspace as i64);
    append_str(&mut s, " (");
    append_nat(&mut s, m.width as u64);
    append_str(&mut s, "x");
    append_nat(&mut s, m.height as u64);
    append_str(&mut s, " @ ");
    append_int(&mut s, m.x as i64);
    append_str(&mut s, ",");
    append_int(&mut s, m.y as i64);
    append_str(&mut s, ") - ");
    append_nat(&mut s, windows_on_exec(workspaces, m.active_workspace) as u64);
    append_str(&mut s, " windows\n");
    assert(s@ =~= mapping_line(*m, workspaces@));
    s
}

/// The status report (see `status_text`); `order` is the left-to-right
/// order of the monitors.
pub fn status_report(monitors: &Vec<MonitorInfo>, order: &Vec<usize>, workspaces: &Vec<WorkspaceInfo>, config: &ShiftMonitorsConfig) -> (s: String)
    requires
        forall|k: int| 0 <= k < order@.len() ==> (#[trigger] order@[k]) < monitors@.len(),
    ensures
        s@ == status_text(monitors@, order@, workspaces@, *config),
{
    let mut s = owned("ShiftMonitors: ");
    append_nat(&mut s, monitors.len() as u64);
    append_str(&mut s, " monitors, ");
    append_nat(&mut s, workspaces.len() as u64);
    append_str(&mut s, " workspaces\n");
    append_str(&mut s, "Current mapping:\n");
    let ghost head = s@;
    let mut i: usize = 0;
    while i < order.len()
        invariant
            i <= order@.len(),
            forall|k: int| 0 <= k < order@.len() ==> (#[trigger] order@[k]) < monitors@.len(),
            s@ == head + mapping_lines(monitors@, order@.take(i as int), workspaces@),
        decreases order@.len() - i,
    {
        proof {
            let t = order@.take(i as int + 1);
            assert(t.drop_last() =~= order@.take(i as int));
            assert(t.last() == order@[i as int]);
        }
        let m = &monitors[order[i]];
        let line = mapping_line_text(m, workspaces);
        append_str(&mut s, line.as_str());
        i = i + 1;
    }
    assert(order@.take(order@.len() as int) =~= order@);
    append_str(&mut s, "\nConfig:\n  - Shift delay: ");
    append_nat(&mut s, config.shift_delay);
    append_str(&mut s, "ms\n  - Animations: ");
    append_bool(&mut s, config.enable_animations);
    append_str(&mut s, " (");
    append_nat(&mut s, config.animation_duration);
    append_str(&mut s, "ms)\n  - Debug logging: ");
    append_bool(&mut s, config.debug_logging);
    append_str(&mut s, "\n");
    s
}

#[verifier::rlimit(40)]
fn listing_line_text(i: usize, m: &MonitorInfo, workspaces: &Vec<WorkspaceInfo>) -> (s: String)
    requires
        i < u64::MAX,
    ensures
        s@ == listing_line(i as nat, *m, workspaces@),
{
    let mut s = String::new();
    append_marker(&mut s, m.focused);
    append_str(&mut s, " [");
    append_nat(&mut s, i as u64 + 1);
    append_str(&mut s, "] ");
    append_str(&mut s, m.name.as_str());
    append_str(&mut s, ": ");
    append_nat(&mut s, m.width as u64);
    append_str(&mut s, "x");
    append_nat(&mut s, m.height as u64);
    append_str(&mut s, " @ (");
    append_int(&mut s, m.x as i64);
    append_str(&mut s, ",");
    append_int(&mut s, m.y as i64);
    append_str(&mut s, ") - Workspace ");
    append_int(&mut s, m.active_workspace as i64);
    append_str(&mut s, " (");
    append_nat(&mut s, windows_on_exec(workspaces, m.active_workspace) as u64);
    append_str(&mut s, " windows)\n");
    assert(s@ =~= listing_line(i as nat, *m, workspaces@));
    s
}

/// The listing of the monitors (see `listing_text`); `order` is the
/// left-to-right order of the monitors.
pub fn listing_report(monitors: &Vec<MonitorInfo>, order: &Vec<usize>, workspaces: &Vec<WorkspaceInfo>) -> (s: String)
    requires
        forall|k: int| 0 <= k < order@.len() ==> (#[trigger] order@[k]) < monitors@.len(),
    ensures
        s@ == listing_text(monitors@, order@, workspaces@),
{
    let mut s = owned("🖥️  Monitors and Workspaces:\n");
    let ghost head = s@;
    let mut i: usize = 0;
    while i < order.len()
        invariant
            i <= order@.len(),
            forall|k: int| 0 <= k < order@.len() ==> (#[trigger] order@[k]) < monitors@.len(),
            s@ == head + listing_lines(monitors@, order@.take(i as int), workspaces@),
        decreases order@.len() - i,
    {
        proof {
            let t = order@.take(i as int + 1);
            assert(t.drop_last() =~= order@.take(i as int));
            assert(t.last() == order@[i as int]);
        }
        let m = &monitors[order[i]];
        let line = listing_line_text(i, m, workspaces);
        append_str(&mut s, line.as_str());
        i = i + 1;
    }
    assert(order@.take(order@.len() as int) =~= order@);
    append_str(&mut s, "\nUse 'shift_monitors +1' to shift workspaces forward or 'shift_monitors -1' to shift backward.\n");
    s
}

} // verus!
