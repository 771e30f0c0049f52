//! Moving the focused window into a special workspace and back, and showing
//! or hiding special workspaces.
use vstd::prelude::*;
use crate::keyed::{find_key, has_key, key_of, lemma_key_of, lemma_update_value, unique_keys, value_of};
use crate::text::{
    append_bool, append_nat, append_nat128, append_str, bool_text, chars_eq, chars_of, copy_opt, copy_string,
    copy_strings, has_prefix, nat_digits, opt_chars, owned, starts_with, strs,
};

verus! {

/// Settings of the special-workspace toggle.
#[derive(Debug, Clone)]
pub struct ToggleSpecialConfig {
    pub default_special_name: String,
    /// Milliseconds.
    pub animation_duration: u64,
    /// Milliseconds that must pass between two operations.
    pub operation_delay: u64,
    pub debug_logging: bool,
    pub enable_animations: bool,
    pub auto_close_empty: bool,
    pub remember_position: bool,
}

pub fn default_special_name() -> (s: String)
    ensures
        s@ == "special"@,
{
    owned("special")
}

pub fn default_animation_duration() -> (n: u64)
    ensures
        n == 250,
{
    250
}

pub fn default_operation_delay() -> (n: u64)
    ensures
        n == 100,
{
    100
}

pub fn default_true() -> (b: bool)
    ensures
        b,
{
    true
}

impl Default for ToggleSpecialConfig {
    fn default() -> (c: Self)
        ensures
            c.default_special_name@ == "special"@,
            c.animation_duration == 250,
            c.operation_delay == 100,
            !c.debug_logging,
            c.enable_animations,
            c.auto_close_empty,
            c.remember_position,
    {
        ToggleSpecialConfig {
            default_special_name: default_special_name(),
            animation_duration: default_animation_duration(),
            operation_delay: default_operation_delay(),
            debug_logging: false,
            enable_animations: default_true(),
            auto_close_empty: default_true(),
            remember_position: default_true(),
        }
    }
}

/// A window and where it is.
#[derive(Debug, Clone)]
pub struct WindowInfo {
    pub address: String,
    pub title: String,
    pub class: String,
    pub workspace_id: i32,
    pub workspace_name: String,
    pub focused: bool,
    pub x: i32,
    pub y: i32,
    pub width: i32,
    pub height: i32,
}

/// What is known of one special workspace.
#[derive(Debug, Clone)]
pub struct SpecialWorkspaceState {
    pub name: String,
    /// Addresses of its windows.
    pub windows: Vec<String>,
    pub visible: bool,
    pub last_focused_window: Option<String>,
}

/// Whether an operation may happen now: never done, or at least `delay`
/// milliseconds since the last one.
pub fn can_perform_operation(elapsed_ms_since_last: Option<u128>, delay: u64) -> (b: bool)
    ensures
        b == match elapsed_ms_since_last { Some(e) => e >= delay, None => true },
{
    match elapsed_ms_since_last {
        Some(e) => e >= delay as u128,
        None => true,
    }
}

/// A workspace name that belongs to a special workspace.
pub open spec fn is_special_name(n: Seq<char>) -> bool {
    has_prefix(n, "special"@)
}

/// Index of the first focused window.
pub fn get_focused_window(windows: &Vec<(String, WindowInfo)>) -> (r: Option<usize>)
    ensures
        match r {
            Some(i) => i < windows@.len() && windows@[i as int].1.focused
                && forall|j: int| 0 <= j < i ==> !(#[trigger] windows@[j]).1.focused,
            None => forall|j: int| 0 <= j < windows@.len() ==> !(#[trigger] windows@[j]).1.focused,
        },
{
    let mut i: usize = 0;
    while i < windows.len()
        invariant
            i <= windows@.len(),
            forall|j: int| 0 <= j < i ==> !(#[trigger] windows@[j]).1.focused,
        decreases windows@.len() - i,
    {
        if windows[i].1.focused {
            return Some(i);
        }
        i = i + 1;
    }
    None
}

/// The special workspace window `addr` is in, if it is in one.
pub open spec fn special_of(windows: Seq<(String, WindowInfo)>, addr: Seq<char>) -> Option<Seq<char>> {
    match value_of(windows, addr) {
        Some(w) => if is_special_name(w.workspace_name@) { Some(w.workspace_name@) } else { None },
        None => None,
    }
}

/// Whether window `addr` is known and in a special workspace.
pub fn is_window_in_special(windows: &Vec<(String, WindowInfo)>, window_address: &str) -> (b: bool)
    ensures
        b == (special_of(windows@, window_address@) is Some),
{
    get_window_special_workspace(windows, window_address).is_some()
}

/// The special workspace window `addr` is in.
pub fn get_window_special_workspace(windows: &Vec<(String, WindowInfo)>, window_address: &str) -> (r: Option<String>)
    ensures
        match r {
            Some(s) => special_of(windows@, window_address@) == Some(s@),
            None => special_of(windows@, window_address@) is None,
        },
{
    match find_key(windows, window_address) {
        Some(i) => {
            let w = &windows[i].1;
            if starts_with(&chars_of(w.workspace_name.as_str()), &chars_of("special")) {
                Some(copy_string(&w.workspace_name))
            } else {
                None
            }
        },
        None => None,
    }
}

/// What a toggle does.
#[derive(Debug)]
pub enum ToggleAction {
    /// Bring the focused window (its address and title) back to a regular
    /// workspace.
    MoveFromSpecial(String, String),
    /// Send the focused window (its title) to the named special workspace.
    MoveToSpecial(String, String),
    /// No window is focused: show or hide the named special workspace.
    ToggleVisibility(String),
}

/// The toggle's decision for the focused window, with `name` the special
/// workspace asked for (the default one when none is given).
pub open spec fn toggle_decision(windows: Seq<(String, WindowInfo)>, name: Seq<char>) -> (int, Seq<char>, Seq<char>) {
    if exists|j: int| 0 <= j < windows.len() && (#[trigger] windows[j]).1.focused {
        let j = choose|j: int| 0 <= j < windows.len() && (#[trigger] windows[j]).1.focused
            && forall|k: int| 0 <= k < j ==> !(#[trigger] windows[k]).1.focused;
        let w = windows[j].1;
        if special_of(windows, w.address@) is Some {
            (0, w.address@, w.title@)
        } else {
            (1, name, w.title@)
        }
    } else {
        (2, name, Seq::empty())
    }
}

pub open spec fn action_view(a: ToggleAction) -> (int, Seq<char>, Seq<char>) {
    match a {
        ToggleAction::MoveFromSpecial(addr, title) => (0, addr@, title@),
        ToggleAction::MoveToSpecial(name, title) => (1, name@, title@),
        ToggleAction::ToggleVisibility(name) => (2, name@, Seq::empty()),
    }
}

/// Decides a toggle: the focused window leaves its special workspace, or goes
/// to the one asked for; with no focused window the workspace is shown or
/// hidden.
pub fn decide_toggle(windows: &Vec<(String, WindowInfo)>, special_name: Option<&str>, default_name: &str) -> (a: ToggleAction)
    ensures
        action_view(a) == toggle_decision(windows@, match special_name { Some(n) => n@, None => default_name@ }),
{
    let name = match special_name {
        Some(n) => owned(n),
        None => owned(default_name),
    };
    match get_focused_window(windows) {
        Some(j) => {
            let w = &windows[j].1;
            proof {
                let k = choose|k: int| 0 <= k < windows@.len() && (#[trigger] windows@[k]).1.focused
                    && forall|q: int| 0 <= q < k ==> !(#[trigger] windows@[q]).1.focused;
                if k < j { assert(!windows@[k].1.focused); }
                if k > j { assert(!windows@[j as int].1.focused); }
            }
            if is_window_in_special(windows, w.address.as_str()) {
                ToggleAction::MoveFromSpecial(copy_string(&w.address), copy_string(&w.title))
            } else {
                ToggleAction::MoveToSpecial(name, copy_string(&w.title))
            }
        },
        None => ToggleAction::ToggleVisibility(name),
    }
}

/// The workspace Hyprland is told to toggle: `special` itself, or
/// `special:` and the name.
pub fn toggle_target(special_name: &str) -> (s: String)
    ensures
        s@ == if special_name@ == "special"@ { "special"@ } else { "special:"@ + special_name@ },
{
    let mut s = String::new();
    if chars_eq(&chars_of(special_name), &chars_of("special")) {
        append_str(&mut s, "special");
    } else {
        append_str(&mut s, "special:");
        append_str(&mut s, special_name);
    }
    s
}

/// The workspace a window is moved to: `special:` and the name.
pub fn move_target(special_name: &str) -> (s: String)
    ensures
        s@ == "special:"@ + special_name@,
{
    let mut s = String::new();
    append_str(&mut s, "special:");
    append_str(&mut s, special_name);
    s
}

/// The answer after a toggle was carried out.
pub fn action_message(a: &ToggleAction) -> (s: String)
    ensures
        s@ == match *a {
            ToggleAction::MoveFromSpecial(_, title) => "Moved window '"@ + title@ + "' from special workspace back to regular workspace"@,
            ToggleAction::MoveToSpecial(name, title) => "Moved window '"@ + title@ + "' to special workspace '"@ + name@ + "'"@,
            ToggleAction::ToggleVisibility(name) => "Toggled visibility of special workspace '"@ + name@ + "'"@,
        },
{
    let mut s = String::new();
    match a {
        ToggleAction::MoveFromSpecial(_, title) => {
            append_str(&mut s, "Moved window '");
            append_str(&mut s, title.as_str());
            append_str(&mut s, "' from special workspace back to regular workspace");
        },
        ToggleAction::MoveToSpecial(name, title) => {
            append_str(&mut s, "Moved window '");
            append_str(&mut s, title.as_str());
            append_str(&mut s, "' to special workspace '");
            append_str(&mut s, name.as_str());
            append_str(&mut s, "'");
        },
        ToggleAction::ToggleVisibility(name) => {
            append_str(&mut s, "Toggled visibility of special workspace '");
            append_str(&mut s, name.as_str());
            append_str(&mut s, "'");
        },
    }
    s
}


// ---------------------------------------------------------------------------
// Special workspace bookkeeping
// ---------------------------------------------------------------------------

/// A special workspace's state as plain values: its name, the addresses of
/// its windows, whether it is shown, and its last focused window.
pub open spec fn special_view(s: SpecialWorkspaceState) -> (Seq<char>, Seq<Seq<char>>, bool, Option<Seq<char>>) {
    (s.name@, strs(s.windows@), s.visible, opt_chars(s.last_focused_window))
}

pub open spec fn states_view(v: Seq<(String, SpecialWorkspaceState)>) -> Seq<(Seq<char>, (Seq<char>, Seq<Seq<char>>, bool, Option<Seq<char>>))> {
    v.map_values(|e: (String, SpecialWorkspaceState)| (e.0@, special_view(e.1)))
}

/// Some window of `ws` is on workspace `n`.
pub open spec fn on_workspace(ws: Seq<(String, WindowInfo)>, n: Seq<char>) -> bool
    decreases ws.len(),
{
    ws.len() > 0 && (on_workspace(ws.drop_last(), n) || ws.last().1.workspace_name@ == n)
}

/// `list` followed by the addresses of the windows on workspace `n`, in
/// order, each added only when not yet listed.
pub open spec fn absorb_addrs(list: Seq<Seq<char>>, ws: Seq<(String, WindowInfo)>, n: Seq<char>) -> Seq<Seq<char>>
    decreases ws.len(),
{
    if ws.len() == 0 {
        list
    } else {
        let prev = absorb_addrs(list, ws.drop_last(), n);
        let w = ws.last().1;
        if w.workspace_name@ == n && !prev.contains(w.address@) { prev.push(w.address@) } else { prev }
    }
}

/// The last focused window of `ws` on workspace `n`, or `prev` when none is.
pub open spec fn last_focused_on(ws: Seq<(String, WindowInfo)>, n: Seq<char>, prev: Option<Seq<char>>) -> Option<Seq<char>>
    decreases ws.len(),
{
    if ws.len() == 0 {
        prev
    } else if ws.last().1.workspace_name@ == n && ws.last().1.focused {
        Some(ws.last().1.address@)
    } else {
        last_focused_on(ws.drop_last(), n, prev)
    }
}

/// A state after the windows are seen: a special workspace that has windows
/// gains their addresses, the visibility `visible` and its last focused
/// window; any other state stays as it is.
pub open spec fn refreshed(st: (Seq<char>, Seq<Seq<char>>, bool, Option<Seq<char>>), n: Seq<char>,
    ws: Seq<(String, WindowInfo)>, visible: bool) -> (Seq<char>, Seq<Seq<char>>, bool, Option<Seq<char>>) {
    if is_special_name(n) && on_workspace(ws, n) {
        (st.0, absorb_addrs(st.1, ws, n), visible, last_focused_on(ws, n, st.3))
    } else {
        st
    }
}

/// The special workspaces with windows that have no state among `keys`, in
/// the order of their first window.
pub open spec fn new_names(keys: Seq<Seq<char>>, ws: Seq<(String, WindowInfo)>) -> Seq<Seq<char>>
    decreases ws.len(),
{
    if ws.len() == 0 {
        Seq::empty()
    } else {
        let prev = new_names(keys, ws.drop_last());
        let n = ws.last().1.workspace_name@;
        if is_special_name(n) && !keys.contains(n) && !prev.contains(n) { prev.push(n) } else { prev }
    }
}

/// The addresses of `list` that are still windows of `ws`.
pub open spec fn live_addrs(list: Seq<Seq<char>>, ws: Seq<(String, WindowInfo)>) -> Seq<Seq<char>>
    decreases list.len(),
{
    if list.len() == 0 {
        list
    } else {
        let prev = live_addrs(list.drop_last(), ws);
        if key_of(ws, list.last()) is Some { prev.push(list.last()) } else { prev }
    }
}

/// The states after the windows `ws` are seen (`shown` are the names of the
/// workspaces on screen): every existing state refreshed, then a fresh one
/// for each new special workspace; each then keeps only its windows that
/// still exist, and states with no windows that are not shown are dropped.
pub open spec fn updated_states(sv: Seq<(Seq<char>, (Seq<char>, Seq<Seq<char>>, bool, Option<Seq<char>>))>,
    ws: Seq<(String, WindowInfo)>, shown: Seq<Seq<char>>) -> Seq<(Seq<char>, (Seq<char>, Seq<Seq<char>>, bool, Option<Seq<char>>))> {
    let keys = sv.map_values(|e: (Seq<char>, (Seq<char>, Seq<Seq<char>>, bool, Option<Seq<char>>))| e.0);
    let gathered = sv.map_values(|e: (Seq<char>, (Seq<char>, Seq<Seq<char>>, bool, Option<Seq<char>>))|
            (e.0, refreshed(e.1, e.0, ws, shown.contains(e.0))))
        + new_names(keys, ws).map_values(|n: Seq<char>|
            (n, refreshed((n, Seq::<Seq<char>>::empty(), shown.contains(n), None), n, ws, shown.contains(n))));
    kept_states(gathered, ws)
}

/// The states of `g` with their dead windows removed, without those left
/// with no window that are not shown.
pub open spec fn kept_states(g: Seq<(Seq<char>, (Seq<char>, Seq<Seq<char>>, bool, Option<Seq<char>>))>, ws: Seq<(String, WindowInfo)>)
    -> Seq<(Seq<char>, (Seq<char>, Seq<Seq<char>>, bool, Option<Seq<char>>))>
    decreases g.len(),
{
    if g.len() == 0 {
        g
    } else {
        let prev = kept_states(g.drop_last(), ws);
        let (k, st) = g.last();
        let live = live_addrs(st.1, ws);
        if live.len() > 0 || st.2 { prev.push((k, (st.0, live, st.2, st.3))) } else { prev }
    }
}

/// No address is listed twice.
pub open spec fn no_dups(s: Seq<Seq<char>>) -> bool {
    forall|i: int, j: int| 0 <= i < j < s.len() ==> s[i] != s[j]
}

/// What every special-workspace state keeps after an update: it lists only
/// windows that exist, each once, and it has a window or is on screen.
pub open spec fn state_sound(st: (Seq<char>, Seq<Seq<char>>, bool, Option<Seq<char>>), ws: Seq<(String, WindowInfo)>) -> bool {
    &&& forall|i: int| 0 <= i < st.1.len() ==> #[trigger] key_of(ws, st.1[i]) is Some
    &&& no_dups(st.1)
    &&& (st.1.len() > 0 || st.2)
}

proof fn lemma_live_addrs(list: Seq<Seq<char>>, ws: Seq<(String, WindowInfo)>)
    ensures
        forall|i: int| 0 <= i < live_addrs(list, ws).len() ==> #[trigger] key_of(ws, live_addrs(list, ws)[i]) is Some,
        forall|i: int| 0 <= i < live_addrs(list, ws).len() ==> list.contains(#[trigger] live_addrs(list, ws)[i]),
        no_dups(list) ==> no_dups(live_addrs(list, ws)),
    decreases list.len(),
{
    if list.len() > 0 {
        let l0 = list.drop_last();
        lemma_live_addrs(l0, ws);
        let prev = live_addrs(l0, ws);
        let live = live_addrs(list, ws);
        assert forall|i: int| 0 <= i < live.len() implies list.contains(#[trigger] live[i]) by {
            if i < prev.len() {
                assert(live[i] == prev[i]);
                assert(l0.contains(prev[i]));
                let q = choose|q: int| 0 <= q < l0.len() && l0[q] == prev[i];
                assert(list[q] == l0[q]);
            } else {
                assert(live[i] == list.last());
                assert(list[list.len() - 1] == list.last());
            }
        }
        assert forall|i: int| 0 <= i < live.len() implies #[trigger] key_of(ws, live[i]) is Some by {
            if i < prev.len() {
                assert(live[i] == prev[i]);
            }
        }
        if no_dups(list) {
            assert(no_dups(l0)) by {
                assert forall|i: int, j: int| 0 <= i < j < l0.len() implies l0[i] != l0[j] by {
                    assert(l0[i] == list[i] && l0[j] == list[j]);
                }
            }
            assert forall|i: int, j: int| 0 <= i < j < live.len() implies live[i] != live[j] by {
                if j < prev.len() {
                    assert(live[i] == prev[i] && live[j] == prev[j]);
                } else {
                    assert(live[i] == prev[i]);
                    assert(live[j] == list.last());
                    assert(l0.contains(prev[i]));
                    let q = choose|q: int| 0 <= q < l0.len() && l0[q] == prev[i];
                    assert(list[q] == l0[q]);
                    assert(list[list.len() - 1] == list.last());
                }
            }
        }
    }
}

proof fn lemma_absorb_no_dups(list: Seq<Seq<char>>, ws: Seq<(String, WindowInfo)>, n: Seq<char>)
    requires
        no_dups(list),
    ensures
        no_dups(absorb_addrs(list, ws, n)),
    decreases ws.len(),
{
    if ws.len() > 0 {
        lemma_absorb_no_dups(list, ws.drop_last(), n);
        let prev = absorb_addrs(list, ws.drop_last(), n);
        let w = ws.last().1;
        if w.workspace_name@ == n && !prev.contains(w.address@) {
            let r = prev.push(w.address@);
            assert forall|i: int, j: int| 0 <= i < j < r.len() implies r[i] != r[j] by {
                if j == prev.len() {
                    assert(r[i] == prev[i]);
                    assert(r[j] == w.address@);
                } else {
                    assert(r[i] == prev[i] && r[j] == prev[j]);
                }
            }
        }
    }
}

proof fn lemma_refreshed_no_dups(st: (Seq<char>, Seq<Seq<char>>, bool, Option<Seq<char>>), n: Seq<char>,
    ws: Seq<(String, WindowInfo)>, visible: bool)
    requires
        no_dups(st.1),
    ensures
        no_dups(refreshed(st, n, ws, visible).1),
{
    if is_special_name(n) && on_workspace(ws, n) {
        lemma_absorb_no_dups(st.1, ws, n);
    }
}

proof fn lemma_kept_sound(g: Seq<(Seq<char>, (Seq<char>, Seq<Seq<char>>, bool, Option<Seq<char>>))>, ws: Seq<(String, WindowInfo)>)
    requires
        forall|j: int| 0 <= j < g.len() ==> no_dups(#[trigger] g[j].1.1),
    ensures
        forall|q: int| 0 <= q < kept_states(g, ws).len() ==> state_sound(#[trigger] kept_states(g, ws)[q].1, ws),
    decreases g.len(),
{
    if g.len() > 0 {
        let g0 = g.drop_last();
        assert forall|j: int| 0 <= j < g0.len() implies no_dups(#[trigger] g0[j].1.1) by {
            assert(g0[j] == g[j]);
        }
        lemma_kept_sound(g0, ws);
        let prev = kept_states(g0, ws);
        let (k, st) = g.last();
        assert(no_dups(g[g.len() - 1].1.1));
        lemma_live_addrs(st.1, ws);
        let live = live_addrs(st.1, ws);
        let r = kept_states(g, ws);
        assert forall|q: int| 0 <= q < r.len() implies state_sound(#[trigger] r[q].1, ws) by {
            if q < prev.len() {
                assert(r[q] == prev[q]);
            }
        }
    }
}

/// After an update, every special-workspace state lists only windows that
/// exist, each once, and has a window or is on screen; this holds whenever
/// no state listed an address twice before.
pub proof fn lemma_updated_states_sound(sv: Seq<(Seq<char>, (Seq<char>, Seq<Seq<char>>, bool, Option<Seq<char>>))>,
    ws: Seq<(String, WindowInfo)>, shown: Seq<Seq<char>>)
    requires
        forall|j: int| 0 <= j < sv.len() ==> no_dups(#[trigger] sv[j].1.1),
    ensures
        forall|q: int| 0 <= q < updated_states(sv, ws, shown).len()
            ==> state_sound(#[trigger] updated_states(sv, ws, shown)[q].1, ws),
{
    let keys = sv.map_values(|e: (Seq<char>, (Seq<char>, Seq<Seq<char>>, bool, Option<Seq<char>>))| e.0);
    let part1 = sv.map_values(|e: (Seq<char>, (Seq<char>, Seq<Seq<char>>, bool, Option<Seq<char>>))|
            (e.0, refreshed(e.1, e.0, ws, shown.contains(e.0))));
    let names = new_names(keys, ws);
    let part2 = names.map_values(|n: Seq<char>|
            (n, refreshed((n, Seq::<Seq<char>>::empty(), shown.contains(n), None), n, ws, shown.contains(n))));
    let g = part1 + part2;
    assert forall|j: int| 0 <= j < g.len() implies no_dups(#[trigger] g[j].1.1) by {
        if j < part1.len() {
            assert(g[j] == part1[j]);
            lemma_refreshed_no_dups(sv[j].1, sv[j].0, ws, shown.contains(sv[j].0));
        } else {
            let n = names[j - part1.len()];
            assert(g[j] == part2[j - part1.len()]);
            let st0 = (n, Seq::<Seq<char>>::empty(), shown.contains(n), None::<Seq<char>>);
            assert(no_dups(st0.1));
            lemma_refreshed_no_dups(st0, n, ws, shown.contains(n));
        }
    }
    lemma_kept_sound(g, ws);
}

proof fn lemma_on_workspace(ws: Seq<(String, WindowInfo)>, i: int)
    requires
        0 <= i < ws.len(),
    ensures
        on_workspace(ws, ws[i].1.workspace_name@),
    decreases ws.len(),
{
    if i < ws.len() - 1 {
        assert(ws.drop_last()[i] == ws[i]);
        lemma_on_workspace(ws.drop_last(), i);
    }
}

proof fn lemma_absorb_contains(list: Seq<Seq<char>>, ws: Seq<(String, WindowInfo)>, n: Seq<char>)
    ensures
        forall|i: int| 0 <= i < ws.len() && ws[i].1.workspace_name@ == n
            ==> absorb_addrs(list, ws, n).contains(#[trigger] ws[i].1.address@),
    decreases ws.len(),
{
    if ws.len() > 0 {
        let w0 = ws.drop_last();
        lemma_absorb_contains(list, w0, n);
        let prev = absorb_addrs(list, w0, n);
        let r = absorb_addrs(list, ws, n);
        assert forall|a: Seq<char>| prev.contains(a) implies r.contains(a) by {
            let q = choose|q: int| 0 <= q < prev.len() && prev[q] == a;
            if r != prev {
                assert(r[q] == prev[q]);
            }
        }
        assert forall|i: int| 0 <= i < ws.len() && ws[i].1.workspace_name@ == n
            implies r.contains(#[trigger] ws[i].1.address@) by {
            if i < ws.len() - 1 {
                assert(w0[i] == ws[i]);
                assert(prev.contains(ws[i].1.address@));
            } else {
                let a = ws.last().1.address@;
                if !prev.contains(a) {
                    assert(r[prev.len() as int] == a);
                }
            }
        }
    }
}

proof fn lemma_new_names_contains(keys: Seq<Seq<char>>, ws: Seq<(String, WindowInfo)>, i: int)
    requires
        0 <= i < ws.len(),
        is_special_name(ws[i].1.workspace_name@),
        !keys.contains(ws[i].1.workspace_name@),
    ensures
        new_names(keys, ws).contains(ws[i].1.workspace_name@),
    decreases ws.len(),
{
    let w0 = ws.drop_last();
    let prev = new_names(keys, w0);
    let r = new_names(keys, ws);
    let n = ws[i].1.workspace_name@;
    if i < ws.len() - 1 {
        assert(w0[i] == ws[i]);
        lemma_new_names_contains(keys, w0, i);
        let q = choose|q: int| 0 <= q < prev.len() && prev[q] == n;
        if r != prev {
            assert(r[q] == prev[q]);
        }
    } else {
        if !prev.contains(n) {
            assert(r[prev.len() as int] == n);
        }
    }
}

proof fn lemma_kept_keeps(g: Seq<(Seq<char>, (Seq<char>, Seq<Seq<char>>, bool, Option<Seq<char>>))>, ws: Seq<(String, WindowInfo)>,
    j: int, a: Seq<char>)
    requires
        0 <= j < g.len(),
        g[j].1.1.contains(a),
        key_of(ws, a) is Some,
    ensures
        exists|q: int| 0 <= q < kept_states(g, ws).len() && (#[trigger] kept_states(g, ws)[q]).0 == g[j].0
            && kept_states(g, ws)[q].1.1.contains(a),
    decreases g.len(),
{
    let g0 = g.drop_last();
    let prev = kept_states(g0, ws);
    let r = kept_states(g, ws);
    if j < g.len() - 1 {
        assert(g0[j] == g[j]);
        lemma_kept_keeps(g0, ws, j, a);
        let q = choose|q: int| 0 <= q < prev.len() && (#[trigger] prev[q]).0 == g0[j].0 && prev[q].1.1.contains(a);
        if r != prev {
            assert(r[q] == prev[q]);
        }
        assert(r[q].0 == g[j].0 && r[q].1.1.contains(a));
    } else {
        let (k, st) = g.last();
        assert(g[j] == g.last());
        let live = live_addrs(st.1, ws);
        lemma_live_keeps(st.1, ws, a);
        assert(live.contains(a));
        let q = prev.len() as int;
        assert(r[q] == (k, (st.0, live, st.2, st.3)));
    }
}

proof fn lemma_live_keeps(list: Seq<Seq<char>>, ws: Seq<(String, WindowInfo)>, a: Seq<char>)
    requires
        list.contains(a),
        key_of(ws, a) is Some,
    ensures
        live_addrs(list, ws).contains(a),
    decreases list.len(),
{
    let l0 = list.drop_last();
    let prev = live_addrs(l0, ws);
    let r = live_addrs(list, ws);
    if list.last() == a {
        assert(r[prev.len() as int] == a);
    } else {
        let q = choose|q: int| 0 <= q < list.len() && list[q] == a;
        assert(q < list.len() - 1);
        assert(l0[q] == a);
        lemma_live_keeps(l0, ws, a);
        let p = choose|p: int| 0 <= p < prev.len() && prev[p] == a;
        if r != prev {
            assert(r[p] == prev[p]);
        }
    }
}

/// After an update, every window on a special workspace is listed by the
/// state of that workspace, for windows held under their addresses (as
/// `windows_by_address` gives them).
pub proof fn lemma_special_windows_listed(sv: Seq<(Seq<char>, (Seq<char>, Seq<Seq<char>>, bool, Option<Seq<char>>))>,
    ws: Seq<(String, WindowInfo)>, shown: Seq<Seq<char>>, i: int)
    requires
        keyed_by_address(ws),
        0 <= i < ws.len(),
        is_special_name(ws[i].1.workspace_name@),
    ensures
        exists|q: int| 0 <= q < updated_states(sv, ws, shown).len()
            && (#[trigger] updated_states(sv, ws, shown)[q]).0 == ws[i].1.workspace_name@
            && updated_states(sv, ws, shown)[q].1.1.contains(ws[i].1.address@),
{
    let n = ws[i].1.workspace_name@;
    let a = ws[i].1.address@;
    let keys = sv.map_values(|e: (Seq<char>, (Seq<char>, Seq<Seq<char>>, bool, Option<Seq<char>>))| e.0);
    let part1 = sv.map_values(|e: (Seq<char>, (Seq<char>, Seq<Seq<char>>, bool, Option<Seq<char>>))|
            (e.0, refreshed(e.1, e.0, ws, shown.contains(e.0))));
    let names = new_names(keys, ws);
    let part2 = names.map_values(|m: Seq<char>|
            (m, refreshed((m, Seq::<Seq<char>>::empty(), shown.contains(m), None), m, ws, shown.contains(m))));
    let g = part1 + part2;
    lemma_on_workspace(ws, i);
    assert(ws[i].0@ == a);
    crate::keyed::lemma_key_of(ws, a);
    let j: int = if keys.contains(n) {
        let j1 = choose|j1: int| 0 <= j1 < keys.len() && keys[j1] == n;
        assert(g[j1] == part1[j1]);
        lemma_absorb_contains(sv[j1].1.1, ws, n);
        j1
    } else {
        lemma_new_names_contains(keys, ws, i);
        let j2 = choose|j2: int| 0 <= j2 < names.len() && names[j2] == n;
        assert(g[part1.len() + j2] == part2[j2]);
        lemma_absorb_contains(Seq::<Seq<char>>::empty(), ws, n);
        part1.len() + j2
    };
    assert(g[j].0 == n);
    assert(g[j].1.1.contains(a));
    lemma_kept_keeps(g, ws, j, a);
    let r = kept_states(g, ws);
    assert(updated_states(sv, ws, shown) == r);
    let q = choose|q: int| 0 <= q < r.len() && (#[trigger] r[q]).0 == g[j].0 && r[q].1.1.contains(a);
    assert(r[q].0 == n && r[q].1.1.contains(a));
}

/// Each window is held under its own address.
pub open spec fn keyed_by_address(ws: Seq<(String, WindowInfo)>) -> bool {
    forall|k: int| 0 <= k < ws.len() ==> (#[trigger] ws[k]).0@ == ws[k].1.address@
}

/// The last window of `list` at address `a`, if any.
pub open spec fn last_at_address(list: Seq<WindowInfo>, a: Seq<char>) -> Option<WindowInfo>
    decreases list.len(),
{
    if list.len() == 0 {
        None
    } else if list.last().address@ == a {
        Some(list.last())
    } else {
        last_at_address(list.drop_last(), a)
    }
}

/// A window as plain values.
pub open spec fn window_view(w: WindowInfo) -> (Seq<char>, Seq<char>, Seq<char>, i32, Seq<char>, bool, i32, i32, i32, i32) {
    (w.address@, w.title@, w.class@, w.workspace_id, w.workspace_name@, w.focused, w.x, w.y, w.width, w.height)
}

pub open spec fn opt_window_view(w: Option<WindowInfo>) -> Option<(Seq<char>, Seq<char>, Seq<char>, i32, Seq<char>, bool, i32, i32, i32, i32)> {
    match w {
        Some(x) => Some(window_view(x)),
        None => None,
    }
}

fn copy_window(w: &WindowInfo) -> (r: WindowInfo)
    ensures
        window_view(r) == window_view(*w),
{
    WindowInfo {
        address: copy_string(&w.address),
        title: copy_string(&w.title),
        class: copy_string(&w.class),
        workspace_id: w.workspace_id,
        workspace_name: copy_string(&w.workspace_name),
        focused: w.focused,
        x: w.x,
        y: w.y,
        width: w.width,
        height: w.height,
    }
}

/// The windows the compositor reported, each held under its address (a
/// later report of an address replacing an earlier one).
pub fn windows_by_address(list: &Vec<WindowInfo>) -> (r: Vec<(String, WindowInfo)>)
    ensures
        keyed_by_address(r@),
        unique_keys(r@),
        forall|a: Seq<char>| #[trigger] opt_window_view(value_of(r@, a)) == opt_window_view(last_at_address(list@, a)),
{
    let mut r: Vec<(String, WindowInfo)> = Vec::new();
    let mut k: usize = 0;
    proof { assert(list@.take(0) =~= Seq::<WindowInfo>::empty()); }
    while k < list.len()
        invariant
            k <= list@.len(),
            keyed_by_address(r@),
            unique_keys(r@),
            forall|a: Seq<char>| #[trigger] opt_window_view(value_of(r@, a)) == opt_window_view(last_at_address(list@.take(k as int), a)),
        decreases list@.len() - k,
    {
        let w = copy_window(&list[k]);
        let a = copy_string(&w.address);
        let ghost before = r@;
        proof {
            assert(list@.take(k as int + 1).drop_last() =~= list@.take(k as int));
            assert(list@.take(k as int + 1).last() == list@[k as int]);
            lemma_key_of(before, a@);
        }
        match find_key(&r, a.as_str()) {
            Some(i) => {
                r.set(i, (a, w));
                proof {
                    lemma_update_value(before, i as int, r@);
                }
            },
            None => {
                r.push((a, w));
                proof {
                    assert(r@.drop_last() =~= before);
                    assert forall|x: int, y: int| 0 <= x < y < r@.len() implies r@[x].0@ != r@[y].0@ by {
                        if y < before.len() { assert(r@[x] == before[x] && r@[y] == before[y]); }
                        else { assert(r@[x] == before[x]); }
                    }
                    assert forall|b: Seq<char>| #[trigger] opt_window_view(value_of(r@, b)) == opt_window_view(last_at_address(list@.take(k as int + 1), b)) by {
                        lemma_key_of(before, b);
                        if b != a@ {
                            assert(value_of(r@, b) == value_of(before, b));
                        }
                    }
                }
            },
        }
        proof {
            assert forall|j: int| 0 <= j < r@.len() implies (#[trigger] r@[j]).0@ == r@[j].1.address@ by {
                if j < before.len() && r@[j] == before[j] {
                } else {
                    assert(window_view(r@[j].1) == window_view(list@[k as int]));
                }
            }
        }
        k = k + 1;
    }
    proof { assert(list@.take(list@.len() as int) =~= list@); }
    r
}

fn copy_state(st: &SpecialWorkspaceState) -> (r: SpecialWorkspaceState)
    ensures
        special_view(r) == special_view(*st),
{
    SpecialWorkspaceState {
        name: copy_string(&st.name),
        windows: copy_strings(&st.windows),
        visible: st.visible,
        last_focused_window: copy_opt(&st.last_focused_window),
    }
}

fn refresh_state(st: &SpecialWorkspaceState, n: &str, windows: &Vec<(String, WindowInfo)>, visible: bool) -> (r: SpecialWorkspaceState)
    ensures
        special_view(r) == refreshed(special_view(*st), n@, windows@, visible),
{
    let nv = chars_of(n);
    if !starts_with(&nv, &chars_of("special")) {
        return copy_state(st);
    }
    let ghost ws = windows@;
    let mut addrs = copy_strings(&st.windows);
    let mut last = copy_opt(&st.last_focused_window);
    let mut touched = false;
    let mut i: usize = 0;
    while i < windows.len()
        invariant
            ws == windows@,
            nv@ == n@,
            i <= ws.len(),
            strs(addrs@) == absorb_addrs(strs(st.windows@), ws.take(i as int), n@),
            opt_chars(last) == last_focused_on(ws.take(i as int), n@, opt_chars(st.last_focused_window)),
            touched == on_workspace(ws.take(i as int), n@),
        decreases ws.len() - i,
    {
        let ghost t = ws.take(i as int + 1);
        assert(t.drop_last() =~= ws.take(i as int));
        assert(t.last() == ws[i as int]);
        let w = &windows[i].1;
        if chars_eq(&chars_of(w.workspace_name.as_str()), &nv) {
            touched = true;
            if !crate::scratchpad_validation::contains_name(&addrs, &chars_of(w.address.as_str())) {
                let ghost before = addrs@;
                addrs.push(copy_string(&w.address));
                assert(strs(addrs@) =~= strs(before).push(w.address@));
            }
            if w.focused {
                last = Some(copy_string(&w.address));
            }
        }
        i = i + 1;
    }
    assert(ws.take(ws.len() as int) =~= ws);
    if touched {
        SpecialWorkspaceState { name: copy_string(&st.name), windows: addrs, visible, last_focused_window: last }
    } else {
        copy_state(st)
    }
}

fn live_windows(list: &Vec<String>, windows: &Vec<(String, WindowInfo)>) -> (r: Vec<String>)
    ensures
        strs(r@) == live_addrs(strs(list@), windows@),
{
    let mut r: Vec<String> = Vec::new();
    let mut i: usize = 0;
    while i < list.len()
        invariant
            i <= list@.len(),
            strs(r@) == live_addrs(strs(list@).take(i as int), windows@),
        decreases list@.len() - i,
    {
        let ghost t = strs(list@).take(i as int + 1);
        assert(t.drop_last() =~= strs(list@).take(i as int));
        assert(t.last() == list@[i as int]@);
        if has_key(windows, list[i].as_str()) {
            let ghost before = r@;
            r.push(copy_string(&list[i]));
            assert(strs(r@) =~= strs(before).push(list@[i as int]@));
        }
        i = i + 1;
    }
    assert(strs(list@).take(list@.len() as int) =~= strs(list@));
    r
}

/// The special-workspace states after the windows `windows` are seen, with
/// `shown` the names of the workspaces on screen (see `updated_states`).
pub fn update_special_workspace_states(states: &Vec<(String, SpecialWorkspaceState)>, windows: &Vec<(String, WindowInfo)>,
    shown: &Vec<String>) -> (r: Vec<(String, SpecialWorkspaceState)>)
    ensures
        states_view(r@) == updated_states(states_view(states@), windows@, strs(shown@)),
{
    let ghost sv = states_view(states@);
    let ghost ws = windows@;
    let ghost keys = sv.map_values(|e: (Seq<char>, (Seq<char>, Seq<Seq<char>>, bool, Option<Seq<char>>))| e.0);
    // The names of the existing states, then the new special workspaces.
    let mut names: Vec<String> = Vec::new();
    let mut k: usize = 0;
    while k < states.len()
        invariant
            k <= states@.len(),
            sv == states_view(states@),
            keys == sv.map_values(|e: (Seq<char>, (Seq<char>, Seq<Seq<char>>, bool, Option<Seq<char>>))| e.0),
            strs(names@) == keys.take(k as int),
        decreases states@.len() - k,
    {
        let ghost before = names@;
        names.push(copy_string(&states[k].0));
        assert(strs(names@) =~= strs(before).push(states@[k as int].0@));
        assert(keys[k as int] == sv[k as int].0);
        assert(strs(names@) =~= keys.take(k as int + 1));
        k = k + 1;
    }
    assert(keys.take(states@.len() as int) =~= keys);
    let mut fresh: Vec<String> = Vec::new();
    let mut i: usize = 0;
    while i < windows.len()
        invariant
            ws == windows@,
            i <= ws.len(),
            strs(names@) == keys,
            strs(fresh@) == new_names(keys, ws.take(i as int)),
        decreases ws.len() - i,
    {
        let ghost t = ws.take(i as int + 1);
        assert(t.drop_last() =~= ws.take(i as int));
        assert(t.last() == ws[i as int]);
        let n = &windows[i].1.workspace_name;
        let nv = chars_of(n.as_str());
        if starts_with(&nv, &chars_of("special")) && !crate::scratchpad_validation::contains_name(&names, &nv)
            && !crate::scratchpad_validation::contains_name(&fresh, &nv) {
            let ghost before = fresh@;
            fresh.push(copy_string(n));
            assert(strs(fresh@) =~= strs(before).push(n@));
        }
        i = i + 1;
    }
    assert(ws.take(ws.len() as int) =~= ws);
    // Every state refreshed, in order.
    let ghost gathered = sv.map_values(|e: (Seq<char>, (Seq<char>, Seq<Seq<char>>, bool, Option<Seq<char>>))|
            (e.0, refreshed(e.1, e.0, ws, strs(shown@).contains(e.0))))
        + new_names(keys, ws).map_values(|n: Seq<char>|
            (n, refreshed((n, Seq::<Seq<char>>::empty(), strs(shown@).contains(n), None), n, ws, strs(shown@).contains(n))));
    let mut g: Vec<(String, SpecialWorkspaceState)> = Vec::new();
    let mut k: usize = 0;
    while k < states.len()
        invariant
            k <= states@.len(),
            ws == windows@,
            sv == states_view(states@),
            states_view(g@) == gathered.take(k as int),
            gathered.len() == sv.len() + new_names(keys, ws).len(),
            gathered == sv.map_values(|e: (Seq<char>, (Seq<char>, Seq<Seq<char>>, bool, Option<Seq<char>>))|
                    (e.0, refreshed(e.1, e.0, ws, strs(shown@).contains(e.0))))
                + new_names(keys, ws).map_values(|n: Seq<char>|
                    (n, refreshed((n, Seq::<Seq<char>>::empty(), strs(shown@).contains(n), None), n, ws, strs(shown@).contains(n)))),
        decreases states@.len() - k,
    {
        let name = &states[k].0;
        let vis = crate::scratchpad_validation::contains_name(shown, &chars_of(name.as_str()));
        let st = refresh_state(&states[k].1, name.as_str(), windows, vis);
        let ghost before = g@;
        g.push((copy_string(name), st));
        assert(states_view(g@) =~= gathered.take(k as int + 1)) by {
            assert(states_view(g@) =~= states_view(before).push((name@, special_view(st))));
            assert(gathered[k as int] == sv.map_values(|e: (Seq<char>, (Seq<char>, Seq<Seq<char>>, bool, Option<Seq<char>>))|
                    (e.0, refreshed(e.1, e.0, ws, strs(shown@).contains(e.0))))[k as int]);
        }
        k = k + 1;
    }
    let mut j: usize = 0;
    while j < fresh.len()
        invariant
            j <= fresh@.len(),
            ws == windows@,
            strs(fresh@) == new_names(keys, ws),
            states_view(g@) == gathered.take(sv.len() + j),
            sv.len() == states@.len(),
            gathered.len() == sv.len() + new_names(keys, ws).len(),
            gathered == sv.map_values(|e: (Seq<char>, (Seq<char>, Seq<Seq<char>>, bool, Option<Seq<char>>))|
                    (e.0, refreshed(e.1, e.0, ws, strs(shown@).contains(e.0))))
                + new_names(keys, ws).map_values(|n: Seq<char>|
                    (n, refreshed((n, Seq::<Seq<char>>::empty(), strs(shown@).contains(n), None), n, ws, strs(shown@).contains(n)))),
        decreases fresh@.len() - j,
    {
        let n = &fresh[j];
        let vis = crate::scratchpad_validation::contains_name(shown, &chars_of(n.as_str()));
        let blank = SpecialWorkspaceState { name: copy_string(n), windows: Vec::new(), visible: vis, last_focused_window: None };
        assert(special_view(blank) == (n@, Seq::<Seq<char>>::empty(), vis, None::<Seq<char>>)) by {
            assert(strs(blank.windows@) =~= Seq::<Seq<char>>::empty());
        }
        let st = refresh_state(&blank, n.as_str(), windows, vis);
        let ghost before = g@;
        g.push((copy_string(n), st));
        assert(states_view(g@) =~= gathered.take(sv.len() + j + 1)) by {
            assert(states_view(g@) =~= states_view(before).push((n@, special_view(st))));
            assert(strs(fresh@)[j as int] == n@);
            assert(gathered[sv.len() + j] == new_names(keys, ws).map_values(|n: Seq<char>|
                    (n, refreshed((n, Seq::<Seq<char>>::empty(), strs(shown@).contains(n), None), n, ws, strs(shown@).contains(n))))[j as int]);
        }
        j = j + 1;
    }
    assert(gathered.take(gathered.len() as int) =~= gathered);
    // Dead windows dropped, and states left empty and hidden with them.
    let mut r: Vec<(String, SpecialWorkspaceState)> = Vec::new();
    let mut q: usize = 0;
    while q < g.len()
        invariant
            q <= g@.len(),
            ws == windows@,
            states_view(r@) == kept_states(states_view(g@).take(q as int), ws),
        decreases g@.len() - q,
    {
        let ghost t = states_view(g@).take(q as int + 1);
        assert(t.drop_last() =~= states_view(g@).take(q as int));
        assert(t.last() == states_view(g@)[q as int]);
        let e = &g[q];
        let live = live_windows(&e.1.windows, windows);
        if live.len() > 0 || e.1.visible {
            let st = SpecialWorkspaceState {
                name: copy_string(&e.1.name),
                windows: live,
                visible: e.1.visible,
                last_focused_window: copy_opt(&e.1.last_focused_window),
            };
            let ghost before = r@;
            r.push((copy_string(&e.0), st));
            assert(states_view(r@) =~= states_view(before).push((e.0@, special_view(st))));
        }
        q = q + 1;
    }
    assert(states_view(g@).take(g@.len() as int) =~= states_view(g@));
    r
}


// ---------------------------------------------------------------------------
// Reports
// ---------------------------------------------------------------------------

/// The windows counted in all special workspace states.
pub open spec fn special_windows_total(states: Seq<(String, SpecialWorkspaceState)>) -> nat
    decreases states.len(),
{
    if states.len() == 0 { 0 } else { special_windows_total(states.drop_last()) + states.last().1.windows@.len() }
}

/// How the focused window is reported: its title and whether it is in a
/// special workspace, or `None`.
pub open spec fn focused_text(windows: Seq<(String, WindowInfo)>) -> Seq<char> {
    if exists|j: int| 0 <= j < windows.len() && (#[trigger] windows[j]).1.focused {
        let j = choose|j: int| 0 <= j < windows.len() && (#[trigger] windows[j]).1.focused
            && forall|k: int| 0 <= k < j ==> !(#[trigger] windows[k]).1.focused;
        let w = windows[j].1;
        "'"@ + w.title@ + if special_of(windows, w.address@) is Some { "' (in special)"@ } else { "' (regular)"@ }
    } else {
        "None"@
    }
}

/// The status report: counts, the focused window, and the settings.
pub open spec fn toggle_status_text(windows: Seq<(String, WindowInfo)>, states: Seq<(String, SpecialWorkspaceState)>,
    c: ToggleSpecialConfig) -> Seq<char> {
    "ToggleSpecial: "@ + nat_digits(windows.len()) + " total windows, "@ + nat_digits(states.len()) + " special workspaces, "@
        + nat_digits(special_windows_total(states)) + " windows in special\n"@
        + "Focused window: "@ + focused_text(windows) + "\n"@
        + "Config:\n  - Default special: '"@ + c.default_special_name@ + "'\n  - Animations: "@ + bool_text(c.enable_animations)
        + " ("@ + nat_digits(c.animation_duration as nat) + "ms)\n  - Operation delay: "@ + nat_digits(c.operation_delay as nat) + "ms\n"@
        + "  - Auto-close empty: "@ + bool_text(c.auto_close_empty) + "\n  - Remember position: "@ + bool_text(c.remember_position)
        + "\n  - Debug logging: "@ + bool_text(c.debug_logging) + "\n"@
}

/// The line for the window at `addr`, if it still exists: focus mark, title
/// and class.
pub open spec fn window_line(addr: Seq<char>, windows: Seq<(String, WindowInfo)>) -> Seq<char> {
    match value_of(windows, addr) {
        Some(w) => "    "@ + (if w.focused { "🎯"@ } else { "  "@ }) + " "@ + w.title@ + " ("@ + w.class@ + ")\n"@,
        None => Seq::empty(),
    }
}

pub open spec fn window_lines(addrs: Seq<String>, windows: Seq<(String, WindowInfo)>) -> Seq<char>
    decreases addrs.len(),
{
    if addrs.len() == 0 {
        Seq::empty()
    } else {
        window_lines(addrs.drop_last(), windows) + window_line(addrs.last()@, windows)
    }
}

/// The head line of one special workspace in the listing.
pub open spec fn special_head(key: Seq<char>, st: SpecialWorkspaceState) -> Seq<char> {
    "  "@ + key + " ("@ + (if st.visible { "👁️  visible"@ } else { "🙈 hidden"@ }) + ") - "@ + nat_digits(st.windows@.len())
        + " windows "@ + (if st.windows@.len() > 0 { ":"@ } else { Seq::empty() }) + "\n"@
}

pub open spec fn special_blocks(states: Seq<(String, SpecialWorkspaceState)>, windows: Seq<(String, WindowInfo)>) -> Seq<char>
    decreases states.len(),
{
    if states.len() == 0 {
        Seq::empty()
    } else {
        special_blocks(states.drop_last(), windows) + special_head(states.last().0@, states.last().1)
            + window_lines(states.last().1.windows@, windows)
    }
}

/// The listing of the special workspaces, each with its windows, then the
/// settings.
pub open spec fn special_listing_text(windows: Seq<(String, WindowInfo)>, states: Seq<(String, SpecialWorkspaceState)>,
    c: ToggleSpecialConfig) -> Seq<char> {
    "🎯 Special Workspaces:\n"@
        + (if states.len() == 0 { "  No special workspaces currently active\n"@ } else { special_blocks(states, windows) })
        + "\nConfig: default='"@ + c.default_special_name@ + "', animations="@ + bool_text(c.enable_animations)
        + ", auto-close="@ + bool_text(c.auto_close_empty) + "\n"@
}

fn focused_line(windows: &Vec<(String, WindowInfo)>) -> (s: String)
    ensures
        s@ == focused_text(windows@),
{
    match get_focused_window(windows) {
        Some(j) => {
            let w = &windows[j].1;
            proof {
                let k = choose|k: int| 0 <= k < windows@.len() && (#[trigger] windows@[k]).1.focused
                    && forall|q: int| 0 <= q < k ==> !(#[trigger] windows@[q]).1.focused;
                if k < j { assert(!windows@[k].1.focused); }
                if k > j { assert(!windows@[j as int].1.focused); }
            }
            let mut s = owned("'");
            append_str(&mut s, w.title.as_str());
            if is_window_in_special(windows, w.address.as_str()) {
                append_str(&mut s, "' (in special)");
            } else {
                append_str(&mut s, "' (regular)");
            }
            s
        },
        None => owned("None"),
    }
}

/// The status report (see `toggle_status_text`).
#[verifier::rlimit(40)]
pub fn toggle_status(windows: &Vec<(String, WindowInfo)>, states: &Vec<(String, SpecialWorkspaceState)>,
    config: &ToggleSpecialConfig) -> (s: String)
    ensures
        s@ == toggle_status_text(windows@, states@, *config),
{
    let mut total: u128 = 0;
    let mut k: usize = 0;
    while k < states.len()
        invariant
            k <= states@.len(),
            total == special_windows_total(states@.take(k as int)),
            total <= k * 0x1_0000_0000_0000_0000,
        decreases states@.len() - k,
    {
        let ghost t = states@.take(k as int + 1);
        assert(t.drop_last() =~= states@.take(k as int));
        total = total + states[k].1.windows.len() as u128;
        k = k + 1;
    }
    assert(states@.take(states@.len() as int) =~= states@);
    let mut s = owned("ToggleSpecial: ");
    append_nat(&mut s, windows.len() as u64);
    append_str(&mut s, " total windows, ");
    append_nat(&mut s, states.len() as u64);
    append_str(&mut s, " special workspaces, ");
    append_nat128(&mut s, total);
    append_str(&mut s, " windows in special\n");
    append_str(&mut s, "Focused window: ");
    let f = focused_line(windows);
    append_str(&mut s, f.as_str());
    append_str(&mut s, "\n");
    append_str(&mut s, "Config:\n  - Default special: '");
    append_str(&mut s, config.default_special_name.as_str());
    append_str(&mut s, "'\n  - Animations: ");
    append_bool(&mut s, config.enable_animations);
    append_str(&mut s, " (");
    append_nat(&mut s, config.animation_duration);
    append_str(&mut s, "ms)\n  - Operation delay: ");
    append_nat(&mut s, config.operation_delay);
    append_str(&mut s, "ms\n");
    append_str(&mut s, "  - Auto-close empty: ");
    append_bool(&mut s, config.auto_close_empty);
    append_str(&mut s, "\n  - Remember position: ");
    append_bool(&mut s, config.remember_position);
    append_str(&mut s, "\n  - Debug logging: ");
    append_bool(&mut s, config.debug_logging);
    append_str(&mut s, "\n");
    s
}

fn window_line_text(addr: &str, windows: &Vec<(String, WindowInfo)>) -> (s: String)
    ensures
        s@ == window_line(addr@, windows@),
{
    match find_key(windows, addr) {
        Some(i) => {
            let w = &windows[i].1;
            let mut s = owned("    ");
            if w.focused { append_str(&mut s, "🎯"); } else { append_str(&mut s, "  "); }
            append_str(&mut s, " ");
            append_str(&mut s, w.title.as_str());
            append_str(&mut s, " (");
            append_str(&mut s, w.class.as_str());
            append_str(&mut s, ")\n");
            s
        },
        None => {
            let s = String::new();
            assert(s@ =~= window_line(addr@, windows@));
            s
        },
    }
}

fn special_head_text(key: &str, st: &SpecialWorkspaceState) -> (s: String)
    ensures
        s@ == special_head(key@, *st),
{
    let mut s = owned("  ");
    append_str(&mut s, key);
    append_str(&mut s, " (");
    if st.visible { append_str(&mut s, "👁️  visible"); } else { append_str(&mut s, "🙈 hidden"); }
    append_str(&mut s, ") - ");
    append_nat(&mut s, st.windows.len() as u64);
    append_str(&mut s, " windows ");
    let ghost mid = s@;
    if st.windows.len() > 0 {
        append_str(&mut s, ":");
    } else {
        assert(s@ =~= mid + Seq::<char>::empty());
    }
    append_str(&mut s, "\n");
    s
}

/// The listing of the special workspaces (see `special_listing_text`).
pub fn special_listing(windows: &Vec<(String, WindowInfo)>, states: &Vec<(String, SpecialWorkspaceState)>,
    config: &ToggleSpecialConfig) -> (s: String)
    ensures
        s@ == special_listing_text(windows@, states@, *config),
{
    let mut s = owned("🎯 Special Workspaces:\n");
    if states.len() == 0 {
        append_str(&mut s, "  No special workspaces currently active\n");
    } else {
        let ghost head = s@;
        let mut k: usize = 0;
        while k < states.len()
            invariant
                k <= states@.len(),
                s@ == head + special_blocks(states@.take(k as int), windows@),
            decreases states@.len() - k,
        {
            let ghost t = states@.take(k as int + 1);
            assert(t.drop_last() =~= states@.take(k as int));
            let h = special_head_text(states[k].0.as_str(), &states[k].1);
            append_str(&mut s, h.as_str());
            let ghost mid = s@;
            let ws = &states[k].1.windows;
            let mut q: usize = 0;
            while q < ws.len()
                invariant
                    q <= ws@.len(),
                    s@ == mid + window_lines(ws@.take(q as int), windows@),
                decreases ws@.len() - q,
            {
                let ghost u = ws@.take(q as int + 1);
                assert(u.drop_last() =~= ws@.take(q as int));
                let line = window_line_text(ws[q].as_str(), windows);
                append_str(&mut s, line.as_str());
                q = q + 1;
            }
            assert(ws@.take(ws@.len() as int) =~= ws@);
            k = k + 1;
        }
        assert(states@.take(states@.len() as int) =~= states@);
    }
    append_str(&mut s, "\nConfig: default='");
    append_str(&mut s, config.default_special_name.as_str());
    append_str(&mut s, "', animations=");
    append_bool(&mut s, config.enable_animations);
    append_str(&mut s, ", auto-close=");
    append_bool(&mut s, config.auto_close_empty);
    append_str(&mut s, "\n");
    s
}

} // verus!
