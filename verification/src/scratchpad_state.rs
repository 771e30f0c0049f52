//! What the scratchpad plugin remembers between events: the windows of each
//! scratchpad, which are visible, which window belongs to which scratchpad,
//! focus, exclusions and attachment; and the bookkeeping on them.
use vstd::prelude::*;
use crate::keyed::{
    find_key, key_of, keys, lemma_key_of, lemma_key_of_first, lemma_same_keys, lemma_unique_at,
    lemma_update_value, remove_entry, set_entry, unique_keys, value_of,
};
use crate::text::{
    append_nat, append_str, chars_eq, chars_of, copy_string, has_prefix, join, nat_digits, opt_chars, owned, starts_with, strs,
};
use crate::scratchpad_config::{ScratchpadConfig, ValidatedConfig};

verus! {

#[verifier::external_type_specification]
#[verifier::external_body]
pub struct ExInstant(std::time::Instant);

/// `Instant::now`: the current time. Nothing is stated of the value; it only
/// records when something happened.
#[verifier::external_body]
pub(crate) fn now() -> std::time::Instant {
    std::time::Instant::now()
}

/// One window of a scratchpad.
#[derive(Debug, Clone)]
pub struct WindowState {
    pub address: String,
    pub is_visible: bool,
    pub last_position: Option<(i32, i32, i32, i32)>,
    pub monitor: Option<String>,
    pub workspace: Option<String>,
    pub last_focus: Option<std::time::Instant>,
}

/// Everything remembered about one scratchpad.
#[derive(Debug, Clone)]
pub struct ScratchpadState {
    pub windows: Vec<WindowState>,
    pub is_spawned: bool,
    pub last_used: Option<std::time::Instant>,
    /// The scratchpads whose showing hid this one, each named once.
    pub excluded_by: Vec<String>,
    pub cached_position: Option<(String, i32, i32, i32, i32)>,
    pub is_attached: bool,
}

/// A fresh state: no windows, not spawned, attached.
pub open spec fn is_fresh(s: ScratchpadState) -> bool {
    &&& s.windows@.len() == 0
    &&& !s.is_spawned
    &&& s.last_used is None
    &&& s.excluded_by@.len() == 0
    &&& s.cached_position is None
    &&& s.is_attached
}

impl Default for ScratchpadState {
    fn default() -> (s: Self)
        ensures
            is_fresh(s),
    {
        ScratchpadState {
            windows: Vec::new(),
            is_spawned: false,
            last_used: None,
            excluded_by: Vec::new(),
            cached_position: None,
            is_attached: true,
        }
    }
}

impl ScratchpadState {
    /// A fresh state: no windows, not spawned, attached.
    pub fn new() -> (s: Self)
        ensures
            is_fresh(s),
    {
        Self::default()
    }
}

/// The names in a list of strings, as a set.
pub open spec fn name_set(v: Seq<String>) -> Set<Seq<char>> {
    Set::new(|n: Seq<char>| exists|i: int| 0 <= i < v.len() && #[trigger] v[i]@ == n)
}

/// No name occurs twice.
pub open spec fn distinct_names(v: Seq<String>) -> bool {
    forall|i: int, j: int| 0 <= i < j < v.len() ==> v[i]@ != v[j]@
}

pub open spec fn any_visible(s: ScratchpadState) -> bool {
    exists|i: int| 0 <= i < s.windows@.len() && #[trigger] s.windows@[i].is_visible
}

/// The state has a window at `addr`.
pub open spec fn has_window(s: ScratchpadState, addr: Seq<char>) -> bool {
    exists|i: int| 0 <= i < s.windows@.len() && #[trigger] s.windows@[i].address@ == addr
}


/// What the plugin does when focus moves: start a delayed hide of a
/// scratchpad (its name and the delay in milliseconds), and stop the pending
/// hide of another.
#[derive(Debug)]
pub struct FocusActions {
    pub to_hide: Option<(String, i64)>,
    pub cancel: Option<String>,
}

/// A delayed action that the focus timer hands back once its delay has run out.
#[derive(Clone, Debug)]
pub enum InternalCommand {
    SimpleHide { scratchpad_name: String },
}

/// The delay before a scratchpad that lost focus hides, when none is set.
pub open spec fn default_hysteresis_ms() -> i64 {
    400
}

/// The scratchpad to hide when window `prev` loses focus to `addr`, with the
/// delay: only when `prev` belongs to a scratchpad configured to hide on
/// unfocus.
pub open spec fn unfocus_hide(
    r: ScratchpadRegistry,
    configs: Seq<(String, ValidatedConfig)>,
    addr: Seq<char>,
) -> Option<(Seq<char>, i64)> {
    match r.focused_window {
        Some(p) => if p@ != addr {
            match owner(r, p@) {
                Some(n) => match value_of(configs, n) {
                    Some(c) => if opt_chars(c.unfocus) == Some("hide"@) {
                        Some((n, match c.hysteresis_ms { Some(h) => h, None => default_hysteresis_ms() }))
                    } else {
                        None
                    },
                    None => None,
                },
                None => None,
            }
        } else {
            None
        },
        None => None,
    }
}

/// Index of the first configuration whose class is `class`.
pub open spec fn class_match(configs: Seq<(String, ScratchpadConfig)>, class: Seq<char>, j: int) -> bool {
    &&& 0 <= j < configs.len()
    &&& opt_chars(configs[j].1.class) == Some(class)
    &&& forall|q: int| 0 <= q < j ==> opt_chars((#[trigger] configs[q]).1.class) != Some(class)
}

/// Scratchpad `n` took the newly opened window `addr` (from `r0` to `r1`).
pub open spec fn took_window(r0: ScratchpadRegistry, r1: ScratchpadRegistry, n: Seq<char>, addr: Seq<char>) -> bool {
    &&& owner(r1, addr) == Some(n)
    &&& forall|a: Seq<char>| a != addr ==> #[trigger] owner(r1, a) == owner(r0, a)
    &&& forall|m: Seq<char>| m != n ==> #[trigger] state_of(r1, m) == state_of(r0, m)
    &&& match state_of(r1, n) {
        Some(t) => has_window(t, addr) && match state_of(r0, n) {
            Some(s) => if has_window(s, addr) { t == s } else {
                &&& t.windows@.drop_last() == s.windows@
                &&& t.windows@.last().address@ == addr
                &&& t.windows@.last().is_visible
                &&& t.is_spawned
                &&& t.excluded_by == s.excluded_by
                &&& t.is_attached == s.is_attached
            },
            None => {
                &&& t.windows@.len() == 1
                &&& t.windows@[0].address@ == addr
                &&& t.windows@[0].is_visible
                &&& t.is_spawned
                &&& t.excluded_by@.len() == 0
                &&& t.is_attached
            },
        },
        None => false,
    }
}

/// Whether showing `name`, configured to exclude `excludes`, hides scratchpad
/// `n` among the configured `names`: `*` hides every other one, any other
/// pattern the scratchpad of that name.
pub open spec fn excluded_by_showing(names: Set<Seq<char>>, excludes: Set<Seq<char>>, name: Seq<char>, n: Seq<char>) -> bool {
    &&& names.contains(n)
    &&& ((excludes.contains("*"@) && n != name) || (n != "*"@ && excludes.contains(n)))
}

/// One more name in the exclusion set when `hit` holds.
pub open spec fn with_if(s: Set<Seq<char>>, hit: bool, x: Seq<char>) -> Set<Seq<char>> {
    if hit { s.insert(x) } else { s }
}

/// Number of visible windows.
pub open spec fn visible_count(ws: Seq<WindowState>) -> nat {
    ws.filter(|w: WindowState| w.is_visible).len()
}

/// One entry of the `list` answer.
pub open spec fn status_line(r: ScratchpadRegistry, n: Seq<char>) -> Seq<char> {
    let (vis, total, spawned) = match state_of(r, n) {
        Some(s) => (visible_count(s.windows@), s.windows@.len(), s.is_spawned),
        None => (0nat, 0nat, false),
    };
    if vis > 0 {
        n + " (visible: "@ + nat_digits(vis) + "/"@ + nat_digits(total) + ")"@
    } else if spawned {
        n + " (hidden: "@ + nat_digits(total) + ")"@
    } else {
        n + " (not spawned)"@
    }
}

// ---------------------------------------------------------------------------
// Registry
// ---------------------------------------------------------------------------

/// The state of every scratchpad and the owner of every tracked window.
#[derive(Debug)]
pub struct ScratchpadRegistry {
    pub states: Vec<(String, ScratchpadState)>,
    /// Window address, then the scratchpad it belongs to.
    pub window_to_scratchpad: Vec<(String, String)>,
    pub focused_window: Option<String>,
    pub previous_focused_window: Option<String>,
}

/// The state kept for scratchpad `name`.
pub open spec fn state_of(r: ScratchpadRegistry, name: Seq<char>) -> Option<ScratchpadState> {
    value_of(r.states@, name)
}

/// The scratchpad `name` has a visible window.
pub open spec fn visible(r: ScratchpadRegistry, name: Seq<char>) -> bool {
    match state_of(r, name) {
        Some(s) => any_visible(s),
        None => false,
    }
}

/// The scratchpad that owns window `addr`, if any.
pub open spec fn owner(r: ScratchpadRegistry, addr: Seq<char>) -> Option<Seq<char>> {
    match value_of(r.window_to_scratchpad@, addr) {
        Some(n) => Some(n@),
        None => None,
    }
}

/// The scratchpads that hid `name` by being shown.
pub open spec fn excluders(r: ScratchpadRegistry, name: Seq<char>) -> Set<Seq<char>> {
    match state_of(r, name) {
        Some(s) => name_set(s.excluded_by@),
        None => Set::empty(),
    }
}

/// From `r0` to `r1`, showing `name` (configured to exclude `excludes`
/// among the configured `names`) made every scratchpad it hides record that
/// `name` hid it, and changed no other exclusion.
pub open spec fn excludes_applied(r0: ScratchpadRegistry, r1: ScratchpadRegistry, name: Seq<char>,
    names: Set<Seq<char>>, excludes: Set<Seq<char>>) -> bool {
    forall|n: Seq<char>| #[trigger] excluders(r1, n) == with_if(excluders(r0, n), excluded_by_showing(names, excludes, name, n), name)
}

/// From `r0` to `r1`, `name` stopped hiding any scratchpad, and `restored`
/// are exactly those it had hidden.
pub open spec fn excludes_restored(r0: ScratchpadRegistry, r1: ScratchpadRegistry, name: Seq<char>, restored: Set<Seq<char>>) -> bool {
    &&& forall|n: Seq<char>| #[trigger] excluders(r1, n) == excluders(r0, n).remove(name)
    &&& forall|n: Seq<char>| #[trigger] restored.contains(n) <==> excluders(r0, n).contains(name)
}

/// From `r0` to `r1`, scratchpad `name` flipped between attached and
/// detached (a scratchpad without state got a fresh, detached one), keeping
/// its windows, exclusions and spawned flag.
pub open spec fn attach_toggled(r0: ScratchpadRegistry, r1: ScratchpadRegistry, name: Seq<char>) -> bool {
    state_of(r1, name) matches Some(t) && match state_of(r0, name) {
        Some(s) => t.is_attached == !s.is_attached && t.windows == s.windows && t.excluded_by == s.excluded_by
            && t.is_spawned == s.is_spawned,
        None => !t.is_attached && t.windows@.len() == 0 && !t.is_spawned && t.excluded_by@.len() == 0,
    }
}

/// Each scratchpad and each window is recorded once, and each exclusion once.
pub open spec fn registry_wf(r: ScratchpadRegistry) -> bool {
    &&& unique_keys(r.states@)
    &&& unique_keys(r.window_to_scratchpad@)
    &&& forall|i: int| 0 <= i < r.states@.len() ==> distinct_names(#[trigger] r.states@[i].1.excluded_by@)
}

/// Position of the first window at `addr`.
fn window_position(ws: &Vec<WindowState>, addr: &str) -> (r: Option<usize>)
    ensures
        match r {
            Some(k) => k < ws@.len() && ws@[k as int].address@ == addr@ && first_at(ws@, k as int),
            None => forall|q: int| 0 <= q < ws@.len() ==> (#[trigger] ws@[q]).address@ != addr@,
        },
{
    let target = chars_of(addr);
    let mut k: usize = 0;
    while k < ws.len()
        invariant
            k <= ws@.len(),
            target@ == addr@,
            forall|q: int| 0 <= q < k ==> (#[trigger] ws@[q]).address@ != addr@,
        decreases ws@.len() - k,
    {
        if chars_eq(&chars_of(ws[k].address.as_str()), &target) {
            return Some(k);
        }
        k = k + 1;
    }
    None
}


/// `w1` is window `w0` shown again: visible, focused just now, and
/// otherwise as it was.
pub open spec fn shown_again(w0: WindowState, w1: WindowState) -> bool {
    &&& w1.address == w0.address
    &&& w1.last_position == w0.last_position
    &&& w1.monitor == w0.monitor
    &&& w1.workspace == w0.workspace
    &&& w1.is_visible
    &&& w1.last_focus is Some
}

/// `w1` is window `w0` focused just now, and otherwise as it was.
pub open spec fn refocused(w0: WindowState, w1: WindowState) -> bool {
    &&& w1.address == w0.address
    &&& w1.last_position == w0.last_position
    &&& w1.monitor == w0.monitor
    &&& w1.workspace == w0.workspace
    &&& w1.is_visible == w0.is_visible
    &&& w1.last_focus is Some
}

/// A window at `addr` that was just shown for the first time.
pub open spec fn new_shown_window(w: WindowState, addr: Seq<char>) -> bool {
    &&& w.address@ == addr
    &&& w.is_visible
    &&& w.last_position is None
    &&& w.monitor is None
    &&& w.workspace is None
    &&& w.last_focus is Some
}

/// The windows `ws1` are `ws0` with at most window `k`, the first one at
/// `addr`, changed.
pub open spec fn first_changed(ws0: Seq<WindowState>, ws1: Seq<WindowState>, addr: Seq<char>, k: int) -> bool {
    &&& 0 <= k < ws0.len()
    &&& ws0[k].address@ == addr
    &&& first_at(ws0, k)
    &&& ws1.len() == ws0.len()
    &&& forall|j: int| 0 <= j < ws0.len() && j != k ==> #[trigger] ws1[j] == ws0[j]
}

/// State `t` is state `s` after its window at `addr` was shown: the first
/// window at `addr` is shown again, or, when there was none, a new one is
/// added at the end; the scratchpad was used just now, and its other
/// windows and settings are kept.
pub open spec fn window_shown(s: ScratchpadState, t: ScratchpadState, addr: Seq<char>) -> bool {
    &&& t.is_spawned == s.is_spawned
    &&& t.is_attached == s.is_attached
    &&& t.excluded_by == s.excluded_by
    &&& t.cached_position == s.cached_position
    &&& t.last_used is Some
    &&& windows_shown(s, t, addr)
}

/// The windows of `t` are those of `s` after its window at `addr` was
/// shown: the first window at `addr` is shown again, or, when there was
/// none, a new one is added at the end.
pub open spec fn windows_shown(s: ScratchpadState, t: ScratchpadState, addr: Seq<char>) -> bool {
    if has_window(s, addr) {
        exists|k: int| #[trigger] first_changed(s.windows@, t.windows@, addr, k) && shown_again(s.windows@[k], t.windows@[k])
    } else {
        &&& t.windows@.drop_last() == s.windows@
        &&& t.windows@.len() == s.windows@.len() + 1
        &&& new_shown_window(t.windows@.last(), addr)
    }
}

/// State `t` after the scratchpad spawned a window at `addr`, its state
/// having been `base`: spawned, used just now, and a new shown window at
/// `addr` added at the end of its windows, whether or not one was listed
/// there; a scratchpad without state gets a fresh one holding just that
/// window.
pub open spec fn spawn_recorded(base: Option<ScratchpadState>, t: ScratchpadState, addr: Seq<char>) -> bool {
    &&& t.is_spawned
    &&& t.last_used is Some
    &&& t.windows@.len() > 0
    &&& new_shown_window(t.windows@.last(), addr)
    &&& match base {
        Some(s) => {
            &&& t.is_attached == s.is_attached
            &&& t.excluded_by == s.excluded_by
            &&& t.cached_position == s.cached_position
            &&& t.windows@.drop_last() == s.windows@
        },
        None => {
            &&& t.windows@.len() == 1
            &&& t.is_attached
            &&& t.excluded_by@.len() == 0
            &&& t.cached_position is None
        },
    }
}

/// State `t` after a window at `addr` was shown in a scratchpad whose state
/// was `base`: see `window_shown`; a scratchpad without state gets a fresh
/// one holding just the new window.
pub open spec fn shown_from(base: Option<ScratchpadState>, t: ScratchpadState, addr: Seq<char>) -> bool {
    match base {
        Some(s) => window_shown(s, t, addr),
        None => {
            &&& t.windows@.len() == 1
            &&& new_shown_window(t.windows@[0], addr)
            &&& !t.is_spawned
            &&& t.is_attached
            &&& t.excluded_by@.len() == 0
            &&& t.cached_position is None
            &&& t.last_used is Some
        },
    }
}

/// State `t` is state `s` after focus moved to its window at `addr`: the
/// scratchpad was used just now and the first window at `addr`, if any, was
/// focused just now; nothing else changed.
pub open spec fn focus_touched(s: ScratchpadState, t: ScratchpadState, addr: Seq<char>) -> bool {
    &&& t.is_spawned == s.is_spawned
    &&& t.is_attached == s.is_attached
    &&& t.excluded_by == s.excluded_by
    &&& t.cached_position == s.cached_position
    &&& t.last_used is Some
    &&& if has_window(s, addr) {
        exists|k: int| #[trigger] first_changed(s.windows@, t.windows@, addr, k) && refocused(s.windows@[k], t.windows@[k])
    } else {
        t.windows == s.windows
    }
}

/// Window `k` of `ws` is the first one at its address.
pub open spec fn first_at(ws: Seq<WindowState>, k: int) -> bool {
    forall|q: int| 0 <= q < k ==> (#[trigger] ws[q]).address@ != ws[k].address@
}

/// Whether window `k` of scratchpad `n` counts as visible once the
/// compositor has reported where windows are (`placements`: address, then
/// workspace name): the first window of `n` at an address that `n` owns
/// (`owners`: address, then scratchpad) and that is reported is visible
/// exactly when it is not on a special workspace; any other window keeps
/// its visibility.
pub open spec fn seen_visible(owners: Seq<(String, String)>, placements: Seq<(String, String)>, n: Seq<char>,
    ws: Seq<WindowState>, k: int) -> bool {
    let a = ws[k].address@;
    match (value_of(placements, a), value_of(owners, a)) {
        (Some(p), Some(o)) => if o@ == n && first_at(ws, k) { !has_prefix(p@, "special:"@) } else { ws[k].is_visible },
        _ => ws[k].is_visible,
    }
}

/// `w1` is `w0` with at most its visibility changed.
pub open spec fn same_but_visibility(w0: WindowState, w1: WindowState) -> bool {
    &&& w1.address == w0.address
    &&& w1.last_position == w0.last_position
    &&& w1.monitor == w0.monitor
    &&& w1.workspace == w0.workspace
    &&& w1.last_focus == w0.last_focus
}

fn first_at_exec(ws: &Vec<WindowState>, k: usize) -> (b: bool)
    requires
        k < ws@.len(),
    ensures
        b == first_at(ws@, k as int),
{
    let target = chars_of(ws[k].address.as_str());
    let mut q: usize = 0;
    while q < k
        invariant
            k < ws@.len(),
            q <= k,
            target@ == ws@[k as int].address@,
            forall|p: int| 0 <= p < q ==> (#[trigger] ws@[p]).address@ != ws@[k as int].address@,
        decreases k - q,
    {
        if chars_eq(&chars_of(ws[q].address.as_str()), &target) {
            return false;
        }
        q = q + 1;
    }
    true
}

/// Sets the visibility of the windows of scratchpad `name` from where the
/// compositor reports them (see `seen_visible`).
fn refresh_windows(ws: &mut Vec<WindowState>, name: &str, owners: &Vec<(String, String)>, placements: &Vec<(String, String)>)
    ensures
        final(ws)@.len() == old(ws)@.len(),
        forall|k: int| 0 <= k < old(ws)@.len() ==> same_but_visibility(old(ws)@[k], #[trigger] final(ws)@[k])
            && final(ws)@[k].is_visible == seen_visible(owners@, placements@, name@, old(ws)@, k),
{
    let ghost w0 = ws@;
    let special = chars_of("special:");
    let mut k: usize = 0;
    while k < ws.len()
        invariant
            ws@.len() == w0.len(),
            k <= w0.len(),
            special@ == "special:"@,
            forall|q: int| 0 <= q < w0.len() ==> (#[trigger] ws@[q]).address == w0[q].address,
            forall|q: int| 0 <= q < k ==> same_but_visibility(w0[q], #[trigger] ws@[q])
                && ws@[q].is_visible == seen_visible(owners@, placements@, name@, w0, q),
            forall|q: int| k <= q < w0.len() ==> #[trigger] ws@[q] == w0[q],
        decreases w0.len() - k,
    {
        let first = first_at_exec(ws, k);
        proof {
            assert(ws@[k as int].address == w0[k as int].address);
            if first_at(w0, k as int) {
                assert forall|q: int| 0 <= q < k implies (#[trigger] ws@[q]).address@ != ws@[k as int].address@ by {
                    assert(ws@[q].address == w0[q].address);
                }
            }
            if first_at(ws@, k as int) {
                assert forall|q: int| 0 <= q < k implies (#[trigger] w0[q]).address@ != w0[k as int].address@ by {
                    assert(ws@[q].address == w0[q].address);
                }
            }
        }
        let a = copy_string(&ws[k].address);
        let owned_here = match find_key(owners, a.as_str()) {
            Some(i) => chars_eq(&chars_of(owners[i].1.as_str()), &chars_of(name)),
            None => false,
        };
        match find_key(placements, a.as_str()) {
            Some(p) => {
                if owned_here && first {
                    let v = !starts_with(&chars_of(placements[p].1.as_str()), &special);
                    ws[k].is_visible = v;
                }
            },
            None => {},
        }
        assert(same_but_visibility(w0[k as int], ws@[k as int]) && ws@[k as int].is_visible
            == seen_visible(owners@, placements@, name@, w0, k as int));
        k = k + 1;
    }
}

/// Adds `x` to a list of distinct names unless it is there.
fn insert_name(v: &mut Vec<String>, x: &str)
    requires
        distinct_names(old(v)@),
    ensures
        distinct_names(final(v)@),
        name_set(final(v)@) == name_set(old(v)@).insert(x@),
{
    let ghost s = v@;
    let target = chars_of(x);
    let mut k: usize = 0;
    while k < v.len()
        invariant
            v@ == s,
            distinct_names(s),
            target@ == x@,
            k <= v@.len(),
            forall|q: int| 0 <= q < k ==> (#[trigger] v@[q])@ != x@,
        decreases v@.len() - k,
    {
        if chars_eq(&chars_of(v[k].as_str()), &target) {
            proof {
                assert(name_set(s).contains(x@));
                assert(name_set(s).insert(x@) =~= name_set(s));
            }
            return;
        }
        k = k + 1;
    }
    v.push(owned(x));
    proof {
        assert forall|p: int, q: int| 0 <= p < q < v@.len() implies v@[p]@ != v@[q]@ by {
            assert(v@[p] == s[p]);
            if q < s.len() { assert(v@[q] == s[q]); }
        }
        assert(name_set(v@) =~= name_set(s).insert(x@)) by {
            assert forall|n: Seq<char>| name_set(s).insert(x@).contains(n) implies name_set(v@).contains(n) by {
                if n == x@ {
                    assert(v@[s.len() as int]@ == n);
                } else {
                    let j = choose|j: int| 0 <= j < s.len() && #[trigger] s[j]@ == n;
                    assert(v@[j] == s[j]);
                }
            }
            assert forall|n: Seq<char>| name_set(v@).contains(n) implies name_set(s).insert(x@).contains(n) by {
                let j = choose|j: int| 0 <= j < v@.len() && #[trigger] v@[j]@ == n;
                if j < s.len() { assert(v@[j] == s[j]); }
            }
        }
    }
}

/// Removes `x` from a list of distinct names; tells whether it was there.
fn remove_name(v: &mut Vec<String>, x: &str) -> (b: bool)
    requires
        distinct_names(old(v)@),
    ensures
        distinct_names(final(v)@),
        name_set(final(v)@) == name_set(old(v)@).remove(x@),
        b == name_set(old(v)@).contains(x@),
{
    let ghost s = v@;
    let target = chars_of(x);
    let mut k: usize = 0;
    while k < v.len()
        invariant
            v@ == s,
            distinct_names(s),
            old(v)@ == s,
            target@ == x@,
            k <= v@.len(),
            forall|q: int| 0 <= q < k ==> (#[trigger] v@[q])@ != x@,
        decreases v@.len() - k,
    {
        if chars_eq(&chars_of(v[k].as_str()), &target) {
            assert(s[k as int]@ == x@);
            v.remove(k);
            proof {
                let t = v@;
                assert(t =~= s.remove(k as int));
                assert(forall|j: int| 0 <= j < k ==> t[j] == s[j]);
                assert(forall|j: int| k <= j < t.len() ==> t[j] == s[j + 1]);
                assert forall|p: int, q: int| 0 <= p < q < t.len() implies t[p]@ != t[q]@ by {
                    if p < k { assert(t[p] == s[p]); } else { assert(t[p] == s[p + 1]); }
                    if q < k { assert(t[q] == s[q]); } else { assert(t[q] == s[q + 1]); }
                }
                assert(name_set(s).contains(x@));
                assert(name_set(t) =~= name_set(s).remove(x@)) by {
                    assert forall|n: Seq<char>| name_set(s).remove(x@).contains(n) implies name_set(t).contains(n) by {
                        let j = choose|j: int| 0 <= j < s.len() && #[trigger] s[j]@ == n;
                        assert(j != k);
                        if j < k { assert(t[j] == s[j]); } else { assert(t[j - 1] == s[j]); }
                    }
                    assert forall|n: Seq<char>| name_set(t).contains(n) implies name_set(s).remove(x@).contains(n) by {
                        let j = choose|j: int| 0 <= j < t.len() && #[trigger] t[j]@ == n;
                        if j < k { assert(t[j] == s[j]); } else {
                            assert(t[j] == s[j + 1]);
                            assert(s[k as int]@ == x@);
                        }
                    }
                }
            }
            return true;
        }
        k = k + 1;
    }
    proof {
        assert(!name_set(s).contains(x@)) by {
            if name_set(s).contains(x@) {
                let j = choose|j: int| 0 <= j < s.len() && #[trigger] s[j]@ == x@;
                assert(s[j]@ != x@);
            }
        }
        assert(name_set(s).remove(x@) =~= name_set(s));
    }
    false
}

/// The windows of `ws` not at `addr`, in order.
pub open spec fn windows_except(ws: Seq<WindowState>, addr: Seq<char>) -> Seq<WindowState> {
    ws.filter(|w: WindowState| w.address@ != addr)
}

/// Drops every window at `addr`.
fn retain_other_windows(ws: &mut Vec<WindowState>, addr: &str)
    ensures
        final(ws)@ == windows_except(old(ws)@, addr@),
{
    let ghost s = ws@;
    let target = chars_of(addr);
    let n = ws.len();
    let mut j: usize = 0;
    let mut k: usize = 0;
    while j < n
        invariant
            n == s.len(),
            target@ == addr@,
            j <= s.len(),
            k as int == windows_except(s.take(j as int), addr@).len(),
            ws@ == windows_except(s.take(j as int), addr@) + s.skip(j as int),
        decreases s.len() - j,
    {
        let ghost f = windows_except(s.take(j as int), addr@);
        let ghost before = ws@;
        proof {
            reveal(Seq::filter);
            assert(s.take(j as int + 1).drop_last() =~= s.take(j as int));
            assert(s.take(j as int + 1).last() == s[j as int]);
            assert(before[k as int] == s[j as int]);
        }
        if chars_eq(&chars_of(ws[k].address.as_str()), &target) {
            ws.remove(k);
            proof {
                assert(windows_except(s.take(j as int + 1), addr@) == f);
                assert(ws@ =~= f + s.skip(j as int + 1));
            }
        } else {
            k = k + 1;
            proof {
                assert(windows_except(s.take(j as int + 1), addr@) == f.push(s[j as int]));
                assert(ws@ =~= f.push(s[j as int]) + s.skip(j as int + 1));
            }
        }
        j = j + 1;
    }
    assert(s.take(s.len() as int) =~= s);
    assert(ws@ =~= windows_except(s, addr@));
}


/// Number of visible windows in `ws`.
fn count_visible(ws: &Vec<WindowState>) -> (c: usize)
    ensures
        c == visible_count(ws@),
{
    let mut c: usize = 0;
    let mut k: usize = 0;
    while k < ws.len()
        invariant
            k <= ws@.len(),
            c == ws@.take(k as int).filter(|w: WindowState| w.is_visible).len(),
            c <= k,
        decreases ws@.len() - k,
    {
        proof {
            reveal(Seq::filter);
            assert(ws@.take(k as int + 1).drop_last() =~= ws@.take(k as int));
        }
        if ws[k].is_visible {
            c = c + 1;
        }
        k = k + 1;
    }
    assert(ws@.take(ws@.len() as int) =~= ws@);
    c
}


/// Whether `x` is among `v`.
fn has_name(v: &Vec<String>, x: &str) -> (b: bool)
    ensures
        b == name_set(v@).contains(x@),
{
    let target = chars_of(x);
    let mut k: usize = 0;
    while k < v.len()
        invariant
            k <= v@.len(),
            target@ == x@,
            forall|q: int| 0 <= q < k ==> (#[trigger] v@[q])@ != x@,
        decreases v@.len() - k,
    {
        if chars_eq(&chars_of(v[k].as_str()), &target) {
            assert(v@[k as int]@ == x@);
            return true;
        }
        k = k + 1;
    }
    proof {
        if name_set(v@).contains(x@) {
            let q = choose|q: int| 0 <= q < v@.len() && #[trigger] v@[q]@ == x@;
            assert(v@[q]@ != x@);
        }
    }
    false
}

impl ScratchpadRegistry {
    /// Nothing recorded.
    pub fn new() -> (r: Self)
        ensures
            registry_wf(r),
            r.states@.len() == 0,
            r.window_to_scratchpad@.len() == 0,
            r.focused_window is None,
            r.previous_focused_window is None,
    {
        ScratchpadRegistry {
            states: Vec::new(),
            window_to_scratchpad: Vec::new(),
            focused_window: None,
            previous_focused_window: None,
        }
    }

    /// Makes sure `name` has a state (a fresh one if it had none); returns
    /// its index.
    fn ensure_state(&mut self, name: &str) -> (i: usize)
        requires
            registry_wf(*old(self)),
        ensures
            registry_wf(*final(self)),
            i < final(self).states@.len(),
            final(self).states@[i as int].0@ == name@,
            key_of(final(self).states@, name@) == Some(i as int),
            match state_of(*old(self), name@) {
                Some(s) => final(self).states@ == old(self).states@ && s == final(self).states@[i as int].1,
                None => is_fresh(final(self).states@[i as int].1)
                    && final(self).states@.len() == old(self).states@.len() + 1
                    && final(self).states@.drop_last() == old(self).states@,
            },
            forall|a: Seq<char>| a != name@ ==> #[trigger] state_of(*final(self), a) == state_of(*old(self), a),
            final(self).window_to_scratchpad == old(self).window_to_scratchpad,
            final(self).focused_window == old(self).focused_window,
            final(self).previous_focused_window == old(self).previous_focused_window,
    {
        match find_key(&self.states, name) {
            Some(i) => i,
            None => {
                let ghost s = self.states@;
                proof { lemma_key_of(s, name@); }
                set_entry(&mut self.states, name, ScratchpadState::new());
                let i = self.states.len() - 1;
                proof {
                    assert(self.states@[i as int] == self.states@.last());
                    lemma_unique_at(self.states@, self.states@[i as int].0@, i as int);
                    assert forall|j: int| 0 <= j < self.states@.len() implies distinct_names(#[trigger] self.states@[j].1.excluded_by@) by {
                        if j < i { assert(self.states@[j] == s[j]); }
                    }
                }
                i
            },
        }
    }

    /// Takes in where the compositor reports the windows (`placements`:
    /// address, then workspace name): each scratchpad's first window at an
    /// address it owns that is reported becomes visible exactly when it is
    /// not on a special workspace (see `seen_visible`). Nothing else changes.
    pub fn refresh_visibility(&mut self, placements: &Vec<(String, String)>)
        requires
            registry_wf(*old(self)),
        ensures
            registry_wf(*final(self)),
            final(self).window_to_scratchpad == old(self).window_to_scratchpad,
            final(self).focused_window == old(self).focused_window,
            final(self).previous_focused_window == old(self).previous_focused_window,
            final(self).states@.len() == old(self).states@.len(),
            forall|j: int| 0 <= j < old(self).states@.len() ==> {
                let (a, s) = #[trigger] old(self).states@[j];
                let (b, t) = final(self).states@[j];
                &&& a == b
                &&& t.is_spawned == s.is_spawned && t.is_attached == s.is_attached && t.excluded_by == s.excluded_by
                &&& t.last_used == s.last_used && t.cached_position == s.cached_position
                &&& t.windows@.len() == s.windows@.len()
                &&& forall|k: int| 0 <= k < s.windows@.len() ==> same_but_visibility(s.windows@[k], #[trigger] t.windows@[k])
                    && t.windows@[k].is_visible == seen_visible(old(self).window_to_scratchpad@, placements@, a@, s.windows@, k)
            },
    {
        let ghost r0 = *self;
        let mut j: usize = 0;
        while j < self.states.len()
            invariant
                self.window_to_scratchpad == r0.window_to_scratchpad,
                self.focused_window == r0.focused_window,
                self.previous_focused_window == r0.previous_focused_window,
                self.states@.len() == r0.states@.len(),
                j <= r0.states@.len(),
                forall|q: int| 0 <= q < r0.states@.len() ==> {
                    let (a, s) = r0.states@[q];
                    let (b, t) = #[trigger] self.states@[q];
                    &&& a == b
                    &&& t.is_spawned == s.is_spawned && t.is_attached == s.is_attached && t.excluded_by == s.excluded_by
                    &&& t.last_used == s.last_used && t.cached_position == s.cached_position
                    &&& t.windows@.len() == s.windows@.len()
                },
                forall|q: int| 0 <= q < j ==> {
                    let (a, s) = r0.states@[q];
                    let (b, t) = #[trigger] self.states@[q];
                    forall|k: int| 0 <= k < s.windows@.len() ==> same_but_visibility(s.windows@[k], #[trigger] t.windows@[k])
                        && t.windows@[k].is_visible == seen_visible(r0.window_to_scratchpad@, placements@, a@, s.windows@, k)
                },
                forall|q: int| j <= q < r0.states@.len() ==> #[trigger] self.states@[q] == r0.states@[q],
            decreases r0.states@.len() - j,
        {
            let name = copy_string(&self.states[j].0);
            refresh_windows(&mut self.states[j].1.windows, name.as_str(), &self.window_to_scratchpad, placements);
            j = j + 1;
        }
        proof {
            assert forall|a: int, b: int| 0 <= a < b < self.states@.len() implies self.states@[a].0@ != self.states@[b].0@ by {
                assert(self.states@[a].0 == r0.states@[a].0);
                assert(self.states@[b].0 == r0.states@[b].0);
            }
            assert forall|i: int| 0 <= i < self.states@.len() implies distinct_names(#[trigger] self.states@[i].1.excluded_by@) by {
                assert(self.states@[i].1.excluded_by == r0.states@[i].1.excluded_by);
            }
        }
    }

    /// Whether scratchpad `name` has a visible window.
    pub fn is_scratchpad_visible(&self, name: &str) -> (b: bool)
        ensures
            b == visible(*self, name@),
    {
        match find_key(&self.states, name) {
            None => false,
            Some(i) => {
                let st = &self.states[i].1;
                let mut k: usize = 0;
                while k < st.windows.len()
                    invariant
                        i < self.states@.len(),
                        *st == self.states@[i as int].1,
                        key_of(self.states@, name@) == Some(i as int),
                        k <= st.windows@.len(),
                        forall|q: int| 0 <= q < k ==> !(#[trigger] st.windows@[q]).is_visible,
                    decreases st.windows@.len() - k,
                {
                    if st.windows[k].is_visible {
                        proof {
                            assert(self.states@[i as int].1 == *st);
                            assert(st.windows@[k as int].is_visible);
                            assert(any_visible(*st));
                        }
                        return true;
                    }
                    k = k + 1;
                }
                false
            },
        }
    }

    /// The scratchpad that owns window `addr`, if any.
    pub fn scratchpad_of_window(&self, addr: &str) -> (r: Option<String>)
        ensures
            opt_chars(r) == owner(*self, addr@),
    {
        match find_key(&self.window_to_scratchpad, addr) {
            Some(i) => Some(copy_string(&self.window_to_scratchpad[i].1)),
            None => None,
        }
    }

    /// Records that window `window_address` of `scratchpad_name` is shown now:
    /// the scratchpad gets a state if it had none, the window is added to it if
    /// new, marked visible, and owned by the scratchpad.
    pub fn mark_window_visible(&mut self, scratchpad_name: &str, window_address: &str)
        requires
            registry_wf(*old(self)),
        ensures
            registry_wf(*final(self)),
            visible(*final(self), scratchpad_name@),
            owner(*final(self), window_address@) == Some(scratchpad_name@),
            state_of(*final(self), scratchpad_name@) matches Some(st)
                && (exists|w: int| 0 <= w < st.windows@.len() && #[trigger] st.windows@[w].address@ == window_address@
                    && st.windows@[w].is_visible),
            state_of(*final(self), scratchpad_name@) matches Some(t)
                && shown_from(state_of(*old(self), scratchpad_name@), t, window_address@),
            forall|a: Seq<char>| a != window_address@ ==> #[trigger] owner(*final(self), a) == owner(*old(self), a),
            forall|n: Seq<char>| n != scratchpad_name@ ==> #[trigger] state_of(*final(self), n) == state_of(*old(self), n),
            excluders(*final(self), scratchpad_name@) == excluders(*old(self), scratchpad_name@),
            final(self).focused_window == old(self).focused_window,
            final(self).previous_focused_window == old(self).previous_focused_window,
    {
        let ghost r0 = *self;
        let i = self.ensure_state(scratchpad_name);
        let ghost mid = self.states@;
        let ghost r1 = *self;
        let ghost s_mid = mid[i as int].1;
        self.states[i].1.last_used = Some(now());
        let found = window_position(&self.states[i].1.windows, window_address);
        match found {
            Some(k) => {
                self.states[i].1.windows[k].is_visible = true;
                self.states[i].1.windows[k].last_focus = Some(now());
            },
            None => {
                self.states[i].1.windows.push(WindowState {
                    address: owned(window_address),
                    is_visible: true,
                    last_position: None,
                    monitor: None,
                    workspace: None,
                    last_focus: Some(now()),
                });
            },
        }
        proof {
            lemma_update_value(mid, i as int, self.states@);
            let st = self.states@[i as int].1;
            let w: int = match found { Some(k) => k as int, None => st.windows@.len() - 1 };
            assert(st.windows@[w].is_visible);
            assert(st.windows@[w].address@ == window_address@);
            match found {
                Some(k) => {
                    assert(has_window(s_mid, window_address@));
                    assert(first_changed(s_mid.windows@, st.windows@, window_address@, k as int));
                    assert(shown_again(s_mid.windows@[k as int], st.windows@[k as int]));
                },
                None => {
                    if has_window(s_mid, window_address@) {
                        let q = choose|q: int| 0 <= q < s_mid.windows@.len() && #[trigger] s_mid.windows@[q].address@ == window_address@;
                        assert(s_mid.windows@[q].address@ != window_address@);
                    }
                    assert(st.windows@.drop_last() =~= s_mid.windows@);
                },
            }
            assert(window_shown(s_mid, st, window_address@));
            assert forall|j: int| 0 <= j < self.states@.len() implies distinct_names(#[trigger] self.states@[j].1.excluded_by@) by {
                assert(distinct_names(mid[j].1.excluded_by@));
                if j != i { assert(self.states@[j] == mid[j]); }
            }
            assert forall|n: Seq<char>| n != scratchpad_name@ implies #[trigger] state_of(*self, n) == state_of(r0, n) by {
                assert(state_of(r1, n) == state_of(r0, n));
            }
        }
        let ghost r2 = *self;
        set_entry(&mut self.window_to_scratchpad, window_address, owned(scratchpad_name));
        proof {
            assert(self.states == r2.states);
            assert forall|n: Seq<char>| n != scratchpad_name@ implies #[trigger] state_of(*self, n) == state_of(r0, n) by {
                assert(state_of(r2, n) == state_of(r0, n));
            }
        }
    }

    /// Gives every scratchpad of `names` a state, fresh when it had none;
    /// states already held are kept.
    pub fn register_scratchpads(&mut self, names: &Vec<String>)
        requires
            registry_wf(*old(self)),
        ensures
            registry_wf(*final(self)),
            forall|k: int| 0 <= k < names@.len() ==> (#[trigger] state_of(*final(self), names@[k]@)) is Some,
            forall|n: Seq<char>| #[trigger] state_of(*old(self), n) matches Some(s) ==> state_of(*final(self), n) == Some(s),
            forall|n: Seq<char>| #[trigger] state_of(*old(self), n) is None ==> match state_of(*final(self), n) {
                Some(t) => is_fresh(t) && exists|k: int| 0 <= k < names@.len() && names@[k]@ == n,
                None => true,
            },
            final(self).window_to_scratchpad == old(self).window_to_scratchpad,
            final(self).focused_window == old(self).focused_window,
            final(self).previous_focused_window == old(self).previous_focused_window,
    {
        let ghost r0 = *self;
        let mut k: usize = 0;
        while k < names.len()
            invariant
                k <= names@.len(),
                registry_wf(*self),
                forall|j: int| 0 <= j < k ==> (#[trigger] state_of(*self, names@[j]@)) is Some,
                forall|n: Seq<char>| #[trigger] state_of(r0, n) matches Some(s) ==> state_of(*self, n) == Some(s),
                forall|n: Seq<char>| #[trigger] state_of(r0, n) is None ==> match state_of(*self, n) {
                    Some(t) => is_fresh(t) && exists|j: int| 0 <= j < k && names@[j]@ == n,
                    None => true,
                },
                self.window_to_scratchpad == r0.window_to_scratchpad,
                self.focused_window == r0.focused_window,
                self.previous_focused_window == r0.previous_focused_window,
            decreases names@.len() - k,
        {
            let ghost before = *self;
            let _ = self.ensure_state(names[k].as_str());
            proof {
                assert forall|j: int| 0 <= j <= k implies (#[trigger] state_of(*self, names@[j]@)) is Some by {
                    if names@[j]@ != names@[k as int]@ {
                        assert(state_of(*self, names@[j]@) == state_of(before, names@[j]@));
                    }
                }
                assert forall|n: Seq<char>| #[trigger] state_of(r0, n) is None implies match state_of(*self, n) {
                    Some(t) => is_fresh(t) && exists|j: int| 0 <= j < k + 1 && names@[j]@ == n,
                    None => true,
                } by {
                    if n != names@[k as int]@ {
                        assert(state_of(*self, n) == state_of(before, n));
                    } else {
                        assert(names@[k as int]@ == n);
                    }
                }
            }
            k = k + 1;
        }
    }

    /// Records that scratchpad `scratchpad_name` spawned the window at
    /// `window_address`, which is now shown: the scratchpad counts as
    /// spawned, owns the window, and lists it as a new window (see
    /// `spawn_recorded`).
    pub fn record_spawn(&mut self, scratchpad_name: &str, window_address: &str)
        requires
            registry_wf(*old(self)),
        ensures
            registry_wf(*final(self)),
            visible(*final(self), scratchpad_name@),
            owner(*final(self), window_address@) == Some(scratchpad_name@),
            state_of(*final(self), scratchpad_name@) matches Some(t)
                && spawn_recorded(state_of(*old(self), scratchpad_name@), t, window_address@),
            forall|a: Seq<char>| a != window_address@ ==> #[trigger] owner(*final(self), a) == owner(*old(self), a),
            forall|n: Seq<char>| n != scratchpad_name@ ==> #[trigger] state_of(*final(self), n) == state_of(*old(self), n),
            final(self).focused_window == old(self).focused_window,
            final(self).previous_focused_window == old(self).previous_focused_window,
    {
        let ghost r0 = *self;
        let i = self.ensure_state(scratchpad_name);
        let ghost mid = self.states@;
        let ghost r1 = *self;
        let ghost s_mid = mid[i as int].1;
        self.states[i].1.is_spawned = true;
        self.states[i].1.last_used = Some(now());
        self.states[i].1.windows.push(WindowState {
            address: owned(window_address),
            is_visible: true,
            last_position: None,
            monitor: None,
            workspace: None,
            last_focus: Some(now()),
        });
        proof {
            lemma_update_value(mid, i as int, self.states@);
            let st = self.states@[i as int].1;
            let w = st.windows@.len() - 1;
            assert(st.windows@[w].is_visible);
            assert(any_visible(st));
            assert(st.windows@.drop_last() =~= s_mid.windows@);
            assert forall|j: int| 0 <= j < self.states@.len() implies distinct_names(#[trigger] self.states@[j].1.excluded_by@) by {
                assert(distinct_names(mid[j].1.excluded_by@));
                if j != i { assert(self.states@[j] == mid[j]); }
            }
            assert forall|n: Seq<char>| n != scratchpad_name@ implies #[trigger] state_of(*self, n) == state_of(r0, n) by {
                assert(state_of(r1, n) == state_of(r0, n));
            }
        }
        let ghost r2 = *self;
        set_entry(&mut self.window_to_scratchpad, window_address, owned(scratchpad_name));
        proof {
            assert(self.states == r2.states);
            assert forall|n: Seq<char>| n != scratchpad_name@ implies #[trigger] state_of(*self, n) == state_of(r0, n) by {
                assert(state_of(r2, n) == state_of(r0, n));
            }
        }
    }

    /// Records that every window of `name` is hidden now and the scratchpad
    /// was used just now, each window otherwise kept; nothing happens if
    /// `name` has no state.
    pub fn mark_scratchpad_hidden(&mut self, name: &str)
        requires
            registry_wf(*old(self)),
        ensures
            registry_wf(*final(self)),
            !visible(*final(self), name@),
            state_of(*old(self), name@) is None ==> *final(self) == *old(self),
            state_of(*old(self), name@) matches Some(s) ==> state_of(*final(self), name@) matches Some(t)
                && t.windows@.len() == s.windows@.len()
                && (forall|k: int| 0 <= k < s.windows@.len() ==> same_but_visibility(s.windows@[k], #[trigger] t.windows@[k]))
                && t.excluded_by == s.excluded_by && t.is_spawned == s.is_spawned && t.is_attached == s.is_attached
                && t.cached_position == s.cached_position && t.last_used is Some,
            forall|n: Seq<char>| n != name@ ==> #[trigger] state_of(*final(self), n) == state_of(*old(self), n),
            final(self).window_to_scratchpad == old(self).window_to_scratchpad,
            final(self).focused_window == old(self).focused_window,
            final(self).previous_focused_window == old(self).previous_focused_window,
    {
        match find_key(&self.states, name) {
            None => {},
            Some(i) => {
                let ghost s0 = self.states@;
                let ghost r0 = *self;
                let n = self.states[i].1.windows.len();
                let mut k: usize = 0;
                while k < n
                    invariant
                        i < s0.len(),
                        self.window_to_scratchpad == r0.window_to_scratchpad,
                        self.focused_window == r0.focused_window,
                        self.previous_focused_window == r0.previous_focused_window,
                        self.states@.len() == s0.len(),
                        n == s0[i as int].1.windows@.len(),
                        k <= n,
                        forall|j: int| 0 <= j < s0.len() && j != i ==> self.states@[j] == s0[j],
                        self.states@[i as int].0 == s0[i as int].0,
                        self.states@[i as int].1.excluded_by == s0[i as int].1.excluded_by,
                        self.states@[i as int].1.is_spawned == s0[i as int].1.is_spawned,
                        self.states@[i as int].1.is_attached == s0[i as int].1.is_attached,
                        self.states@[i as int].1.windows@.len() == n,
                        self.states@[i as int].1.cached_position == s0[i as int].1.cached_position,
                        forall|q: int| 0 <= q < n ==> same_but_visibility(s0[i as int].1.windows@[q], #[trigger] self.states@[i as int].1.windows@[q]),
                        forall|q: int| 0 <= q < k ==> !(#[trigger] self.states@[i as int].1.windows@[q]).is_visible,
                    decreases n - k,
                {
                    self.states[i].1.windows[k].is_visible = false;
                    k = k + 1;
                }
                self.states[i].1.last_used = Some(now());
                proof {
                    lemma_update_value(s0, i as int, self.states@);
                    assert forall|j: int| 0 <= j < self.states@.len() implies distinct_names(#[trigger] self.states@[j].1.excluded_by@) by {
                        assert(distinct_names(s0[j].1.excluded_by@));
                        if j != i { assert(self.states@[j] == s0[j]); }
                    }
                    let t = self.states@[i as int].1;
                    if any_visible(t) {
                        let q = choose|q: int| 0 <= q < t.windows@.len() && #[trigger] t.windows@[q].is_visible;
                        assert(!t.windows@[q].is_visible);
                    }
                }
            },
        }
    }

    /// Records that showing `excluded_by` hid `scratchpad_name`.
    pub fn mark_scratchpad_excluded_by(&mut self, scratchpad_name: &str, excluded_by: &str)
        requires
            registry_wf(*old(self)),
        ensures
            registry_wf(*final(self)),
            excluders(*final(self), scratchpad_name@) == excluders(*old(self), scratchpad_name@).insert(excluded_by@),
            state_of(*final(self), scratchpad_name@) matches Some(t) && match state_of(*old(self), scratchpad_name@) {
                Some(s) => t.windows == s.windows && t.is_spawned == s.is_spawned && t.is_attached == s.is_attached,
                None => t.windows@.len() == 0 && !t.is_spawned && t.is_attached,
            },
            forall|n: Seq<char>| n != scratchpad_name@ ==> #[trigger] state_of(*final(self), n) == state_of(*old(self), n),
            final(self).window_to_scratchpad == old(self).window_to_scratchpad,
            final(self).focused_window == old(self).focused_window,
            final(self).previous_focused_window == old(self).previous_focused_window,
    {
        let ghost r0 = *self;
        let i = self.ensure_state(scratchpad_name);
        let ghost mid = self.states@;
        let ghost r1 = *self;
        proof {
            assert(distinct_names(mid[i as int].1.excluded_by@));
            if state_of(r0, scratchpad_name@) is None {
                assert(name_set(mid[i as int].1.excluded_by@) =~= Set::<Seq<char>>::empty());
            }
        }
        insert_name(&mut self.states[i].1.excluded_by, excluded_by);
        proof {
            lemma_update_value(mid, i as int, self.states@);
            assert forall|j: int| 0 <= j < self.states@.len() implies distinct_names(#[trigger] self.states@[j].1.excluded_by@) by {
                assert(distinct_names(mid[j].1.excluded_by@));
                if j != i { assert(self.states@[j] == mid[j]); }
            }
            assert forall|n: Seq<char>| n != scratchpad_name@ implies #[trigger] state_of(*self, n) == state_of(r0, n) by {
                assert(state_of(r1, n) == state_of(r0, n));
            }
        }
    }

    /// Forgets that showing `excluding` hid the other scratchpads; returns the
    /// names of those it had hidden, in the order of the states.
    pub fn restore_excluded_scratchpads(&mut self, excluding: &str) -> (restored: Vec<String>)
        requires
            registry_wf(*old(self)),
        ensures
            registry_wf(*final(self)),
            excludes_restored(*old(self), *final(self), excluding@, name_set(restored@)),
            final(self).states@.len() == old(self).states@.len(),
            forall|j: int| 0 <= j < old(self).states@.len() ==> {
                let (a, s) = #[trigger] old(self).states@[j];
                let (b, t) = final(self).states@[j];
                a == b && t.windows == s.windows && t.is_spawned == s.is_spawned && t.is_attached == s.is_attached
            },
            final(self).window_to_scratchpad == old(self).window_to_scratchpad,
            final(self).focused_window == old(self).focused_window,
            final(self).previous_focused_window == old(self).previous_focused_window,
    {
        let ghost r0 = *self;
        let ghost s0 = self.states@;
        let mut restored: Vec<String> = Vec::new();
        let mut j: usize = 0;
        while j < self.states.len()
            invariant
                registry_wf(*self),
                unique_keys(s0),
                self.states@.len() == s0.len(),
                j <= s0.len(),
                self.window_to_scratchpad == r0.window_to_scratchpad,
                self.focused_window == r0.focused_window,
                self.previous_focused_window == r0.previous_focused_window,
                forall|q: int| 0 <= q < s0.len() ==> (#[trigger] self.states@[q]).0 == s0[q].0
                    && self.states@[q].1.windows == s0[q].1.windows
                    && self.states@[q].1.is_spawned == s0[q].1.is_spawned
                    && self.states@[q].1.is_attached == s0[q].1.is_attached,
                forall|q: int| 0 <= q < j ==> name_set((#[trigger] self.states@[q]).1.excluded_by@) == name_set(s0[q].1.excluded_by@).remove(excluding@),
                forall|q: int| j <= q < s0.len() ==> (#[trigger] self.states@[q]) == s0[q],
                forall|n: Seq<char>| #[trigger] name_set(restored@).contains(n) <==>
                    exists|q: int| 0 <= q < j && #[trigger] s0[q].0@ == n && name_set(s0[q].1.excluded_by@).contains(excluding@),
            decreases s0.len() - j,
        {
            let ghost before = self.states@;
            let ghost rest = restored@;
            assert(distinct_names(self.states@[j as int].1.excluded_by@));
            let hit = remove_name(&mut self.states[j].1.excluded_by, excluding);
            if hit {
                restored.push(copy_string(&self.states[j].0));
            }
            proof {
                assert forall|q: int| 0 <= q < before.len() && q != j implies self.states@[q] == before[q] by {}
                assert(unique_keys(self.states@)) by {
                    assert forall|p: int, q: int| 0 <= p < q < self.states@.len() implies self.states@[p].0@ != self.states@[q].0@ by {
                        assert(before[p].0 == self.states@[p].0);
                        assert(before[q].0 == self.states@[q].0);
                    }
                }
                assert forall|q: int| 0 <= q < self.states@.len() implies distinct_names(#[trigger] self.states@[q].1.excluded_by@) by {
                    assert(distinct_names(before[q].1.excluded_by@));
                }
                assert forall|n: Seq<char>| #[trigger] name_set(restored@).contains(n) <==>
                    exists|q: int| 0 <= q < j + 1 && #[trigger] s0[q].0@ == n && name_set(s0[q].1.excluded_by@).contains(excluding@) by {
                    if hit && n == s0[j as int].0@ {
                        assert(restored@[rest.len() as int]@ == n);
                    }
                    if name_set(restored@).contains(n) {
                        let p = choose|p: int| 0 <= p < restored@.len() && #[trigger] restored@[p]@ == n;
                        if p < rest.len() {
                            assert(restored@[p] == rest[p]);
                            assert(name_set(rest).contains(n));
                        }
                    }
                    if exists|q: int| 0 <= q < j + 1 && #[trigger] s0[q].0@ == n && name_set(s0[q].1.excluded_by@).contains(excluding@) {
                        let q = choose|q: int| 0 <= q < j + 1 && #[trigger] s0[q].0@ == n && name_set(s0[q].1.excluded_by@).contains(excluding@);
                        if q < j {
                            assert(name_set(rest).contains(n));
                            let p = choose|p: int| 0 <= p < rest.len() && #[trigger] rest[p]@ == n;
                            assert(restored@[p] == rest[p]);
                        }
                    }
                }
            }
            j = j + 1;
        }
        proof {
            assert forall|n: Seq<char>| #[trigger] excluders(*self, n) == excluders(r0, n).remove(excluding@) by {
                lemma_same_keys(self.states@, s0, n);
                lemma_key_of(s0, n);
                if let Some(q) = key_of(s0, n) {
                } else {
                    assert(Set::<Seq<char>>::empty().remove(excluding@) =~= Set::<Seq<char>>::empty());
                }
            }
            assert forall|n: Seq<char>| #[trigger] name_set(restored@).contains(n) <==> excluders(r0, n).contains(excluding@) by {
                lemma_key_of(s0, n);
                if let Some(q) = key_of(s0, n) {
                    if exists|p: int| 0 <= p < s0.len() && #[trigger] s0[p].0@ == n && name_set(s0[p].1.excluded_by@).contains(excluding@) {
                        let p = choose|p: int| 0 <= p < s0.len() && #[trigger] s0[p].0@ == n && name_set(s0[p].1.excluded_by@).contains(excluding@);
                        lemma_unique_at(s0, n, p);
                    }
                }
            }
        }
        restored
    }

    /// Forgets window `addr`: it has no owner any more, its scratchpad drops
    /// it and counts as not spawned once it has no window left, and it is no
    /// longer the focused window. Returns the scratchpad it belonged to.
    pub fn handle_window_closed(&mut self, addr: &str) -> (r: Option<String>)
        requires
            registry_wf(*old(self)),
        ensures
            registry_wf(*final(self)),
            opt_chars(r) == owner(*old(self), addr@),
            owner(*final(self), addr@) is None,
            forall|a: Seq<char>| a != addr@ ==> #[trigger] owner(*final(self), a) == owner(*old(self), a),
            match owner(*old(self), addr@) {
                Some(n) => {
                    &&& forall|m: Seq<char>| m != n ==> #[trigger] state_of(*final(self), m) == state_of(*old(self), m)
                    &&& match state_of(*old(self), n) {
                        Some(s) => state_of(*final(self), n) matches Some(t)
                            && t.windows@ == windows_except(s.windows@, addr@)
                            && t.is_spawned == (s.is_spawned && t.windows@.len() > 0)
                            && t.excluded_by == s.excluded_by && t.is_attached == s.is_attached,
                        None => state_of(*final(self), n) is None,
                    }
                },
                None => final(self).states == old(self).states,
            },
            final(self).focused_window == (if opt_chars(old(self).focused_window) == Some(addr@) { None } else { old(self).focused_window }),
            final(self).previous_focused_window == old(self).previous_focused_window,
    {
        let removed = remove_entry(&mut self.window_to_scratchpad, addr);
        let result = match removed {
            Some(name) => {
                match find_key(&self.states, name.as_str()) {
                    Some(i) => {
                        let ghost mid = self.states@;
                        retain_other_windows(&mut self.states[i].1.windows, addr);
                        if self.states[i].1.windows.len() == 0 {
                            self.states[i].1.is_spawned = false;
                        }
                        proof {
                            lemma_update_value(mid, i as int, self.states@);
                            assert forall|j: int| 0 <= j < self.states@.len() implies distinct_names(#[trigger] self.states@[j].1.excluded_by@) by {
                                assert(distinct_names(mid[j].1.excluded_by@));
                                if j != i { assert(self.states@[j] == mid[j]); }
                            }
                        }
                    },
                    None => {},
                }
                Some(name)
            },
            None => None,
        };
        let clear = match &self.focused_window {
            Some(f) => chars_eq(&chars_of(f.as_str()), &chars_of(addr)),
            None => false,
        };
        if clear {
            self.focused_window = None;
        }
        result
    }

    /// Flips whether scratchpad `name` is attached to the scratchpad system and
    /// says so. A scratchpad without state gets a fresh one that starts
    /// detached. Without windows (`has_windows` false) nothing changes.
    pub fn toggle_attach(&mut self, name: &str, has_windows: bool) -> (msg: String)
        requires
            registry_wf(*old(self)),
        ensures
            registry_wf(*final(self)),
            !has_windows ==> *final(self) == *old(self) && msg@ == "No windows found for scratchpad '"@ + name@ + "'"@,
            has_windows ==> attach_toggled(*old(self), *final(self), name@),
            has_windows ==> msg@ == "Scratchpad '"@ + name@ + "' is now "@ + (
                if (state_of(*final(self), name@) matches Some(t) && t.is_attached) { "attached to scratchpad system"@ }
                else { "detached from scratchpad system"@ }),
            forall|n: Seq<char>| n != name@ ==> #[trigger] state_of(*final(self), n) == state_of(*old(self), n),
            final(self).window_to_scratchpad == old(self).window_to_scratchpad,
            final(self).focused_window == old(self).focused_window,
            final(self).previous_focused_window == old(self).previous_focused_window,
    {
        let mut msg = String::new();
        if !has_windows {
            append_str(&mut msg, "No windows found for scratchpad '");
            append_str(&mut msg, name);
            append_str(&mut msg, "'");
            return msg;
        }
        let ghost r0 = *self;
        let i = self.ensure_state(name);
        let ghost mid = self.states@;
        let ghost r1 = *self;
        self.states[i].1.is_attached = !self.states[i].1.is_attached;
        let attached = self.states[i].1.is_attached;
        proof {
            lemma_update_value(mid, i as int, self.states@);
            assert forall|j: int| 0 <= j < self.states@.len() implies distinct_names(#[trigger] self.states@[j].1.excluded_by@) by {
                assert(distinct_names(mid[j].1.excluded_by@));
                if j != i { assert(self.states@[j] == mid[j]); }
            }
            assert forall|n: Seq<char>| n != name@ implies #[trigger] state_of(*self, n) == state_of(r0, n) by {
                assert(state_of(r1, n) == state_of(r0, n));
            }
        }
        append_str(&mut msg, "Scratchpad '");
        append_str(&mut msg, name);
        append_str(&mut msg, "' is now ");
        if attached {
            append_str(&mut msg, "attached to scratchpad system");
        } else {
            append_str(&mut msg, "detached from scratchpad system");
        }
        msg
    }


    /// Focus moved to window `addr`: remembers it, remembers the window that
    /// lost focus when it is not a scratchpad's, and decides which scratchpad
    /// starts hiding (see `unfocus_hide`) and whose pending hide stops (the
    /// owner of `addr`). The owner, when it has a state, was used just now and
    /// its window at `addr` was focused just now (see `focus_touched`).
    pub fn handle_focus_changed(&mut self, addr: &str, configs: &Vec<(String, ValidatedConfig)>) -> (a: FocusActions)
        requires
            registry_wf(*old(self)),
        ensures
            registry_wf(*final(self)),
            match (a.to_hide, unfocus_hide(*old(self), configs@, addr@)) {
                (Some((n, d)), Some((m, e))) => n@ == m && d == e,
                (None, None) => true,
                _ => false,
            },
            opt_chars(a.cancel) == owner(*old(self), addr@),
            opt_chars(final(self).focused_window) == Some(addr@),
            opt_chars(final(self).previous_focused_window) == (match old(self).focused_window {
                Some(p) => if p@ != addr@ && owner(*old(self), p@) is None { Some(p@) } else { opt_chars(old(self).previous_focused_window) },
                None => opt_chars(old(self).previous_focused_window),
            }),
            match owner(*old(self), addr@) {
                Some(n) => match state_of(*old(self), n) {
                    Some(s) => state_of(*final(self), n) matches Some(t) && focus_touched(s, t, addr@),
                    None => final(self).states == old(self).states,
                },
                None => final(self).states == old(self).states,
            },
            forall|m: Seq<char>| owner(*old(self), addr@) != Some(m) ==> #[trigger] state_of(*final(self), m) == state_of(*old(self), m),
            final(self).window_to_scratchpad == old(self).window_to_scratchpad,
    {
        let mut to_hide: Option<(String, i64)> = None;
        let target = chars_of(addr);
        match &self.focused_window {
            Some(p) => {
                if !chars_eq(&chars_of(p.as_str()), &target) {
                    match find_key(&self.window_to_scratchpad, p.as_str()) {
                        Some(w) => {
                            let n = &self.window_to_scratchpad[w].1;
                            match find_key(configs, n.as_str()) {
                                Some(c) => {
                                    let cfg = &configs[c].1;
                                    let hides = match &cfg.unfocus {
                                        Some(u) => chars_eq(&chars_of(u.as_str()), &chars_of("hide")),
                                        None => false,
                                    };
                                    if hides {
                                        let d: i64 = match cfg.hysteresis_ms {
                                            Some(h) => h,
                                            None => 400,
                                        };
                                        to_hide = Some((copy_string(n), d));
                                    }
                                },
                                None => {},
                            }
                        },
                        None => {
                            self.previous_focused_window = Some(copy_string(p));
                        },
                    }
                }
            },
            None => {},
        }
        self.focused_window = Some(owned(addr));
        let cancel = match find_key(&self.window_to_scratchpad, addr) {
            Some(w) => Some(copy_string(&self.window_to_scratchpad[w].1)),
            None => None,
        };
        match &cancel {
            Some(n) => self.touch_focused(n.as_str(), addr),
            None => {},
        }
        FocusActions { to_hide, cancel }
    }

    /// Focus moved to window `addr` of scratchpad `name`: when `name` has a
    /// state, it was used just now and its first window at `addr`, if any,
    /// was focused just now.
    fn touch_focused(&mut self, name: &str, addr: &str)
        requires
            registry_wf(*old(self)),
        ensures
            registry_wf(*final(self)),
            match state_of(*old(self), name@) {
                Some(s) => state_of(*final(self), name@) matches Some(t) && focus_touched(s, t, addr@),
                None => final(self).states == old(self).states,
            },
            forall|m: Seq<char>| m != name@ ==> #[trigger] state_of(*final(self), m) == state_of(*old(self), m),
            final(self).window_to_scratchpad == old(self).window_to_scratchpad,
            final(self).focused_window == old(self).focused_window,
            final(self).previous_focused_window == old(self).previous_focused_window,
    {
        match find_key(&self.states, name) {
            None => {},
            Some(i) => {
                let ghost s0 = self.states@;
                let ghost sv = s0[i as int].1;
                self.states[i].1.last_used = Some(now());
                let found = window_position(&self.states[i].1.windows, addr);
                match found {
                    Some(k) => {
                        self.states[i].1.windows[k].last_focus = Some(now());
                    },
                    None => {},
                }
                proof {
                    lemma_update_value(s0, i as int, self.states@);
                    let t = self.states@[i as int].1;
                    match found {
                        Some(k) => {
                            assert(has_window(sv, addr@));
                            assert(first_changed(sv.windows@, t.windows@, addr@, k as int));
                            assert(refocused(sv.windows@[k as int], t.windows@[k as int]));
                        },
                        None => {
                            if has_window(sv, addr@) {
                                let q = choose|q: int| 0 <= q < sv.windows@.len() && #[trigger] sv.windows@[q].address@ == addr@;
                                assert(sv.windows@[q].address@ != addr@);
                            }
                        },
                    }
                    assert(focus_touched(sv, t, addr@));
                    assert forall|j: int| 0 <= j < self.states@.len() implies distinct_names(#[trigger] self.states@[j].1.excluded_by@) by {
                        assert(distinct_names(s0[j].1.excluded_by@));
                        if j != i { assert(self.states@[j] == s0[j]); }
                    }
                }
            },
        }
    }

    /// A window of class `class` opened at `addr`. The first scratchpad
    /// configured with that class takes it: it owns the window, and the window
    /// is added to its state, visible, with the scratchpad counted as spawned,
    /// unless the state already had it. Returns that scratchpad.
    pub fn register_opened_window(&mut self, addr: &str, class: &str, configs: &Vec<(String, ScratchpadConfig)>) -> (r: Option<String>)
        requires
            registry_wf(*old(self)),
        ensures
            registry_wf(*final(self)),
            match r {
                Some(n) => exists|j: int| #[trigger] class_match(configs@, class@, j) && configs@[j].0@ == n@,
                None => forall|j: int| 0 <= j < configs@.len() ==> opt_chars((#[trigger] configs@[j]).1.class) != Some(class@),
            },
            r is None ==> *final(self) == *old(self),
            r matches Some(n) ==> took_window(*old(self), *final(self), n@, addr@),
            final(self).focused_window == old(self).focused_window,
            final(self).previous_focused_window == old(self).previous_focused_window,
    {
        let target = chars_of(class);
        let mut j: usize = 0;
        let mut found = false;
        while !found && j < configs.len()
            invariant
                j <= configs@.len(),
                target@ == class@,
                found ==> j < configs@.len() && opt_chars(configs@[j as int].1.class) == Some(class@),
                forall|q: int| 0 <= q < j ==> opt_chars((#[trigger] configs@[q]).1.class) != Some(class@),
            decreases configs@.len() - j, (if found { 0int } else { 1int }),
        {
            let hit = match &configs[j].1.class {
                Some(c) => chars_eq(&chars_of(c.as_str()), &target),
                None => false,
            };
            if hit {
                found = true;
            } else {
                j = j + 1;
            }
        }
        if !found {
            return None;
        }
        proof { assert(class_match(configs@, class@, j as int)); }
        let name = copy_string(&configs[j].0);
        let ghost r0 = *self;
        set_entry(&mut self.window_to_scratchpad, addr, copy_string(&name));
        let ghost r1 = *self;
        let i = self.ensure_state(name.as_str());
        let ghost mid = self.states@;
        let ghost r2 = *self;
        proof {
            assert forall|m: Seq<char>| m != name@ implies #[trigger] state_of(r2, m) == state_of(r0, m) by {
                assert(state_of(r1, m) == state_of(r0, m));
            }
        }
        match window_position(&self.states[i].1.windows, addr) {
            Some(k) => {
                proof {
                    assert(mid[i as int].1.windows@[k as int].address@ == addr@);
                    assert(state_of(*self, name@) == Some(mid[i as int].1));
                    assert(has_window(mid[i as int].1, addr@));
                    assert(forall|m: Seq<char>| m != name@ ==> #[trigger] state_of(*self, m) == state_of(r0, m));
                }
            },
            None => {
                self.states[i].1.windows.push(WindowState {
                    address: owned(addr),
                    is_visible: true,
                    last_position: None,
                    monitor: None,
                    workspace: None,
                    last_focus: Some(now()),
                });
                self.states[i].1.is_spawned = true;
                proof {
                    lemma_update_value(mid, i as int, self.states@);
                    let t = self.states@[i as int].1;
                    assert(t.windows@.last().address@ == addr@);
                    assert(t.windows@[t.windows@.len() - 1].address@ == addr@);
                    assert(t.windows@.drop_last() =~= mid[i as int].1.windows@);
                    assert forall|q: int| 0 <= q < self.states@.len() implies distinct_names(#[trigger] self.states@[q].1.excluded_by@) by {
                        assert(distinct_names(mid[q].1.excluded_by@));
                        if q != i { assert(self.states@[q] == mid[q]); }
                    }
                    if state_of(r0, name@) is None {
                        assert(t.windows@ =~= seq![t.windows@[0]]);
                    }
                    assert(state_of(*self, name@) == Some(t));
                    assert(has_window(t, addr@));
                    assert forall|m: Seq<char>| m != name@ implies #[trigger] state_of(*self, m) == state_of(r0, m) by {
                        assert(value_of(self.states@, m) == value_of(mid, m));
                        assert(state_of(r2, m) == state_of(r0, m));
                    }
                    if let Some(s0) = state_of(r0, name@) {
                        assert(s0 == mid[i as int].1);
                        if has_window(s0, addr@) {
                            let q = choose|q: int| 0 <= q < s0.windows@.len() && #[trigger] s0.windows@[q].address@ == addr@;
                            assert(false);
                        }
                    }
                }
            },
        }
        proof {
            assert(owner(*self, addr@) == Some(name@));
            assert(forall|a: Seq<char>| a != addr@ ==> #[trigger] owner(*self, a) == owner(r0, a));
        }
        Some(name)
    }

    /// The answer to `list`: every configured scratchpad in `names` with its
    /// visible and total window counts, or whether it is hidden or not spawned.
    pub fn list_status(&self, names: &Vec<String>) -> (out: String)
        ensures
            out@ == "Scratchpads: "@ + join(strs(names@).map_values(|n: Seq<char>| status_line(*self, n)), ", "@),
    {
        let mut out = String::new();
        append_str(&mut out, "Scratchpads: ");
        let ghost head = out@;
        let ghost lines = strs(names@).map_values(|n: Seq<char>| status_line(*self, n));
        let mut j: usize = 0;
        while j < names.len()
            invariant
                j <= names@.len(),
                lines == strs(names@).map_values(|n: Seq<char>| status_line(*self, n)),
                lines.len() == names@.len(),
                out@ == head + join(lines.take(j as int), ", "@),
            decreases names@.len() - j,
        {
            let ghost before = out@;
            if j > 0 {
                append_str(&mut out, ", ");
            }
            self.append_status(&mut out, names[j].as_str());
            proof {
                let t = lines.take(j as int + 1);
                assert(t.drop_last() =~= lines.take(j as int));
                assert(t.last() == status_line(*self, names@[j as int]@));
                if j == 0 {
                    assert(t =~= seq![t[0]]);
                }
                assert(out@ =~= head + join(t, ", "@));
            }
            j = j + 1;
        }
        proof { assert(lines.take(names@.len() as int) =~= lines); }
        out
    }

    fn append_status(&self, out: &mut String, n: &str)
        ensures
            final(out)@ == old(out)@ + status_line(*self, n@),
    {
        let (vis, total, spawned) = match find_key(&self.states, n) {
            Some(i) => {
                let st = &self.states[i].1;
                (count_visible(&st.windows), st.windows.len(), st.is_spawned)
            },
            None => (0, 0, false),
        };
        append_str(out, n);
        if vis > 0 {
            append_str(out, " (visible: ");
            append_nat(out, vis as u64);
            append_str(out, "/");
            append_nat(out, total as u64);
            append_str(out, ")");
        } else if spawned {
            append_str(out, " (hidden: ");
            append_nat(out, total as u64);
            append_str(out, ")");
        } else {
            append_str(out, " (not spawned)");
        }
    }


    /// Showing `name` hides the scratchpads its `excludes` patterns name (see
    /// `excluded_by_showing`); each of them records that `name` hid it.
    pub fn handle_excludes(&mut self, name: &str, excludes: &Vec<String>, names: &Vec<String>)
        requires
            registry_wf(*old(self)),
        ensures
            registry_wf(*final(self)),
            excludes_applied(*old(self), *final(self), name@, name_set(names@), name_set(excludes@)),
            final(self).window_to_scratchpad == old(self).window_to_scratchpad,
            final(self).focused_window == old(self).focused_window,
            final(self).previous_focused_window == old(self).previous_focused_window,
    {
        let ghost r0 = *self;
        let star = chars_of("*");
        let me = chars_of(name);
        let mut j: usize = 0;
        while j < excludes.len()
            invariant
                registry_wf(*self),
                j <= excludes@.len(),
                star@ == "*"@,
                me@ == name@,
                self.window_to_scratchpad == r0.window_to_scratchpad,
                self.focused_window == r0.focused_window,
                self.previous_focused_window == r0.previous_focused_window,
                forall|n: Seq<char>| #[trigger] excluders(*self, n) == with_if(excluders(r0, n),
                    excluded_by_showing(name_set(names@), name_set(excludes@.take(j as int)), name@, n), name@),
            decreases excludes@.len() - j,
        {
            let ghost rj = *self;
            let pattern = chars_of(excludes[j].as_str());
            if chars_eq(&pattern, &star) {
                let mut k: usize = 0;
                while k < names.len()
                    invariant
                        registry_wf(*self),
                        j < excludes@.len(),
                        excludes@[j as int]@ == "*"@,
                        k <= names@.len(),
                        me@ == name@,
                        self.window_to_scratchpad == r0.window_to_scratchpad,
                        self.focused_window == r0.focused_window,
                        self.previous_focused_window == r0.previous_focused_window,
                        forall|n: Seq<char>| #[trigger] excluders(*self, n) == with_if(excluders(rj, n),
                            name_set(names@.take(k as int)).contains(n) && n != name@, name@),
                    decreases names@.len() - k,
                {
                    let ghost rk = *self;
                    let other = chars_of(names[k].as_str());
                    if !chars_eq(&other, &me) {
                        self.mark_scratchpad_excluded_by(names[k].as_str(), name);
                    }
                    proof {
                        assert forall|n: Seq<char>| #[trigger] excluders(*self, n) == with_if(excluders(rj, n),
                            name_set(names@.take(k as int + 1)).contains(n) && n != name@, name@) by {
                            assert(names@.take(k as int + 1)[k as int] == names@[k as int]);
                            if name_set(names@.take(k as int + 1)).contains(n) {
                                let q = choose|q: int| 0 <= q < k + 1 && #[trigger] names@.take(k as int + 1)[q]@ == n;
                                if q < k { assert(names@.take(k as int)[q] == names@[q]); }
                            }
                            if name_set(names@.take(k as int)).contains(n) {
                                let q = choose|q: int| 0 <= q < k && #[trigger] names@.take(k as int)[q]@ == n;
                                assert(names@.take(k as int + 1)[q] == names@[q]);
                            }
                            assert(excluders(rk, n) == with_if(excluders(rj, n), name_set(names@.take(k as int)).contains(n) && n != name@, name@));
                        }
                    }
                    k = k + 1;
                }
                proof { assert(names@.take(names@.len() as int) =~= names@); }
            } else if has_name(names, excludes[j].as_str()) {
                self.mark_scratchpad_excluded_by(excludes[j].as_str(), name);
            }
            proof {
                let e = excludes@[j as int]@;
                let before = name_set(excludes@.take(j as int));
                let after = name_set(excludes@.take(j as int + 1));
                assert(after =~= before.insert(e)) by {
                    assert(excludes@.take(j as int + 1)[j as int] == excludes@[j as int]);
                    assert forall|x: Seq<char>| after.contains(x) implies before.insert(e).contains(x) by {
                        let q = choose|q: int| 0 <= q < j + 1 && #[trigger] excludes@.take(j as int + 1)[q]@ == x;
                        if q < j { assert(excludes@.take(j as int)[q] == excludes@[q]); }
                    }
                    assert forall|x: Seq<char>| before.insert(e).contains(x) implies after.contains(x) by {
                        if x != e {
                            let q = choose|q: int| 0 <= q < j && #[trigger] excludes@.take(j as int)[q]@ == x;
                            assert(excludes@.take(j as int + 1)[q] == excludes@[q]);
                        }
                    }
                }
                assert forall|n: Seq<char>| #[trigger] excluders(*self, n) == with_if(excluders(r0, n),
                    excluded_by_showing(name_set(names@), after, name@, n), name@) by {
                    assert(excluders(rj, n) == with_if(excluders(r0, n),
                        excluded_by_showing(name_set(names@), before, name@, n), name@));
                    if e == "*"@ {
                        assert(names@.take(names@.len() as int) =~= names@);
                    }
                }
            }
            j = j + 1;
        }
        proof { assert(excludes@.take(excludes@.len() as int) =~= excludes@); }
    }

}


/// Showing a scratchpad and then restoring what it excluded hands back
/// exactly the scratchpads its showing hid, and leaves every exclusion as it
/// was before, when it hid none beforehand.
pub proof fn lemma_exclude_then_restore(r0: ScratchpadRegistry, r1: ScratchpadRegistry, r2: ScratchpadRegistry,
    name: Seq<char>, names: Set<Seq<char>>, excludes: Set<Seq<char>>, restored: Set<Seq<char>>)
    requires
        forall|n: Seq<char>| !#[trigger] excluders(r0, n).contains(name),
        excludes_applied(r0, r1, name, names, excludes),
        excludes_restored(r1, r2, name, restored),
    ensures
        forall|n: Seq<char>| #[trigger] excluders(r2, n) == excluders(r0, n),
        forall|n: Seq<char>| #[trigger] restored.contains(n) <==> excluded_by_showing(names, excludes, name, n),
{
    assert forall|n: Seq<char>| #[trigger] excluders(r2, n) == excluders(r0, n) by {
        assert(excluders(r1, n) == with_if(excluders(r0, n), excluded_by_showing(names, excludes, name, n), name));
        assert(excluders(r2, n) =~= excluders(r0, n));
    }
    assert forall|n: Seq<char>| #[trigger] restored.contains(n) <==> excluded_by_showing(names, excludes, name, n) by {
        assert(excluders(r1, n) == with_if(excluders(r0, n), excluded_by_showing(names, excludes, name, n), name));
        assert(!excluders(r0, n).contains(name));
    }
}

/// Attaching and detaching a scratchpad twice brings it back to where it
/// was; a scratchpad without state ends attached.
pub proof fn lemma_attach_twice(r0: ScratchpadRegistry, r1: ScratchpadRegistry, r2: ScratchpadRegistry, name: Seq<char>)
    requires
        attach_toggled(r0, r1, name),
        attach_toggled(r1, r2, name),
    ensures
        match state_of(r0, name) {
            Some(s) => state_of(r2, name) matches Some(u) && u.is_attached == s.is_attached && u.windows == s.windows
                && u.excluded_by == s.excluded_by && u.is_spawned == s.is_spawned,
            None => state_of(r2, name) matches Some(u) && u.is_attached,
        },
{
}

} // verus!
