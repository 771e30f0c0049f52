//! Monitor layout rules: reading placement rules, recognising monitors by
//! name, description, model or make, and where a monitor goes relative to
//! another.
use vstd::prelude::*;
use crate::scratchpad_geometry::in_i32;
use crate::text::{
    append_int, append_nat, append_str, chars_eq, chars_of, contains_chars, contains_seq, copy_string,
    div_toward_zero, int_text, join, lowercase, nat_digits, owned, strs, to_lowercase,
};

verus! {

/// Side of the target monitor that a monitor is placed on.
#[derive(Debug, Clone, Copy, PartialEq, Eq, Structural)]
pub enum PlacementDirection {
    Left,
    Right,
    Top,
    Bottom,
}

/// How a placed monitor lines up with its target along the other axis.
#[derive(Debug, Clone, Copy, PartialEq, Eq, Structural)]
pub enum PlacementAlignment {
    Start,
    Center,
    /// The same as `Center`.
    Middle,
    End,
}

/// A placement as configured.
#[derive(Debug, Clone)]
pub struct PlacementRule {
    pub target: String,
    pub direction: PlacementDirection,
    pub alignment: Option<PlacementAlignment>,
}

/// Targets by direction key (`leftOf`, `topCenterOf`, ...).
#[derive(Debug)]
pub struct DirectionTarget {
    pub left_of: Option<Vec<String>>,
    pub right_of: Option<Vec<String>>,
    pub top_of: Option<Vec<String>>,
    pub bottom_of: Option<Vec<String>>,
    pub left_center_of: Option<Vec<String>>,
    pub right_center_of: Option<Vec<String>>,
    pub top_center_of: Option<Vec<String>>,
    pub bottom_center_of: Option<Vec<String>>,
    pub left_end_of: Option<Vec<String>>,
    pub right_end_of: Option<Vec<String>>,
    pub top_end_of: Option<Vec<String>>,
    pub bottom_end_of: Option<Vec<String>>,
}

/// The forms a placement can take in the configuration.
#[derive(Debug)]
pub enum PlacementRuleConfig {
    /// Only a target: placed to its left.
    Simple(String),
    /// Targets by direction, with an alignment for all of them.
    Complex {
        direction_target: Box<DirectionTarget>,
        alignment: Option<PlacementAlignment>,
    },
    /// Direction keys, each with its targets, in order.
    PyprlandStyle(Vec<(String, Vec<String>)>),
}

/// A placement whose target monitor exists.
#[derive(Debug, Clone)]
pub struct ResolvedPlacementRule {
    pub source_monitor: String,
    pub target_monitor: String,
    pub direction: PlacementDirection,
    pub alignment: Option<PlacementAlignment>,
}

/// A connected monitor, as far as layout is concerned.
#[derive(Debug, Clone)]
pub struct MonitorInfo {
    pub id: i128,
    pub name: String,
    pub description: String,
    pub make: String,
    pub model: String,
    pub serial: String,
    pub active_workspace_id: i32,
    pub active_workspace_name: String,
    pub focused: bool,
    pub width: u16,
    pub height: u16,
    pub x: i32,
    pub y: i32,
    pub transform: u32,
    pub disabled: bool,
}

pub fn default_true() -> (b: bool)
    ensures
        b,
{
    true
}

/// Milliseconds to wait after a monitor appears before laying out.
pub fn default_monitor_delay() -> (n: u64)
    ensures
        n == 1000,
{
    1000
}

// ---------------------------------------------------------------------------
// Direction keys
// ---------------------------------------------------------------------------

/// The alignment a lowercase direction key names: `center` or `middle`
/// centre, `end` end, else none.
pub open spec fn key_alignment(k: Seq<char>) -> Option<PlacementAlignment> {
    if contains_seq(k, "center"@) || contains_seq(k, "middle"@) {
        Some(PlacementAlignment::Center)
    } else if contains_seq(k, "end"@) {
        Some(PlacementAlignment::End)
    } else {
        None
    }
}

/// The direction a lowercase direction key names; left when none does.
pub open spec fn key_direction(k: Seq<char>) -> PlacementDirection {
    if contains_seq(k, "left"@) {
        PlacementDirection::Left
    } else if contains_seq(k, "right"@) {
        PlacementDirection::Right
    } else if contains_seq(k, "top"@) {
        PlacementDirection::Top
    } else if contains_seq(k, "bottom"@) {
        PlacementDirection::Bottom
    } else {
        PlacementDirection::Left
    }
}

/// The alignment of a lowercase key as the complex form reads it: `center`
/// centre, `middle` middle, `end` end.
pub open spec fn extracted_alignment(k: Seq<char>) -> Option<PlacementAlignment> {
    if contains_seq(k, "center"@) {
        Some(PlacementAlignment::Center)
    } else if contains_seq(k, "middle"@) {
        Some(PlacementAlignment::Middle)
    } else if contains_seq(k, "end"@) {
        Some(PlacementAlignment::End)
    } else {
        None
    }
}

fn has(k: &Vec<char>, word: &str) -> (b: bool)
    ensures
        b == contains_seq(k@, word@),
{
    contains_chars(k, &chars_of(word))
}

/// Reads an already lowercased direction key (`leftof`, `topcenterof`).
pub fn direction_of_lowercase(key: &str) -> (r: (PlacementDirection, Option<PlacementAlignment>))
    ensures
        r == (key_direction(key@), key_alignment(key@)),
{
    let k = chars_of(key);
    let alignment = if has(&k, "center") || has(&k, "middle") {
        Some(PlacementAlignment::Center)
    } else if has(&k, "end") {
        Some(PlacementAlignment::End)
    } else {
        None
    };
    let direction = if has(&k, "left") {
        PlacementDirection::Left
    } else if has(&k, "right") {
        PlacementDirection::Right
    } else if has(&k, "top") {
        PlacementDirection::Top
    } else if has(&k, "bottom") {
        PlacementDirection::Bottom
    } else {
        PlacementDirection::Left
    };
    (direction, alignment)
}

/// Reads a direction key (`leftOf`, `topCenterOf`) in any letter case.
pub fn parse_direction_key(key: &str) -> (r: (PlacementDirection, Option<PlacementAlignment>))
    ensures
        r == (key_direction(lowercase(key@)), key_alignment(lowercase(key@))),
{
    let lower = to_lowercase(key);
    direction_of_lowercase(lower.as_str())
}

/// The alignment of an already lowercased key as the complex form reads it.
pub fn alignment_of_lowercase(key: &str) -> (r: Option<PlacementAlignment>)
    ensures
        r == extracted_alignment(key@),
{
    let k = chars_of(key);
    if has(&k, "center") {
        Some(PlacementAlignment::Center)
    } else if has(&k, "middle") {
        Some(PlacementAlignment::Middle)
    } else if has(&k, "end") {
        Some(PlacementAlignment::End)
    } else {
        None
    }
}

/// The alignment a key names in any letter case, as the complex form reads it.
pub fn extract_alignment_from_direction_key(key: &str) -> (r: Option<PlacementAlignment>)
    ensures
        r == extracted_alignment(lowercase(key@)),
{
    let lower = to_lowercase(key);
    alignment_of_lowercase(lower.as_str())
}

// ---------------------------------------------------------------------------
// Recognising monitors
// ---------------------------------------------------------------------------

/// Whether monitor `m`, known under `key`, answers to `name`: by its key, or
/// by a description that contains the name, or by model or make; ignoring
/// letter case when `ci`.
pub open spec fn answers_by_key(key: Seq<char>, name: Seq<char>, ci: bool) -> bool {
    if ci { lowercase(key) == lowercase(name) } else { key == name }
}

pub open spec fn answers_by_details(m: MonitorInfo, name: Seq<char>, ci: bool) -> bool {
    if ci {
        contains_seq(lowercase(m.description@), lowercase(name))
            || lowercase(m.model@) == lowercase(name)
            || lowercase(m.make@) == lowercase(name)
    } else {
        contains_seq(m.description@, name) || m.model@ == name || m.make@ == name
    }
}

/// Some monitor answers to `name`.
pub open spec fn exists_monitor(ms: Seq<(String, MonitorInfo)>, name: Seq<char>, ci: bool) -> bool {
    (exists|i: int| 0 <= i < ms.len() && answers_by_key((#[trigger] ms[i]).0@, name, ci))
    || (exists|i: int| 0 <= i < ms.len() && answers_by_details((#[trigger] ms[i]).1, name, ci))
}

fn eq_str(a: &str, b: &str) -> (r: bool)
    ensures
        r == (a@ == b@),
{
    chars_eq(&chars_of(a), &chars_of(b))
}

/// Whether `key` answers to `name` (see `answers_by_key`).
fn key_answers(key: &str, name: &str, ci: bool) -> (b: bool)
    ensures
        b == answers_by_key(key@, name@, ci),
{
    if ci {
        let a = to_lowercase(key);
        let b = to_lowercase(name);
        eq_str(a.as_str(), b.as_str())
    } else {
        eq_str(key, name)
    }
}

/// Whether a monitor's details answer to `name` (see `answers_by_details`).
fn details_answer(m: &MonitorInfo, name: &str, ci: bool) -> (b: bool)
    ensures
        b == answers_by_details(*m, name@, ci),
{
    if ci {
        let n = to_lowercase(name);
        let d = to_lowercase(m.description.as_str());
        let mo = to_lowercase(m.model.as_str());
        let ma = to_lowercase(m.make.as_str());
        contains_chars(&chars_of(d.as_str()), &chars_of(n.as_str()))
            || eq_str(mo.as_str(), n.as_str())
            || eq_str(ma.as_str(), n.as_str())
    } else {
        contains_chars(&chars_of(m.description.as_str()), &chars_of(name))
            || eq_str(m.model.as_str(), name)
            || eq_str(m.make.as_str(), name)
    }
}

/// Whether some monitor answers to `name`, by key or by its details.
pub fn monitor_exists(name: &str, monitors: &Vec<(String, MonitorInfo)>, case_insensitive: bool) -> (b: bool)
    ensures
        b == exists_monitor(monitors@, name@, case_insensitive),
{
    let mut i: usize = 0;
    while i < monitors.len()
        invariant
            i <= monitors@.len(),
            forall|j: int| 0 <= j < i ==> !answers_by_key((#[trigger] monitors@[j]).0@, name@, case_insensitive),
        decreases monitors@.len() - i,
    {
        if key_answers(monitors[i].0.as_str(), name, case_insensitive) {
            return true;
        }
        i = i + 1;
    }
    let mut i: usize = 0;
    while i < monitors.len()
        invariant
            i <= monitors@.len(),
            forall|j: int| 0 <= j < monitors@.len() ==> !answers_by_key((#[trigger] monitors@[j]).0@, name@, case_insensitive),
            forall|j: int| 0 <= j < i ==> !answers_by_details((#[trigger] monitors@[j]).1, name@, case_insensitive),
        decreases monitors@.len() - i,
    {
        if details_answer(&monitors[i].1, name, case_insensitive) {
            return true;
        }
        i = i + 1;
    }
    false
}

/// The first index satisfying `p` among `0..n`, if any.
pub open spec fn first_where(n: int, p: spec_fn(int) -> bool) -> Option<int> {
    if exists|i: int| 0 <= i < n && #[trigger] p(i) {
        Some(choose|i: int| 0 <= i < n && #[trigger] p(i) && forall|j: int| 0 <= j < i ==> !#[trigger] p(j))
    } else {
        None
    }
}

/// The monitor `find_monitor` picks for `name`: the first whose key is
/// exactly the name; else, ignoring case when `ci`, the first whose key
/// matches; else the first whose details match.
pub open spec fn found_monitor(ms: Seq<(String, MonitorInfo)>, name: Seq<char>, ci: bool) -> Option<int> {
    let exact = |i: int| ms[i].0@ == name;
    let by_key = |i: int| ci && lowercase(ms[i].0@) == lowercase(name);
    let by_details = |i: int| answers_by_details(ms[i].1, name, ci);
    match first_where(ms.len() as int, exact) {
        Some(i) => Some(i),
        None => match first_where(ms.len() as int, by_key) {
            Some(i) => Some(i),
            None => first_where(ms.len() as int, by_details),
        },
    }
}

proof fn lemma_first_where(n: int, p: spec_fn(int) -> bool, i: int)
    requires
        0 <= i < n,
        p(i),
        forall|j: int| 0 <= j < i ==> !#[trigger] p(j),
    ensures
        first_where(n, p) == Some(i),
{
    let k = choose|k: int| 0 <= k < n && #[trigger] p(k) && forall|j: int| 0 <= j < k ==> !#[trigger] p(j);
    if k < i {
        assert(!p(k));
    } else if k > i {
        assert(!p(i));
    }
}

/// Index of the monitor that answers to `name` (see `found_monitor`).
pub fn find_monitor(name: &str, monitors: &Vec<(String, MonitorInfo)>, case_insensitive: bool) -> (r: Option<usize>)
    ensures
        match r {
            Some(i) => found_monitor(monitors@, name@, case_insensitive) == Some(i as int) && i < monitors@.len(),
            None => found_monitor(monitors@, name@, case_insensitive) is None,
        },
{
    let ghost ms = monitors@;
    let ghost exact = |i: int| ms[i].0@ == name@;
    let ghost by_key = |i: int| case_insensitive && lowercase(ms[i].0@) == lowercase(name@);
    let ghost by_details = |i: int| answers_by_details(ms[i].1, name@, case_insensitive);
    let mut i: usize = 0;
    while i < monitors.len()
        invariant
            ms == monitors@,
            exact == (|i: int| ms[i].0@ == name@),
            i <= monitors@.len(),
            forall|j: int| 0 <= j < i ==> !#[trigger] exact(j),
        decreases monitors@.len() - i,
    {
        if eq_str(monitors[i].0.as_str(), name) {
            proof { lemma_first_where(ms.len() as int, exact, i as int); }
            return Some(i);
        }
        i = i + 1;
    }
    proof {
        if exists|k: int| 0 <= k < ms.len() && #[trigger] exact(k) {
            let k = choose|k: int| 0 <= k < ms.len() && #[trigger] exact(k);
            assert(!exact(k));
        }
        assert(first_where(ms.len() as int, exact) is None);
    }
    if case_insensitive {
        let lname = to_lowercase(name);
        let mut i: usize = 0;
        while i < monitors.len()
            invariant
                ms == monitors@,
                case_insensitive,
                exact == (|i: int| ms[i].0@ == name@),
                first_where(ms.len() as int, exact) is None,
                lname@ == lowercase(name@),
                by_key == (|i: int| case_insensitive && lowercase(ms[i].0@) == lowercase(name@)),
                i <= monitors@.len(),
                forall|j: int| 0 <= j < i ==> !#[trigger] by_key(j),
            decreases monitors@.len() - i,
        {
            let lk = to_lowercase(monitors[i].0.as_str());
            if eq_str(lk.as_str(), lname.as_str()) {
                proof { lemma_first_where(ms.len() as int, by_key, i as int); }
                return Some(i);
            }
            i = i + 1;
        }
    }
    proof {
        if exists|k: int| 0 <= k < ms.len() && #[trigger] by_key(k) {
            let k = choose|k: int| 0 <= k < ms.len() && #[trigger] by_key(k);
            assert(!by_key(k));
        }
        assert(first_where(ms.len() as int, by_key) is None);
    }
    let mut i: usize = 0;
    while i < monitors.len()
        invariant
            ms == monitors@,
            exact == (|i: int| ms[i].0@ == name@),
            first_where(ms.len() as int, exact) is None,
            by_key == (|i: int| case_insensitive && lowercase(ms[i].0@) == lowercase(name@)),
            first_where(ms.len() as int, by_key) is None,
            by_details == (|i: int| answers_by_details(ms[i].1, name@, case_insensitive)),
            i <= monitors@.len(),
            forall|j: int| 0 <= j < i ==> !#[trigger] by_details(j),
        decreases monitors@.len() - i,
    {
        if details_answer(&monitors[i].1, name, case_insensitive) {
            proof { lemma_first_where(ms.len() as int, by_details, i as int); }
            return Some(i);
        }
        i = i + 1;
    }
    proof {
        if exists|k: int| 0 <= k < ms.len() && #[trigger] by_details(k) {
            let k = choose|k: int| 0 <= k < ms.len() && #[trigger] by_details(k);
            assert(!by_details(k));
        }
    }
    None
}

// ---------------------------------------------------------------------------
// Positions
// ---------------------------------------------------------------------------

/// Where `source` goes for a rule: beside the target on the rule's side, at
/// the target's start edge, then moved along the other axis by the
/// alignment (centred, or flush with the far edge).
pub open spec fn placed_at(source: MonitorInfo, target: MonitorInfo, d: PlacementDirection, a: Option<PlacementAlignment>) -> (int, int) {
    let (x, y) = match d {
        PlacementDirection::Left => (target.x - source.width, target.y as int),
        PlacementDirection::Right => (target.x + target.width, target.y as int),
        PlacementDirection::Top => (target.x as int, target.y - source.height),
        PlacementDirection::Bottom => (target.x as int, target.y + target.height),
    };
    match a {
        Some(PlacementAlignment::Center) | Some(PlacementAlignment::Middle) => match d {
            PlacementDirection::Left | PlacementDirection::Right =>
                (x, target.y + div_toward_zero(target.height - source.height, 2)),
            _ => (target.x + div_toward_zero(target.width - source.width, 2), y),
        },
        Some(PlacementAlignment::End) => match d {
            PlacementDirection::Left | PlacementDirection::Right => (x, target.y + target.height - source.height),
            _ => (target.x + target.width - source.width, y),
        },
        _ => (x, y),
    }
}

/// `Center` and `Middle` place alike; `Start` places as no alignment does;
/// a centred placement puts the source midway along the target's side and
/// `End` aligns their far edges. The placement is computed for every pair of
/// monitors (see `position_exact`).
pub proof fn lemma_alignments(source: MonitorInfo, target: MonitorInfo, d: PlacementDirection)
    ensures
        placed_at(source, target, d, Some(PlacementAlignment::Center))
            == placed_at(source, target, d, Some(PlacementAlignment::Middle)),
        placed_at(source, target, d, Some(PlacementAlignment::Start)) == placed_at(source, target, d, None),
        (d is Left || d is Right) ==> {
            &&& placed_at(source, target, d, Some(PlacementAlignment::Center)).0 == placed_at(source, target, d, None).0
            &&& placed_at(source, target, d, Some(PlacementAlignment::Center)).1
                == target.y + div_toward_zero(target.height - source.height, 2)
            &&& placed_at(source, target, d, Some(PlacementAlignment::End)).1 == target.y + target.height - source.height
        },
        (d is Top || d is Bottom) ==> {
            &&& placed_at(source, target, d, Some(PlacementAlignment::Center)).1 == placed_at(source, target, d, None).1
            &&& placed_at(source, target, d, Some(PlacementAlignment::Center)).0
                == target.x + div_toward_zero(target.width - source.width, 2)
            &&& placed_at(source, target, d, Some(PlacementAlignment::End)).0 == target.x + target.width - source.width
        },
{
}

/// A placed monitor touches the target on the rule's side, whatever the
/// alignment: to the left its right edge is the target's left edge, to the
/// right its left edge is the target's right edge, and likewise above and
/// below. With no alignment (or `Start`) it also starts where the target
/// starts along that side: its top edge is the target's top edge beside it,
/// its left edge the target's left edge above or below it.
pub proof fn lemma_placed_beside_target(source: MonitorInfo, target: MonitorInfo, d: PlacementDirection, a: Option<PlacementAlignment>)
    ensures
        d is Left ==> placed_at(source, target, d, a).0 + source.width == target.x,
        d is Right ==> placed_at(source, target, d, a).0 == target.x + target.width,
        d is Top ==> placed_at(source, target, d, a).1 + source.height == target.y,
        d is Bottom ==> placed_at(source, target, d, a).1 == target.y + target.height,
        (a is None || a == Some(PlacementAlignment::Start)) && (d is Left || d is Right)
            ==> placed_at(source, target, d, a).1 == target.y,
        (a is None || a == Some(PlacementAlignment::Start)) && (d is Top || d is Bottom)
            ==> placed_at(source, target, d, a).0 == target.x,
{
}

/// Where a monitor is placed does not depend on where it is now: two monitors
/// of the same size are placed at the same position by the same rule.
pub proof fn lemma_placement_ignores_source_position(source: MonitorInfo, other: MonitorInfo, target: MonitorInfo, d: PlacementDirection, a: Option<PlacementAlignment>)
    requires
        other.width == source.width,
        other.height == source.height,
    ensures
        placed_at(other, target, d, a) == placed_at(source, target, d, a),
{
}

/// Every coordinate the placement computes fits in `i32`.
pub open spec fn placement_fits(source: MonitorInfo, target: MonitorInfo, d: PlacementDirection, a: Option<PlacementAlignment>) -> bool {
    let (x, y) = match d {
        PlacementDirection::Left => (target.x - source.width, target.y as int),
        PlacementDirection::Right => (target.x + target.width, target.y as int),
        PlacementDirection::Top => (target.x as int, target.y - source.height),
        PlacementDirection::Bottom => (target.x as int, target.y + target.height),
    };
    in_i32(x) && in_i32(y) && in_i32(placed_at(source, target, d, a).0) && in_i32(placed_at(source, target, d, a).1)
}

/// The position of `source` under `rule` relative to `target`, computed
/// without bounds (see `placed_at`).
pub fn position_exact(source: &MonitorInfo, target: &MonitorInfo, rule: &ResolvedPlacementRule) -> (r: (i64, i64))
    ensures
        (r.0 as int, r.1 as int) == placed_at(*source, *target, rule.direction, rule.alignment),
{
    let sw = source.width as i64;
    let sh = source.height as i64;
    let tw = target.width as i64;
    let th = target.height as i64;
    let tx = target.x as i64;
    let ty = target.y as i64;
    let (mut x, mut y) = match rule.direction {
        PlacementDirection::Left => (tx - sw, ty),
        PlacementDirection::Right => (tx + tw, ty),
        PlacementDirection::Top => (tx, ty - sh),
        PlacementDirection::Bottom => (tx, ty + th),
    };
    let horizontal = match rule.direction {
        PlacementDirection::Left | PlacementDirection::Right => true,
        _ => false,
    };
    match rule.alignment {
        Some(PlacementAlignment::Center) | Some(PlacementAlignment::Middle) => {
            if horizontal {
                y = ty + half(th - sh);
            } else {
                x = tx + half(tw - sw);
            }
        },
        Some(PlacementAlignment::End) => {
            if horizontal {
                y = ty + th - sh;
            } else {
                x = tx + tw - sw;
            }
        },
        _ => {},
    }
    (x, y)
}


/// The position of `source` under `rule` relative to `target` (see
/// `placed_at`).
pub fn calculate_position(source: &MonitorInfo, target: &MonitorInfo, rule: &ResolvedPlacementRule) -> (r: (i32, i32))
    requires
        placement_fits(*source, *target, rule.direction, rule.alignment),
    ensures
        (r.0 as int, r.1 as int) == placed_at(*source, *target, rule.direction, rule.alignment),
{
    let (x, y) = position_exact(source, target, rule);
    (x as i32, y as i32)
}

/// Monitors that lie at least 131072 pixels inside the `i32` range on both
/// axes can be placed against each other in any way.
pub open spec fn well_inside(m: MonitorInfo) -> bool {
    i32::MIN + 0x20000 <= m.x <= i32::MAX - 0x20000 && i32::MIN + 0x20000 <= m.y <= i32::MAX - 0x20000
}

/// Placing a monitor against another never leaves `i32` when the target lies
/// well inside it: a placement moves at most two monitor sizes away.
pub proof fn lemma_well_inside_fits(source: MonitorInfo, target: MonitorInfo, d: PlacementDirection, a: Option<PlacementAlignment>)
    requires
        well_inside(target),
    ensures
        placement_fits(source, target, d, a),
{
    let dw = target.width - source.width;
    let dh = target.height - source.height;
    assert(-0x10000 <= div_toward_zero(dw, 2) <= 0x10000) by {
        if dw >= 0 {
            assert(dw / 2 <= dw) by (nonlinear_arith) requires dw >= 0;
        } else {
            assert((-dw) / 2 <= -dw) by (nonlinear_arith) requires -dw >= 0;
        }
    }
    assert(-0x10000 <= div_toward_zero(dh, 2) <= 0x10000) by {
        if dh >= 0 {
            assert(dh / 2 <= dh) by (nonlinear_arith) requires dh >= 0;
        } else {
            assert((-dh) / 2 <= -dh) by (nonlinear_arith) requires -dh >= 0;
        }
    }
}

/// The argument of `hyprctl keyword monitor` that puts a monitor of size
/// `w`x`h` at (`x`, `y`): `name@WxH,XxY`.
pub open spec fn position_spec(name: Seq<char>, w: int, h: int, x: int, y: int) -> Seq<char> {
    name + "@"@ + int_text(w) + "x"@ + int_text(h) + ","@ + int_text(x) + "x"@ + int_text(y)
}

/// What one rule gives against the monitors: the position argument for the
/// source monitor, or which of the two monitors is missing.
pub open spec fn placement_outcome(rule: ResolvedPlacementRule, ms: Seq<(String, MonitorInfo)>, ci: bool) -> Result<Seq<char>, Seq<char>> {
    match found_monitor(ms, rule.source_monitor@, ci) {
        None => Err("Source monitor '"@ + rule.source_monitor@ + "' not found"@),
        Some(s) => match found_monitor(ms, rule.target_monitor@, ci) {
            None => Err("Target monitor '"@ + rule.target_monitor@ + "' not found"@),
            Some(t) => {
                let src = ms[s].1;
                let p = placed_at(src, ms[t].1, rule.direction, rule.alignment);
                Ok(position_spec(src.name@, src.width as int, src.height as int, p.0, p.1))
            },
        },
    }
}

/// Resolves both monitors of `rule` and builds the position argument that
/// moves the source monitor (see `placement_outcome`).
pub fn placement_command(rule: &ResolvedPlacementRule, monitors: &Vec<(String, MonitorInfo)>, case_insensitive: bool) -> (r: Result<String, String>)
    ensures
        match r {
            Ok(s) => placement_outcome(*rule, monitors@, case_insensitive) == Ok::<Seq<char>, Seq<char>>(s@),
            Err(e) => placement_outcome(*rule, monitors@, case_insensitive) == Err::<Seq<char>, Seq<char>>(e@),
        },
{
    let s = match find_monitor(rule.source_monitor.as_str(), monitors, case_insensitive) {
        Some(s) => s,
        None => {
            let mut e = owned("Source monitor '");
            append_str(&mut e, rule.source_monitor.as_str());
            append_str(&mut e, "' not found");
            return Err(e);
        },
    };
    let t = match find_monitor(rule.target_monitor.as_str(), monitors, case_insensitive) {
        Some(t) => t,
        None => {
            let mut e = owned("Target monitor '");
            append_str(&mut e, rule.target_monitor.as_str());
            append_str(&mut e, "' not found");
            return Err(e);
        },
    };
    let src = &monitors[s].1;
    let (x, y) = position_exact(src, &monitors[t].1, rule);
    let mut out = copy_string(&src.name);
    append_str(&mut out, "@");
    append_int(&mut out, src.width as i64);
    append_str(&mut out, "x");
    append_int(&mut out, src.height as i64);
    append_str(&mut out, ",");
    append_int(&mut out, x);
    append_str(&mut out, "x");
    append_int(&mut out, y);
    Ok(out)
}

/// `v / 2` rounded toward zero.
fn half(v: i64) -> (h: i64)
    requires
        -0x1_0000_0000 <= v <= 0x1_0000_0000,
    ensures
        h == div_toward_zero(v as int, 2),
{
    if v >= 0 { v / 2 } else { -((-v) / 2) }
}

// ---------------------------------------------------------------------------
// Placement rules
// ---------------------------------------------------------------------------

/// A resolved rule as plain values.
pub open spec fn rule_view(r: ResolvedPlacementRule) -> (Seq<char>, Seq<char>, PlacementDirection, Option<PlacementAlignment>) {
    (r.source_monitor@, r.target_monitor@, r.direction, r.alignment)
}

/// The rules one direction gives: one per existing target, in order.
pub open spec fn rules_for(source: Seq<char>, targets: Seq<String>, d: PlacementDirection, a: Option<PlacementAlignment>,
    ms: Seq<(String, MonitorInfo)>, ci: bool) -> Seq<(Seq<char>, Seq<char>, PlacementDirection, Option<PlacementAlignment>)>
    decreases targets.len(),
{
    if targets.len() == 0 {
        Seq::empty()
    } else {
        let prev = rules_for(source, targets.drop_last(), d, a, ms, ci);
        if exists_monitor(ms, targets.last()@, ci) {
            prev.push((source, targets.last()@, d, a))
        } else {
            prev
        }
    }
}

/// Appends the rules of one direction to `out`.
fn push_rules(out: &mut Vec<ResolvedPlacementRule>, source: &str, targets: &Vec<String>, d: PlacementDirection,
    a: Option<PlacementAlignment>, monitors: &Vec<(String, MonitorInfo)>, ci: bool)
    ensures
        final(out)@.map_values(|r: ResolvedPlacementRule| rule_view(r))
            == old(out)@.map_values(|r: ResolvedPlacementRule| rule_view(r)) + rules_for(source@, targets@, d, a, monitors@, ci),
{
    let ghost start = out@.map_values(|r: ResolvedPlacementRule| rule_view(r));
    let mut k: usize = 0;
    while k < targets.len()
        invariant
            k <= targets@.len(),
            start == old(out)@.map_values(|r: ResolvedPlacementRule| rule_view(r)),
            out@.map_values(|r: ResolvedPlacementRule| rule_view(r)) == start + rules_for(source@, targets@.take(k as int), d, a, monitors@, ci),
        decreases targets@.len() - k,
    {
        let ghost before = out@;
        proof {
            assert(targets@.take(k as int + 1).drop_last() =~= targets@.take(k as int));
            assert(targets@.take(k as int + 1).last() == targets@[k as int]);
        }
        if monitor_exists(targets[k].as_str(), monitors, ci) {
            out.push(ResolvedPlacementRule {
                source_monitor: owned(source),
                target_monitor: copy_string(&targets[k]),
                direction: d,
                alignment: a,
            });
            proof {
                assert(out@.map_values(|r: ResolvedPlacementRule| rule_view(r))
                    =~= before.map_values(|r: ResolvedPlacementRule| rule_view(r)).push(rule_view(out@[k as int + before.len() - k])));
            }
        }
        proof {
            assert(out@.map_values(|r: ResolvedPlacementRule| rule_view(r)) =~= start + rules_for(source@, targets@.take(k as int + 1), d, a, monitors@, ci));
        }
        k = k + 1;
    }
    proof { assert(targets@.take(targets@.len() as int) =~= targets@); }
}

/// The rules of the direction-keyed form, key by key.
pub open spec fn keyed_rules(source: Seq<char>, entries: Seq<(String, Vec<String>)>, ms: Seq<(String, MonitorInfo)>, ci: bool)
    -> Seq<(Seq<char>, Seq<char>, PlacementDirection, Option<PlacementAlignment>)>
    decreases entries.len(),
{
    if entries.len() == 0 {
        Seq::empty()
    } else {
        let (key, targets) = entries.last();
        keyed_rules(source, entries.drop_last(), ms, ci)
            + rules_for(source, targets@, key_direction(lowercase(key@)), key_alignment(lowercase(key@)), ms, ci)
    }
}

/// The direction's name as `Debug` writes it.
pub open spec fn direction_name(d: PlacementDirection) -> Seq<char> {
    match d {
        PlacementDirection::Left => "Left"@,
        PlacementDirection::Right => "Right"@,
        PlacementDirection::Top => "Top"@,
        PlacementDirection::Bottom => "Bottom"@,
    }
}

/// The rules of one field of the complex form, which gives direction `d`;
/// each rule gets the configured alignment `a`.
pub open spec fn dir_rules(source: Seq<char>, targets: Option<Vec<String>>, d: PlacementDirection,
    a: Option<PlacementAlignment>, ms: Seq<(String, MonitorInfo)>, ci: bool)
    -> Seq<(Seq<char>, Seq<char>, PlacementDirection, Option<PlacementAlignment>)> {
    match targets {
        Some(t) => rules_for(source, t@, d, a, ms, ci),
        None => Seq::empty(),
    }
}

/// The rules of the complex form, direction by direction in the order of
/// the fields.
pub open spec fn complex_rules(source: Seq<char>, dt: DirectionTarget, a: Option<PlacementAlignment>,
    ms: Seq<(String, MonitorInfo)>, ci: bool) -> Seq<(Seq<char>, Seq<char>, PlacementDirection, Option<PlacementAlignment>)> {
    dir_rules(source, dt.left_of, PlacementDirection::Left, a, ms, ci)
    + dir_rules(source, dt.right_of, PlacementDirection::Right, a, ms, ci)
    + dir_rules(source, dt.top_of, PlacementDirection::Top, a, ms, ci)
    + dir_rules(source, dt.bottom_of, PlacementDirection::Bottom, a, ms, ci)
    + dir_rules(source, dt.left_center_of, PlacementDirection::Left, a, ms, ci)
    + dir_rules(source, dt.right_center_of, PlacementDirection::Right, a, ms, ci)
    + dir_rules(source, dt.top_center_of, PlacementDirection::Top, a, ms, ci)
    + dir_rules(source, dt.bottom_center_of, PlacementDirection::Bottom, a, ms, ci)
    + dir_rules(source, dt.left_end_of, PlacementDirection::Left, a, ms, ci)
    + dir_rules(source, dt.right_end_of, PlacementDirection::Right, a, ms, ci)
    + dir_rules(source, dt.top_end_of, PlacementDirection::Top, a, ms, ci)
    + dir_rules(source, dt.bottom_end_of, PlacementDirection::Bottom, a, ms, ci)
}

/// The rules a configured placement of `source` resolves to: one per target
/// that exists, in the order configured.
pub open spec fn resolved_rules(source: Seq<char>, cfg: PlacementRuleConfig, ms: Seq<(String, MonitorInfo)>, ci: bool)
    -> Seq<(Seq<char>, Seq<char>, PlacementDirection, Option<PlacementAlignment>)> {
    match cfg {
        PlacementRuleConfig::Simple(t) => if exists_monitor(ms, t@, ci) {
            seq![(source, t@, PlacementDirection::Left, None::<PlacementAlignment>)]
        } else {
            Seq::empty()
        },
        PlacementRuleConfig::PyprlandStyle(entries) => keyed_rules(source, entries@, ms, ci),
        PlacementRuleConfig::Complex { direction_target, alignment } => complex_rules(source, *direction_target, alignment, ms, ci),
    }
}

fn push_direction(out: &mut Vec<ResolvedPlacementRule>, source: &str, targets: &Option<Vec<String>>, d: PlacementDirection,
    a: Option<PlacementAlignment>, monitors: &Vec<(String, MonitorInfo)>, ci: bool)
    ensures
        final(out)@.map_values(|r: ResolvedPlacementRule| rule_view(r))
            == old(out)@.map_values(|r: ResolvedPlacementRule| rule_view(r)) + dir_rules(source@, *targets, d, a, monitors@, ci),
{
    match targets {
        Some(t) => push_rules(out, source, t, d, a, monitors, ci),
        None => {
            assert(old(out)@.map_values(|r: ResolvedPlacementRule| rule_view(r)) + Seq::empty()
                =~= old(out)@.map_values(|r: ResolvedPlacementRule| rule_view(r)));
        },
    }
}

/// The rules a configured placement of `source_monitor` resolves to (see
/// `resolved_rules`).
pub fn parse_placement_rule(source_monitor: &str, rule_config: &PlacementRuleConfig, monitors: &Vec<(String, MonitorInfo)>, case_insensitive: bool)
    -> (r: Vec<ResolvedPlacementRule>)
    ensures
        r@.map_values(|r: ResolvedPlacementRule| rule_view(r)) == resolved_rules(source_monitor@, *rule_config, monitors@, case_insensitive),
{
    let mut out: Vec<ResolvedPlacementRule> = Vec::new();
    let ci = case_insensitive;
    match rule_config {
        PlacementRuleConfig::Simple(t) => {
            if monitor_exists(t.as_str(), monitors, ci) {
                out.push(ResolvedPlacementRule {
                    source_monitor: owned(source_monitor),
                    target_monitor: copy_string(t),
                    direction: PlacementDirection::Left,
                    alignment: None,
                });
                assert(out@.map_values(|r: ResolvedPlacementRule| rule_view(r)) =~= resolved_rules(source_monitor@, *rule_config, monitors@, ci));
            } else {
                assert(out@.map_values(|r: ResolvedPlacementRule| rule_view(r)) =~= resolved_rules(source_monitor@, *rule_config, monitors@, ci));
            }
        },
        PlacementRuleConfig::PyprlandStyle(entries) => {
            let mut k: usize = 0;
            assert(out@.map_values(|r: ResolvedPlacementRule| rule_view(r)) =~= keyed_rules(source_monitor@, entries@.take(0), monitors@, ci));
            while k < entries.len()
                invariant
                    k <= entries@.len(),
                    out@.map_values(|r: ResolvedPlacementRule| rule_view(r)) == keyed_rules(source_monitor@, entries@.take(k as int), monitors@, ci),
                decreases entries@.len() - k,
            {
                let (dir, al) = parse_direction_key(entries[k].0.as_str());
                push_rules(&mut out, source_monitor, &entries[k].1, dir, al, monitors, ci);
                proof {
                    assert(entries@.take(k as int + 1).drop_last() =~= entries@.take(k as int));
                    assert(entries@.take(k as int + 1).last() == entries@[k as int]);
                }
                k = k + 1;
            }
            proof { assert(entries@.take(entries@.len() as int) =~= entries@); }
        },
        PlacementRuleConfig::Complex { direction_target, alignment } => {
            let dt = &**direction_target;
            let a = *alignment;
            push_direction(&mut out, source_monitor, &dt.left_of, PlacementDirection::Left, a, monitors, ci);
            push_direction(&mut out, source_monitor, &dt.right_of, PlacementDirection::Right, a, monitors, ci);
            push_direction(&mut out, source_monitor, &dt.top_of, PlacementDirection::Top, a, monitors, ci);
            push_direction(&mut out, source_monitor, &dt.bottom_of, PlacementDirection::Bottom, a, monitors, ci);
            push_direction(&mut out, source_monitor, &dt.left_center_of, PlacementDirection::Left, a, monitors, ci);
            push_direction(&mut out, source_monitor, &dt.right_center_of, PlacementDirection::Right, a, monitors, ci);
            push_direction(&mut out, source_monitor, &dt.top_center_of, PlacementDirection::Top, a, monitors, ci);
            push_direction(&mut out, source_monitor, &dt.bottom_center_of, PlacementDirection::Bottom, a, monitors, ci);
            push_direction(&mut out, source_monitor, &dt.left_end_of, PlacementDirection::Left, a, monitors, ci);
            push_direction(&mut out, source_monitor, &dt.right_end_of, PlacementDirection::Right, a, monitors, ci);
            push_direction(&mut out, source_monitor, &dt.top_end_of, PlacementDirection::Top, a, monitors, ci);
            push_direction(&mut out, source_monitor, &dt.bottom_end_of, PlacementDirection::Bottom, a, monitors, ci);
            assert(Seq::<ResolvedPlacementRule>::empty().map_values(|r: ResolvedPlacementRule| rule_view(r)) =~= Seq::empty());
        },
    }
    out
}


/// The answer after applying a layout: how many commands succeeded, then the
/// errors one per line, if any.
pub open spec fn layout_result_text(applied: nat, errors: Seq<Seq<char>>) -> Seq<char> {
    "Applied "@ + nat_digits(applied) + " monitor layout commands"@ + if errors.len() == 0 {
        Seq::empty()
    } else {
        " with "@ + nat_digits(errors.len()) + " errors:\n"@ + join(errors, "\n"@)
    }
}

/// The answer after applying a layout (see `layout_result_text`).
pub fn layout_result(applied: usize, errors: &Vec<String>) -> (s: String)
    ensures
        s@ == layout_result_text(applied as nat, strs(errors@)),
{
    let mut s = owned("Applied ");
    append_nat(&mut s, applied as u64);
    append_str(&mut s, " monitor layout commands");
    if errors.len() == 0 {
        assert(s@ =~= layout_result_text(applied as nat, strs(errors@)));
        return s;
    }
    append_str(&mut s, " with ");
    append_nat(&mut s, errors.len() as u64);
    append_str(&mut s, " errors:\n");
    let ghost head = s@;
    let ghost parts = strs(errors@);
    let mut i: usize = 0;
    while i < errors.len()
        invariant
            i <= errors@.len(),
            parts == strs(errors@),
            s@ == head + join(parts.take(i as int), "\n"@),
        decreases errors@.len() - i,
    {
        if i > 0 {
            append_str(&mut s, "\n");
        }
        append_str(&mut s, errors[i].as_str());
        proof {
            let t = parts.take(i as int + 1);
            assert(t.drop_last() =~= parts.take(i as int));
            assert(t.last() == errors@[i as int]@);
            if i == 0 { assert(t =~= seq![t[0]]); }
            assert(s@ =~= head + join(t, "\n"@));
        }
        i = i + 1;
    }
    assert(parts.take(errors@.len() as int) =~= parts);
    s
}



/// What testing one rule reports: where the source monitor would move, or
/// which of the two monitors is missing.
pub open spec fn placement_test_text(rule: ResolvedPlacementRule, ms: Seq<(String, MonitorInfo)>, ci: bool) -> Result<Seq<char>, Seq<char>> {
    match found_monitor(ms, rule.source_monitor@, ci) {
        None => Err("Source monitor '"@ + rule.source_monitor@ + "' not found"@),
        Some(s) => match found_monitor(ms, rule.target_monitor@, ci) {
            None => Err("Target monitor '"@ + rule.target_monitor@ + "' not found"@),
            Some(t) => {
                let src = ms[s].1;
                let p = placed_at(src, ms[t].1, rule.direction, rule.alignment);
                Ok("  \u{2705} "@ + rule.source_monitor@ + " \u{2192} "@ + direction_name(rule.direction) + " "@
                    + rule.target_monitor@ + ": would move to ("@ + int_text(p.0) + ", "@ + int_text(p.1) + ") (current: ("@
                    + int_text(src.x as int) + ", "@ + int_text(src.y as int) + "))\n"@)
            },
        },
    }
}

fn append_direction(s: &mut String, d: PlacementDirection)
    ensures
        final(s)@ == old(s)@ + direction_name(d),
{
    match d {
        PlacementDirection::Left => append_str(s, "Left"),
        PlacementDirection::Right => append_str(s, "Right"),
        PlacementDirection::Top => append_str(s, "Top"),
        PlacementDirection::Bottom => append_str(s, "Bottom"),
    }
}

/// Tests one rule against the monitors without moving anything (see
/// `placement_test_text`).
#[verifier::rlimit(40)]
pub fn placement_test(rule: &ResolvedPlacementRule, monitors: &Vec<(String, MonitorInfo)>, case_insensitive: bool) -> (r: Result<String, String>)
    ensures
        match r {
            Ok(s) => placement_test_text(*rule, monitors@, case_insensitive) == Ok::<Seq<char>, Seq<char>>(s@),
            Err(e) => placement_test_text(*rule, monitors@, case_insensitive) == Err::<Seq<char>, Seq<char>>(e@),
        },
{
    let s = match find_monitor(rule.source_monitor.as_str(), monitors, case_insensitive) {
        Some(s) => s,
        None => {
            let mut e = owned("Source monitor '");
            append_str(&mut e, rule.source_monitor.as_str());
            append_str(&mut e, "' not found");
            return Err(e);
        },
    };
    let t = match find_monitor(rule.target_monitor.as_str(), monitors, case_insensitive) {
        Some(t) => t,
        None => {
            let mut e = owned("Target monitor '");
            append_str(&mut e, rule.target_monitor.as_str());
            append_str(&mut e, "' not found");
            return Err(e);
        },
    };
    let src = &monitors[s].1;
    let (x, y) = position_exact(src, &monitors[t].1, rule);
    let mut out = owned("  \u{2705} ");
    append_str(&mut out, rule.source_monitor.as_str());
    append_str(&mut out, " \u{2192} ");
    append_direction(&mut out, rule.direction);
    append_str(&mut out, " ");
    append_str(&mut out, rule.target_monitor.as_str());
    append_str(&mut out, ": would move to (");
    append_int(&mut out, x);
    append_str(&mut out, ", ");
    append_int(&mut out, y);
    append_str(&mut out, ") (current: (");
    append_int(&mut out, src.x as i64);
    append_str(&mut out, ", ");
    append_int(&mut out, src.y as i64);
    append_str(&mut out, "))\n");
    Ok(out)
}

/// What testing one rule adds to the report, and whether it is an error.
pub open spec fn rule_test_entry(rule: ResolvedPlacementRule, ms: Seq<(String, MonitorInfo)>, ci: bool) -> (Seq<char>, bool) {
    match placement_test_text(rule, ms, ci) {
        Ok(line) => (line, false),
        Err(e) => ("  \u{274c} "@ + e + "\n"@, true),
    }
}

/// The entries of all rules, in order, and how many are errors.
pub open spec fn rules_test_entries(rules: Seq<ResolvedPlacementRule>, ms: Seq<(String, MonitorInfo)>, ci: bool)
    -> (Seq<char>, nat)
    decreases rules.len(),
{
    if rules.len() == 0 {
        (Seq::empty(), 0)
    } else {
        let (text, errors) = rules_test_entries(rules.drop_last(), ms, ci);
        let (line, bad) = rule_test_entry(rules.last(), ms, ci);
        (text + line, if bad { errors + 1 } else { errors })
    }
}

/// The placement part of a layout test: a heading, one entry per rule,
/// then whether the test passed or how many errors it found.
pub open spec fn rules_test_text(rules: Seq<ResolvedPlacementRule>, ms: Seq<(String, MonitorInfo)>, ci: bool) -> Seq<char> {
    let (text, errors) = rules_test_entries(rules, ms, ci);
    "\n\u{1f4d0} Placement Rules:\n"@ + text + if errors == 0 {
        "\n\u{2705} Layout test passed - no errors detected\n"@
    } else {
        "\n\u{274c} Layout test found "@ + nat_digits(errors) + " errors\n"@
    }
}

/// One rule's entry in the layout test (see `rule_test_entry`).
fn rule_test_line(rule: &ResolvedPlacementRule, monitors: &Vec<(String, MonitorInfo)>, case_insensitive: bool)
    -> (r: (String, bool))
    ensures
        (r.0@, r.1) == rule_test_entry(*rule, monitors@, case_insensitive),
{
    match placement_test(rule, monitors, case_insensitive) {
        Ok(line) => (line, false),
        Err(e) => {
            let mut text = String::new();
            append_str(&mut text, "  \u{274c} ");
            append_str(&mut text, e.as_str());
            append_str(&mut text, "\n");
            (text, true)
        },
    }
}

/// The heading, the entries `text` and the closing line for `errors` errors.
fn report_text(text: &String, errors: u64) -> (out: String)
    ensures
        out@ == "\n\u{1f4d0} Placement Rules:\n"@ + text@ + if errors == 0 {
            "\n\u{2705} Layout test passed - no errors detected\n"@
        } else {
            "\n\u{274c} Layout test found "@ + nat_digits(errors as nat) + " errors\n"@
        },
{
    let mut out = String::new();
    append_str(&mut out, "\n\u{1f4d0} Placement Rules:\n");
    append_str(&mut out, text.as_str());
    if errors == 0 {
        append_str(&mut out, "\n\u{2705} Layout test passed - no errors detected\n");
    } else {
        append_str(&mut out, "\n\u{274c} Layout test found ");
        append_nat(&mut out, errors);
        append_str(&mut out, " errors\n");
    }
    out
}

/// Tests every placement rule against the monitors without moving anything
/// (see `rules_test_text`).
#[verifier::rlimit(40)]
pub fn rules_test_report(rules: &Vec<ResolvedPlacementRule>, monitors: &Vec<(String, MonitorInfo)>, case_insensitive: bool) -> (r: String)
    ensures
        r@ == rules_test_text(rules@, monitors@, case_insensitive),
{
    let mut text = String::new();
    let mut errors: u64 = 0;
    let mut k: usize = 0;
    proof {
        assert(rules@.take(0) =~= Seq::<ResolvedPlacementRule>::empty());
    }
    while k < rules.len()
        invariant
            k <= rules@.len(),
            (text@, errors as nat) == rules_test_entries(rules@.take(k as int), monitors@, case_insensitive),
            errors <= k,
        decreases rules@.len() - k,
    {
        proof {
            assert(rules@.take(k as int + 1).drop_last() =~= rules@.take(k as int));
            assert(rules@.take(k as int + 1).last() == rules@[k as int]);
        }
        let (line, bad) = rule_test_line(&rules[k], monitors, case_insensitive);
        append_str(&mut text, line.as_str());
        if bad {
            errors = errors + 1;
        }
        k = k + 1;
    }
    proof {
        assert(rules@.take(rules@.len() as int) =~= rules@);
    }
    let out = report_text(&text, errors);
    out
}

} // verus!
