//! Finding floating windows that have drifted off every monitor, and where to
//! put them back.
use vstd::prelude::*;
use crate::scratchpad_geometry::{in_i32, MonitorInfo};
use crate::text::{
    append_int, append_nat, append_str, chars_eq, chars_of, copy_opt, copy_string, copy_strings, div_toward_zero, int_text,
    lowercase, nat_digits, opt_chars, owned, str_eq, strs, to_lowercase,
};
use crate::scratchpad_state::name_set;

verus! {

// ---------------------------------------------------------------------------
// Configuration
// ---------------------------------------------------------------------------

/// How recovered windows are placed on the target monitor.
#[derive(Debug, Clone, Copy, PartialEq, Eq, Structural)]
pub enum RescueStrategy {
    /// Evenly along the monitor's diagonal.
    Distribute,
    /// In a grid of cells.
    Grid,
    /// Stepping down and right from the top-left corner.
    Cascade,
    /// All at the centre.
    Center,
    /// At the last known good position (placed as `Smart` does).
    Restore,
    /// Where each overlaps the windows placed before it least.
    Smart,
}

/// Settings of the lost-window rescue.
#[derive(Debug)]
pub struct LostWindowsConfig {
    pub rescue_strategy: RescueStrategy,
    pub auto_recovery: bool,
    /// Seconds between automatic checks.
    pub check_interval: u64,
    /// Distance kept from the monitor's edges, in pixels.
    pub margin: i32,
    pub max_windows: usize,
    pub exclude_classes: Vec<String>,
    /// Windows smaller than this are never rescued.
    pub min_window_size: (i32, i32),
    pub enable_animations: bool,
    /// Milliseconds.
    pub animation_duration: u64,
    pub remember_positions: bool,
    pub current_monitor_only: bool,
    pub debug_logging: bool,
    pub require_confirmation: bool,
}

pub fn default_rescue_strategy() -> (s: RescueStrategy)
    ensures
        s == RescueStrategy::Smart,
{
    RescueStrategy::Smart
}

pub fn default_true() -> (b: bool)
    ensures
        b,
{
    true
}

pub fn default_check_interval() -> (n: u64)
    ensures
        n == 30,
{
    30
}

pub fn default_margin() -> (n: i32)
    ensures
        n == 50,
{
    50
}

pub fn default_max_windows() -> (n: usize)
    ensures
        n == 10,
{
    10
}

pub fn default_min_size() -> (s: (i32, i32))
    ensures
        s == (100i32, 100i32),
{
    (100, 100)
}

pub fn default_animation_duration() -> (n: u64)
    ensures
        n == 300,
{
    300
}

impl Default for LostWindowsConfig {
    fn default() -> (c: Self)
        ensures
            c.rescue_strategy == RescueStrategy::Smart,
            c.auto_recovery,
            c.check_interval == 30,
            c.margin == 50,
            c.max_windows == 10,
            c.exclude_classes@.len() == 0,
            c.min_window_size == (100i32, 100i32),
            c.enable_animations,
            c.animation_duration == 300,
            c.remember_positions,
            !c.current_monitor_only,
            !c.debug_logging,
            !c.require_confirmation,
    {
        LostWindowsConfig {
            rescue_strategy: default_rescue_strategy(),
            auto_recovery: default_true(),
            check_interval: default_check_interval(),
            margin: default_margin(),
            max_windows: default_max_windows(),
            exclude_classes: Vec::new(),
            min_window_size: default_min_size(),
            enable_animations: default_true(),
            animation_duration: default_animation_duration(),
            remember_positions: default_true(),
            current_monitor_only: false,
            debug_logging: false,
            require_confirmation: false,
        }
    }
}

// ---------------------------------------------------------------------------
// Windows
// ---------------------------------------------------------------------------

/// A window as the rescue sees it.
#[derive(Debug)]
pub struct WindowInfo {
    pub address: String,
    pub pid: i32,
    pub class: String,
    pub title: String,
    pub position: (i32, i32),
    pub size: (i32, i32),
    pub workspace: String,
    pub monitor: Option<String>,
    pub is_floating: bool,
    pub is_lost: bool,
    pub last_seen: std::time::Instant,
}

impl Clone for WindowInfo {
    fn clone(&self) -> (w: Self)
        ensures
            w.address@ == self.address@,
            w.pid == self.pid,
            w.class@ == self.class@,
            w.title@ == self.title@,
            w.position == self.position,
            w.size == self.size,
            w.workspace@ == self.workspace@,
            opt_chars(w.monitor) == opt_chars(self.monitor),
            w.is_floating == self.is_floating,
            w.is_lost == self.is_lost,
    {
        WindowInfo {
            address: copy_string(&self.address),
            pid: self.pid,
            class: copy_string(&self.class),
            title: copy_string(&self.title),
            position: self.position,
            size: self.size,
            workspace: copy_string(&self.workspace),
            monitor: copy_opt(&self.monitor),
            is_floating: self.is_floating,
            is_lost: self.is_lost,
            last_seen: self.last_seen,
        }
    }
}

impl Clone for LostWindowsConfig {
    fn clone(&self) -> (c: Self)
        ensures
            c.rescue_strategy == self.rescue_strategy,
            c.auto_recovery == self.auto_recovery,
            c.check_interval == self.check_interval,
            c.margin == self.margin,
            c.max_windows == self.max_windows,
            strs(c.exclude_classes@) == strs(self.exclude_classes@),
            c.min_window_size == self.min_window_size,
            c.enable_animations == self.enable_animations,
            c.animation_duration == self.animation_duration,
            c.remember_positions == self.remember_positions,
            c.current_monitor_only == self.current_monitor_only,
            c.debug_logging == self.debug_logging,
            c.require_confirmation == self.require_confirmation,
    {
        LostWindowsConfig {
            rescue_strategy: self.rescue_strategy,
            auto_recovery: self.auto_recovery,
            check_interval: self.check_interval,
            margin: self.margin,
            max_windows: self.max_windows,
            exclude_classes: copy_strings(&self.exclude_classes),
            min_window_size: self.min_window_size,
            enable_animations: self.enable_animations,
            animation_duration: self.animation_duration,
            remember_positions: self.remember_positions,
            current_monitor_only: self.current_monitor_only,
            debug_logging: self.debug_logging,
            require_confirmation: self.require_confirmation,
        }
    }
}

/// Positions a window was seen at in good state.
#[derive(Debug, Clone)]
pub struct WindowHistory {
    pub address: String,
    pub good_positions: Vec<((i32, i32), std::time::Instant)>,
    pub last_monitor: Option<String>,
    pub recovery_count: u32,
}

/// The overlap of two extents `[a, a + la)` and `[b, b + lb)` along one axis
/// (negative when they are apart).
pub open spec fn axis_overlap(a: int, la: int, b: int, lb: int) -> int {
    let end = if a + la <= b + lb { a + la } else { b + lb };
    let start = if a >= b { a } else { b };
    end - start
}

/// A window counts as on a monitor when they overlap by more than a quarter of
/// the window's width and a quarter of its height.
pub open spec fn on_monitor(pos: (i32, i32), size: (i32, i32), m: MonitorInfo) -> bool {
    &&& axis_overlap(pos.0 as int, size.0 as int, m.x as int, m.width as int) > div_toward_zero(size.0 as int, 4)
    &&& axis_overlap(pos.1 as int, size.1 as int, m.y as int, m.height as int) > div_toward_zero(size.1 as int, 4)
}

pub open spec fn contained(w: WindowInfo, ms: Seq<MonitorInfo>) -> bool {
    exists|i: int| 0 <= i < ms.len() && on_monitor(w.position, w.size, #[trigger] ms[i])
}

/// `a / b` rounded toward zero.
fn tdiv(a: i64, b: i64) -> (q: i64)
    requires
        b > 0,
        a > i64::MIN,
    ensures
        q == div_toward_zero(a as int, b as int),
{
    if a >= 0 {
        ((a as u64) / (b as u64)) as i64
    } else {
        let n = (-a) as u64;
        -((n / (b as u64)) as i64)
    }
}

fn min64(a: i64, b: i64) -> (r: i64)
    ensures
        r == if a <= b { a } else { b },
{
    if a <= b { a } else { b }
}

fn max64(a: i64, b: i64) -> (r: i64)
    ensures
        r == if a >= b { a } else { b },
{
    if a >= b { a } else { b }
}

/// Whether the window overlaps some monitor enough (see `on_monitor`).
pub fn is_window_contained(window: &WindowInfo, monitors: &Vec<MonitorInfo>) -> (b: bool)
    ensures
        b == contained(*window, monitors@),
{
    let wx = window.position.0 as i64;
    let wy = window.position.1 as i64;
    let ww = window.size.0 as i64;
    let wh = window.size.1 as i64;
    let mut i: usize = 0;
    while i < monitors.len()
        invariant
            i <= monitors@.len(),
            wx == window.position.0, wy == window.position.1,
            ww == window.size.0, wh == window.size.1,
            forall|j: int| 0 <= j < i ==> !on_monitor(window.position, window.size, #[trigger] monitors@[j]),
        decreases monitors@.len() - i,
    {
        let m = &monitors[i];
        let ox = min64(wx + ww, m.x as i64 + m.width as i64) - max64(wx, m.x as i64);
        let oy = min64(wy + wh, m.y as i64 + m.height as i64) - max64(wy, m.y as i64);
        if ox > tdiv(ww, 4) && oy > tdiv(wh, 4) {
            assert(on_monitor(window.position, window.size, monitors@[i as int]));
            return true;
        }
        i = i + 1;
    }
    false
}

/// A window is lost when it is floating, of no excluded class, at least the
/// minimum size, and on no monitor.
pub open spec fn is_lost(w: WindowInfo, ms: Seq<MonitorInfo>, c: LostWindowsConfig) -> bool {
    &&& w.is_floating
    &&& !name_set(c.exclude_classes@).contains(w.class@)
    &&& w.size.0 >= c.min_window_size.0
    &&& w.size.1 >= c.min_window_size.1
    &&& !contained(w, ms)
}

/// The indices of the lost windows (see `is_lost`), in order.
pub fn find_lost_windows(windows: &Vec<WindowInfo>, monitors: &Vec<MonitorInfo>, config: &LostWindowsConfig) -> (r: Vec<usize>)
    ensures
        r@.len() <= windows@.len(),
        forall|k: int| 0 <= k < r@.len() ==> (#[trigger] r@[k]) < windows@.len() && is_lost(windows@[r@[k] as int], monitors@, *config),
        forall|k: int, l: int| 0 <= k < l < r@.len() ==> r@[k] < r@[l],
        forall|j: int| 0 <= j < windows@.len() && is_lost(windows@[j], monitors@, *config) ==> r@.contains(j as usize),
{
    let mut r: Vec<usize> = Vec::new();
    let mut j: usize = 0;
    while j < windows.len()
        invariant
            j <= windows@.len(),
            r@.len() <= j,
            forall|k: int| 0 <= k < r@.len() ==> (#[trigger] r@[k]) < j && is_lost(windows@[r@[k] as int], monitors@, *config),
            forall|k: int, l: int| 0 <= k < l < r@.len() ==> r@[k] < r@[l],
            forall|q: int| 0 <= q < j && is_lost(windows@[q], monitors@, *config) ==> r@.contains(q as usize),
        decreases windows@.len() - j,
    {
        let w = &windows[j];
        if w.is_floating && !has_class(&config.exclude_classes, w.class.as_str())
            && w.size.0 >= config.min_window_size.0 && w.size.1 >= config.min_window_size.1
            && !is_window_contained(w, monitors) {
            let ghost before = r@;
            r.push(j);
            proof {
                assert(r@[before.len() as int] == j);
                assert forall|q: int| 0 <= q < j + 1 && is_lost(windows@[q], monitors@, *config) implies r@.contains(q as usize) by {
                    if q < j {
                        let p = choose|p: int| 0 <= p < before.len() && before[p] == q as usize;
                        assert(r@[p] == before[p]);
                    }
                }
            }
        } else {
            proof {
                assert(!is_lost(windows@[j as int], monitors@, *config));
            }
        }
        j = j + 1;
    }
    r
}

fn has_class(classes: &Vec<String>, class: &str) -> (b: bool)
    ensures
        b == name_set(classes@).contains(class@),
{
    let target = chars_of(class);
    let mut k: usize = 0;
    while k < classes.len()
        invariant
            k <= classes@.len(),
            target@ == class@,
            forall|q: int| 0 <= q < k ==> (#[trigger] classes@[q])@ != class@,
        decreases classes@.len() - k,
    {
        if chars_eq(&chars_of(classes[k].as_str()), &target) {
            assert(classes@[k as int]@ == class@);
            return true;
        }
        k = k + 1;
    }
    proof {
        if name_set(classes@).contains(class@) {
            let q = choose|q: int| 0 <= q < classes@.len() && #[trigger] classes@[q]@ == class@;
            assert(classes@[q]@ != class@);
        }
    }
    false
}

// ---------------------------------------------------------------------------
// Placement
// ---------------------------------------------------------------------------

/// Places the windows of a rescue on a monitor.
pub struct WindowPositioner;

/// `Distribute`: the `i`-th of `n` windows at the `(i + 1)`-th of `n + 1`
/// equal steps along the usable area.
pub open spec fn distribute_at(m: MonitorInfo, margin: int, n: int, i: int) -> (int, int) {
    let ix = div_toward_zero(m.width - 2 * margin, n + 1);
    let iy = div_toward_zero(m.height - 2 * margin, n + 1);
    (m.x + margin + ix * (i + 1), m.y + margin + iy * (i + 1))
}

/// Number of grid columns for `n` windows: the ceiling of the square root.
pub open spec fn is_grid_cols(n: int, c: int) -> bool {
    c >= 1 && c * c >= n && (c - 1) * (c - 1) < n
}

pub open spec fn grid_cols(n: int) -> int {
    choose|c: int| is_grid_cols(n, c)
}

/// Number of grid rows: enough rows of `cols` for `n` windows.
pub open spec fn grid_rows(n: int, cols: int) -> int {
    (n + cols - 1) / cols
}

/// `Grid`: the `i`-th window a quarter cell into its cell, row by row.
pub open spec fn grid_at(m: MonitorInfo, margin: int, n: int, i: int) -> (int, int) {
    let cols = grid_cols(n);
    let rows = grid_rows(n, cols);
    let cw = div_toward_zero(m.width - 2 * margin, cols);
    let ch = div_toward_zero(m.height - 2 * margin, rows);
    let row = i / cols;
    let col = i % cols;
    (m.x + margin + cw * col + div_toward_zero(cw, 4), m.y + margin + ch * row + div_toward_zero(ch, 4))
}

/// `Cascade`: 40 pixels further right and down per window.
pub open spec fn cascade_at(m: MonitorInfo, margin: int, i: int) -> (int, int) {
    (m.x + margin + 40 * i, m.y + margin + 40 * i)
}

/// `Center`: the monitor's centre.
pub open spec fn center_at(m: MonitorInfo) -> (int, int) {
    (m.x + div_toward_zero(m.width as int, 2), m.y + div_toward_zero(m.height as int, 2))
}

pub open spec fn sizes_of(ws: Seq<WindowInfo>) -> Seq<(i32, i32)> {
    ws.map_values(|w: WindowInfo| w.size)
}

/// Where each strategy puts the windows of the given sizes.
pub open spec fn positions_of(s: RescueStrategy, sizes: Seq<(i32, i32)>, m: MonitorInfo, margin: int) -> Seq<(int, int)> {
    let n = sizes.len() as int;
    match s {
        RescueStrategy::Distribute => Seq::new(sizes.len(), |i: int| distribute_at(m, margin, n, i)),
        RescueStrategy::Grid => Seq::new(sizes.len(), |i: int| grid_at(m, margin, n, i)),
        RescueStrategy::Cascade => Seq::new(sizes.len(), |i: int| cascade_at(m, margin, i)),
        RescueStrategy::Center => Seq::new(sizes.len(), |i: int| center_at(m)),
        RescueStrategy::Restore => smart_all(sizes, m, margin),
        RescueStrategy::Smart => smart_all(sizes, m, margin),
    }
}

pub open spec fn pair_in_i32(p: (int, int)) -> bool {
    in_i32(p.0) && in_i32(p.1)
}

/// The strategy's positions fit in `i32`; for the overlap search, so do its
/// first position and the last one it tries for each window.
pub open spec fn positions_fit(s: RescueStrategy, sizes: Seq<(i32, i32)>, m: MonitorInfo, margin: int) -> bool {
    match s {
        RescueStrategy::Restore => smart_fits(sizes, m, margin),
        RescueStrategy::Smart => smart_fits(sizes, m, margin),
        _ => forall|i: int| 0 <= i < sizes.len() ==> pair_in_i32(#[trigger] positions_of(s, sizes, m, margin)[i]),
    }
}

// ----- overlap ------------------------------------------------------------

/// Area shared by the rectangle at `(x, y)` of size `w` by `h` and rectangle
/// `u` (x, y, width, height); zero when they do not overlap.
pub open spec fn overlap_term(x: int, y: int, w: int, h: int, u: (int, int, int, int)) -> int {
    let ow = axis_overlap(x, w, u.0, u.2);
    let oh = axis_overlap(y, h, u.1, u.3);
    if ow > 0 && oh > 0 { ow * oh } else { 0 }
}

/// Total area the rectangle shares with the rectangles `used`.
pub open spec fn overlap_sum(x: int, y: int, w: int, h: int, used: Seq<(int, int, int, int)>) -> int
    decreases used.len(),
{
    if used.len() == 0 {
        0
    } else {
        overlap_sum(x, y, w, h, used.drop_last()) + overlap_term(x, y, w, h, used.last())
    }
}

pub open spec fn rects(v: Seq<(i32, i32, i32, i32)>) -> Seq<(int, int, int, int)> {
    v.map_values(|t: (i32, i32, i32, i32)| (t.0 as int, t.1 as int, t.2 as int, t.3 as int))
}

/// The shared area is never negative.
pub proof fn lemma_overlap_nonneg(x: int, y: int, w: int, h: int, used: Seq<(int, int, int, int)>)
    ensures
        overlap_sum(x, y, w, h, used) >= 0,
    decreases used.len(),
{
    if used.len() > 0 {
        lemma_overlap_nonneg(x, y, w, h, used.drop_last());
        let u = used.last();
        let ow = axis_overlap(x, w, u.0, u.2);
        let oh = axis_overlap(y, h, u.1, u.3);
        if ow > 0 && oh > 0 {
            assert(ow * oh > 0) by (nonlinear_arith)
                requires ow > 0, oh > 0;
        }
    }
}

/// The area shared with a list of rectangles is the area shared with its
/// first part plus the area shared with the rest.
pub proof fn lemma_overlap_additive(x: int, y: int, w: int, h: int, us: Seq<(int, int, int, int)>, vs: Seq<(int, int, int, int)>)
    ensures
        overlap_sum(x, y, w, h, us + vs) == overlap_sum(x, y, w, h, us) + overlap_sum(x, y, w, h, vs),
    decreases vs.len(),
{
    if vs.len() == 0 {
        assert(us + vs =~= us);
    } else {
        assert((us + vs).drop_last() =~= us + vs.drop_last());
        assert((us + vs).last() == vs.last());
        lemma_overlap_additive(x, y, w, h, us, vs.drop_last());
    }
}

/// Two rectangles share the same area whichever of them is measured
/// against the other, and nothing is shared with no rectangles.
pub proof fn lemma_overlap_symmetric(a: (int, int, int, int), b: (int, int, int, int))
    ensures
        overlap_sum(a.0, a.1, a.2, a.3, seq![b]) == overlap_sum(b.0, b.1, b.2, b.3, seq![a]),
        overlap_sum(a.0, a.1, a.2, a.3, Seq::<(int, int, int, int)>::empty()) == 0,
{
    let e = Seq::<(int, int, int, int)>::empty();
    let sb = seq![b];
    let sa = seq![a];
    assert(sb.len() == 1 && sa.len() == 1);
    assert(sb.drop_last() =~= e);
    assert(sa.drop_last() =~= e);
    assert(overlap_sum(a.0, a.1, a.2, a.3, e) == 0);
    assert(overlap_sum(b.0, b.1, b.2, b.3, e) == 0);
    assert(sb.last() == b);
    assert(sa.last() == a);
    assert(overlap_sum(a.0, a.1, a.2, a.3, sb) == overlap_term(a.0, a.1, a.2, a.3, b));
    assert(overlap_sum(b.0, b.1, b.2, b.3, sa) == overlap_term(b.0, b.1, b.2, b.3, a));
    let ow = axis_overlap(a.0, a.2, b.0, b.2);
    let oh = axis_overlap(a.1, a.3, b.1, b.3);
    assert(ow == axis_overlap(b.0, b.2, a.0, a.2));
    assert(oh == axis_overlap(b.1, b.3, a.1, a.3));
    assert(ow * oh == oh * ow) by (nonlinear_arith);
}

/// The area of one term, computed without overflow for `i32` inputs.
fn overlap_term_exec(x: i64, y: i64, w: i64, h: i64, u: (i32, i32, i32, i32)) -> (a: i64)
    requires
        in_i32(x as int), in_i32(y as int), in_i32(w as int), in_i32(h as int),
    ensures
        a == overlap_term(x as int, y as int, w as int, h as int, (u.0 as int, u.1 as int, u.2 as int, u.3 as int)),
        0 <= a <= 0x4000_0000_0000_0000,
{
    let ux = u.0 as i64;
    let uy = u.1 as i64;
    let uw = u.2 as i64;
    let uh = u.3 as i64;
    let ow = min64(x + w, ux + uw) - max64(x, ux);
    let oh = min64(y + h, uy + uh) - max64(y, uy);
    if ow > 0 && oh > 0 {
        assert(ow <= 0x8000_0000 && oh <= 0x8000_0000);
        assert(ow * oh <= 0x4000_0000_0000_0000) by (nonlinear_arith)
            requires 0 < ow <= 0x8000_0000, 0 < oh <= 0x8000_0000;
        ow * oh
    } else {
        0
    }
}

/// The overlap area, or `i32::MAX` when it is that much or more.
fn overlap_capped(x: i64, y: i64, w: i64, h: i64, used: &Vec<(i32, i32, i32, i32)>) -> (a: i64)
    requires
        in_i32(x as int), in_i32(y as int), in_i32(w as int), in_i32(h as int),
    ensures
        a == if overlap_sum(x as int, y as int, w as int, h as int, rects(used@)) <= i32::MAX {
            overlap_sum(x as int, y as int, w as int, h as int, rects(used@))
        } else {
            i32::MAX as int
        },
{
    let ghost r = rects(used@);
    let mut acc: i64 = 0;
    let mut k: usize = 0;
    while k < used.len()
        invariant
            k <= used@.len(),
            in_i32(x as int), in_i32(y as int), in_i32(w as int), in_i32(h as int),
            r == rects(used@),
            acc == if overlap_sum(x as int, y as int, w as int, h as int, r.take(k as int)) <= i32::MAX {
                overlap_sum(x as int, y as int, w as int, h as int, r.take(k as int))
            } else {
                i32::MAX as int
            },
        decreases used@.len() - k,
    {
        proof {
            assert(r.take(k as int + 1).drop_last() =~= r.take(k as int));
            assert(r.take(k as int + 1).last() == r[k as int]);
            lemma_overlap_nonneg(x as int, y as int, w as int, h as int, r.take(k as int));
        }
        let t = overlap_term_exec(x, y, w, h, used[k]);
        let s = acc + t;
        acc = if s <= 0x7fff_ffff { s } else { 0x7fff_ffff };
        k = k + 1;
    }
    proof { assert(r.take(used@.len() as int) =~= r); }
    acc
}

impl WindowPositioner {
    /// Total area that the rectangle at `(x, y)` of size `width` by `height`
    /// shares with the rectangles `used_positions` (x, y, width, height).
    pub fn calculate_overlap_area(x: i32, y: i32, width: i32, height: i32, used_positions: &Vec<(i32, i32, i32, i32)>) -> (a: i32)
        requires
            overlap_sum(x as int, y as int, width as int, height as int, rects(used_positions@)) <= i32::MAX,
        ensures
            a == overlap_sum(x as int, y as int, width as int, height as int, rects(used_positions@)),
    {
        proof { lemma_overlap_nonneg(x as int, y as int, width as int, height as int, rects(used_positions@)); }
        let a = overlap_capped(x as i64, y as i64, width as i64, height as i64, used_positions);
        a as i32
    }
}

// ----- overlap search ----------------------------------------------------

/// Number of positions tried along one axis: from `lo` to `hi` in steps of 50.
pub open spec fn span_count(lo: int, hi: int) -> int {
    if hi >= lo { (hi - lo) / 50 + 1 } else { 0 }
}

/// The first and last left edges tried for a window of width `w`, and the
/// first and last top edges for height `h`.
pub open spec fn x_lo(m: MonitorInfo, margin: int) -> int { m.x + margin }
pub open spec fn x_hi(m: MonitorInfo, margin: int, w: int) -> int { m.x + m.width - w - margin }
pub open spec fn y_lo(m: MonitorInfo, margin: int) -> int { m.y + margin }
pub open spec fn y_hi(m: MonitorInfo, margin: int, h: int) -> int { m.y + m.height - h - margin }

/// `(r, c)` names a tried position: row `r`, column `c`.
pub open spec fn in_grid(m: MonitorInfo, margin: int, w: int, h: int, r: int, c: int) -> bool {
    &&& 0 <= r < span_count(y_lo(m, margin), y_hi(m, margin, h))
    &&& 0 <= c < span_count(x_lo(m, margin), x_hi(m, margin, w))
}

/// The position of row `r`, column `c`.
pub open spec fn cand(m: MonitorInfo, margin: int, r: int, c: int) -> (int, int) {
    (x_lo(m, margin) + 50 * c, y_lo(m, margin) + 50 * r)
}

/// The overlap of a window placed at row `r`, column `c`.
pub open spec fn cost(used: Seq<(int, int, int, int)>, m: MonitorInfo, margin: int, w: int, h: int, r: int, c: int) -> int {
    overlap_sum(cand(m, margin, r, c).0, cand(m, margin, r, c).1, w, h, used)
}

/// Rows are tried top to bottom, and in each row columns left to right.
pub open spec fn lex_lt(r1: int, c1: int, r2: int, c2: int) -> bool {
    r1 < r2 || (r1 == r2 && c1 < c2)
}

/// `(r, c)` is the first tried position of least overlap, and that overlap is
/// below `i32::MAX`.
pub open spec fn is_first_best(used: Seq<(int, int, int, int)>, m: MonitorInfo, margin: int, w: int, h: int, r: int, c: int) -> bool {
    &&& in_grid(m, margin, w, h, r, c)
    &&& cost(used, m, margin, w, h, r, c) < i32::MAX
    &&& forall|r2: int, c2: int| in_grid(m, margin, w, h, r2, c2) && lex_lt(r2, c2, r, c)
        ==> #[trigger] cost(used, m, margin, w, h, r2, c2) > cost(used, m, margin, w, h, r, c)
    &&& forall|r2: int, c2: int| in_grid(m, margin, w, h, r2, c2)
        ==> #[trigger] cost(used, m, margin, w, h, r2, c2) >= cost(used, m, margin, w, h, r, c)
}

/// Where `Smart` puts a window of size `w` by `h` next to the rectangles
/// `used`: the first tried position of least overlap, or the top-left corner
/// inside the margin when no position is tried.
pub open spec fn smart_place(used: Seq<(int, int, int, int)>, m: MonitorInfo, margin: int, w: int, h: int) -> (int, int) {
    if exists|r: int, c: int| #[trigger] is_first_best(used, m, margin, w, h, r, c) {
        let (r, c) = choose|r: int, c: int| #[trigger] is_first_best(used, m, margin, w, h, r, c);
        cand(m, margin, r, c)
    } else {
        (x_lo(m, margin), y_lo(m, margin))
    }
}

/// The rectangles of the windows placed so far.
pub open spec fn used_of(pos: Seq<(int, int)>, sizes: Seq<(i32, i32)>) -> Seq<(int, int, int, int)> {
    Seq::new(pos.len(), |j: int| (pos[j].0, pos[j].1, sizes[j].0 as int, sizes[j].1 as int))
}

/// `Smart` placement of all windows, each next to those placed before it.
pub open spec fn smart_all(sizes: Seq<(i32, i32)>, m: MonitorInfo, margin: int) -> Seq<(int, int)>
    decreases sizes.len(),
{
    if sizes.len() == 0 {
        Seq::empty()
    } else {
        let prev = smart_all(sizes.drop_last(), m, margin);
        prev.push(smart_place(used_of(prev, sizes.drop_last()), m, margin, sizes.last().0 as int, sizes.last().1 as int))
    }
}

/// The corner and the last position tried for every window fit in `i32`.
pub open spec fn smart_fits(sizes: Seq<(i32, i32)>, m: MonitorInfo, margin: int) -> bool {
    &&& in_i32(x_lo(m, margin))
    &&& in_i32(y_lo(m, margin))
    &&& forall|i: int| 0 <= i < sizes.len() ==> in_i32(x_hi(m, margin, (#[trigger] sizes[i]).0 as int))
        && in_i32(y_hi(m, margin, sizes[i].1 as int))
}

proof fn lemma_smart_all_len(sizes: Seq<(i32, i32)>, m: MonitorInfo, margin: int)
    ensures
        smart_all(sizes, m, margin).len() == sizes.len(),
    decreases sizes.len(),
{
    if sizes.len() > 0 {
        lemma_smart_all_len(sizes.drop_last(), m, margin);
    }
}

proof fn lemma_first_best_unique(used: Seq<(int, int, int, int)>, m: MonitorInfo, margin: int, w: int, h: int, r: int, c: int, r2: int, c2: int)
    requires
        is_first_best(used, m, margin, w, h, r, c),
        is_first_best(used, m, margin, w, h, r2, c2),
    ensures
        r == r2 && c == c2,
{
    if lex_lt(r2, c2, r, c) {
        assert(cost(used, m, margin, w, h, r2, c2) > cost(used, m, margin, w, h, r, c));
        assert(cost(used, m, margin, w, h, r, c) >= cost(used, m, margin, w, h, r2, c2));
    } else if lex_lt(r, c, r2, c2) {
        assert(cost(used, m, margin, w, h, r, c) > cost(used, m, margin, w, h, r2, c2));
        assert(cost(used, m, margin, w, h, r2, c2) >= cost(used, m, margin, w, h, r, c));
    }
}

proof fn lemma_span(lo: int, hi: int, k: int)
    requires
        k >= 0,
    ensures
        (lo + 50 * k <= hi) == (k < span_count(lo, hi)),
{
    if hi >= lo {
        let q = (hi - lo) / 50;
        assert(50 * q <= hi - lo < 50 * q + 50);
    }
}

/// The `Smart` position for one window next to the rectangles `used`.
fn smart_place_exec(used: &Vec<(i32, i32, i32, i32)>, m: &MonitorInfo, margin: i32, w: i32, h: i32) -> (p: (i32, i32))
    requires
        in_i32(x_lo(*m, margin as int)),
        in_i32(y_lo(*m, margin as int)),
        in_i32(x_hi(*m, margin as int, w as int)),
        in_i32(y_hi(*m, margin as int, h as int)),
    ensures
        (p.0 as int, p.1 as int) == smart_place(rects(used@), *m, margin as int, w as int, h as int),
{
    let ghost u = rects(used@);
    let ghost mg = margin as int;
    let x0: i64 = m.x as i64 + margin as i64;
    let y0: i64 = m.y as i64 + margin as i64;
    let xh: i64 = m.x as i64 + m.width as i64 - w as i64 - margin as i64;
    let yh: i64 = m.y as i64 + m.height as i64 - h as i64 - margin as i64;
    let ghost nx = span_count(x0 as int, xh as int);
    let ghost ny = span_count(y0 as int, yh as int);
    let mut best: Option<(i32, i32)> = None;
    let mut min_ov: i64 = 0x7fff_ffff;
    let ghost mut br: int = 0;
    let ghost mut bc: int = 0;
    let mut y: i64 = y0;
    let ghost mut r: int = 0;
    proof { lemma_span(y0 as int, yh as int, 0); }
    while y <= yh
        invariant
            u == rects(used@),
            mg == margin as int,
            x0 == x_lo(*m, mg), y0 == y_lo(*m, mg),
            xh == x_hi(*m, mg, w as int), yh == y_hi(*m, mg, h as int),
            in_i32(x0 as int), in_i32(y0 as int), in_i32(xh as int), in_i32(yh as int),
            nx == span_count(x0 as int, xh as int), ny == span_count(y0 as int, yh as int),
            0 <= r <= ny,
            y == y0 + 50 * r,
            (y <= yh) == (r < ny),
            min_ov <= i32::MAX,
            best is Some ==> min_ov < i32::MAX,
            best is None ==> min_ov == i32::MAX
                && forall|r2: int, c2: int| in_grid(*m, mg, w as int, h as int, r2, c2) && lex_lt(r2, c2, r, 0)
                    ==> #[trigger] cost(u, *m, mg, w as int, h as int, r2, c2) >= i32::MAX,
            best matches Some(p) ==> {
                &&& in_grid(*m, mg, w as int, h as int, br, bc)
                &&& lex_lt(br, bc, r, 0)
                &&& (p.0 as int, p.1 as int) == cand(*m, mg, br, bc)
                &&& cost(u, *m, mg, w as int, h as int, br, bc) == min_ov
                &&& forall|r2: int, c2: int| in_grid(*m, mg, w as int, h as int, r2, c2) && lex_lt(r2, c2, br, bc)
                    ==> #[trigger] cost(u, *m, mg, w as int, h as int, r2, c2) > min_ov
                &&& forall|r2: int, c2: int| in_grid(*m, mg, w as int, h as int, r2, c2) && lex_lt(r2, c2, r, 0)
                    ==> #[trigger] cost(u, *m, mg, w as int, h as int, r2, c2) >= min_ov
            },
        decreases ny - r,
    {
        let mut x: i64 = x0;
        let ghost mut c: int = 0;
        proof { lemma_span(x0 as int, xh as int, 0); }
        while x <= xh
            invariant
                u == rects(used@),
                mg == margin as int,
                x0 == x_lo(*m, mg), y0 == y_lo(*m, mg),
                xh == x_hi(*m, mg, w as int), yh == y_hi(*m, mg, h as int),
                in_i32(x0 as int), in_i32(y0 as int), in_i32(xh as int), in_i32(yh as int),
                nx == span_count(x0 as int, xh as int), ny == span_count(y0 as int, yh as int),
                0 <= r < ny,
                y == y0 + 50 * r,
                y <= yh,
                0 <= c <= nx,
                x == x0 + 50 * c,
                (x <= xh) == (c < nx),
                min_ov <= i32::MAX,
                best is Some ==> min_ov < i32::MAX,
                best is None ==> min_ov == i32::MAX
                    && forall|r2: int, c2: int| in_grid(*m, mg, w as int, h as int, r2, c2) && lex_lt(r2, c2, r, c)
                        ==> #[trigger] cost(u, *m, mg, w as int, h as int, r2, c2) >= i32::MAX,
                best matches Some(p) ==> {
                    &&& in_grid(*m, mg, w as int, h as int, br, bc)
                    &&& lex_lt(br, bc, r, c)
                    &&& (p.0 as int, p.1 as int) == cand(*m, mg, br, bc)
                    &&& cost(u, *m, mg, w as int, h as int, br, bc) == min_ov
                    &&& forall|r2: int, c2: int| in_grid(*m, mg, w as int, h as int, r2, c2) && lex_lt(r2, c2, br, bc)
                        ==> #[trigger] cost(u, *m, mg, w as int, h as int, r2, c2) > min_ov
                    &&& forall|r2: int, c2: int| in_grid(*m, mg, w as int, h as int, r2, c2) && lex_lt(r2, c2, r, c)
                        ==> #[trigger] cost(u, *m, mg, w as int, h as int, r2, c2) >= min_ov
                },
            decreases nx - c,
        {
            let ov = overlap_capped(x, y, w as i64, h as i64, used);
            proof {
                assert(in_grid(*m, mg, w as int, h as int, r, c));
                assert(cand(*m, mg, r, c) == (x as int, y as int));
                lemma_overlap_nonneg(x as int, y as int, w as int, h as int, u);
            }
            if ov < min_ov {
                min_ov = ov;
                best = Some((x as i32, y as i32));
                proof {
                    br = r;
                    bc = c;
                }
            }
            proof {
                assert(cost(u, *m, mg, w as int, h as int, r, c) >= ov);
                lemma_span(x0 as int, xh as int, c + 1);
            }
            x = x + 50;
            proof { c = c + 1; }
        }
        proof {
            assert forall|r2: int, c2: int| in_grid(*m, mg, w as int, h as int, r2, c2) && lex_lt(r2, c2, r + 1, 0)
                implies lex_lt(r2, c2, r, c) by {}
            lemma_span(y0 as int, yh as int, r + 1);
        }
        y = y + 50;
        proof { r = r + 1; }
    }
    proof {
        assert forall|r2: int, c2: int| in_grid(*m, mg, w as int, h as int, r2, c2) implies lex_lt(r2, c2, r, 0) by {}
    }
    match best {
        Some(p) => {
            proof {
                assert(is_first_best(u, *m, mg, w as int, h as int, br, bc));
                let (r1, c1) = choose|r1: int, c1: int| #[trigger] is_first_best(u, *m, mg, w as int, h as int, r1, c1);
                lemma_first_best_unique(u, *m, mg, w as int, h as int, br, bc, r1, c1);
            }
            p
        },
        None => {
            proof {
                if exists|r1: int, c1: int| #[trigger] is_first_best(u, *m, mg, w as int, h as int, r1, c1) {
                    let (r1, c1) = choose|r1: int, c1: int| #[trigger] is_first_best(u, *m, mg, w as int, h as int, r1, c1);
                    assert(cost(u, *m, mg, w as int, h as int, r1, c1) >= i32::MAX);
                }
            }
            (x0 as i32, y0 as i32)
        },
    }
}

// ----- the strategies ----------------------------------------------------

proof fn lemma_grid_cols_unique(n: int, a: int, b: int)
    requires
        is_grid_cols(n, a),
        is_grid_cols(n, b),
    ensures
        a == b,
{
    if a < b {
        assert((b - 1) * (b - 1) >= a * a) by (nonlinear_arith)
            requires 1 <= a <= b - 1;
    } else if b < a {
        assert((a - 1) * (a - 1) >= b * b) by (nonlinear_arith)
            requires 1 <= b <= a - 1;
    }
}

proof fn lemma_tdiv_bound(a: int, b: int)
    requires
        b >= 1,
    ensures
        a >= 0 ==> 0 <= div_toward_zero(a, b) <= a,
        a < 0 ==> a <= div_toward_zero(a, b) <= 0,
{
    if a >= 0 {
        assert(a / b <= a) by (nonlinear_arith) requires a >= 0, b >= 1;
        assert(a / b >= 0) by (nonlinear_arith) requires a >= 0, b >= 1;
    } else {
        assert((-a) / b <= -a) by (nonlinear_arith) requires -a >= 0, b >= 1;
        assert((-a) / b >= 0) by (nonlinear_arith) requires -a >= 0, b >= 1;
    }
}

/// The number of grid columns for `n >= 1` windows.
fn grid_cols_exec(n: u64) -> (c: u64)
    requires
        1 <= n <= i32::MAX,
    ensures
        c as int == grid_cols(n as int),
        1 <= c <= n,
{
    let mut c: u64 = 1;
    while c * c < n
        invariant
            1 <= n <= i32::MAX,
            1 <= c <= n,
            c * c <= 0x4000_0000_0000_0000,
            (c - 1) * (c - 1) < n,
        decreases n - c,
    {
        assert(c < n) by (nonlinear_arith)
            requires c * c < n, c >= 1;
        assert(c * c < n);
        c = c + 1;
        assert(c * c <= 0x4000_0000_0000_0000) by (nonlinear_arith)
            requires c <= n, n <= 0x7fff_ffff;
    }
    proof {
        assert(is_grid_cols(n as int, c as int));
        let g = grid_cols(n as int);
        lemma_grid_cols_unique(n as int, c as int, g);
    }
    c
}

fn distribute_positions(n: usize, m: &MonitorInfo, margin: i32) -> (r: Vec<(i32, i32)>)
    requires
        n <= i32::MAX,
        forall|i: int| 0 <= i < n ==> pair_in_i32(#[trigger] distribute_at(*m, margin as int, n as int, i)),
    ensures
        r@.len() == n,
        forall|i: int| 0 <= i < n ==> (r@[i].0 as int, r@[i].1 as int) == #[trigger] distribute_at(*m, margin as int, n as int, i),
{
    let mut r: Vec<(i32, i32)> = Vec::new();
    if n == 0 {
        return r;
    }
    let cnt = n as i64;
    let ix = tdiv(m.width as i64 - 2 * (margin as i64), cnt + 1);
    let iy = tdiv(m.height as i64 - 2 * (margin as i64), cnt + 1);
    let mut i: usize = 0;
    while i < n
        invariant
            n <= i32::MAX,
            cnt == n,
            ix == div_toward_zero(m.width - 2 * margin, n + 1),
            iy == div_toward_zero(m.height - 2 * margin, n + 1),
            forall|i: int| 0 <= i < n ==> pair_in_i32(#[trigger] distribute_at(*m, margin as int, n as int, i)),
            i <= n,
            r@.len() == i,
            forall|j: int| 0 <= j < i ==> (r@[j].0 as int, r@[j].1 as int) == #[trigger] distribute_at(*m, margin as int, n as int, j),
        decreases n - i,
    {
        assert(pair_in_i32(distribute_at(*m, margin as int, n as int, i as int)));
        let k = (i as i64) + 1;
        let x = m.x as i64 + margin as i64 + ix * k;
        let y = m.y as i64 + margin as i64 + iy * k;
        r.push((x as i32, y as i32));
        i = i + 1;
    }
    r
}

fn grid_positions(n: usize, m: &MonitorInfo, margin: i32) -> (r: Vec<(i32, i32)>)
    requires
        n <= i32::MAX,
        forall|i: int| 0 <= i < n ==> pair_in_i32(#[trigger] grid_at(*m, margin as int, n as int, i)),
    ensures
        r@.len() == n,
        forall|i: int| 0 <= i < n ==> (r@[i].0 as int, r@[i].1 as int) == #[trigger] grid_at(*m, margin as int, n as int, i),
{
    let mut r: Vec<(i32, i32)> = Vec::new();
    if n == 0 {
        return r;
    }
    let cols = grid_cols_exec(n as u64);
    let rows = (n as u64 + cols - 1) / cols;
    proof {
        let num: int = n as int + cols as int - 1;
        let d: int = cols as int;
        assert(num / d >= 1) by (nonlinear_arith)
            requires num >= d, d >= 1;
        assert(rows as int == num / d);
    }
    let cw = tdiv(m.width as i64 - 2 * (margin as i64), cols as i64);
    let ch = tdiv(m.height as i64 - 2 * (margin as i64), rows as i64);
    proof {
        lemma_tdiv_bound(m.width - 2 * margin, cols as int);
        lemma_tdiv_bound(m.height - 2 * margin, rows as int);
    }
    let mut i: usize = 0;
    while i < n
        invariant
            1 <= n <= i32::MAX,
            cols as int == grid_cols(n as int),
            1 <= cols <= n,
            rows as int == grid_rows(n as int, cols as int),
            cw == div_toward_zero(m.width - 2 * margin, cols as int),
            ch == div_toward_zero(m.height - 2 * margin, rows as int),
            -0x4_0000_0000 <= cw <= 0x4_0000_0000,
            -0x4_0000_0000 <= ch <= 0x4_0000_0000,
            forall|i: int| 0 <= i < n ==> pair_in_i32(#[trigger] grid_at(*m, margin as int, n as int, i)),
            i <= n,
            r@.len() == i,
            forall|j: int| 0 <= j < i ==> (r@[j].0 as int, r@[j].1 as int) == #[trigger] grid_at(*m, margin as int, n as int, j),
        decreases n - i,
    {
        assert(pair_in_i32(grid_at(*m, margin as int, n as int, i as int)));
        let row = (i as u64 / cols) as i64;
        let col = (i as u64 % cols) as i64;
        let x = m.x as i64 + margin as i64 + cw * col + tdiv(cw, 4);
        let y = m.y as i64 + margin as i64 + ch * row + tdiv(ch, 4);
        r.push((x as i32, y as i32));
        i = i + 1;
    }
    r
}

fn cascade_positions(n: usize, m: &MonitorInfo, margin: i32) -> (r: Vec<(i32, i32)>)
    requires
        n <= i32::MAX,
        forall|i: int| 0 <= i < n ==> pair_in_i32(#[trigger] cascade_at(*m, margin as int, i)),
    ensures
        r@.len() == n,
        forall|i: int| 0 <= i < n ==> (r@[i].0 as int, r@[i].1 as int) == #[trigger] cascade_at(*m, margin as int, i),
{
    let mut r: Vec<(i32, i32)> = Vec::new();
    let mut i: usize = 0;
    while i < n
        invariant
            n <= i32::MAX,
            forall|i: int| 0 <= i < n ==> pair_in_i32(#[trigger] cascade_at(*m, margin as int, i)),
            i <= n,
            r@.len() == i,
            forall|j: int| 0 <= j < i ==> (r@[j].0 as int, r@[j].1 as int) == #[trigger] cascade_at(*m, margin as int, j),
        decreases n - i,
    {
        assert(pair_in_i32(cascade_at(*m, margin as int, i as int)));
        let x = m.x as i64 + margin as i64 + 40 * (i as i64);
        let y = m.y as i64 + margin as i64 + 40 * (i as i64);
        r.push((x as i32, y as i32));
        i = i + 1;
    }
    r
}

fn center_positions(n: usize, m: &MonitorInfo) -> (r: Vec<(i32, i32)>)
    requires
        n > 0 ==> pair_in_i32(center_at(*m)),
    ensures
        r@.len() == n,
        forall|i: int| 0 <= i < n ==> (r@[i].0 as int, r@[i].1 as int) == center_at(*m),
{
    let mut r: Vec<(i32, i32)> = Vec::new();
    let mut i: usize = 0;
    while i < n
        invariant
            n > 0 ==> pair_in_i32(center_at(*m)),
            i <= n,
            r@.len() == i,
            forall|j: int| 0 <= j < i ==> (r@[j].0 as int, r@[j].1 as int) == center_at(*m),
        decreases n - i,
    {
        let x = m.x as i64 + tdiv(m.width as i64, 2);
        let y = m.y as i64 + tdiv(m.height as i64, 2);
        r.push((x as i32, y as i32));
        i = i + 1;
    }
    r
}

fn smart_positions(windows: &Vec<WindowInfo>, m: &MonitorInfo, margin: i32) -> (r: Vec<(i32, i32)>)
    requires
        smart_fits(sizes_of(windows@), *m, margin as int),
    ensures
        r@.len() == windows@.len(),
        forall|i: int| 0 <= i < windows@.len() ==> (r@[i].0 as int, r@[i].1 as int) == #[trigger] smart_all(sizes_of(windows@), *m, margin as int)[i],
{
    let ghost sizes = sizes_of(windows@);
    let mut positions: Vec<(i32, i32)> = Vec::new();
    let mut used: Vec<(i32, i32, i32, i32)> = Vec::new();
    let mut i: usize = 0;
    while i < windows.len()
        invariant
            sizes == sizes_of(windows@),
            smart_fits(sizes, *m, margin as int),
            i <= windows@.len(),
            positions@.len() == i,
            smart_all(sizes.take(i as int), *m, margin as int).len() == i,
            forall|j: int| 0 <= j < i ==> (positions@[j].0 as int, positions@[j].1 as int) == #[trigger] smart_all(sizes.take(i as int), *m, margin as int)[j],
            rects(used@) == used_of(smart_all(sizes.take(i as int), *m, margin as int), sizes.take(i as int)),
        decreases windows@.len() - i,
    {
        let (w, h) = windows[i].size;
        proof {
            assert(sizes[i as int] == (w, h));
            assert(in_i32(x_hi(*m, margin as int, sizes[i as int].0 as int)));
        }
        let p = smart_place_exec(&used, m, margin, w, h);
        let ghost prev = smart_all(sizes.take(i as int), *m, margin as int);
        let ghost old_used = used@;
        positions.push(p);
        used.push((p.0, p.1, w, h));
        proof {
            let t = sizes.take(i as int + 1);
            assert(t.drop_last() =~= sizes.take(i as int));
            assert(t.last() == (w, h));
            let next = smart_all(t, *m, margin as int);
            assert(next == prev.push(smart_place(used_of(prev, sizes.take(i as int)), *m, margin as int, w as int, h as int)));
            assert forall|j: int| 0 <= j < i + 1 implies (positions@[j].0 as int, positions@[j].1 as int) == #[trigger] next[j] by {
                }
            lemma_smart_all_len(t, *m, margin as int);
            assert(rects(old_used).len() == old_used.len());
            assert(rects(used@).len() == used_of(next, t).len());
            assert forall|j: int| 0 <= j < i + 1 implies #[trigger] rects(used@)[j] == used_of(next, t)[j] by {
                if j < i {
                    assert(used@[j] == old_used[j]);
                    assert(next[j] == prev[j]);
                    assert(t[j] == sizes.take(i as int)[j]);
                    assert(rects(old_used)[j] == used_of(prev, sizes.take(i as int))[j]);
                } else {
                    assert(used@[j] == (p.0, p.1, w, h));
                }
            }
            assert(rects(used@) =~= used_of(next, t));
        }
        i = i + 1;
    }
    proof {
        assert(sizes.take(windows@.len() as int) =~= sizes);
    }
    positions
}

fn fits_i32(v: i128) -> (b: bool)
    ensures
        b == in_i32(v as int),
{
    -2147483648i128 <= v && v <= 2147483647i128
}

/// Whether `calculate_positions` may be called: every position it computes
/// fits in `i32` (see `positions_fit`).
pub fn positions_fit_check(strategy: &RescueStrategy, windows: &Vec<WindowInfo>, monitor: &MonitorInfo, margin: i32) -> (b: bool)
    requires
        windows@.len() <= i32::MAX,
    ensures
        b == positions_fit(*strategy, sizes_of(windows@), *monitor, margin as int),
{
    let n = windows.len();
    let ghost sizes = sizes_of(windows@);
    let ghost ps = positions_of(*strategy, sizes, *monitor, margin as int);
    let m = monitor;
    let mx = m.x as i128;
    let my = m.y as i128;
    let mg = margin as i128;
    match strategy {
        RescueStrategy::Restore | RescueStrategy::Smart => {
            if !fits_i32(mx + mg) || !fits_i32(my + mg) {
                return false;
            }
            let mut i: usize = 0;
            while i < n
                invariant
                    n == windows@.len(),
                    sizes == sizes_of(windows@),
                    sizes.len() == n,
                    *strategy == RescueStrategy::Restore || *strategy == RescueStrategy::Smart,
                    m == monitor,
                    mx == m.x, my == m.y, mg == margin,
                    i <= n,
                    forall|j: int| 0 <= j < i ==> in_i32(x_hi(*m, margin as int, (#[trigger] sizes[j]).0 as int))
                        && in_i32(y_hi(*m, margin as int, sizes[j].1 as int)),
                decreases n - i,
            {
                let (w, h) = windows[i].size;
                assert(sizes[i as int] == (w, h));
                if !fits_i32(mx + m.width as i128 - w as i128 - mg) || !fits_i32(my + m.height as i128 - h as i128 - mg) {
                    return false;
                }
                i = i + 1;
            }
            true
        },
        RescueStrategy::Center => {
            if n == 0 {
                return true;
            }
            assert(ps[0] == center_at(*m));
            fits_i32(mx + tdiv(m.width as i64, 2) as i128) && fits_i32(my + tdiv(m.height as i64, 2) as i128)
        },
        RescueStrategy::Cascade => {
            let mut i: usize = 0;
            while i < n
                invariant
                    n == windows@.len(),
                    n <= i32::MAX,
                    ps == positions_of(*strategy, sizes, *m, margin as int),
                    sizes == sizes_of(windows@),
                    sizes.len() == n,
                    *strategy == RescueStrategy::Cascade,
                    m == monitor,
                    mx == m.x, my == m.y, mg == margin,
                    i <= n,
                    forall|j: int| 0 <= j < i ==> pair_in_i32(#[trigger] ps[j]),
                decreases n - i,
            {
                assert(ps[i as int] == cascade_at(*m, margin as int, i as int));
                let k = 40 * (i as i128);
                if !fits_i32(mx + mg + k) || !fits_i32(my + mg + k) {
                    return false;
                }
                i = i + 1;
            }
            true
        },
        RescueStrategy::Distribute => {
            if n == 0 {
                return true;
            }
            let cnt = n as i64;
            let ix = tdiv(m.width as i64 - 2 * (margin as i64), cnt + 1) as i128;
            let iy = tdiv(m.height as i64 - 2 * (margin as i64), cnt + 1) as i128;
            proof {
                lemma_tdiv_bound(m.width - 2 * margin, n + 1);
                lemma_tdiv_bound(m.height - 2 * margin, n + 1);
            }
            let mut i: usize = 0;
            while i < n
                invariant
                    n == windows@.len(),
                    n <= i32::MAX,
                    ps == positions_of(*strategy, sizes, *m, margin as int),
                    sizes == sizes_of(windows@),
                    sizes.len() == n,
                    *strategy == RescueStrategy::Distribute,
                    m == monitor,
                    mx == m.x, my == m.y, mg == margin,
                    ix == div_toward_zero(m.width - 2 * margin, n + 1),
                    iy == div_toward_zero(m.height - 2 * margin, n + 1),
                    -0x4_0000_0000 <= ix <= 0x4_0000_0000,
                    -0x4_0000_0000 <= iy <= 0x4_0000_0000,
                    i <= n,
                    forall|j: int| 0 <= j < i ==> pair_in_i32(#[trigger] ps[j]),
                decreases n - i,
            {
                assert(ps[i as int] == distribute_at(*m, margin as int, n as int, i as int));
                let k = (i as i128) + 1;
                assert(-0x4_0000_0000 * 0x8000_0000 <= ix * k <= 0x4_0000_0000 * 0x8000_0000) by (nonlinear_arith)
                    requires -0x4_0000_0000 <= ix <= 0x4_0000_0000, 1 <= k <= 0x8000_0000;
                assert(-0x4_0000_0000 * 0x8000_0000 <= iy * k <= 0x4_0000_0000 * 0x8000_0000) by (nonlinear_arith)
                    requires -0x4_0000_0000 <= iy <= 0x4_0000_0000, 1 <= k <= 0x8000_0000;
                if !fits_i32(mx + mg + ix * k) || !fits_i32(my + mg + iy * k) {
                    return false;
                }
                i = i + 1;
            }
            true
        },
        RescueStrategy::Grid => {
            if n == 0 {
                return true;
            }
            let cols = grid_cols_exec(n as u64);
            let rows = (n as u64 + cols - 1) / cols;
            proof {
                let num: int = n as int + cols as int - 1;
                let d: int = cols as int;
                assert(num / d >= 1) by (nonlinear_arith)
                    requires num >= d, d >= 1;
                assert(rows as int == num / d);
            }
            let cw = tdiv(m.width as i64 - 2 * (margin as i64), cols as i64);
            let ch = tdiv(m.height as i64 - 2 * (margin as i64), rows as i64);
            proof {
                lemma_tdiv_bound(m.width - 2 * margin, cols as int);
                lemma_tdiv_bound(m.height - 2 * margin, rows as int);
            }
            let qw = tdiv(cw, 4) as i128;
            let qh = tdiv(ch, 4) as i128;
            let mut i: usize = 0;
            while i < n
                invariant
                    n == windows@.len(),
                    1 <= n <= i32::MAX,
                    ps == positions_of(*strategy, sizes, *m, margin as int),
                    sizes == sizes_of(windows@),
                    sizes.len() == n,
                    *strategy == RescueStrategy::Grid,
                    m == monitor,
                    mx == m.x, my == m.y, mg == margin,
                    cols as int == grid_cols(n as int),
                    1 <= cols <= n,
                    rows as int == grid_rows(n as int, cols as int),
                    cw == div_toward_zero(m.width - 2 * margin, cols as int),
                    ch == div_toward_zero(m.height - 2 * margin, rows as int),
                    qw == div_toward_zero(cw as int, 4),
                    qh == div_toward_zero(ch as int, 4),
                    -0x4_0000_0000 <= cw <= 0x4_0000_0000,
                    -0x4_0000_0000 <= ch <= 0x4_0000_0000,
                    i <= n,
                    forall|j: int| 0 <= j < i ==> pair_in_i32(#[trigger] ps[j]),
                decreases n - i,
            {
                assert(ps[i as int] == grid_at(*m, margin as int, n as int, i as int));
                let row = (i as u64 / cols) as i128;
                let col = (i as u64 % cols) as i128;
                assert(row <= i) by (nonlinear_arith)
                    requires row == i as int / cols as int, cols >= 1, i >= 0;
                let cwi = cw as i128;
                let chi = ch as i128;
                assert(-0x4_0000_0000 * 0x8000_0000 <= cwi * col <= 0x4_0000_0000 * 0x8000_0000) by (nonlinear_arith)
                    requires -0x4_0000_0000 <= cwi <= 0x4_0000_0000, 0 <= col <= 0x8000_0000;
                assert(-0x4_0000_0000 * 0x8000_0000 <= chi * row <= 0x4_0000_0000 * 0x8000_0000) by (nonlinear_arith)
                    requires -0x4_0000_0000 <= chi <= 0x4_0000_0000, 0 <= row <= 0x8000_0000;
                if !fits_i32(mx + mg + cwi * col + qw) || !fits_i32(my + mg + chi * row + qh) {
                    return false;
                }
                i = i + 1;
            }
            true
        },
    }
}

impl WindowPositioner {
    /// Where `strategy` puts `windows` on `monitor`, keeping `margin` from
    /// its edges (see `positions_of`).
    pub fn calculate_positions(strategy: &RescueStrategy, windows: &Vec<WindowInfo>, monitor: &MonitorInfo, margin: i32) -> (r: Vec<(i32, i32)>)
        requires
            windows@.len() <= i32::MAX,
            positions_fit(*strategy, sizes_of(windows@), *monitor, margin as int),
        ensures
            r@.len() == windows@.len(),
            forall|i: int| 0 <= i < windows@.len() ==> (r@[i].0 as int, r@[i].1 as int)
                == #[trigger] positions_of(*strategy, sizes_of(windows@), *monitor, margin as int)[i],
    {
        let n = windows.len();
        let ghost sizes = sizes_of(windows@);
        match strategy {
            RescueStrategy::Distribute => {
                proof {
                    assert forall|i: int| 0 <= i < n implies pair_in_i32(#[trigger] distribute_at(*monitor, margin as int, n as int, i)) by {
                        assert(positions_of(*strategy, sizes, *monitor, margin as int)[i] == distribute_at(*monitor, margin as int, n as int, i));
                    }
                }
                distribute_positions(n, monitor, margin)
            },
            RescueStrategy::Grid => {
                proof {
                    assert forall|i: int| 0 <= i < n implies pair_in_i32(#[trigger] grid_at(*monitor, margin as int, n as int, i)) by {
                        assert(positions_of(*strategy, sizes, *monitor, margin as int)[i] == grid_at(*monitor, margin as int, n as int, i));
                    }
                }
                grid_positions(n, monitor, margin)
            },
            RescueStrategy::Cascade => {
                proof {
                    assert forall|i: int| 0 <= i < n implies pair_in_i32(#[trigger] cascade_at(*monitor, margin as int, i)) by {
                        assert(positions_of(*strategy, sizes, *monitor, margin as int)[i] == cascade_at(*monitor, margin as int, i));
                    }
                }
                cascade_positions(n, monitor, margin)
            },
            RescueStrategy::Center => {
                proof {
                    if n > 0 {
                        assert(positions_of(*strategy, sizes, *monitor, margin as int)[0] == center_at(*monitor));
                    }
                }
                center_positions(n, monitor)
            },
            RescueStrategy::Restore => smart_positions(windows, monitor, margin),
            RescueStrategy::Smart => smart_positions(windows, monitor, margin),
        }
    }
}

// ---------------------------------------------------------------------------
// Commands
// ---------------------------------------------------------------------------

/// The strategy's name as `Debug` writes it.
pub open spec fn strategy_name(s: RescueStrategy) -> Seq<char> {
    match s {
        RescueStrategy::Distribute => "Distribute"@,
        RescueStrategy::Grid => "Grid"@,
        RescueStrategy::Cascade => "Cascade"@,
        RescueStrategy::Center => "Center"@,
        RescueStrategy::Restore => "Restore"@,
        RescueStrategy::Smart => "Smart"@,
    }
}

/// The strategy a lowercase word names.
pub open spec fn strategy_named(s: Seq<char>) -> Option<RescueStrategy> {
    if s == "distribute"@ { Some(RescueStrategy::Distribute) }
    else if s == "grid"@ { Some(RescueStrategy::Grid) }
    else if s == "cascade"@ { Some(RescueStrategy::Cascade) }
    else if s == "center"@ { Some(RescueStrategy::Center) }
    else if s == "restore"@ { Some(RescueStrategy::Restore) }
    else if s == "smart"@ { Some(RescueStrategy::Smart) }
    else { None }
}

/// The strategy named by an already lowercased word.
pub fn strategy_from_lowercase(word: &str) -> (r: Option<RescueStrategy>)
    ensures
        r == strategy_named(word@),
{
    let w = chars_of(word);
    if chars_eq(&w, &chars_of("distribute")) { Some(RescueStrategy::Distribute) }
    else if chars_eq(&w, &chars_of("grid")) { Some(RescueStrategy::Grid) }
    else if chars_eq(&w, &chars_of("cascade")) { Some(RescueStrategy::Cascade) }
    else if chars_eq(&w, &chars_of("center")) { Some(RescueStrategy::Center) }
    else if chars_eq(&w, &chars_of("restore")) { Some(RescueStrategy::Restore) }
    else if chars_eq(&w, &chars_of("smart")) { Some(RescueStrategy::Smart) }
    else { None }
}

/// Appends the strategy's `Debug` name.
pub fn append_strategy_name(out: &mut String, s: RescueStrategy)
    ensures
        final(out)@ == old(out)@ + strategy_name(s),
{
    match s {
        RescueStrategy::Distribute => append_str(out, "Distribute"),
        RescueStrategy::Grid => append_str(out, "Grid"),
        RescueStrategy::Cascade => append_str(out, "Cascade"),
        RescueStrategy::Center => append_str(out, "Center"),
        RescueStrategy::Restore => append_str(out, "Restore"),
        RescueStrategy::Smart => append_str(out, "Smart"),
    }
}

/// The `strategy` command: with an argument, the strategy it names in any
/// letter case becomes current and is reported; without one, the current
/// strategy is reported. An unknown name is an error.
pub fn strategy_command(current: RescueStrategy, arg: Option<&str>) -> (r: Result<(RescueStrategy, String), String>)
    ensures
        match arg {
            None => r matches Ok((s, msg)) && s == current && msg@ == "Current strategy: "@ + strategy_name(current),
            Some(a) => match strategy_named(lowercase(a@)) {
                Some(s) => r matches Ok((t, msg)) && t == s && msg@ == "\u{2705} Rescue strategy set to: "@ + strategy_name(s),
                None => r matches Err(e) && e@ == "Unknown strategy: "@ + a@,
            },
        },
{
    let mut msg = String::new();
    match arg {
        None => {
            append_str(&mut msg, "Current strategy: ");
            append_strategy_name(&mut msg, current);
            Ok((current, msg))
        },
        Some(a) => {
            let lower = to_lowercase(a);
            match strategy_from_lowercase(lower.as_str()) {
                Some(s) => {
                    append_str(&mut msg, "\u{2705} Rescue strategy set to: ");
                    append_strategy_name(&mut msg, s);
                    Ok((s, msg))
                },
                None => {
                    append_str(&mut msg, "Unknown strategy: ");
                    append_str(&mut msg, a);
                    Err(msg)
                },
            }
        },
    }
}

/// Whether an automatic check is due: never checked, or at least
/// `interval` seconds since the last one.
pub fn should_check(elapsed_since_last: Option<u64>, interval: u64) -> (b: bool)
    ensures
        b == match elapsed_since_last { Some(e) => e >= interval, None => true },
{
    match elapsed_since_last {
        Some(e) => e >= interval,
        None => true,
    }
}


// ---------------------------------------------------------------------------
// Reports
// ---------------------------------------------------------------------------

/// The line of the listing for lost window `w`, the `i`-th (from 0).
pub open spec fn lost_line(i: nat, w: WindowInfo) -> Seq<char> {
    "["@ + nat_digits(i + 1) + "] "@ + w.title@ + " ("@ + w.address@ + ")\n    Class: "@ + w.class@ + " | Position: ("@
        + int_text(w.position.0 as int) + ", "@ + int_text(w.position.1 as int) + ") | Size: "@ + int_text(w.size.0 as int)
        + "x"@ + int_text(w.size.1 as int) + "\n"@
}

pub open spec fn lost_lines(ws: Seq<WindowInfo>) -> Seq<char>
    decreases ws.len(),
{
    if ws.len() == 0 { Seq::empty() } else { lost_lines(ws.drop_last()) + lost_line((ws.len() - 1) as nat, ws.last()) }
}

/// The answer to `list`: every lost window numbered, or that there is none.
pub open spec fn lost_listing_text(ws: Seq<WindowInfo>) -> Seq<char> {
    if ws.len() == 0 {
        "\u{2705} No lost windows found"@
    } else {
        "\u{1f50d} Found "@ + nat_digits(ws.len()) + " lost windows:\n\n"@ + lost_lines(ws)
            + "\nUse 'lost_windows recover' to rescue these windows\n"@
    }
}

#[verifier::rlimit(40)]
fn lost_line_text(i: usize, w: &WindowInfo) -> (s: String)
    requires
        i < u64::MAX,
    ensures
        s@ == lost_line(i as nat, *w),
{
    let mut s = owned("[");
    append_nat(&mut s, i as u64 + 1);
    append_str(&mut s, "] ");
    append_str(&mut s, w.title.as_str());
    append_str(&mut s, " (");
    append_str(&mut s, w.address.as_str());
    append_str(&mut s, ")\n    Class: ");
    append_str(&mut s, w.class.as_str());
    append_str(&mut s, " | Position: (");
    append_int(&mut s, w.position.0 as i64);
    append_str(&mut s, ", ");
    append_int(&mut s, w.position.1 as i64);
    append_str(&mut s, ") | Size: ");
    append_int(&mut s, w.size.0 as i64);
    append_str(&mut s, "x");
    append_int(&mut s, w.size.1 as i64);
    append_str(&mut s, "\n");
    assert(s@ =~= lost_line(i as nat, *w));
    s
}

/// The answer to `list` for the lost windows `lost` (see `lost_listing_text`).
pub fn lost_listing(lost: &Vec<WindowInfo>) -> (s: String)
    ensures
        s@ == lost_listing_text(lost@),
{
    if lost.len() == 0 {
        return owned("\u{2705} No lost windows found");
    }
    let mut s = owned("\u{1f50d} Found ");
    append_nat(&mut s, lost.len() as u64);
    append_str(&mut s, " lost windows:\n\n");
    let ghost head = s@;
    let mut i: usize = 0;
    while i < lost.len()
        invariant
            i <= lost@.len(),
            s@ == head + lost_lines(lost@.take(i as int)),
        decreases lost@.len() - i,
    {
        let ghost t = lost@.take(i as int + 1);
        assert(t.drop_last() =~= lost@.take(i as int));
        let line = lost_line_text(i, &lost[i]);
        append_str(&mut s, line.as_str());
        i = i + 1;
    }
    assert(lost@.take(lost@.len() as int) =~= lost@);
    append_str(&mut s, "\nUse 'lost_windows recover' to rescue these windows\n");
    s
}


/// A command of the lost-windows plugin.
#[derive(Debug)]
pub enum LostCommand {
    List,
    /// `recover` or `rescue`.
    Recover,
    Status,
    Enable,
    Disable,
    /// `strategy`, with the strategy name given, if any.
    Strategy(Option<String>),
    Check,
}

/// Reads a command of the lost-windows plugin; an unknown word is an error
/// that lists the commands.
pub fn parse_command(command: &str, args: &Vec<String>) -> (r: Result<LostCommand, String>)
    ensures
        match r {
            Ok(LostCommand::List) => command@ == "list"@,
            Ok(LostCommand::Recover) => command@ == "recover"@ || command@ == "rescue"@,
            Ok(LostCommand::Status) => command@ == "status"@,
            Ok(LostCommand::Enable) => command@ == "enable"@,
            Ok(LostCommand::Disable) => command@ == "disable"@,
            Ok(LostCommand::Strategy(a)) => command@ == "strategy"@ && opt_chars(a) == (if args@.len() > 0 { Some(args@[0]@) } else { None }),
            Ok(LostCommand::Check) => command@ == "check"@,
            Err(e) => command@ != "list"@ && command@ != "recover"@ && command@ != "rescue"@ && command@ != "status"@
                && command@ != "enable"@ && command@ != "disable"@ && command@ != "strategy"@ && command@ != "check"@
                && e@ == "Unknown lost_windows command: "@ + command@
                    + ". Available: list, recover, status, enable, disable, strategy, check"@,
        },
{
    let v = chars_of(command);
    if str_eq("list", &v) {
        Ok(LostCommand::List)
    } else if str_eq("recover", &v) || str_eq("rescue", &v) {
        Ok(LostCommand::Recover)
    } else if str_eq("status", &v) {
        Ok(LostCommand::Status)
    } else if str_eq("enable", &v) {
        Ok(LostCommand::Enable)
    } else if str_eq("disable", &v) {
        Ok(LostCommand::Disable)
    } else if str_eq("strategy", &v) {
        let a = if args.len() > 0 { Some(copy_string(&args[0])) } else { None };
        Ok(LostCommand::Strategy(a))
    } else if str_eq("check", &v) {
        Ok(LostCommand::Check)
    } else {
        let mut e = owned("Unknown lost_windows command: ");
        append_str(&mut e, command);
        append_str(&mut e, ". Available: list, recover, status, enable, disable, strategy, check");
        Err(e)
    }
}

// ----- laws of the placement strategies ------------------------------------

/// `Center` puts every window at the monitor's centre,
/// `(m.x + m.width / 2, m.y + m.height / 2)`, a point of the monitor.
pub proof fn lemma_center_is_monitor_centre(sizes: Seq<(i32, i32)>, m: MonitorInfo, margin: int, i: int)
    requires
        0 <= i < sizes.len(),
        m.width >= 0,
        m.height >= 0,
    ensures
        positions_of(RescueStrategy::Center, sizes, m, margin)[i] == (m.x + (m.width as int) / 2, m.y + (m.height as int) / 2),
        m.width > 0 ==> m.x <= positions_of(RescueStrategy::Center, sizes, m, margin)[i].0 < m.x + m.width,
        m.height > 0 ==> m.y <= positions_of(RescueStrategy::Center, sizes, m, margin)[i].1 < m.y + m.height,
{
}

/// Apart from the overlap search, where a strategy puts the windows depends on
/// the monitor only through its size: on a monitor of the same size elsewhere,
/// every position moves by the difference of the two monitors' origins.
pub proof fn lemma_positions_follow_monitor(s: RescueStrategy, sizes: Seq<(i32, i32)>, m: MonitorInfo, m2: MonitorInfo, margin: int, i: int)
    requires
        s is Distribute || s is Grid || s is Cascade || s is Center,
        m2.width == m.width,
        m2.height == m.height,
        0 <= i < sizes.len(),
    ensures
        positions_of(s, sizes, m2, margin)[i] == (
            positions_of(s, sizes, m, margin)[i].0 + (m2.x - m.x),
            positions_of(s, sizes, m, margin)[i].1 + (m2.y - m.y),
        ),
{
}

/// There is a number of grid columns for every positive number of windows.
proof fn lemma_grid_cols_exist(n: int)
    requires
        n >= 1,
    ensures
        is_grid_cols(n, grid_cols(n)),
    decreases n,
{
    if n == 1 {
        assert(is_grid_cols(1, 1));
    } else {
        lemma_grid_cols_exist(n - 1);
        let c = grid_cols(n - 1);
        if c * c >= n {
            assert(is_grid_cols(n, c));
        } else {
            assert(c * c == n - 1);
            assert((c + 1) * (c + 1) >= n) by (nonlinear_arith)
                requires c >= 1, c * c == n - 1;
            assert(is_grid_cols(n, c + 1));
        }
    }
}

/// The `j`-th of `k` equal cells of the length inside the margins, entered by
/// a quarter cell, starts on the side.
proof fn lemma_cell_inside(len: int, margin: int, k: int, j: int)
    requires
        0 <= margin,
        2 * margin < len,
        0 <= j < k,
    ensures
        0 <= margin + div_toward_zero(len - 2 * margin, k) * j + div_toward_zero(div_toward_zero(len - 2 * margin, k), 4) < len,
{
    let u = len - 2 * margin;
    let q = u / k;
    assert(div_toward_zero(u, k) == q);
    assert(0 <= q && q * k <= u) by (nonlinear_arith)
        requires u > 0, k >= 1, q == u / k;
    assert(div_toward_zero(q, 4) == q / 4);
    assert(0 <= q * j + q / 4 < u) by (nonlinear_arith)
        requires q >= 0, q * k <= u, u > 0, 0 <= j < k;
}

/// The `(i + 1)`-th of `n + 1` equal steps along the length inside the margins
/// stays on the side.
proof fn lemma_step_inside(len: int, margin: int, n: int, i: int)
    requires
        0 <= margin,
        2 * margin < len,
        0 <= i < n,
    ensures
        0 <= margin + div_toward_zero(len - 2 * margin, n + 1) * (i + 1) < len,
{
    let u = len - 2 * margin;
    let q = u / (n + 1);
    assert(div_toward_zero(u, n + 1) == q);
    assert(0 <= q && q * (n + 1) <= u) by (nonlinear_arith)
        requires u > 0, n >= 1, q == u / (n + 1);
    assert(0 <= q * (i + 1) < u) by (nonlinear_arith)
        requires q >= 0, q * (n + 1) <= u, u > 0, 0 <= i < n;
}

/// Every position that `Distribute`, `Grid` and `Center` give lies on the
/// monitor when the area inside the margins is not empty; so does every
/// `Cascade` position whose 40-pixel steps have not yet left the monitor.
pub proof fn lemma_rescue_on_monitor(s: RescueStrategy, sizes: Seq<(i32, i32)>, m: MonitorInfo, margin: int, i: int)
    requires
        s is Distribute || s is Grid || s is Cascade || s is Center,
        0 <= i < sizes.len(),
        0 <= margin,
        2 * margin < m.width,
        2 * margin < m.height,
        s is Cascade ==> margin + 40 * i < m.width && margin + 40 * i < m.height,
    ensures
        m.x <= positions_of(s, sizes, m, margin)[i].0 < m.x + m.width,
        m.y <= positions_of(s, sizes, m, margin)[i].1 < m.y + m.height,
{
    let n = sizes.len() as int;
    match s {
        RescueStrategy::Distribute => {
            lemma_step_inside(m.width as int, margin, n, i);
            lemma_step_inside(m.height as int, margin, n, i);
        },
        RescueStrategy::Grid => {
            lemma_grid_cols_exist(n);
            let cols = grid_cols(n);
            let rows = grid_rows(n, cols);
            let row = i / cols;
            let col = i % cols;
            assert(0 <= col < cols) by (nonlinear_arith)
                requires cols >= 1, i >= 0, col == i % cols;
            assert(0 <= row < rows) by (nonlinear_arith)
                requires cols >= 1, 0 <= i < n, row == i / cols, rows == (n + cols - 1) / cols;
            lemma_cell_inside(m.width as int, margin, cols, col);
            lemma_cell_inside(m.height as int, margin, rows, row);
        },
        RescueStrategy::Center => {
            lemma_center_is_monitor_centre(sizes, m, margin, i);
        },
        _ => {},
    }
}

/// The overlap search puts a window at least `margin` from the monitor's left
/// and top edges, and, when the window fits inside the margins, at least
/// `margin` from the right and bottom edges too.
proof fn lemma_smart_place_inside(used: Seq<(int, int, int, int)>, m: MonitorInfo, margin: int, w: int, h: int)
    ensures
        smart_place(used, m, margin, w, h).0 >= m.x + margin,
        smart_place(used, m, margin, w, h).1 >= m.y + margin,
        w <= m.width - 2 * margin ==> smart_place(used, m, margin, w, h).0 + w <= m.x + m.width - margin,
        h <= m.height - 2 * margin ==> smart_place(used, m, margin, w, h).1 + h <= m.y + m.height - margin,
{
    if exists|r: int, c: int| #[trigger] is_first_best(used, m, margin, w, h, r, c) {
        let (r, c) = choose|r: int, c: int| #[trigger] is_first_best(used, m, margin, w, h, r, c);
        assert(in_grid(m, margin, w, h, r, c));
        lemma_span(x_lo(m, margin), x_hi(m, margin, w), c);
        lemma_span(y_lo(m, margin), y_hi(m, margin, h), r);
    }
}

/// `Smart` and `Restore` keep every window at least `margin` from the
/// monitor's left and top edges, and a window that fits inside the margins at
/// least `margin` from its right and bottom edges too.
pub proof fn lemma_smart_inside_margins(s: RescueStrategy, sizes: Seq<(i32, i32)>, m: MonitorInfo, margin: int, i: int)
    requires
        s is Smart || s is Restore,
        0 <= i < sizes.len(),
    ensures
        positions_of(s, sizes, m, margin)[i].0 >= m.x + margin,
        positions_of(s, sizes, m, margin)[i].1 >= m.y + margin,
        sizes[i].0 <= m.width - 2 * margin ==> positions_of(s, sizes, m, margin)[i].0 + sizes[i].0 <= m.x + m.width - margin,
        sizes[i].1 <= m.height - 2 * margin ==> positions_of(s, sizes, m, margin)[i].1 + sizes[i].1 <= m.y + m.height - margin,
    decreases sizes.len(),
{
    let prev = smart_all(sizes.drop_last(), m, margin);
    lemma_smart_all_len(sizes.drop_last(), m, margin);
    if i == sizes.len() - 1 {
        lemma_smart_place_inside(used_of(prev, sizes.drop_last()), m, margin, sizes.last().0 as int, sizes.last().1 as int);
    } else {
        lemma_smart_inside_margins(s, sizes.drop_last(), m, margin, i);
        assert(sizes.drop_last()[i] == sizes[i]);
    }
}

} // verus!
