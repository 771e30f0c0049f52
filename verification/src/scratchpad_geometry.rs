//! Where a scratchpad window goes: size and offset strings measured against a
//! monitor, the final rectangle, and the off-screen positions that slide
//! animations start from or end at.
use vstd::prelude::*;
use vstd::string::*;
use crate::text::{
    chars_eq, chars_of, div_toward_zero, ends_with, has_suffix, i32_of, str_eq, owned, append_str, parse_i32,
    split_words, string_of, strs, trim_end_all, trim_end_all_len, words,
};
use crate::scratchpad_config::ValidatedConfig;
use crate::real_text::{percent_chars, percent_text};

verus! {

/// A monitor as the scratchpad logic sees it.
#[derive(Debug, Clone)]
pub struct MonitorInfo {
    pub name: String,
    pub width: i32,
    pub height: i32,
    pub x: i32,
    pub y: i32,
    pub is_focused: bool,
    pub active_workspace_id: i32,
    /// Percentages of this monitor's sides as the daemon computes them in
    /// single precision: the percentage's text (without `%`), the side
    /// length and the pixels it gives.
    pub percent_pixels: Vec<(String, i32, i32)>,
}

/// A window rectangle with the workspace and monitor it is meant for.
#[derive(Debug, Clone)]
pub struct WindowGeometry {
    pub x: i32,
    pub y: i32,
    pub width: i32,
    pub height: i32,
    pub workspace: String,
    pub monitor: i32,
    pub floating: bool,
}

#[derive(Debug, Clone, Copy, PartialEq, Eq, Structural)]
pub enum GeometryErrorKind {
    /// `N%` where `N` is not a number.
    InvalidPercentage,
    /// `Npx` where `N` is not an integer.
    InvalidPixelValue,
    /// A bare value that is not an integer.
    InvalidDimension,
    /// A size that is not two whitespace-separated values.
    InvalidSizeFormat,
    /// An offset that is not two whitespace-separated values.
    InvalidOffsetFormat,
}

/// Why a size or offset string was refused, with the text that was refused.
#[derive(Debug, Clone)]
pub struct GeometryError {
    pub kind: GeometryErrorKind,
    pub input: String,
}

impl View for GeometryError {
    type V = (GeometryErrorKind, Seq<char>);

    open spec fn view(&self) -> (GeometryErrorKind, Seq<char>) {
        (self.kind, self.input@)
    }
}

pub open spec fn res_view<T>(r: Result<T, GeometryError>) -> Result<T, (GeometryErrorKind, Seq<char>)> {
    match r {
        Ok(v) => Ok(v),
        Err(e) => Err(e@),
    }
}

// ---------------------------------------------------------------------------
// Specifications
// ---------------------------------------------------------------------------

pub open spec fn percent_sign() -> Seq<char> {
    seq!['%']
}

pub open spec fn px_suffix() -> Seq<char> {
    seq!['p', 'x']
}

/// The pixels `pt` gives for the percentage written `t` of `size` (its last
/// entry for them), if any.
pub open spec fn measured(pt: Seq<(String, i32, i32)>, t: Seq<char>, size: int) -> Option<i32>
    decreases pt.len(),
{
    if pt.len() == 0 {
        None
    } else if pt.last().0@ == t && pt.last().1 == size {
        Some(pt.last().2)
    } else {
        measured(pt.drop_last(), t, size)
    }
}

/// One dimension: `N%` of `size`, `Npx`, or a bare number of pixels. A
/// percentage must be a number; its pixels are those `pt` gives for it
/// (computed by the daemon in single precision), else the exact value
/// rounded toward zero.
pub open spec fn dimension_of(s: Seq<char>, size: int, pt: Seq<(String, i32, i32)>) -> Result<i32, (GeometryErrorKind, Seq<char>)> {
    if has_suffix(s, percent_sign()) {
        let t = trim_end_all(s, percent_sign());
        match percent_text(t, size) {
            Some(v) => Ok(match measured(pt, t, size) { Some(m) => m, None => v }),
            None => Err((GeometryErrorKind::InvalidPercentage, s)),
        }
    } else if has_suffix(s, px_suffix()) {
        match i32_of(trim_end_all(s, px_suffix())) {
            Some(v) => Ok(v),
            None => Err((GeometryErrorKind::InvalidPixelValue, s)),
        }
    } else {
        match i32_of(s) {
            Some(v) => Ok(v),
            None => Err((GeometryErrorKind::InvalidDimension, s)),
        }
    }
}

pub open spec fn min_i32(a: i32, b: i32) -> i32 {
    if a <= b { a } else { b }
}

/// `"W H"` measured against a `w`×`h` monitor, capped by `max` when that is two values.
pub open spec fn size_of(s: Seq<char>, w: int, h: int, max: Option<Seq<char>>, pt: Seq<(String, i32, i32)>) -> Result<(i32, i32), (GeometryErrorKind, Seq<char>)> {
    let parts = words(s);
    if parts.len() != 2 {
        Err((GeometryErrorKind::InvalidSizeFormat, s))
    } else {
        match dimension_of(parts[0], w, pt) {
            Err(e) => Err(e),
            Ok(width) => match dimension_of(parts[1], h, pt) {
                Err(e) => Err(e),
                Ok(height) => match max {
                    None => Ok((width, height)),
                    Some(m) => {
                        let mp = words(m);
                        if mp.len() != 2 {
                            Ok((width, height))
                        } else {
                            match dimension_of(mp[0], w, pt) {
                                Err(e) => Err(e),
                                Ok(mw) => match dimension_of(mp[1], h, pt) {
                                    Err(e) => Err(e),
                                    Ok(mh) => Ok((min_i32(width, mw), min_i32(height, mh))),
                                },
                            }
                        }
                    },
                },
            },
        }
    }
}

/// `"X Y"` measured against a `w`×`h` monitor; no offset is `(0, 0)`.
pub open spec fn offset_of(s: Option<Seq<char>>, w: int, h: int, pt: Seq<(String, i32, i32)>) -> Result<(i32, i32), (GeometryErrorKind, Seq<char>)> {
    match s {
        None => Ok((0, 0)),
        Some(t) => {
            let parts = words(t);
            if parts.len() != 2 {
                Err((GeometryErrorKind::InvalidOffsetFormat, t))
            } else {
                match dimension_of(parts[0], w, pt) {
                    Err(e) => Err(e),
                    Ok(x) => match dimension_of(parts[1], h, pt) {
                        Err(e) => Err(e),
                        Ok(y) => Ok((x, y)),
                    },
                }
            }
        },
    }
}

pub open spec fn opt_view(s: Option<String>) -> Option<Seq<char>> {
    match s {
        Some(t) => Some(t@),
        None => None,
    }
}

pub open spec fn in_i32(v: int) -> bool {
    i32::MIN <= v <= i32::MAX
}

/// The coordinate along one axis before it is kept on the monitor.
pub open spec fn raw_coord(pos: Option<i32>, m_pos: int, m_len: int, len: int, off: int, has_offset: bool, margin: int) -> int {
    match pos {
        Some(p) => m_pos + p,
        None => if off == 0 && !has_offset {
            m_pos + div_toward_zero(m_len - len, 2)
        } else {
            m_pos + off + margin
        },
    }
}

/// `v.max(m_pos).min(m_pos + m_len - len)`.
pub open spec fn keep_on_monitor(v: int, m_pos: int, m_len: int, len: int) -> int {
    let lo = if v >= m_pos { v } else { m_pos };
    let hi = m_pos + m_len - len;
    if lo <= hi { lo } else { hi }
}

/// Every intermediate sum along one axis fits in `i32`.
pub open spec fn axis_fits(pos: Option<i32>, m_pos: int, m_len: int, len: int, off: int, has_offset: bool, margin: int) -> bool {
    &&& match pos {
        Some(p) => in_i32(m_pos + p),
        None => {
            &&& in_i32(m_pos + off)
            &&& in_i32(m_pos + off + margin)
            &&& (off == 0 && !has_offset ==> in_i32(m_len - len) && in_i32(m_pos + div_toward_zero(m_len - len, 2)))
        },
    }
    &&& in_i32(m_pos + m_len)
    &&& in_i32(m_pos + m_len - len)
}

pub open spec fn pos_x(p: Option<(i32, i32)>) -> Option<i32> {
    match p {
        Some((x, _)) => Some(x),
        None => None,
    }
}

pub open spec fn pos_y(p: Option<(i32, i32)>) -> Option<i32> {
    match p {
        Some((_, y)) => Some(y),
        None => None,
    }
}

pub open spec fn margin_of(c: ValidatedConfig) -> int {
    match c.margin {
        Some(m) => m as int,
        None => 0,
    }
}

/// The arithmetic of `calculate_geometry` stays within `i32` (it would overflow otherwise).
pub open spec fn geometry_fits(c: ValidatedConfig, m: MonitorInfo) -> bool {
    match (size_of(c.size@, m.width as int, m.height as int, opt_view(c.max_size), m.percent_pixels@), offset_of(opt_view(c.offset), m.width as int, m.height as int, m.percent_pixels@)) {
        (Ok((w, h)), Ok((ox, oy))) => {
            &&& axis_fits(pos_x(c.parsed_position), m.x as int, m.width as int, w as int, ox as int, c.offset is Some, margin_of(c))
            &&& axis_fits(pos_y(c.parsed_position), m.y as int, m.height as int, h as int, oy as int, c.offset is Some, margin_of(c))
        },
        _ => true,
    }
}

/// The rectangle `(x, y, width, height)` that a scratchpad occupies on a monitor.
pub open spec fn geometry_of(c: ValidatedConfig, m: MonitorInfo) -> Result<(i32, i32, i32, i32), (GeometryErrorKind, Seq<char>)> {
    match size_of(c.size@, m.width as int, m.height as int, opt_view(c.max_size), m.percent_pixels@) {
        Err(e) => Err(e),
        Ok((w, h)) => match offset_of(opt_view(c.offset), m.width as int, m.height as int, m.percent_pixels@) {
            Err(e) => Err(e),
            Ok((ox, oy)) => {
                let rx = raw_coord(pos_x(c.parsed_position), m.x as int, m.width as int, w as int, ox as int, c.offset is Some, margin_of(c));
                let ry = raw_coord(pos_y(c.parsed_position), m.y as int, m.height as int, h as int, oy as int, c.offset is Some, margin_of(c));
                Ok((
                    keep_on_monitor(rx, m.x as int, m.width as int, w as int) as i32,
                    keep_on_monitor(ry, m.y as int, m.height as int, h as int) as i32,
                    w,
                    h,
                ))
            },
        },
    }
}

// ---------------------------------------------------------------------------
// Helpers
// ---------------------------------------------------------------------------

/// The first `k` characters of `v`.
fn prefix_chars(v: &Vec<char>, k: usize) -> (body: Vec<char>)
    requires
        k <= v@.len(),
    ensures
        body@ == v@.take(k as int),
{
    let mut body: Vec<char> = Vec::new();
    let mut i: usize = 0;
    while i < k
        invariant
            k <= v@.len(),
            i <= k,
            body@ == v@.take(i as int),
        decreases k - i,
    {
        body.push(v[i]);
        i = i + 1;
        assert(body@ =~= v@.take(i as int));
    }
    body
}

/// The pixels `pt` gives for the percentage written `t` of `size` (see
/// `measured`).
fn measured_exec(pt: &Vec<(String, i32, i32)>, t: &Vec<char>, size: i32) -> (r: Option<i32>)
    ensures
        r == measured(pt@, t@, size as int),
{
    let mut r: Option<i32> = None;
    let mut k: usize = 0;
    proof { assert(pt@.take(0) =~= Seq::<(String, i32, i32)>::empty()); }
    while k < pt.len()
        invariant
            k <= pt@.len(),
            r == measured(pt@.take(k as int), t@, size as int),
        decreases pt@.len() - k,
    {
        proof {
            assert(pt@.take(k as int + 1).drop_last() =~= pt@.take(k as int));
            assert(pt@.take(k as int + 1).last() == pt@[k as int]);
        }
        if pt[k].1 == size && chars_eq(&chars_of(pt[k].0.as_str()), t) {
            r = Some(pt[k].2);
        }
        k = k + 1;
    }
    proof { assert(pt@.take(pt@.len() as int) =~= pt@); }
    r
}

/// One dimension from the characters `v`, measured against `size`.
pub fn dimension_chars(v: &Vec<char>, size: i32, pt: &Vec<(String, i32, i32)>) -> (r: Result<i32, GeometryError>)
    ensures
        res_view(r) == dimension_of(v@, size as int, pt@),
{
    let pct = vec!['%'];
    let px = vec!['p', 'x'];
    assert(pct@ =~= percent_sign());
    assert(px@ =~= px_suffix());
    if ends_with(v, &pct) {
        let k = trim_end_all_len(v, &pct);
        let body = prefix_chars(v, k);
        match percent_chars(&body, size) {
            Some(n) => match measured_exec(pt, &body, size) {
                Some(m) => Ok(m),
                None => Ok(n),
            },
            None => Err(GeometryError { kind: GeometryErrorKind::InvalidPercentage, input: string_of(v) }),
        }
    } else if ends_with(v, &px) {
        let k = trim_end_all_len(v, &px);
        let body = prefix_chars(v, k);
        match parse_i32(&body) {
            Some(n) => Ok(n),
            None => Err(GeometryError { kind: GeometryErrorKind::InvalidPixelValue, input: string_of(v) }),
        }
    } else {
        match parse_i32(v) {
            Some(n) => Ok(n),
            None => Err(GeometryError { kind: GeometryErrorKind::InvalidDimension, input: string_of(v) }),
        }
    }
}

fn min_of(a: i32, b: i32) -> (r: i32)
    ensures
        r == min_i32(a, b),
{
    if a <= b { a } else { b }
}

/// `"X Y"` from the characters `v`; errors name the whole text.
fn pair_chars(v: &Vec<char>, w: i32, h: i32, format_kind: GeometryErrorKind, pt: &Vec<(String, i32, i32)>) -> (r: Result<(i32, i32), GeometryError>)
    ensures
        res_view(r) == (if words(v@).len() != 2 {
            Err((format_kind, v@))
        } else {
            match dimension_of(words(v@)[0], w as int, pt@) {
                Err(e) => Err(e),
                Ok(a) => match dimension_of(words(v@)[1], h as int, pt@) {
                    Err(e) => Err(e),
                    Ok(b) => Ok((a, b)),
                },
            }
        }),
{
    let parts = split_words(v);
    if parts.len() != 2 {
        return Err(GeometryError { kind: format_kind, input: string_of(v) });
    }
    assert(parts@[0]@ == words(v@)[0]);
    assert(parts@[1]@ == words(v@)[1]);
    let a = match dimension_chars(&parts[0], w, pt) {
        Ok(a) => a,
        Err(e) => return Err(e),
    };
    let b = match dimension_chars(&parts[1], h, pt) {
        Ok(b) => b,
        Err(e) => return Err(e),
    };
    Ok((a, b))
}

/// The percentages among `ws`, each without its trailing `%` signs.
pub open spec fn percent_words(ws: Seq<Seq<char>>) -> Seq<Seq<char>>
    decreases ws.len(),
{
    if ws.len() == 0 {
        Seq::empty()
    } else {
        let prev = percent_words(ws.drop_last());
        if has_suffix(ws.last(), percent_sign()) { prev.push(trim_end_all(ws.last(), percent_sign())) } else { prev }
    }
}

/// The percentages written in `s` (its whitespace-separated words that end
/// with `%`), each without its `%` signs: what the daemon measures for a
/// monitor's `percent_pixels`.
pub fn percent_texts(s: &str) -> (r: Vec<String>)
    ensures
        strs(r@) == percent_words(words(s@)),
{
    let v = chars_of(s);
    let parts = split_words(&v);
    let pct = vec!['%'];
    assert(pct@ =~= percent_sign());
    let ghost ws = words(s@);
    let mut r: Vec<String> = Vec::new();
    let mut k: usize = 0;
    proof { assert(ws.take(0) =~= Seq::<Seq<char>>::empty()); }
    while k < parts.len()
        invariant
            k <= parts@.len(),
            parts@.len() == ws.len(),
            ws == words(v@),
            pct@ == percent_sign(),
            forall|i: int| 0 <= i < parts@.len() ==> #[trigger] parts@[i]@ == ws[i],
            strs(r@) == percent_words(ws.take(k as int)),
        decreases parts@.len() - k,
    {
        proof {
            assert(ws.take(k as int + 1).drop_last() =~= ws.take(k as int));
            assert(ws.take(k as int + 1).last() == ws[k as int]);
            assert(parts@[k as int]@ == ws[k as int]);
        }
        if ends_with(&parts[k], &pct) {
            let n = trim_end_all_len(&parts[k], &pct);
            let body = prefix_chars(&parts[k], n);
            let ghost before = r@;
            r.push(string_of(&body));
            proof { assert(strs(r@) =~= strs(before).push(body@)); }
        }
        k = k + 1;
    }
    proof { assert(ws.take(ws.len() as int) =~= ws); }
    r
}

pub struct GeometryCalculator;

impl GeometryCalculator {
    /// One dimension: `"N%"` of `monitor_size` (the pixels `percent_pixels`
    /// gives for it, else exact and rounded toward zero), `"Npx"`, or a bare
    /// number of pixels.
    pub fn parse_dimension(dim_str: &str, monitor_size: i32, percent_pixels: &Vec<(String, i32, i32)>) -> (r: Result<i32, GeometryError>)
        ensures
            res_view(r) == dimension_of(dim_str@, monitor_size as int, percent_pixels@),
    {
        let v = chars_of(dim_str);
        dimension_chars(&v, monitor_size, percent_pixels)
    }

    /// `"W H"` measured against the monitor, each side capped by `max_size` when that
    /// is two values.
    pub fn parse_size(size_str: &str, monitor: &MonitorInfo, max_size: Option<&str>) -> (r: Result<(i32, i32), GeometryError>)
        ensures
            res_view(r) == size_of(size_str@, monitor.width as int, monitor.height as int,
                match max_size { Some(m) => Some(m@), None => None }, monitor.percent_pixels@),
    {
        let v = chars_of(size_str);
        let (width, height) = match pair_chars(&v, monitor.width, monitor.height, GeometryErrorKind::InvalidSizeFormat, &monitor.percent_pixels) {
            Ok(p) => p,
            Err(e) => return Err(e),
        };
        match max_size {
            None => Ok((width, height)),
            Some(m) => {
                let mv = chars_of(m);
                let mparts = split_words(&mv);
                if mparts.len() != 2 {
                    return Ok((width, height));
                }
                assert(mparts@[0]@ == words(m@)[0]);
                assert(mparts@[1]@ == words(m@)[1]);
                let mw = match dimension_chars(&mparts[0], monitor.width, &monitor.percent_pixels) {
                    Ok(x) => x,
                    Err(e) => return Err(e),
                };
                let mh = match dimension_chars(&mparts[1], monitor.height, &monitor.percent_pixels) {
                    Ok(x) => x,
                    Err(e) => return Err(e),
                };
                Ok((min_of(width, mw), min_of(height, mh)))
            },
        }
    }

    /// `"X Y"` measured against the monitor; no offset is `(0, 0)`.
    pub fn parse_offset(offset_str: Option<&str>, monitor: &MonitorInfo) -> (r: Result<(i32, i32), GeometryError>)
        ensures
            res_view(r) == offset_of(match offset_str { Some(m) => Some(m@), None => None },
                monitor.width as int, monitor.height as int, monitor.percent_pixels@),
    {
        match offset_str {
            None => Ok((0, 0)),
            Some(s) => {
                let v = chars_of(s);
                pair_chars(&v, monitor.width, monitor.height, GeometryErrorKind::InvalidOffsetFormat, &monitor.percent_pixels)
            },
        }
    }
}

/// One axis of `calculate_geometry`: explicit position, centring or offset plus margin,
/// then kept on the monitor.
fn axis(pos: Option<i32>, m_pos: i32, m_len: i32, len: i32, off: i32, has_offset: bool, margin: i32) -> (r: i32)
    requires
        axis_fits(pos, m_pos as int, m_len as int, len as int, off as int, has_offset, margin as int),
    ensures
        r as int == keep_on_monitor(
            raw_coord(pos, m_pos as int, m_len as int, len as int, off as int, has_offset, margin as int),
            m_pos as int, m_len as int, len as int),
{
    let raw: i64 = match pos {
        Some(p) => m_pos as i64 + p as i64,
        None => {
            let base = m_pos as i64 + off as i64 + margin as i64;
            if off == 0 && !has_offset {
                let d: i64 = m_len as i64 - len as i64;
                let half: i64 = if d >= 0 { d / 2 } else { -((-d) / 2) };
                m_pos as i64 + half
            } else {
                base
            }
        },
    };
    let lo: i64 = if raw >= m_pos as i64 { raw } else { m_pos as i64 };
    let hi: i64 = m_pos as i64 + m_len as i64 - len as i64;
    let r: i64 = if lo <= hi { lo } else { hi };
    r as i32
}

impl GeometryCalculator {
    /// The rectangle for a scratchpad on `monitor`: sized by `size` (capped by
    /// `max_size`), placed at the explicit position, or by offset plus margin, or
    /// centred when neither is set, then kept on the monitor.
    pub fn calculate_geometry(config: &ValidatedConfig, monitor: &MonitorInfo) -> (r: Result<WindowGeometry, GeometryError>)
        requires
            geometry_fits(*config, *monitor),
        ensures
            match geometry_of(*config, *monitor) {
                Ok((x, y, w, h)) => r matches Ok(g) && g.x == x && g.y == y && g.width == w
                    && g.height == h && g.workspace@ == seq!['e', '+', '0'] && g.monitor == 0
                    && g.floating,
                Err(e) => r matches Err(er) && er@ == e,
            },
    {
        let max = match &config.max_size {
            Some(m) => Some(m.as_str()),
            None => None,
        };
        let (width, height) = match Self::parse_size(config.size.as_str(), monitor, max) {
            Ok(p) => p,
            Err(e) => return Err(e),
        };
        let off = match &config.offset {
            Some(o) => Some(o.as_str()),
            None => None,
        };
        let (offset_x, offset_y) = match Self::parse_offset(off, monitor) {
            Ok(p) => p,
            Err(e) => return Err(e),
        };
        let margin = match config.margin {
            Some(m) => m,
            None => 0,
        };
        let (px, py) = match config.parsed_position {
            Some((a, b)) => (Some(a), Some(b)),
            None => (None, None),
        };
        let has_offset = config.offset.is_some();
        let x = axis(px, monitor.x, monitor.width, width, offset_x, has_offset, margin);
        let y = axis(py, monitor.y, monitor.height, height, offset_y, has_offset, margin);
        let workspace = String::from_str("e+0");
        proof { reveal_strlit("e+0"); }
        Ok(WindowGeometry { x, y, width, height, workspace, monitor: 0, floating: true })
    }
}

/// Whether `calculate_geometry` may be called: its arithmetic stays within `i32`.
pub fn geometry_fits_check(config: &ValidatedConfig, monitor: &MonitorInfo) -> (b: bool)
    ensures
        b == geometry_fits(*config, *monitor),
{
    let max = match &config.max_size {
        Some(m) => Some(m.as_str()),
        None => None,
    };
    let (w, h) = match GeometryCalculator::parse_size(config.size.as_str(), monitor, max) {
        Ok(p) => p,
        Err(_) => return true,
    };
    let off = match &config.offset {
        Some(o) => Some(o.as_str()),
        None => None,
    };
    let (ox, oy) = match GeometryCalculator::parse_offset(off, monitor) {
        Ok(p) => p,
        Err(_) => return true,
    };
    let margin = match config.margin {
        Some(m) => m,
        None => 0,
    };
    let (px, py) = match config.parsed_position {
        Some((a, b)) => (Some(a), Some(b)),
        None => (None, None),
    };
    let has_offset = config.offset.is_some();
    axis_fits_check(px, monitor.x, monitor.width, w, ox, has_offset, margin)
        && axis_fits_check(py, monitor.y, monitor.height, h, oy, has_offset, margin)
}

fn fits(v: i64) -> (b: bool)
    ensures
        b == in_i32(v as int),
{
    -2147483648 <= v && v <= 2147483647
}

fn axis_fits_check(pos: Option<i32>, m_pos: i32, m_len: i32, len: i32, off: i32, has_offset: bool, margin: i32) -> (b: bool)
    ensures
        b == axis_fits(pos, m_pos as int, m_len as int, len as int, off as int, has_offset, margin as int),
{
    let first = match pos {
        Some(p) => fits(m_pos as i64 + p as i64),
        None => {
            let centred = if off == 0 && !has_offset {
                let d: i64 = m_len as i64 - len as i64;
                let half: i64 = if d >= 0 { d / 2 } else { -((-d) / 2) };
                fits(d) && fits(m_pos as i64 + half)
            } else {
                true
            };
            fits(m_pos as i64 + off as i64) && fits(m_pos as i64 + off as i64 + margin as i64) && centred
        },
    };
    first && fits(m_pos as i64 + m_len as i64) && fits(m_pos as i64 + m_len as i64 - len as i64)
}

// ---------------------------------------------------------------------------
// Slide animations
// ---------------------------------------------------------------------------

/// The animation named in a scratchpad's `animation` setting.
#[derive(Debug, Clone, Copy, PartialEq, Eq, Structural)]
pub enum AnimationKind {
    FromTop,
    FromBottom,
    FromLeft,
    FromRight,
    FromTopLeft,
    FromTopRight,
    FromBottomLeft,
    FromBottomRight,
    Fade,
    Scale,
    Other,
}

pub open spec fn animation_kind_of(s: Seq<char>) -> AnimationKind {
    if s == "fromTop"@ { AnimationKind::FromTop }
    else if s == "fromBottom"@ { AnimationKind::FromBottom }
    else if s == "fromLeft"@ { AnimationKind::FromLeft }
    else if s == "fromRight"@ { AnimationKind::FromRight }
    else if s == "fromTopLeft"@ { AnimationKind::FromTopLeft }
    else if s == "fromTopRight"@ { AnimationKind::FromTopRight }
    else if s == "fromBottomLeft"@ { AnimationKind::FromBottomLeft }
    else if s == "fromBottomRight"@ { AnimationKind::FromBottomRight }
    else if s == "fade"@ { AnimationKind::Fade }
    else if s == "scale"@ { AnimationKind::Scale }
    else { AnimationKind::Other }
}

/// Which animation a name selects; unknown names select `Other`.
pub fn parse_animation(name: &str) -> (k: AnimationKind)
    ensures
        k == animation_kind_of(name@),
{
    let v = chars_of(name);
    if str_eq("fromTop", &v) { AnimationKind::FromTop }
    else if str_eq("fromBottom", &v) { AnimationKind::FromBottom }
    else if str_eq("fromLeft", &v) { AnimationKind::FromLeft }
    else if str_eq("fromRight", &v) { AnimationKind::FromRight }
    else if str_eq("fromTopLeft", &v) { AnimationKind::FromTopLeft }
    else if str_eq("fromTopRight", &v) { AnimationKind::FromTopRight }
    else if str_eq("fromBottomLeft", &v) { AnimationKind::FromBottomLeft }
    else if str_eq("fromBottomRight", &v) { AnimationKind::FromBottomRight }
    else if str_eq("fade", &v) { AnimationKind::Fade }
    else if str_eq("scale", &v) { AnimationKind::Scale }
    else { AnimationKind::Other }
}

/// The width and height that slide animations assume for the screen.
pub open spec fn screen_width() -> int { 1920 }
pub open spec fn screen_height() -> int { 1080 }

pub open spec fn is_slide(k: AnimationKind) -> bool {
    !(k is Fade || k is Scale || k is Other)
}

/// The extent a slide offset is measured against: the height for vertical
/// slides, the width for horizontal ones, the larger of both for diagonals.
pub open spec fn slide_extent(k: AnimationKind, w: int, h: int) -> int {
    match k {
        AnimationKind::FromTop | AnimationKind::FromBottom => h,
        AnimationKind::FromLeft | AnimationKind::FromRight => w,
        _ => if h >= w { h } else { w },
    }
}

/// How far a slide travels beyond the window: the configured offset measured
/// against `extent`, or `extent + 100` when none is configured.
pub open spec fn slide_offset(offset: Option<Seq<char>>, extent: int, pt: Seq<(String, i32, i32)>) -> Option<int> {
    match offset {
        Some(s) => match dimension_of(s, extent, pt) {
            Ok(v) => Some(v as int),
            Err(_) => None,
        },
        None => Some(extent + 100),
    }
}

/// Where a window starts when it slides in to `(x, y)`.
pub open spec fn show_start(k: AnimationKind, x: int, y: int, w: int, h: int, off: int) -> (int, int) {
    match k {
        AnimationKind::FromTop => (x, y - off),
        AnimationKind::FromBottom => (x, screen_height() + off),
        AnimationKind::FromLeft => (x - w - off, y),
        AnimationKind::FromRight => (screen_width() + off, y),
        AnimationKind::FromTopLeft => (x - w - off, y - h - off),
        AnimationKind::FromTopRight => (screen_width() + off, y - h - off),
        AnimationKind::FromBottomLeft => (x - w - off, screen_height() + off),
        _ => (screen_width() + off, screen_height() + off),
    }
}

/// Where a window ends when it slides out from `(x, y)`.
pub open spec fn hide_end(k: AnimationKind, x: int, y: int, w: int, h: int, off: int) -> (int, int) {
    match k {
        AnimationKind::FromTop => (x, y - h - off),
        _ => show_start(k, x, y, w, h, off),
    }
}

/// All the sums a slide computes, in the order it computes them, fit in `i32`.
pub open spec fn slide_fits(k: AnimationKind, x: int, y: int, w: int, h: int, off: int) -> bool {
    &&& in_i32(x - w) && in_i32(x - w - off)
    &&& in_i32(y - h) && in_i32(y - h - off)
    &&& in_i32(y - off)
    &&& in_i32(screen_width() + off) && in_i32(screen_height() + off)
}

/// The offset is measurable: `extent + 100` fits when no offset is configured.
pub open spec fn slide_offset_fits(offset: Option<Seq<char>>, extent: int) -> bool {
    offset is None ==> in_i32(extent + 100)
}

/// The configured slide offset could not be read.
#[derive(Debug, Clone, Copy, PartialEq, Eq, Structural)]
pub struct AnimationOffsetError;

fn slide_offset_exec(offset: Option<&str>, extent: i32, pt: &Vec<(String, i32, i32)>) -> (r: Result<i32, AnimationOffsetError>)
    requires
        slide_offset_fits(match offset { Some(s) => Some(s@), None => None }, extent as int),
    ensures
        match slide_offset(match offset { Some(s) => Some(s@), None => None }, extent as int, pt@) {
            Some(v) => r == Ok::<i32, AnimationOffsetError>(v as i32),
            None => r is Err,
        },
{
    match offset {
        Some(s) => match GeometryCalculator::parse_dimension(s, extent, pt) {
            Ok(v) => Ok(v),
            Err(_) => Err(AnimationOffsetError),
        },
        None => Ok(extent + 100),
    }
}

/// The conditions `slide_position` requires, as one test.
pub open spec fn slide_ok(kind: AnimationKind, g: WindowGeometry, offset: Option<Seq<char>>, pt: Seq<(String, i32, i32)>) -> bool {
    is_slide(kind) ==> {
        let extent = slide_extent(kind, g.width as int, g.height as int);
        &&& slide_offset_fits(offset, extent)
        &&& match slide_offset(offset, extent, pt) {
            Some(off) => slide_fits(kind, g.x as int, g.y as int, g.width as int, g.height as int, off),
            None => true,
        }
    }
}

fn fits64(v: i64) -> (b: bool)
    ensures
        b == in_i32(v as int),
{
    -2147483648i64 <= v && v <= 2147483647i64
}

/// Whether `slide_position` may be called: the offset can be measured and
/// every sum the slide computes fits in `i32` (see `slide_ok`).
pub fn slide_check(kind: AnimationKind, g: &WindowGeometry, offset: Option<&str>, percent_pixels: &Vec<(String, i32, i32)>) -> (b: bool)
    ensures
        b == slide_ok(kind, *g, match offset { Some(s) => Some(s@), None => None }, percent_pixels@),
{
    let extent = match kind {
        AnimationKind::Fade | AnimationKind::Scale | AnimationKind::Other => return true,
        AnimationKind::FromTop | AnimationKind::FromBottom => g.height,
        AnimationKind::FromLeft | AnimationKind::FromRight => g.width,
        _ => if g.height >= g.width { g.height } else { g.width },
    };
    let off: i64 = match offset {
        Some(s) => match GeometryCalculator::parse_dimension(s, extent, percent_pixels) {
            Ok(v) => v as i64,
            Err(_) => return true,
        },
        None => {
            if !fits64(extent as i64 + 100) {
                return false;
            }
            extent as i64 + 100
        },
    };
    let (x, y, w, h) = (g.x as i64, g.y as i64, g.width as i64, g.height as i64);
    fits64(x - w) && fits64(x - w - off) && fits64(y - h) && fits64(y - h - off) && fits64(y - off)
        && fits64(1920 + off) && fits64(1080 + off)
}

/// The point a slide starts from (`showing`) or ends at (hiding), for a window
/// whose resting rectangle is `g`; `None` for animations that do not slide.
pub fn slide_position(kind: AnimationKind, g: &WindowGeometry, offset: Option<&str>, showing: bool, percent_pixels: &Vec<(String, i32, i32)>)
    -> (r: Result<Option<(i32, i32)>, AnimationOffsetError>)
    requires
        is_slide(kind) ==> slide_offset_fits(match offset { Some(s) => Some(s@), None => None },
            slide_extent(kind, g.width as int, g.height as int)),
        is_slide(kind) ==> match slide_offset(match offset { Some(s) => Some(s@), None => None },
            slide_extent(kind, g.width as int, g.height as int), percent_pixels@) {
            Some(off) => slide_fits(kind, g.x as int, g.y as int, g.width as int, g.height as int, off),
            None => true,
        },
    ensures
        !is_slide(kind) ==> r == Ok::<Option<(i32, i32)>, AnimationOffsetError>(None),
        is_slide(kind) ==> match slide_offset(match offset { Some(s) => Some(s@), None => None },
            slide_extent(kind, g.width as int, g.height as int), percent_pixels@) {
            Some(off) => {
                let p = if showing {
                    show_start(kind, g.x as int, g.y as int, g.width as int, g.height as int, off)
                } else {
                    hide_end(kind, g.x as int, g.y as int, g.width as int, g.height as int, off)
                };
                r matches Ok(Some((px, py))) && px == p.0 && py == p.1
            },
            None => r is Err,
        },
{
    let extent = match kind {
        AnimationKind::Fade | AnimationKind::Scale | AnimationKind::Other => return Ok(None),
        AnimationKind::FromTop | AnimationKind::FromBottom => g.height,
        AnimationKind::FromLeft | AnimationKind::FromRight => g.width,
        _ => if g.height >= g.width { g.height } else { g.width },
    };
    let off = match slide_offset_exec(offset, extent, percent_pixels) {
        Ok(o) => o,
        Err(e) => return Err(e),
    };
    let (x, y, w, h) = (g.x, g.y, g.width, g.height);
    let p = match kind {
        AnimationKind::FromTop => if showing { (x, y - off) } else { (x, y - h - off) },
        AnimationKind::FromBottom => (x, 1080 + off),
        AnimationKind::FromLeft => (x - w - off, y),
        AnimationKind::FromRight => (1920 + off, y),
        AnimationKind::FromTopLeft => (x - w - off, y - h - off),
        AnimationKind::FromTopRight => (1920 + off, y - h - off),
        AnimationKind::FromBottomLeft => (x - w - off, 1080 + off),
        _ => (1920 + off, 1080 + off),
    };
    Ok(Some(p))
}

/// The message for a refused size or offset, as the daemon reports it.
pub open spec fn geometry_error_text(e: (GeometryErrorKind, Seq<char>)) -> Seq<char> {
    match e.0 {
        GeometryErrorKind::InvalidPercentage => "Invalid percentage: "@ + e.1,
        GeometryErrorKind::InvalidPixelValue => "Invalid pixel value: "@ + e.1,
        GeometryErrorKind::InvalidDimension => "Invalid dimension: "@ + e.1,
        GeometryErrorKind::InvalidSizeFormat => "Invalid size format '"@ + e.1 + "', expected 'width height'"@,
        GeometryErrorKind::InvalidOffsetFormat => "Invalid offset format '"@ + e.1 + "', expected 'x y'"@,
    }
}

impl GeometryError {
    /// The message for this error.
    pub fn message(&self) -> (s: String)
        ensures
            s@ == geometry_error_text(self@),
    {
        match self.kind {
            GeometryErrorKind::InvalidPercentage => {
                let mut s = owned("Invalid percentage: ");
                append_str(&mut s, self.input.as_str());
                s
            },
            GeometryErrorKind::InvalidPixelValue => {
                let mut s = owned("Invalid pixel value: ");
                append_str(&mut s, self.input.as_str());
                s
            },
            GeometryErrorKind::InvalidDimension => {
                let mut s = owned("Invalid dimension: ");
                append_str(&mut s, self.input.as_str());
                s
            },
            GeometryErrorKind::InvalidSizeFormat => {
                let mut s = owned("Invalid size format '");
                append_str(&mut s, self.input.as_str());
                append_str(&mut s, "', expected 'width height'");
                s
            },
            GeometryErrorKind::InvalidOffsetFormat => {
                let mut s = owned("Invalid offset format '");
                append_str(&mut s, self.input.as_str());
                append_str(&mut s, "', expected 'x y'");
                s
            },
        }
    }
}

/// With no explicit position and no offset a scratchpad is centred on the
/// monitor, whatever its margin: its left edge is `m.x + (m.width - w) / 2` and
/// its top edge `m.y + (m.height - h) / 2`. A window larger than the monitor
/// along an axis is then kept on it, which puts its far edge on the monitor's
/// far edge.
pub proof fn lemma_centred_when_unplaced(c: ValidatedConfig, m: MonitorInfo)
    requires
        c.parsed_position is None,
        c.offset is None,
        geometry_fits(c, m),
        geometry_of(c, m) is Ok,
    ensures
        ({
            let (x, y, w, h) = geometry_of(c, m)->Ok_0;
            &&& (w <= m.width ==> x as int == m.x + (m.width - w) / 2)
            &&& (w > m.width ==> x as int == m.x + m.width - w)
            &&& (h <= m.height ==> y as int == m.y + (m.height - h) / 2)
            &&& (h > m.height ==> y as int == m.y + m.height - h)
        }),
{
    let (w, h) = size_of(c.size@, m.width as int, m.height as int, opt_view(c.max_size), m.percent_pixels@)->Ok_0;
    assert(offset_of(opt_view(c.offset), m.width as int, m.height as int, m.percent_pixels@) == Ok::<(i32, i32), (GeometryErrorKind, Seq<char>)>((0i32, 0i32)));
    let dx = m.width - w;
    let dy = m.height - h;
    if dx < 0 {
        assert(-((-dx) / 2) >= dx);
        assert(-((-dx) / 2) <= 0);
    }
    if dy < 0 {
        assert(-((-dy) / 2) >= dy);
        assert(-((-dy) / 2) <= 0);
    }
}

/// A scratchpad that fits on the monitor lies wholly on it, wherever its
/// position, offset or margin would have put it.
pub proof fn lemma_geometry_on_monitor(c: ValidatedConfig, m: MonitorInfo)
    requires
        geometry_fits(c, m),
        geometry_of(c, m) is Ok,
    ensures
        ({
            let (x, y, w, h) = geometry_of(c, m)->Ok_0;
            &&& (w <= m.width ==> m.x <= x && x + w <= m.x + m.width)
            &&& (h <= m.height ==> m.y <= y && y + h <= m.y + m.height)
        }),
{
}

/// An explicit position is taken from the monitor's origin, and an offset
/// (plus the margin) likewise when no position is set, as long as the window
/// stays on the monitor there.
pub proof fn lemma_placed_from_monitor_origin(c: ValidatedConfig, m: MonitorInfo)
    requires
        geometry_fits(c, m),
        geometry_of(c, m) is Ok,
    ensures
        ({
            let (x, y, w, h) = geometry_of(c, m)->Ok_0;
            let (ox, oy) = offset_of(opt_view(c.offset), m.width as int, m.height as int, m.percent_pixels@)->Ok_0;
            &&& (c.parsed_position matches Some((px, py)) ==> {
                &&& (m.x <= m.x + px <= m.x + m.width - w ==> x == m.x + px)
                &&& (m.y <= m.y + py <= m.y + m.height - h ==> y == m.y + py)
            })
            &&& (c.parsed_position is None && c.offset is Some ==> {
                &&& (m.x <= m.x + ox + margin_of(c) <= m.x + m.width - w ==> x == m.x + ox + margin_of(c))
                &&& (m.y <= m.y + oy + margin_of(c) <= m.y + m.height - h ==> y == m.y + oy + margin_of(c))
            })
        }),
{
}

} // verus!
