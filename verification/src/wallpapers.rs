//! Wallpaper choice: which image each monitor shows next, the command that
//! sets it, and the plugin's answers. Reading directories and running the
//! command happen in the daemon.
use vstd::prelude::*;
use crate::keyed::{find_key, key_of, lemma_key_of, lemma_update_value, unique_keys, value_of};
use crate::text::{
    append_bool, append_nat, append_str, bool_text, chars_eq, chars_of, contains_chars, contains_seq, join, lowercase,
    copy_string, nat_digits, owned, replace_all, replace_chars, str_eq, string_of, strs, to_lowercase,
};
use crate::scratchpad_state::name_set;
use rand::seq::SliceRandom;

verus! {

#[verifier::external_type_specification]
#[verifier::external_body]
pub struct ExSystemTime(std::time::SystemTime);

/// Where wallpapers are looked for.
#[derive(Debug, Clone)]
pub enum WallpaperPath {
    Single(String),
    Multiple(Vec<String>),
}

/// Settings of the wallpaper plugin.
#[derive(Debug, Clone)]
pub struct WallpapersConfig {
    pub path: WallpaperPath,
    /// Seconds between changes.
    pub interval: u64,
    /// File extensions taken as images.
    pub extensions: Vec<String>,
    pub recurse: bool,
    /// A different wallpaper on each monitor.
    pub unique: bool,
    /// The command that sets a wallpaper; `[file]` stands for the image.
    pub command: String,
    pub clear_command: Option<String>,
    pub debug_logging: bool,
    pub preload_count: usize,
}

pub fn default_interval() -> (n: u64)
    ensures
        n == 600,
{
    600
}

pub fn default_extensions() -> (v: Vec<String>)
    ensures
        strs(v@) == seq!["jpg"@, "jpeg"@, "png"@, "webp"@, "bmp"@],
{
    let mut v: Vec<String> = Vec::new();
    v.push(owned("jpg"));
    v.push(owned("jpeg"));
    v.push(owned("png"));
    v.push(owned("webp"));
    v.push(owned("bmp"));
    assert(strs(v@) =~= seq!["jpg"@, "jpeg"@, "png"@, "webp"@, "bmp"@]);
    v
}

pub fn default_command() -> (s: String)
    ensures
        s@ == "swaybg -i \"[file]\" -m fill"@,
{
    owned("swaybg -i \"[file]\" -m fill")
}

pub fn default_preload_count() -> (n: usize)
    ensures
        n == 3,
{
    3
}

impl Default for WallpapersConfig {
    fn default() -> (c: Self)
        ensures
            c.path matches WallpaperPath::Single(p) && p@ == "~/Pictures/wallpapers"@,
            c.interval == 600,
            strs(c.extensions@) == seq!["jpg"@, "jpeg"@, "png"@, "webp"@, "bmp"@],
            !c.recurse,
            !c.unique,
            c.command@ == "swaybg -i \"[file]\" -m fill"@,
            c.clear_command is None,
            !c.debug_logging,
            c.preload_count == 3,
    {
        WallpapersConfig {
            path: WallpaperPath::Single(owned("~/Pictures/wallpapers")),
            interval: default_interval(),
            extensions: default_extensions(),
            recurse: false,
            unique: false,
            command: default_command(),
            clear_command: None,
            debug_logging: false,
            preload_count: default_preload_count(),
        }
    }
}

/// An image found by a scan.
#[derive(Debug)]
pub struct WallpaperInfo {
    pub path: String,
    pub filename: String,
    pub size_bytes: u64,
    pub last_modified: std::time::SystemTime,
    pub dimensions: Option<(u32, u32)>,
}

impl Clone for WallpaperInfo {
    fn clone(&self) -> (w: Self)
        ensures
            w.path@ == self.path@,
            w.filename@ == self.filename@,
            w.size_bytes == self.size_bytes,
            w.dimensions == self.dimensions,
    {
        WallpaperInfo {
            path: crate::text::copy_string(&self.path),
            filename: crate::text::copy_string(&self.filename),
            size_bytes: self.size_bytes,
            last_modified: self.last_modified,
            dimensions: self.dimensions,
        }
    }
}

/// What each monitor shows.
#[derive(Debug)]
pub struct MonitorState {
    pub name: String,
    pub current_wallpaper: Option<String>,
    pub wallpaper_index: usize,
    pub last_change: std::time::Instant,
}

// ---------------------------------------------------------------------------
// Scanning
// ---------------------------------------------------------------------------

/// Whether a file extension, in any letter case, is one of `extensions`.
pub fn has_wallpaper_extension(extension: &str, extensions: &Vec<String>) -> (b: bool)
    ensures
        b == name_set(extensions@).contains(lowercase(extension@)),
{
    let lower = to_lowercase(extension);
    let target = chars_of(lower.as_str());
    let mut k: usize = 0;
    while k < extensions.len()
        invariant
            k <= extensions@.len(),
            target@ == lowercase(extension@),
            forall|q: int| 0 <= q < k ==> (#[trigger] extensions@[q])@ != lowercase(extension@),
        decreases extensions@.len() - k,
    {
        if chars_eq(&chars_of(extensions[k].as_str()), &target) {
            assert(extensions@[k as int]@ == lowercase(extension@));
            return true;
        }
        k = k + 1;
    }
    proof {
        if name_set(extensions@).contains(lowercase(extension@)) {
            let q = choose|q: int| 0 <= q < extensions@.len() && #[trigger] extensions@[q]@ == lowercase(extension@);
            assert(extensions@[q]@ != lowercase(extension@));
        }
    }
    false
}

/// `SliceRandom::shuffle` with the thread's random generator: the same
/// wallpapers in a random order. Only that the order is a rearrangement is
/// stated; which one comes out is chance.
#[verifier::external_body]
fn shuffle_wallpapers(v: &mut Vec<WallpaperInfo>)
    ensures
        final(v)@.to_multiset() == old(v)@.to_multiset(),
{
    v.shuffle(&mut rand::thread_rng());
}

/// The wallpapers of a scan in random order: each found image once, nothing
/// else.
pub fn finish_scan(found: Vec<WallpaperInfo>) -> (r: Vec<WallpaperInfo>)
    ensures
        r@.to_multiset() == found@.to_multiset(),
        r@.len() == found@.len(),
{
    let mut v = found;
    shuffle_wallpapers(&mut v);
    proof {
        v@.to_multiset_ensures();
        found@.to_multiset_ensures();
    }
    v
}

// ---------------------------------------------------------------------------
// Choosing
// ---------------------------------------------------------------------------

/// The next index for a monitor at `index`: `monitor_count` further when
/// every monitor gets its own wallpaper, else one further, wrapping around
/// `count` wallpapers.
pub open spec fn next_index(index: int, monitor_count: int, count: int, unique: bool) -> int {
    if unique { (index + monitor_count) % count } else { (index + 1) % count }
}

/// Picks the next wallpaper for `monitor_name`: the monitor gets a state if
/// it had none (at index 0, counted after the others), its index moves on
/// (see `next_index`, with the number of monitors known before), and the
/// wallpaper at the new index is returned. No wallpaper, no change.
pub fn get_next_wallpaper(monitors: &mut Vec<(String, MonitorState)>, wallpaper_count: usize, unique: bool, monitor_name: &str) -> (r: Option<usize>)
    requires
        unique_keys(old(monitors)@),
    ensures
        unique_keys(final(monitors)@),
        wallpaper_count == 0 ==> r is None && final(monitors)@ == old(monitors)@,
        wallpaper_count > 0 ==> {
            let start = match value_of(old(monitors)@, monitor_name@) { Some(m) => m.wallpaper_index as int, None => 0 };
            let idx = next_index(start, old(monitors)@.len() as int, wallpaper_count as int, unique);
            &&& r == Some(idx as usize)
            &&& value_of(final(monitors)@, monitor_name@) matches Some(m) && m.wallpaper_index == idx
            &&& forall|a: Seq<char>| a != monitor_name@ ==> #[trigger] value_of(final(monitors)@, a) == value_of(old(monitors)@, a)
        },
{
    if wallpaper_count == 0 {
        return None;
    }
    let count = monitors.len();
    let ghost s0 = monitors@;
    let i = match find_key(monitors, monitor_name) {
        Some(i) => i,
        None => {
            proof { lemma_key_of(s0, monitor_name@); }
            monitors.push((owned(monitor_name), MonitorState {
                name: owned(monitor_name),
                current_wallpaper: None,
                wallpaper_index: 0,
                last_change: crate::scratchpad_state::now(),
            }));
            let i = monitors.len() - 1;
            proof {
                assert(monitors@.drop_last() =~= s0);
                assert forall|p: int, q: int| 0 <= p < q < monitors@.len() implies monitors@[p].0@ != monitors@[q].0@ by {
                    assert(monitors@[p] == s0[p]);
                    if q < s0.len() { assert(monitors@[q] == s0[q]); }
                }
                crate::keyed::lemma_unique_at(monitors@, monitor_name@, i as int);
                assert forall|a: Seq<char>| a != monitor_name@ implies #[trigger] value_of(monitors@, a) == value_of(s0, a) by {
                    lemma_key_of(s0, a);
                    match key_of(s0, a) {
                        Some(j) => {
                            assert(monitors@[j] == s0[j]);
                            crate::keyed::lemma_unique_at(monitors@, a, j);
                        },
                        None => {
                            assert forall|j: int| 0 <= j < monitors@.len() implies monitors@[j].0@ != a by {
                                if j < s0.len() { assert(monitors@[j] == s0[j]); }
                            }
                            crate::keyed::lemma_key_of_none(monitors@, a);
                        },
                    }
                }
            }
            i
        },
    };
    let ghost s1 = monitors@;
    let cur = monitors[i].1.wallpaper_index;
    let step: u128 = if unique { count as u128 } else { 1 };
    let next = ((cur as u128 + step) % (wallpaper_count as u128)) as usize;
    monitors[i].1.wallpaper_index = next;
    proof {
        lemma_update_value(s1, i as int, monitors@);
    }
    Some(next)
}

// ---------------------------------------------------------------------------
// Commands and answers
// ---------------------------------------------------------------------------

/// The command that shows `file` on `monitor`: `[file]` in the template
/// replaced by the file, and, for `swaybg`, the monitor added.
/// The wallpaper a rotation shows on the `monitor_idx`-th monitor at rotation
/// step `step` of `count` wallpapers: each monitor its own when `unique`, else
/// all the same.
pub open spec fn rotation_pick(step: int, monitor_idx: int, count: int, unique: bool) -> int {
    if unique { (step + monitor_idx) % count } else { step % count }
}

/// Index of the wallpaper shown by a rotation (see `rotation_pick`), and the
/// step that follows.
pub fn rotation_index(step: usize, monitor_idx: usize, count: usize, unique: bool) -> (r: (usize, usize))
    requires
        count > 0,
    ensures
        r.0 == rotation_pick(step as int, monitor_idx as int, count as int, unique),
        r.1 == (step as int + 1) % (count as int),
{
    let pick = if unique {
        ((step as u128 + monitor_idx as u128) % (count as u128)) as usize
    } else {
        step % count
    };
    let next = ((step as u128 + 1) % (count as u128)) as usize;
    (pick, next)
}

pub open spec fn wallpaper_command(template: Seq<char>, file: Seq<char>, monitor: Seq<char>) -> Seq<char> {
    let c = replace_all(template, "[file]"@, file);
    if contains_seq(c, "swaybg"@) { c + " -o "@ + monitor } else { c }
}

/// The command that shows `file` on `monitor` (see `wallpaper_command`).
pub fn build_command(template: &str, file: &str, monitor: &str) -> (s: String)
    ensures
        s@ == wallpaper_command(template@, file@, monitor@),
{
    let pat = chars_of("[file]");
    proof { reveal_strlit("[file]"); }
    assert(pat@.len() > 0);
    let c = replace_chars(&chars_of(template), &pat, &chars_of(file));
    let mut s = string_of(&c);
    if contains_chars(&c, &chars_of("swaybg")) {
        append_str(&mut s, " -o ");
        append_str(&mut s, monitor);
    }
    s
}

/// The answer to `next`: each monitor with the file it now shows.
pub fn next_message(results: &Vec<(String, String)>) -> (s: String)
    ensures
        s@ == "Set wallpapers: "@ + join(results@.map_values(|p: (String, String)| p.0@ + ": "@ + p.1@), ", "@),
{
    let mut s = String::new();
    append_str(&mut s, "Set wallpapers: ");
    let ghost head = s@;
    let ghost parts = results@.map_values(|p: (String, String)| p.0@ + ": "@ + p.1@);
    let mut i: usize = 0;
    while i < results.len()
        invariant
            i <= results@.len(),
            parts == results@.map_values(|p: (String, String)| p.0@ + ": "@ + p.1@),
            s@ == head + join(parts.take(i as int), ", "@),
        decreases results@.len() - i,
    {
        if i > 0 {
            append_str(&mut s, ", ");
        }
        append_str(&mut s, results[i].0.as_str());
        append_str(&mut s, ": ");
        append_str(&mut s, results[i].1.as_str());
        proof {
            let t = parts.take(i as int + 1);
            assert(t.drop_last() =~= parts.take(i as int));
            assert(t.last() == parts[i as int]);
            if i == 0 { assert(t =~= seq![t[0]]); }
            assert(s@ =~= head + join(t, ", "@));
        }
        i = i + 1;
    }
    proof { assert(parts.take(results@.len() as int) =~= parts); }
    s
}

/// The first wallpaper named `filename`.
pub fn find_by_filename(wallpapers: &Vec<WallpaperInfo>, filename: &str) -> (r: Option<usize>)
    ensures
        match r {
            Some(i) => i < wallpapers@.len() && wallpapers@[i as int].filename@ == filename@
                && forall|j: int| 0 <= j < i ==> wallpapers@[j].filename@ != filename@,
            None => forall|j: int| 0 <= j < wallpapers@.len() ==> (#[trigger] wallpapers@[j]).filename@ != filename@,
        },
{
    let target = chars_of(filename);
    let mut i: usize = 0;
    while i < wallpapers.len()
        invariant
            i <= wallpapers@.len(),
            target@ == filename@,
            forall|j: int| 0 <= j < i ==> (#[trigger] wallpapers@[j]).filename@ != filename@,
        decreases wallpapers@.len() - i,
    {
        if chars_eq(&chars_of(wallpapers[i].filename.as_str()), &target) {
            return Some(i);
        }
        i = i + 1;
    }
    None
}

/// The error when `set` finds nothing: up to five known file names, or a hint
/// to scan first.
pub open spec fn not_found_text(input: Seq<char>, names: Seq<Seq<char>>) -> Seq<char> {
    let shown = names.take(if names.len() < 5 { names.len() as int } else { 5 });
    "File not found: "@ + input + ". "@ + if shown.len() == 0 {
        "Run 'wall scan' first to discover wallpapers"@
    } else {
        "Available wallpapers: "@ + join(shown, ", "@)
    }
}

/// The error when `set` finds nothing (see `not_found_text`).
pub fn not_found_message(input: &str, wallpapers: &Vec<WallpaperInfo>) -> (s: String)
    ensures
        s@ == not_found_text(input@, wallpapers@.map_values(|w: WallpaperInfo| w.filename@)),
{
    let ghost names = wallpapers@.map_values(|w: WallpaperInfo| w.filename@);
    let n: usize = if wallpapers.len() < 5 { wallpapers.len() } else { 5 };
    let ghost shown = names.take(n as int);
    let mut s = String::new();
    append_str(&mut s, "File not found: ");
    append_str(&mut s, input);
    append_str(&mut s, ". ");
    if n == 0 {
        append_str(&mut s, "Run 'wall scan' first to discover wallpapers");
        return s;
    }
    append_str(&mut s, "Available wallpapers: ");
    let ghost head = s@;
    let mut i: usize = 0;
    while i < n
        invariant
            i <= n,
            n <= wallpapers@.len(),
            names == wallpapers@.map_values(|w: WallpaperInfo| w.filename@),
            shown == names.take(n as int),
            s@ == head + join(shown.take(i as int), ", "@),
        decreases n - i,
    {
        if i > 0 {
            append_str(&mut s, ", ");
        }
        append_str(&mut s, wallpapers[i].filename.as_str());
        proof {
            let t = shown.take(i as int + 1);
            assert(t.drop_last() =~= shown.take(i as int));
            assert(t.last() == names[i as int]);
            if i == 0 { assert(t =~= seq![t[0]]); }
            assert(s@ =~= head + join(t, ", "@));
        }
        i = i + 1;
    }
    proof { assert(shown.take(n as int) =~= shown); }
    s
}

/// The answer to an unknown command.
pub fn unknown_command_message(command: &str) -> (s: String)
    ensures
        s@ == "Unknown wallpapers command: "@ + command@ + ". Available: next, set, scan, list, status, clear, start, stop"@,
{
    let mut s = String::new();
    append_str(&mut s, "Unknown wallpapers command: ");
    append_str(&mut s, command);
    append_str(&mut s, ". Available: next, set, scan, list, status, clear, start, stop");
    s
}

/// The answer to `scan`.
pub fn scanned_message(count: usize) -> (s: String)
    ensures
        s@ == "Scanned wallpapers: "@ + nat_digits(count as nat) + " found"@,
{
    let mut s = String::new();
    append_str(&mut s, "Scanned wallpapers: ");
    append_nat(&mut s, count as u64);
    append_str(&mut s, " found");
    s
}


/// The line of the status report for one monitor: its wallpaper or `None`.
pub open spec fn monitor_status_line(m: MonitorState) -> Seq<char> {
    "  \u{2022} "@ + m.name@ + ": "@ + (match m.current_wallpaper { Some(w) => w@, None => "None"@ }) + "\n"@
}

pub open spec fn monitor_status_lines(ms: Seq<(String, MonitorState)>) -> Seq<char>
    decreases ms.len(),
{
    if ms.len() == 0 { Seq::empty() } else { monitor_status_lines(ms.drop_last()) + monitor_status_line(ms.last().1) }
}

/// The status report: counts, rotation, settings, the age of the last scan
/// in seconds when there was one, and each monitor's wallpaper.
pub open spec fn wallpaper_status_text(count: nat, ms: Seq<(String, MonitorState)>, rotating: bool, c: WallpapersConfig,
    last_scan_secs: Option<u64>) -> Seq<char> {
    "\u{1f4ca} Wallpapers Plugin Status\n"@ + "  \u{2022} Wallpapers loaded: "@ + nat_digits(count) + "\n"@
        + "  \u{2022} Monitors tracked: "@ + nat_digits(ms.len()) + "\n"@
        + "  \u{2022} Rotation active: "@ + bool_text(rotating) + "\n"@
        + "  \u{2022} Interval: "@ + nat_digits(c.interval as nat) + "s\n"@
        + "  \u{2022} Unique per monitor: "@ + bool_text(c.unique) + "\n"@
        + (match last_scan_secs { Some(t) => "  \u{2022} Last scan: "@ + nat_digits(t as nat) + "s ago\n"@, None => Seq::empty() })
        + monitor_status_lines(ms)
}

/// The status report (see `wallpaper_status_text`).
#[verifier::rlimit(40)]
pub fn wallpaper_status(count: usize, monitors: &Vec<(String, MonitorState)>, rotating: bool, config: &WallpapersConfig,
    last_scan_secs: Option<u64>) -> (s: String)
    ensures
        s@ == wallpaper_status_text(count as nat, monitors@, rotating, *config, last_scan_secs),
{
    let mut s = owned("\u{1f4ca} Wallpapers Plugin Status\n");
    append_str(&mut s, "  \u{2022} Wallpapers loaded: ");
    append_nat(&mut s, count as u64);
    append_str(&mut s, "\n");
    append_str(&mut s, "  \u{2022} Monitors tracked: ");
    append_nat(&mut s, monitors.len() as u64);
    append_str(&mut s, "\n");
    append_str(&mut s, "  \u{2022} Rotation active: ");
    append_bool(&mut s, rotating);
    append_str(&mut s, "\n");
    append_str(&mut s, "  \u{2022} Interval: ");
    append_nat(&mut s, config.interval);
    append_str(&mut s, "s\n");
    append_str(&mut s, "  \u{2022} Unique per monitor: ");
    append_bool(&mut s, config.unique);
    append_str(&mut s, "\n");
    let ghost before = s@;
    match last_scan_secs {
        Some(t) => {
            append_str(&mut s, "  \u{2022} Last scan: ");
            append_nat(&mut s, t);
            append_str(&mut s, "s ago\n");
        },
        None => {
            assert(s@ =~= before + Seq::<char>::empty());
        },
    }
    let ghost head = s@;
    let mut i: usize = 0;
    while i < monitors.len()
        invariant
            i <= monitors@.len(),
            s@ == head + monitor_status_lines(monitors@.take(i as int)),
        decreases monitors@.len() - i,
    {
        let ghost t = monitors@.take(i as int + 1);
        assert(t.drop_last() =~= monitors@.take(i as int));
        let ghost b = s@;
        let m = &monitors[i].1;
        append_str(&mut s, "  \u{2022} ");
        append_str(&mut s, m.name.as_str());
        append_str(&mut s, ": ");
        match &m.current_wallpaper {
            Some(w) => append_str(&mut s, w.as_str()),
            None => append_str(&mut s, "None"),
        }
        append_str(&mut s, "\n");
        assert(s@ =~= b + monitor_status_line(*m));
        i = i + 1;
    }
    assert(monitors@.take(monitors@.len() as int) =~= monitors@);
    s
}


/// A command of the wallpapers plugin.
#[derive(Debug)]
pub enum WallpaperCommand {
    Next,
    /// A path or a filename to show.
    SetTo(String),
    Scan,
    List,
    Status,
    Clear,
    Start,
    Stop,
    Unknown,
}

/// Reads a command of the wallpapers plugin; `set` needs an argument.
pub fn parse_command(command: &str, args: &Vec<String>) -> (r: Result<WallpaperCommand, String>)
    ensures
        match r {
            Ok(WallpaperCommand::Next) => command@ == "next"@,
            Ok(WallpaperCommand::SetTo(a)) => command@ == "set"@ && args@.len() > 0 && a@ == args@[0]@,
            Ok(WallpaperCommand::Scan) => command@ == "scan"@,
            Ok(WallpaperCommand::List) => command@ == "list"@,
            Ok(WallpaperCommand::Status) => command@ == "status"@,
            Ok(WallpaperCommand::Clear) => command@ == "clear"@,
            Ok(WallpaperCommand::Start) => command@ == "start"@,
            Ok(WallpaperCommand::Stop) => command@ == "stop"@,
            Ok(WallpaperCommand::Unknown) => command@ != "next"@ && command@ != "set"@ && command@ != "scan"@
                && command@ != "list"@ && command@ != "status"@ && command@ != "clear"@ && command@ != "start"@
                && command@ != "stop"@,
            Err(e) => command@ == "set"@ && args@.len() == 0 && e@ == "Usage: wall set <path|filename>"@,
        },
{
    let v = chars_of(command);
    if str_eq("next", &v) {
        Ok(WallpaperCommand::Next)
    } else if str_eq("set", &v) {
        if args.len() > 0 {
            Ok(WallpaperCommand::SetTo(copy_string(&args[0])))
        } else {
            Err(owned("Usage: wall set <path|filename>"))
        }
    } else if str_eq("scan", &v) {
        Ok(WallpaperCommand::Scan)
    } else if str_eq("list", &v) {
        Ok(WallpaperCommand::List)
    } else if str_eq("status", &v) {
        Ok(WallpaperCommand::Status)
    } else if str_eq("clear", &v) {
        Ok(WallpaperCommand::Clear)
    } else if str_eq("start", &v) {
        Ok(WallpaperCommand::Start)
    } else if str_eq("stop", &v) {
        Ok(WallpaperCommand::Stop)
    } else {
        Ok(WallpaperCommand::Unknown)
    }
}

} // verus!
