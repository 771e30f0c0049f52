//! Turning log lines into notifications: parser settings and their
//! defaults, the text a matching line becomes, colours and icons in the form
//! Hyprland's `notify` takes, and the plugin's commands.
use vstd::prelude::*;
use crate::text::{
    append_int, append_str, chars_eq, chars_of, contains_chars, contains_seq, copy_opt,
    copy_string, has_prefix, has_suffix, i32_of, join, opt_chars, owned, parse_i32,
    parse_u8_range, replace_all, replace_chars, lacks, lemma_replace_all_absent,
    lemma_replace_all_split, lemma_replace_all_last, starts_with, ends_with, string_of,
    string_of_range, strs, trim, trim_range, u8_of, find_char, int_text, nat_digits, append_nat,
};

verus! {

// ---------------------------------------------------------------------------
// Configuration
// ---------------------------------------------------------------------------

/// The plugin's defaults for every parser.
#[derive(Debug, Clone)]
pub struct SystemNotifierConfig {
    /// Milliseconds.
    pub timeout: Option<i32>,
    pub urgency: Option<String>,
    pub color: Option<String>,
    pub icon: Option<String>,
    pub sound: Option<String>,
}

impl Default for SystemNotifierConfig {
    fn default() -> (c: Self)
        ensures
            c.timeout == Some(5000i32),
            opt_chars(c.urgency) == Some("normal"@),
            opt_chars(c.color) == Some("#0088ff"@),
            opt_chars(c.icon) == Some("info"@),
            c.sound is None,
    {
        SystemNotifierConfig {
            timeout: Some(5000),
            urgency: Some(owned("normal")),
            color: Some(owned("#0088ff")),
            icon: Some(owned("info")),
            sound: None,
        }
    }
}

fn or_default(a: &Option<String>, b: &Option<String>) -> (r: Option<String>)
    ensures
        opt_chars(r) == match a { Some(x) => Some(x@), None => opt_chars(*b) },
{
    match a {
        Some(x) => Some(copy_string(x)),
        None => copy_opt(b),
    }
}

/// The main settings with every unset field taken from the defaults.
pub fn merge_with_defaults(main: &SystemNotifierConfig) -> (c: SystemNotifierConfig)
    ensures
        c.timeout == match main.timeout { Some(t) => Some(t), None => Some(5000i32) },
        opt_chars(c.urgency) == match main.urgency { Some(u) => Some(u@), None => Some("normal"@) },
        opt_chars(c.color) == match main.color { Some(u) => Some(u@), None => Some("#0088ff"@) },
        opt_chars(c.icon) == match main.icon { Some(u) => Some(u@), None => Some("info"@) },
        opt_chars(c.sound) == opt_chars(main.sound),
{
    let d = SystemNotifierConfig::default();
    SystemNotifierConfig {
        timeout: match main.timeout { Some(t) => Some(t), None => d.timeout },
        urgency: or_default(&main.urgency, &d.urgency),
        color: or_default(&main.color, &d.color),
        icon: or_default(&main.icon, &d.icon),
        sound: or_default(&main.sound, &d.sound),
    }
}

/// A command whose output is watched, and the parser for its lines.
#[derive(Debug, Clone)]
pub struct SourceConfig {
    pub command: String,
    pub parser: String,
}

/// How lines are recognised and turned into notifications.
#[derive(Debug, Clone)]
pub struct ParserConfig {
    /// The regular expression a line must match.
    pub pattern: String,
    /// A `s/pattern/replacement/` rewrite of the line.
    pub filter: Option<String>,
    pub color: Option<String>,
    pub timeout: Option<i32>,
    pub urgency: Option<String>,
    pub icon: Option<String>,
    pub sound: Option<String>,
}

/// Timing of a notification's appearance.
#[derive(Debug, Clone)]
pub struct NotificationAnimation {
    /// Milliseconds the notification stays before it disappears.
    pub display_duration: Option<u32>,
    pub smooth_transitions: Option<bool>,
}

/// A parser with its animation.
#[derive(Debug, Clone)]
pub struct NotificationConfig {
    pub basic: ParserConfig,
    pub animation: Option<NotificationAnimation>,
}

/// How urgent a notification is.
#[derive(Debug, Clone, Copy, PartialEq, Eq, Structural)]
pub enum UrgencyLevel {
    Low,
    Normal,
    Critical,
}

/// The urgency a word names: `low`, `critical`, anything else normal.
pub open spec fn urgency_named(s: Seq<char>) -> UrgencyLevel {
    if s == "low"@ { UrgencyLevel::Low } else if s == "critical"@ { UrgencyLevel::Critical } else { UrgencyLevel::Normal }
}

pub fn urgency_of(s: &str) -> (u: UrgencyLevel)
    ensures
        u == urgency_named(s@),
{
    let c = chars_of(s);
    if chars_eq(&c, &chars_of("low")) {
        UrgencyLevel::Low
    } else if chars_eq(&c, &chars_of("critical")) {
        UrgencyLevel::Critical
    } else {
        UrgencyLevel::Normal
    }
}

// ---------------------------------------------------------------------------
// Regular expressions
// ---------------------------------------------------------------------------

/// Whether `regex::Regex::new` accepts `pattern`.
pub uninterp spec fn regex_accepts(pattern: Seq<char>) -> bool;

/// Capture group `group` of the first match of `pattern` in `haystack`
/// (group 0 is the whole match), as `Regex::captures` and `Captures::get`
/// find it.
pub uninterp spec fn regex_capture(pattern: Seq<char>, haystack: Seq<char>, group: nat) -> Option<Seq<char>>;

/// `haystack` with the first match of `pattern` replaced by `rep`, `$n`
/// standing for group `n`, as `Regex::replace` makes it.
pub uninterp spec fn regex_replace_first(pattern: Seq<char>, haystack: Seq<char>, rep: Seq<char>) -> Seq<char>;

/// `regex::Regex::new(pattern).is_ok()`: whether the pattern compiles
/// (within the default size limit). Stated as the name `regex_accepts`.
#[verifier::external_body]
fn regex_compiles(pattern: &str) -> (b: bool)
    ensures
        b == regex_accepts(pattern@),
{
    regex::Regex::new(pattern).is_ok()
}

/// `Regex::captures` on the compiled `pattern`, then `Captures::get(group)`:
/// the text of that group in the first match, if any. Stated as the name
/// `regex_capture`.
#[verifier::external_body]
fn capture_group(pattern: &str, haystack: &str, group: usize) -> (r: Option<String>)
    requires
        regex_accepts(pattern@),
    ensures
        opt_chars(r) == regex_capture(pattern@, haystack@, group as nat),
{
    match regex::Regex::new(pattern) {
        Ok(re) => re.captures(haystack).and_then(|c| c.get(group)).map(|m| m.as_str().to_string()),
        Err(_) => None,
    }
}

/// `Regex::replace` on the compiled `pattern`: the first match replaced.
/// Stated as the name `regex_replace_first`.
#[verifier::external_body]
fn replace_first(pattern: &str, haystack: &str, rep: &str) -> (r: String)
    requires
        regex_accepts(pattern@),
    ensures
        r@ == regex_replace_first(pattern@, haystack@, rep@),
{
    match regex::Regex::new(pattern) {
        Ok(re) => re.replace(haystack, rep).to_string(),
        Err(_) => haystack.to_string(),
    }
}

// ---------------------------------------------------------------------------
// Parsers
// ---------------------------------------------------------------------------

/// A parser ready for use: its patterns compile.
#[derive(Debug, Clone)]
pub struct CompiledParser {
    pub pattern: String,
    pub filter: Option<String>,
    pub filter_replacement: Option<String>,
    pub color: Option<String>,
    pub timeout: Option<i32>,
    pub urgency: UrgencyLevel,
    pub icon: Option<String>,
    pub sound: Option<String>,
    pub animation: Option<NotificationAnimation>,
}

/// The patterns of a compiled parser compile.
pub open spec fn compiled_ok(p: CompiledParser) -> bool {
    &&& regex_accepts(p.pattern@)
    &&& (p.filter matches Some(f) ==> regex_accepts(f@))
    &&& (p.filter is Some <==> p.filter_replacement is Some)
}

/// Index of the first `'/'` in `s`, or its length.
pub open spec fn slash_index(s: Seq<char>) -> int
    decreases s.len(),
{
    if s.len() == 0 { 0 } else if s[0] == '/' { 0 } else { 1 + slash_index(s.drop_first()) }
}

/// A `s/pattern/replacement/` filter split into its pattern and replacement:
/// the text after `s/` up to the next `/`, and from there to the following
/// `/` (or the end).
pub open spec fn filter_parts(f: Seq<char>) -> Option<(Seq<char>, Seq<char>)> {
    let rest = f.skip(2);
    let a = slash_index(rest);
    if a >= rest.len() {
        None
    } else {
        let tail = rest.skip(a + 1);
        Some((rest.take(a), tail.take(slash_index(tail))))
    }
}

/// What compiling a filter gives: the pattern and replacement, or the error.
pub open spec fn filter_result(f: Seq<char>) -> Result<(Seq<char>, Seq<char>), Seq<char>> {
    if has_prefix(f, "s/"@) && f.len() > 2 {
        match filter_parts(f) {
            Some((p, r)) => if regex_accepts(p) { Ok((p, r)) } else { Err("Invalid filter regex: "@ + p) },
            None => Err("Invalid filter format: "@ + f),
        }
    } else {
        Err("Filter must be in s/pattern/replacement/ format"@)
    }
}

proof fn lemma_slash_index(s: Seq<char>)
    ensures
        0 <= slash_index(s) <= s.len(),
        slash_index(s) < s.len() ==> s[slash_index(s)] == '/',
        forall|k: int| 0 <= k < slash_index(s) ==> s[k] != '/',
    decreases s.len(),
{
    if s.len() > 0 && s[0] != '/' {
        lemma_slash_index(s.drop_first());
        assert forall|k: int| 0 <= k < slash_index(s) implies s[k] != '/' by {
            if k > 0 { assert(s.drop_first()[k - 1] == s[k]); }
        }
    }
}

/// Index of the first `'/'` in `v` at or after `lo`, or the length.
fn slash_from(v: &Vec<char>, lo: usize) -> (k: usize)
    requires
        lo <= v@.len(),
    ensures
        k as int == lo + slash_index(v@.skip(lo as int)),
{
    let k = find_char(v, lo, '/');
    proof {
        lemma_slash_index(v@.skip(lo as int));
        let s = v@.skip(lo as int);
        let d = slash_index(s);
        if lo + d < k {
            assert(s[d] == '/');
            assert(v@[lo + d] == '/');
        } else if lo + d > k {
            assert(k < v@.len() ==> v@[k as int] == '/');
            if k < v@.len() { assert(s[k - lo] == '/'); }
        }
    }
    k
}

/// Compiles a parser; settings it leaves unset come from `defaults`
/// (urgency `normal` when neither sets one).
pub fn compile_parser(config: &NotificationConfig, defaults: &SystemNotifierConfig) -> (r: Result<CompiledParser, String>)
    ensures
        !regex_accepts(config.basic.pattern@) ==> (r matches Err(e) && e@ == "Invalid regex pattern: "@ + config.basic.pattern@),
        regex_accepts(config.basic.pattern@) ==> match config.basic.filter {
            Some(f) => match filter_result(f@) {
                Err(m) => r matches Err(e) && e@ == m,
                Ok((p, rep)) => r matches Ok(c) && compiled_ok(c) && compiled_from(c, *config, *defaults)
                    && opt_chars(c.filter) == Some(p) && opt_chars(c.filter_replacement) == Some(rep),
            },
            None => r matches Ok(c) && compiled_ok(c) && compiled_from(c, *config, *defaults)
                && c.filter is None && c.filter_replacement is None,
        },
{
    let mut e = String::new();
    if !regex_compiles(config.basic.pattern.as_str()) {
        append_str(&mut e, "Invalid regex pattern: ");
        append_str(&mut e, config.basic.pattern.as_str());
        return Err(e);
    }
    let (filter, filter_replacement) = match &config.basic.filter {
        Some(f) => {
            let v = chars_of(f.as_str());
            if !(starts_with(&v, &chars_of("s/")) && v.len() > 2) {
                append_str(&mut e, "Filter must be in s/pattern/replacement/ format");
                return Err(e);
            }
            proof { reveal_strlit("s/"); }
            let a = slash_from(&v, 2);
            proof {
                assert(v@.skip(2).skip(0) =~= v@.skip(2));
            }
            if a >= v.len() {
                proof { assert(slash_index(v@.skip(2)) >= v@.skip(2).len()); }
                append_str(&mut e, "Invalid filter format: ");
                append_str(&mut e, f.as_str());
                return Err(e);
            }
            let b = slash_from(&v, a + 1);
            proof {
                let rest = v@.skip(2);
                let ai = slash_index(rest);
                lemma_slash_index(rest);
                assert(a as int == 2 + ai);
                assert(ai + 1 <= rest.len());
                assert forall|j: int| 0 <= j < rest.skip(ai + 1).len() implies #[trigger] rest.skip(ai + 1)[j] == v@.skip(a as int + 1)[j] by {
                    assert(rest.skip(ai + 1)[j] == rest[ai + 1 + j]);
                    assert(rest[ai + 1 + j] == v@[2 + ai + 1 + j]);
                }
                assert(rest.skip(ai + 1) =~= v@.skip(a as int + 1));
                lemma_slash_index(rest);
                lemma_slash_index(v@.skip(a as int + 1));
            }
            let pat = string_of_range(&v, 2, a);
            let rep = string_of_range(&v, a + 1, b);
            proof {
                let rest = v@.skip(2);
                let ai = slash_index(rest);
                assert(pat@ =~= rest.take(ai));
                let tail = rest.skip(ai + 1);
                assert(rep@ =~= tail.take(slash_index(tail)));
            }
            if !regex_compiles(pat.as_str()) {
                append_str(&mut e, "Invalid filter regex: ");
                append_str(&mut e, pat.as_str());
                return Err(e);
            }
            (Some(pat), Some(rep))
        },
        None => (None, None),
    };
    let urgency = match &config.basic.urgency {
        Some(u) => urgency_of(u.as_str()),
        None => match &defaults.urgency {
            Some(u) => urgency_of(u.as_str()),
            None => UrgencyLevel::Normal,
        },
    };
    Ok(CompiledParser {
        pattern: copy_string(&config.basic.pattern),
        filter,
        filter_replacement,
        color: or_default(&config.basic.color, &defaults.color),
        timeout: match config.basic.timeout { Some(t) => Some(t), None => defaults.timeout },
        urgency,
        icon: or_default(&config.basic.icon, &defaults.icon),
        sound: or_default(&config.basic.sound, &defaults.sound),
        animation: match &config.animation {
            Some(a) => Some(NotificationAnimation {
                display_duration: a.display_duration,
                smooth_transitions: a.smooth_transitions,
            }),
            None => None,
        },
    })
}

/// The settings a compiled parser takes from its configuration and the
/// defaults.
pub open spec fn compiled_from(c: CompiledParser, cfg: NotificationConfig, d: SystemNotifierConfig) -> bool {
    &&& c.pattern@ == cfg.basic.pattern@
    &&& opt_chars(c.color) == match cfg.basic.color { Some(x) => Some(x@), None => opt_chars(d.color) }
    &&& c.timeout == match cfg.basic.timeout { Some(t) => Some(t), None => d.timeout }
    &&& c.urgency == match cfg.basic.urgency {
        Some(u) => urgency_named(u@),
        None => match d.urgency { Some(u) => urgency_named(u@), None => UrgencyLevel::Normal },
    }
    &&& opt_chars(c.icon) == match cfg.basic.icon { Some(x) => Some(x@), None => opt_chars(d.icon) }
    &&& opt_chars(c.sound) == match cfg.basic.sound { Some(x) => Some(x@), None => opt_chars(d.sound) }
    &&& c.animation == cfg.animation
}

// ---------------------------------------------------------------------------
// Lines to notifications
// ---------------------------------------------------------------------------

/// A sed replacement (`\1` to `\9`) written the way `regex` reads it (`$1`
/// to `$9`).
pub open spec fn sed_to_regex(r: Seq<char>) -> Seq<char> {
    let r1 = replace_all(r, "\\1"@, "$1"@);
    let r2 = replace_all(r1, "\\2"@, "$2"@);
    let r3 = replace_all(r2, "\\3"@, "$3"@);
    let r4 = replace_all(r3, "\\4"@, "$4"@);
    let r5 = replace_all(r4, "\\5"@, "$5"@);
    let r6 = replace_all(r5, "\\6"@, "$6"@);
    let r7 = replace_all(r6, "\\7"@, "$7"@);
    let r8 = replace_all(r7, "\\8"@, "$8"@);
    replace_all(r8, "\\9"@, "$9"@)
}

fn replace_step(v: &Vec<char>, from: &str, to: &str) -> (out: Vec<char>)
    requires
        from@.len() > 0,
    ensures
        out@ == replace_all(v@, from@, to@),
{
    replace_chars(v, &chars_of(from), &chars_of(to))
}

/// The pattern and replacement texts of the conversion, character by character.
proof fn lemma_sed_literals()
    ensures
        "\\1"@ == seq!['\\', '1'],
        "$1"@ == seq!['$', '1'],
        "\\2"@ == seq!['\\', '2'],
        "$2"@ == seq!['$', '2'],
        "\\3"@ == seq!['\\', '3'],
        "$3"@ == seq!['$', '3'],
        "\\4"@ == seq!['\\', '4'],
        "$4"@ == seq!['$', '4'],
        "\\5"@ == seq!['\\', '5'],
        "$5"@ == seq!['$', '5'],
        "\\6"@ == seq!['\\', '6'],
        "$6"@ == seq!['$', '6'],
        "\\7"@ == seq!['\\', '7'],
        "$7"@ == seq!['$', '7'],
        "\\8"@ == seq!['\\', '8'],
        "$8"@ == seq!['$', '8'],
        "\\9"@ == seq!['\\', '9'],
        "$9"@ == seq!['$', '9'],
{
    reveal_strlit("\\1"); reveal_strlit("$1");
    reveal_strlit("\\2"); reveal_strlit("$2");
    reveal_strlit("\\3"); reveal_strlit("$3");
    reveal_strlit("\\4"); reveal_strlit("$4");
    reveal_strlit("\\5"); reveal_strlit("$5");
    reveal_strlit("\\6"); reveal_strlit("$6");
    reveal_strlit("\\7"); reveal_strlit("$7");
    reveal_strlit("\\8"); reveal_strlit("$8");
    reveal_strlit("\\9"); reveal_strlit("$9");
}

/// Text without backslashes is left as it is.
pub proof fn lemma_sed_plain_unchanged(r: Seq<char>)
    requires
        lacks(r, '\\'),
    ensures
        sed_to_regex(r) == r,
{
    lemma_sed_literals();
    lemma_replace_all_absent(r, seq!['\\', '1'], seq!['$', '1']);
    lemma_replace_all_absent(r, seq!['\\', '2'], seq!['$', '2']);
    lemma_replace_all_absent(r, seq!['\\', '3'], seq!['$', '3']);
    lemma_replace_all_absent(r, seq!['\\', '4'], seq!['$', '4']);
    lemma_replace_all_absent(r, seq!['\\', '5'], seq!['$', '5']);
    lemma_replace_all_absent(r, seq!['\\', '6'], seq!['$', '6']);
    lemma_replace_all_absent(r, seq!['\\', '7'], seq!['$', '7']);
    lemma_replace_all_absent(r, seq!['\\', '8'], seq!['$', '8']);
    lemma_replace_all_absent(r, seq!['\\', '9'], seq!['$', '9']);
}

/// One replacement step on text split where no back-reference straddles the
/// join, and what it leaves at the end of the first piece.
proof fn lemma_sed_step_split(x: Seq<char>, y: Seq<char>, k: char)
    requires
        k != '\\',
        x.len() > 0 ==> x.last() != '\\',
    ensures
        replace_all(x + y, seq!['\\', k], seq!['$', k])
            == replace_all(x, seq!['\\', k], seq!['$', k]) + replace_all(y, seq!['\\', k], seq!['$', k]),
        replace_all(x, seq!['\\', k], seq!['$', k]).len() > 0 ==> replace_all(x, seq!['\\', k], seq!['$', k]).last() != '\\',
{
    lemma_replace_all_split(x, y, seq!['\\', k], seq!['$', k]);
    if x.len() > 0 {
        lemma_replace_all_last(x, seq!['\\', k], seq!['$', k], '\\');
    }
}

/// The conversion works piece by piece: text joined at a point not preceded
/// by a backslash converts to the two pieces converted and joined.
pub proof fn lemma_sed_split(x: Seq<char>, y: Seq<char>)
    requires
        x.len() > 0 ==> x.last() != '\\',
    ensures
        sed_to_regex(x + y) == sed_to_regex(x) + sed_to_regex(y),
{
    lemma_sed_literals();
    lemma_sed_step_split(x, y, '1');
    let x1 = replace_all(x, seq!['\\', '1'], seq!['$', '1']);
    let y1 = replace_all(y, seq!['\\', '1'], seq!['$', '1']);
    lemma_sed_step_split(x1, y1, '2');
    let x2 = replace_all(x1, seq!['\\', '2'], seq!['$', '2']);
    let y2 = replace_all(y1, seq!['\\', '2'], seq!['$', '2']);
    lemma_sed_step_split(x2, y2, '3');
    let x3 = replace_all(x2, seq!['\\', '3'], seq!['$', '3']);
    let y3 = replace_all(y2, seq!['\\', '3'], seq!['$', '3']);
    lemma_sed_step_split(x3, y3, '4');
    let x4 = replace_all(x3, seq!['\\', '4'], seq!['$', '4']);
    let y4 = replace_all(y3, seq!['\\', '4'], seq!['$', '4']);
    lemma_sed_step_split(x4, y4, '5');
    let x5 = replace_all(x4, seq!['\\', '5'], seq!['$', '5']);
    let y5 = replace_all(y4, seq!['\\', '5'], seq!['$', '5']);
    lemma_sed_step_split(x5, y5, '6');
    let x6 = replace_all(x5, seq!['\\', '6'], seq!['$', '6']);
    let y6 = replace_all(y5, seq!['\\', '6'], seq!['$', '6']);
    lemma_sed_step_split(x6, y6, '7');
    let x7 = replace_all(x6, seq!['\\', '7'], seq!['$', '7']);
    let y7 = replace_all(y6, seq!['\\', '7'], seq!['$', '7']);
    lemma_sed_step_split(x7, y7, '8');
    let x8 = replace_all(x7, seq!['\\', '8'], seq!['$', '8']);
    let y8 = replace_all(y7, seq!['\\', '8'], seq!['$', '8']);
    lemma_sed_step_split(x8, y8, '9');
}

/// One replacement step on a single back-reference `\d`, or on `$d` once it
/// has been converted.
proof fn lemma_ref_step(d: char, k: char, done: bool)
    requires
        d != '\\',
        k != '\\',
    ensures
        replace_all(if done { seq!['$', d] } else { seq!['\\', d] }, seq!['\\', k], seq!['$', k])
            == if done || d == k { seq!['$', d] } else { seq!['\\', d] },
{
    let pat = seq!['\\', k];
    let rep = seq!['$', k];
    if done {
        lemma_replace_all_absent(seq!['$', d], pat, rep);
    } else {
        let s = seq!['\\', d];
        assert(s.take(2) =~= s);
        if d == k {
            assert(s.skip(2) =~= Seq::<char>::empty());
            assert(replace_all(s.skip(2), pat, rep) == s.skip(2));
            assert(rep + s.skip(2) =~= seq!['$', d]);
        } else {
            assert(s.take(2)[1] != pat[1]);
            assert(s.drop_first() =~= seq![d]);
            assert(replace_all(seq![d], pat, rep) == seq![d]);
            assert(seq![s[0]] + seq![d] =~= s);
        }
    }
}

/// Every sed back-reference `\1` to `\9` becomes the one `regex` reads, `$1`
/// to `$9`.
pub proof fn lemma_sed_reference(d: char)
    requires
        '1' <= d <= '9',
    ensures
        sed_to_regex(seq!['\\', d]) == seq!['$', d],
{
    lemma_sed_literals();
    lemma_ref_step(d, '1', false);
    lemma_ref_step(d, '2', d == '1');
    lemma_ref_step(d, '3', d == '1' || d == '2');
    lemma_ref_step(d, '4', d == '1' || d == '2' || d == '3');
    lemma_ref_step(d, '5', d == '1' || d == '2' || d == '3' || d == '4');
    lemma_ref_step(d, '6', d == '1' || d == '2' || d == '3' || d == '4' || d == '5');
    lemma_ref_step(d, '7', d == '1' || d == '2' || d == '3' || d == '4' || d == '5' || d == '6');
    lemma_ref_step(d, '8', d == '1' || d == '2' || d == '3' || d == '4' || d == '5' || d == '6' || d == '7');
    lemma_ref_step(d, '9', d == '1' || d == '2' || d == '3' || d == '4' || d == '5' || d == '6' || d == '7' || d == '8');
}

/// Rewrites sed back-references `\1` to `\9` as `$1` to `$9`.
pub fn convert_sed_replacement(r: &str) -> (s: String)
    ensures
        s@ == sed_to_regex(r@),
{
    proof {
        reveal_strlit("\\1"); reveal_strlit("\\2"); reveal_strlit("\\3");
        reveal_strlit("\\4"); reveal_strlit("\\5"); reveal_strlit("\\6");
        reveal_strlit("\\7"); reveal_strlit("\\8"); reveal_strlit("\\9");
    }
    let v = chars_of(r);
    let v = replace_step(&v, "\\1", "$1");
    let v = replace_step(&v, "\\2", "$2");
    let v = replace_step(&v, "\\3", "$3");
    let v = replace_step(&v, "\\4", "$4");
    let v = replace_step(&v, "\\5", "$5");
    let v = replace_step(&v, "\\6", "$6");
    let v = replace_step(&v, "\\7", "$7");
    let v = replace_step(&v, "\\8", "$8");
    let v = replace_step(&v, "\\9", "$9");
    string_of(&v)
}

/// The notification text for a log line: nothing unless the pattern
/// matches; then the line rewritten by the filter, or else the first group
/// of the match, or else the whole match.
pub open spec fn line_text(p: CompiledParser, line: Seq<char>) -> Option<Seq<char>> {
    match regex_capture(p.pattern@, line, 0) {
        None => None,
        Some(whole) => match (p.filter, p.filter_replacement) {
            (Some(f), Some(r)) => Some(regex_replace_first(f@, line, sed_to_regex(r@))),
            _ => match regex_capture(p.pattern@, line, 1) {
                Some(g) => Some(g),
                None => Some(whole),
            },
        },
    }
}

/// The notification text for a log line (see `line_text`).
pub fn notification_text(parser: &CompiledParser, line: &str) -> (r: Option<String>)
    requires
        compiled_ok(*parser),
    ensures
        opt_chars(r) == line_text(*parser, line@),
{
    let whole = capture_group(parser.pattern.as_str(), line, 0);
    match whole {
        None => None,
        Some(w) => match (&parser.filter, &parser.filter_replacement) {
            (Some(f), Some(rep)) => {
                let conv = convert_sed_replacement(rep.as_str());
                Some(replace_first(f.as_str(), line, conv.as_str()))
            },
            _ => match capture_group(parser.pattern.as_str(), line, 1) {
                Some(g) => Some(g),
                None => Some(w),
            },
        },
    }
}

/// The notification text for a log line with a parser of any origin: its
/// patterns are compiled first, and a parser whose patterns do not compile,
/// or that has a filter without a replacement, gives none.
pub fn checked_notification_text(parser: &CompiledParser, line: &str) -> (r: Option<String>)
    ensures
        compiled_ok(*parser) ==> opt_chars(r) == line_text(*parser, line@),
        !compiled_ok(*parser) ==> r is None,
{
    if !regex_compiles(parser.pattern.as_str()) {
        return None;
    }
    let filter_ok = match (&parser.filter, &parser.filter_replacement) {
        (Some(f), Some(_)) => regex_compiles(f.as_str()),
        (None, None) => true,
        _ => false,
    };
    if !filter_ok {
        return None;
    }
    notification_text(parser, line)
}

// ---------------------------------------------------------------------------
// Icons and colours
// ---------------------------------------------------------------------------

/// Hyprland's icon number for an urgency: hint for low, error for critical,
/// info otherwise.
pub open spec fn urgency_icon(u: UrgencyLevel) -> Seq<char> {
    match u {
        UrgencyLevel::Low => "2"@,
        UrgencyLevel::Critical => "3"@,
        UrgencyLevel::Normal => "1"@,
    }
}

/// Hyprland's icon number for an icon name, or for the urgency when the name
/// is unknown or missing.
pub open spec fn icon_number(icon: Option<Seq<char>>, u: UrgencyLevel) -> Seq<char> {
    match icon {
        Some(n) => if n == "warning"@ { "0"@ }
            else if n == "info"@ { "1"@ }
            else if n == "hint"@ { "2"@ }
            else if n == "error"@ { "3"@ }
            else if n == "confused"@ { "4"@ }
            else if n == "ok"@ { "5"@ }
            else if n == "none"@ { "-1"@ }
            else { urgency_icon(u) },
        None => urgency_icon(u),
    }
}

pub fn get_icon_from_urgency(u: UrgencyLevel) -> (s: String)
    ensures
        s@ == urgency_icon(u),
{
    match u {
        UrgencyLevel::Low => owned("2"),
        UrgencyLevel::Critical => owned("3"),
        UrgencyLevel::Normal => owned("1"),
    }
}

/// The icon number for a parser (see `icon_number`).
pub fn get_hyprland_icon(icon: &Option<String>, urgency: UrgencyLevel) -> (s: String)
    ensures
        s@ == icon_number(opt_chars(*icon), urgency),
{
    match icon {
        Some(n) => {
            let c = chars_of(n.as_str());
            if chars_eq(&c, &chars_of("warning")) { owned("0") }
            else if chars_eq(&c, &chars_of("info")) { owned("1") }
            else if chars_eq(&c, &chars_of("hint")) { owned("2") }
            else if chars_eq(&c, &chars_of("error")) { owned("3") }
            else if chars_eq(&c, &chars_of("confused")) { owned("4") }
            else if chars_eq(&c, &chars_of("ok")) { owned("5") }
            else if chars_eq(&c, &chars_of("none")) { owned("-1") }
            else { get_icon_from_urgency(urgency) }
        },
        None => get_icon_from_urgency(urgency),
    }
}

/// Two lowercase hex digits of a byte.
pub open spec fn hex2(b: u8) -> Seq<char> {
    seq![hex_digit((b / 16) as nat), hex_digit((b % 16) as nat)]
}

pub open spec fn hex_digit(d: nat) -> char {
    if d < 10 { ((d + 48) as u32) as char } else { ((d + 87) as u32) as char }
}

fn hex_digit_exec(d: u8) -> (c: char)
    requires
        d < 16,
    ensures
        c == hex_digit(d as nat),
{
    if d == 0 { '0' } else if d == 1 { '1' } else if d == 2 { '2' } else if d == 3 { '3' }
    else if d == 4 { '4' } else if d == 5 { '5' } else if d == 6 { '6' } else if d == 7 { '7' }
    else if d == 8 { '8' } else if d == 9 { '9' } else if d == 10 { 'a' } else if d == 11 { 'b' }
    else if d == 12 { 'c' } else if d == 13 { 'd' } else if d == 14 { 'e' } else { 'f' }
}

fn push_hex2(s: &mut String, b: u8)
    ensures
        final(s)@ == old(s)@ + hex2(b),
{
    crate::text::push_char(s, hex_digit_exec(b / 16));
    crate::text::push_char(s, hex_digit_exec(b % 16));
    assert(final(s)@ =~= old(s)@ + hex2(b));
}

/// `0x` and the bytes alpha, red, green, blue in two hex digits each.
pub fn argb_hex(a: u8, r: u8, g: u8, b: u8) -> (s: String)
    ensures
        s@ == "0x"@ + hex2(a) + hex2(r) + hex2(g) + hex2(b),
{
    let mut s = String::new();
    append_str(&mut s, "0x");
    push_hex2(&mut s, a);
    push_hex2(&mut s, r);
    push_hex2(&mut s, g);
    push_hex2(&mut s, b);
    s
}

/// Index of the first `','` in `s`, or its length.
pub open spec fn comma_index(s: Seq<char>) -> int
    decreases s.len(),
{
    if s.len() == 0 { 0 } else if s[0] == ',' { 0 } else { 1 + comma_index(s.drop_first()) }
}

/// The comma-separated fields of `s`, as `str::split(',')` gives them.
pub open spec fn comma_fields(s: Seq<char>) -> Seq<Seq<char>>
    decreases s.len(),
{
    let i = comma_index(s);
    if 0 <= i < s.len() {
        seq![s.take(i)] + comma_fields(s.skip(i + 1))
    } else {
        seq![s]
    }
}

proof fn lemma_comma_index(s: Seq<char>)
    ensures
        0 <= comma_index(s) <= s.len(),
        comma_index(s) < s.len() ==> s[comma_index(s)] == ',',
        forall|k: int| 0 <= k < comma_index(s) ==> s[k] != ',',
    decreases s.len(),
{
    if s.len() > 0 && s[0] != ',' {
        lemma_comma_index(s.drop_first());
        assert forall|k: int| 0 <= k < comma_index(s) implies s[k] != ',' by {
            if k > 0 { assert(s.drop_first()[k - 1] == s[k]); }
        }
    }
}

/// The fields of `v[lo..hi]` split at commas.
fn split_commas(v: &Vec<char>, lo: usize, hi: usize) -> (out: Vec<(usize, usize)>)
    requires
        lo <= hi <= v@.len(),
    ensures
        out@.len() == comma_fields(v@.subrange(lo as int, hi as int)).len(),
        forall|k: int| 0 <= k < out@.len() ==> (#[trigger] out@[k]).0 <= out@[k].1 <= hi
            && lo <= out@[k].0
            && v@.subrange(out@[k].0 as int, out@[k].1 as int) == comma_fields(v@.subrange(lo as int, hi as int))[k],
    decreases hi - lo,
{
    let ghost s = v@.subrange(lo as int, hi as int);
    let c = find_char(v, lo, ',');
    let c = if c > hi { hi } else { c };
    proof {
        lemma_comma_index(s);
        let i = comma_index(s);
        if lo + i < c {
            assert(s[i] == ',');
            assert(v@[lo + i] == ',');
        } else if lo + i > c {
            assert(c < hi);
            assert(v@[c as int] == ',');
            assert(s[c - lo] == ',');
        }
    }
    if c >= hi {
        let mut out: Vec<(usize, usize)> = Vec::new();
        out.push((lo, hi));
        proof {
            assert(comma_fields(s) == seq![s]);
        }
        return out;
    }
    let rest = split_commas(v, c + 1, hi);
    let mut out: Vec<(usize, usize)> = Vec::new();
    out.push((lo, c));
    let mut k: usize = 0;
    while k < rest.len()
        invariant
            lo <= c < hi <= v@.len(),
            out@.len() == k + 1,
            out@[0] == (lo, c),
            rest@.len() == comma_fields(v@.subrange(c + 1, hi as int)).len(),
            forall|q: int| 0 <= q < rest@.len() ==> (#[trigger] rest@[q]).0 <= rest@[q].1 <= hi
                && c + 1 <= rest@[q].0
                && v@.subrange(rest@[q].0 as int, rest@[q].1 as int) == comma_fields(v@.subrange(c + 1, hi as int))[q],
            forall|q: int| 1 <= q < k + 1 ==> out@[q] == rest@[q - 1],
            k <= rest@.len(),
        decreases rest@.len() - k,
    {
        out.push(rest[k]);
        k = k + 1;
    }
    proof {
        let i = comma_index(s);
        assert(i == c - lo);
        assert(s.skip(i + 1) =~= v@.subrange(c + 1, hi as int));
        assert(s.take(i) =~= v@.subrange(lo as int, c as int));
        let f = comma_fields(s);
        assert(f == seq![s.take(i)] + comma_fields(s.skip(i + 1)));
        assert forall|q: int| 0 <= q < out@.len() implies (#[trigger] out@[q]).0 <= out@[q].1 <= hi
            && lo <= out@[q].0
            && v@.subrange(out@[q].0 as int, out@[q].1 as int) == f[q] by {
            if q > 0 {
                assert(out@[q] == rest@[q - 1]);
            }
        }
    }
    out
}

/// Bytes the UTF-8 encoding of a character takes.
pub open spec fn char_bytes(c: char) -> nat {
    if (c as u32) < 0x80 { 1 } else if (c as u32) < 0x800 { 2 } else if (c as u32) < 0x10000 { 3 } else { 4 }
}

/// Bytes the UTF-8 encoding of `s` takes (what `str::len` gives).
pub open spec fn utf8_len(s: Seq<char>) -> nat
    decreases s.len(),
{
    if s.len() == 0 { 0 } else { utf8_len(s.drop_last()) + char_bytes(s.last()) }
}

/// The character index where byte offset `k` of `s` falls, when it falls
/// between characters.
pub open spec fn at_byte(s: Seq<char>, k: nat) -> Option<int> {
    if exists|i: int| 0 <= i <= s.len() && #[trigger] utf8_len(s.take(i)) == k {
        Some(choose|i: int| 0 <= i <= s.len() && #[trigger] utf8_len(s.take(i)) == k)
    } else {
        None
    }
}

/// An eight-byte hex part whose byte offsets 2, 4 and 6 fall between
/// characters (slicing there does not panic).
pub open spec fn hex8_sliceable(h: Seq<char>) -> bool {
    at_byte(h, 2) is Some && at_byte(h, 4) is Some && at_byte(h, 6) is Some
}

/// `#RRGGBBAA` read by byte pairs: alpha first.
pub open spec fn hex8_argb(h: Seq<char>) -> Seq<char> {
    let i2 = at_byte(h, 2).unwrap();
    let i4 = at_byte(h, 4).unwrap();
    let i6 = at_byte(h, 6).unwrap();
    "0x"@ + h.skip(i6) + h.take(i2) + h.subrange(i2, i4) + h.subrange(i4, i6)
}

/// A colour in the form Hyprland takes, or an `rgba(...)` colour whose
/// alpha (a fraction) is still to be scaled to a byte.
#[derive(Debug)]
pub enum HyprColor {
    Ready(String),
    Rgba { r: u8, g: u8, b: u8, alpha: String },
}

/// `rgb(r,g,b)` as `0xffRRGGBB`, when the colour has that form.
pub open spec fn rgb_value(c: Seq<char>) -> Option<Seq<char>> {
    let f = comma_fields(c.subrange(4, c.len() - 1));
    if has_prefix(c, "rgb("@) && has_suffix(c, ")"@) && c.len() >= 5 && f.len() == 3
        && u8_of(trim(f[0])) is Some && u8_of(trim(f[1])) is Some && u8_of(trim(f[2])) is Some {
        Some("0xff"@ + hex2(u8_of(trim(f[0])).unwrap()) + hex2(u8_of(trim(f[1])).unwrap()) + hex2(u8_of(trim(f[2])).unwrap()))
    } else {
        None
    }
}

/// The bytes and the alpha text of `rgba(r,g,b,a)`, when the colour has that
/// form.
pub open spec fn rgba_value(c: Seq<char>) -> Option<(u8, u8, u8, Seq<char>)> {
    let f = comma_fields(c.subrange(5, c.len() - 1));
    if has_prefix(c, "rgba("@) && has_suffix(c, ")"@) && c.len() >= 6 && f.len() == 4
        && u8_of(trim(f[0])) is Some && u8_of(trim(f[1])) is Some && u8_of(trim(f[2])) is Some {
        Some((u8_of(trim(f[0])).unwrap(), u8_of(trim(f[1])).unwrap(), u8_of(trim(f[2])).unwrap(), trim(f[3])))
    } else {
        None
    }
}

/// `#RRGGBB` as `0xffRRGGBB` and `#RRGGBBAA` as `0xAARRGGBB` (by bytes), when
/// the colour has one of those forms.
pub open spec fn hex_value(c: Seq<char>) -> Option<Seq<char>> {
    let hex = c.skip(1);
    if has_prefix(c, "#"@) && utf8_len(hex) == 6 {
        Some("0xff"@ + hex)
    } else if has_prefix(c, "#"@) && utf8_len(hex) == 8 {
        if hex8_sliceable(hex) { Some(hex8_argb(hex)) } else { Some("0"@) }
    } else {
        None
    }
}

/// What converting a colour for Hyprland gives (see `convert_color`): `0`
/// stays; `rgb(...)`, `#...` and `0x...` forms become Hyprland's
/// `0xAARRGGBB`; `rgba(...)` hands back its bytes and alpha text; anything
/// else is `0`.
pub open spec fn color_result(c: Seq<char>) -> Result<Seq<char>, (u8, u8, u8, Seq<char>)> {
    if c == "0"@ {
        Ok("0"@)
    } else if rgb_value(c) is Some {
        Ok(rgb_value(c).unwrap())
    } else if rgba_value(c) is Some {
        Err(rgba_value(c).unwrap())
    } else if hex_value(c) is Some {
        Ok(hex_value(c).unwrap())
    } else if has_prefix(c, "0x"@) {
        Ok(c)
    } else {
        Ok("0"@)
    }
}

proof fn lemma_utf8_len_take(s: Seq<char>, i: int)
    requires
        0 <= i < s.len(),
    ensures
        utf8_len(s.take(i + 1)) == utf8_len(s.take(i)) + char_bytes(s[i]),
{
    assert(s.take(i + 1).drop_last() =~= s.take(i));
}

proof fn lemma_utf8_len_mono(s: Seq<char>, i: int, j: int)
    requires
        0 <= i <= j <= s.len(),
    ensures
        utf8_len(s.take(i)) + (j - i) <= utf8_len(s.take(j)),
    decreases j - i,
{
    if i < j {
        lemma_utf8_len_mono(s, i, j - 1);
        lemma_utf8_len_take(s, j - 1);
    }
}

/// Byte lengths of the prefixes of `v[lo..]`, as long as they stay at most
/// `limit`: the character index reaching exactly `k` bytes, if one does.
fn char_at_byte(v: &Vec<char>, lo: usize, k: u64) -> (r: Option<usize>)
    requires
        lo <= v@.len(),
        k <= 16,
    ensures
        match r {
            Some(i) => at_byte(v@.skip(lo as int), k as nat) == Some(i - lo) && lo <= i <= v@.len(),
            None => at_byte(v@.skip(lo as int), k as nat) is None,
        },
{
    let ghost s = v@.skip(lo as int);
    let mut i = lo;
    let mut acc: u64 = 0;
    while i < v.len() && acc < k
        invariant
            lo <= i <= v@.len(),
            k <= 16,
            s == v@.skip(lo as int),
            acc == utf8_len(s.take(i - lo)),
            acc <= k + 4,
            forall|j: int| 0 <= j < i - lo ==> utf8_len(s.take(j)) < k,
        decreases v@.len() - i,
    {
        proof { lemma_utf8_len_take(s, i - lo); }
        let c = v[i] as u32;
        let n: u64 = if c < 0x80 { 1 } else if c < 0x800 { 2 } else if c < 0x10000 { 3 } else { 4 };
        acc = acc + n;
        i = i + 1;
    }
    proof {
        assert forall|j: int| 0 <= j <= s.len() && utf8_len(s.take(j)) == k implies j == i - lo by {
            if j < i - lo {
            } else if j > i - lo {
                if acc > k {
                    lemma_utf8_len_mono(s, i - lo, j);
                } else {
                    assert(acc == k || i == v@.len());
                    if acc == k {
                        lemma_utf8_len_mono(s, i - lo, j);
                    }
                }
            }
        }
    }
    if acc == k {
        proof {
            assert(utf8_len(s.take(i - lo)) == k);
            let w = choose|w: int| 0 <= w <= s.len() && #[trigger] utf8_len(s.take(w)) == k as nat;
        }
        Some(i)
    } else {
        None
    }
}

fn three_bytes(v: &Vec<char>, f: &Vec<(usize, usize)>, lo: usize, hi: usize) -> (r: Option<(u8, u8, u8)>)
    requires
        lo <= hi <= v@.len(),
        f@.len() >= 3,
        forall|k: int| 0 <= k < f@.len() ==> (#[trigger] f@[k]).0 <= f@[k].1 <= hi
            && lo <= f@[k].0
            && v@.subrange(f@[k].0 as int, f@[k].1 as int) == comma_fields(v@.subrange(lo as int, hi as int))[k],
    ensures
        ({
            let fs = comma_fields(v@.subrange(lo as int, hi as int));
            match r {
                Some((x, y, z)) => u8_of(trim(fs[0])) == Some(x) && u8_of(trim(fs[1])) == Some(y) && u8_of(trim(fs[2])) == Some(z),
                None => !(u8_of(trim(fs[0])) is Some && u8_of(trim(fs[1])) is Some && u8_of(trim(fs[2])) is Some),
            }
        }),
{
    let a = trim_range(v, f[0].0, f[0].1);
    let b = trim_range(v, f[1].0, f[1].1);
    let c = trim_range(v, f[2].0, f[2].1);
    let ra = parse_u8_range(&a, 0, a.len());
    let rb = parse_u8_range(&b, 0, b.len());
    let rc = parse_u8_range(&c, 0, c.len());
    proof {
        assert(a@.subrange(0, a@.len() as int) =~= a@);
        assert(b@.subrange(0, b@.len() as int) =~= b@);
        assert(c@.subrange(0, c@.len() as int) =~= c@);
    }
    match (ra, rb, rc) {
        (Some(x), Some(y), Some(z)) => Some((x, y, z)),
        _ => None,
    }
}

fn rgb_exec(v: &Vec<char>) -> (r: Option<String>)
    ensures
        opt_chars(r) == rgb_value(v@),
{
    proof { reveal_strlit("rgb("); reveal_strlit(")"); }
    let n = v.len();
    if starts_with(v, &chars_of("rgb(")) && ends_with(v, &chars_of(")")) && n >= 5 {
        let f = split_commas(v, 4, n - 1);
        if f.len() == 3 {
            match three_bytes(v, &f, 4, n - 1) {
                Some((x, y, z)) => {
                    let mut s = String::new();
                    append_str(&mut s, "0xff");
                    push_hex2(&mut s, x);
                    push_hex2(&mut s, y);
                    push_hex2(&mut s, z);
                    return Some(s);
                },
                None => {},
            }
        }
    }
    None
}

fn rgba_exec(v: &Vec<char>) -> (r: Option<(u8, u8, u8, String)>)
    ensures
        match (r, rgba_value(v@)) {
            (Some((x, y, z, a)), Some((x2, y2, z2, a2))) => x == x2 && y == y2 && z == z2 && a@ == a2,
            (None, None) => true,
            _ => false,
        },
{
    proof { reveal_strlit("rgba("); reveal_strlit(")"); }
    let n = v.len();
    if starts_with(v, &chars_of("rgba(")) && ends_with(v, &chars_of(")")) && n >= 6 {
        let f = split_commas(v, 5, n - 1);
        if f.len() == 4 {
            match three_bytes(v, &f, 5, n - 1) {
                Some((x, y, z)) => {
                    let d = trim_range(v, f[3].0, f[3].1);
                    return Some((x, y, z, string_of(&d)));
                },
                None => {},
            }
        }
    }
    None
}

fn hex_exec(v: &Vec<char>) -> (r: Option<String>)
    ensures
        opt_chars(r) == hex_value(v@),
{
    proof { reveal_strlit("#"); }
    let n = v.len();
    if !starts_with(v, &chars_of("#")) {
        return None;
    }
    let ghost h = v@.skip(1);
    proof { lemma_utf8_len_total(h); }
    let six = char_at_byte(v, 1, 6);
    let all6 = match six { Some(i) => i == n, None => false };
    proof {
        if utf8_len(h) == 6 {
            lemma_at_byte_unique(h, 6, h.len() as int);
        }
    }
    if all6 {
        let mut s = String::new();
        append_str(&mut s, "0xff");
        let rest = string_of_range(v, 1, n);
        append_str(&mut s, rest.as_str());
        assert(rest@ =~= h);
        return Some(s);
    }
    let eight = char_at_byte(v, 1, 8);
    let all8 = match eight { Some(i) => i == n, None => false };
    proof {
        if utf8_len(h) == 8 {
            lemma_at_byte_unique(h, 8, h.len() as int);
        }
    }
    if !all8 {
        return None;
    }
    let i2 = char_at_byte(v, 1, 2);
    let i4 = char_at_byte(v, 1, 4);
    let i6 = char_at_byte(v, 1, 6);
    match (i2, i4, i6) {
        (Some(i2), Some(i4), Some(i6)) => {
            proof { lemma_at_byte_order(h, i2 - 1, i4 - 1, i6 - 1); }
            let mut s = String::new();
            append_str(&mut s, "0x");
            let p4 = string_of_range(v, i6, n);
            let p1 = string_of_range(v, 1, i2);
            let p2 = string_of_range(v, i2, i4);
            let p3 = string_of_range(v, i4, i6);
            append_str(&mut s, p4.as_str());
            append_str(&mut s, p1.as_str());
            append_str(&mut s, p2.as_str());
            append_str(&mut s, p3.as_str());
            proof {
                assert(p4@ =~= h.skip(i6 - 1));
                assert(p1@ =~= h.take(i2 - 1));
                assert(p2@ =~= h.subrange(i2 - 1, i4 - 1));
                assert(p3@ =~= h.subrange(i4 - 1, i6 - 1));
            }
            Some(s)
        },
        _ => Some(owned("0")),
    }
}

/// Converts a colour to the form Hyprland's `notify` takes (see
/// `color_result`). For `rgba(...)` the alpha text is handed back to be
/// scaled to a byte. A `#` colour of eight bytes that does not split into
/// byte pairs at character boundaries gives `0`.
pub fn convert_color(color: &str) -> (r: HyprColor)
    ensures
        match (r, color_result(color@)) {
            (HyprColor::Ready(s), Ok(t)) => s@ == t,
            (HyprColor::Rgba { r, g, b, alpha }, Err((r2, g2, b2, a2))) => r == r2 && g == g2 && b == b2 && alpha@ == a2,
            _ => false,
        },
{
    proof { reveal_strlit("0"); reveal_strlit("0x"); }
    let v = chars_of(color);
    if chars_eq(&v, &chars_of("0")) {
        return HyprColor::Ready(owned("0"));
    }
    match rgb_exec(&v) {
        Some(s) => return HyprColor::Ready(s),
        None => {},
    }
    match rgba_exec(&v) {
        Some((r, g, b, alpha)) => return HyprColor::Rgba { r, g, b, alpha },
        None => {},
    }
    match hex_exec(&v) {
        Some(s) => return HyprColor::Ready(s),
        None => {},
    }
    if starts_with(&v, &chars_of("0x")) {
        return HyprColor::Ready(owned(color));
    }
    HyprColor::Ready(owned("0"))
}

proof fn lemma_utf8_len_total(h: Seq<char>)
    ensures
        h.take(h.len() as int) == h,
{
    assert(h.take(h.len() as int) =~= h);
}

proof fn lemma_at_byte_unique(h: Seq<char>, k: nat, i: int)
    requires
        0 <= i <= h.len(),
        utf8_len(h.take(i)) == k,
    ensures
        at_byte(h, k) == Some(i),
{
    let j = choose|j: int| 0 <= j <= h.len() && #[trigger] utf8_len(h.take(j)) == k;
    if j < i {
        lemma_utf8_len_mono(h, j, i);
    } else if j > i {
        lemma_utf8_len_mono(h, i, j);
    }
}

proof fn lemma_at_byte_order(h: Seq<char>, a: int, b: int, c: int)
    requires
        at_byte(h, 2) == Some(a),
        at_byte(h, 4) == Some(b),
        at_byte(h, 6) == Some(c),
        0 <= a <= h.len(), 0 <= b <= h.len(), 0 <= c <= h.len(),
    ensures
        a <= b <= c,
{
    if a > b {
        lemma_utf8_len_mono(h, b, a);
    }
    if b > c {
        lemma_utf8_len_mono(h, c, b);
    }
}

// ---------------------------------------------------------------------------
// Commands
// ---------------------------------------------------------------------------

/// What `notify` was asked to send.
#[derive(Debug)]
pub struct NotifyRequest {
    pub message: String,
    pub urgency: UrgencyLevel,
    /// Milliseconds.
    pub timeout: i32,
    pub animated: bool,
}

/// Reads the arguments of `notify`: the message, then an urgency (normal
/// when absent), a timeout (5000 when absent or unreadable), and
/// `--animated` anywhere.
pub fn parse_notify_args(args: &Vec<String>) -> (r: Result<NotifyRequest, String>)
    ensures
        args@.len() == 0 ==> (r matches Err(e) && e@ == "Usage: notify <message> [urgency] [timeout] [--animated]"@),
        args@.len() > 0 ==> (r matches Ok(q) && {
            &&& q.message@ == args@[0]@
            &&& q.urgency == if args@.len() > 1 { urgency_named(args@[1]@) } else { UrgencyLevel::Normal }
            &&& q.timeout == if args@.len() > 2 { match i32_of(args@[2]@) { Some(t) => t, None => 5000 } } else { 5000 }
            &&& q.animated == exists|i: int| 0 <= i < args@.len() && (#[trigger] args@[i])@ == "--animated"@
        }),
{
    if args.len() == 0 {
        let mut e = String::new();
        append_str(&mut e, "Usage: notify <message> [urgency] [timeout] [--animated]");
        return Err(e);
    }
    let urgency = if args.len() > 1 { urgency_of(args[1].as_str()) } else { UrgencyLevel::Normal };
    let timeout = if args.len() > 2 {
        match parse_i32(&chars_of(args[2].as_str())) {
            Some(t) => t,
            None => 5000,
        }
    } else {
        5000
    };
    let flag = chars_of("--animated");
    let mut animated = false;
    let mut i: usize = 0;
    while i < args.len()
        invariant
            i <= args@.len(),
            flag@ == "--animated"@,
            animated == exists|j: int| 0 <= j < i && (#[trigger] args@[j])@ == "--animated"@,
        decreases args@.len() - i,
    {
        if chars_eq(&chars_of(args[i].as_str()), &flag) {
            animated = true;
        }
        i = i + 1;
    }
    Ok(NotifyRequest { message: copy_string(&args[0]), urgency, timeout, animated })
}

/// The answer once a notification was sent.
pub fn sent_message(message: &str, animated: bool) -> (s: String)
    ensures
        s@ == "Sent notification: "@ + message@ + if animated { " (animated)"@ } else { ""@ },
{
    let mut s = String::new();
    append_str(&mut s, "Sent notification: ");
    append_str(&mut s, message);
    proof { reveal_strlit(""); }
    if animated {
        append_str(&mut s, " (animated)");
    }
    assert(s@ =~= "Sent notification: "@ + message@ + if animated { " (animated)"@ } else { ""@ });
    s
}

/// The command a source runs: `journalctl` without `--since` gets
/// `--since 'now'` (before the first pipe, when there is one); anything else
/// runs as given.
pub open spec fn filtered_command(c: Seq<char>) -> Seq<char> {
    if contains_seq(c, "journalctl"@) && !contains_seq(c, "--since"@) {
        let p = pipe_index(c);
        if p < c.len() {
            trim(c.take(p)) + " --since 'now' |"@ + c.skip(p + 1)
        } else {
            c + " --since 'now'"@
        }
    } else {
        c
    }
}

/// Index of the first `'|'` in `s`, or its length.
pub open spec fn pipe_index(s: Seq<char>) -> int
    decreases s.len(),
{
    if s.len() == 0 { 0 } else if s[0] == '|' { 0 } else { 1 + pipe_index(s.drop_first()) }
}

proof fn lemma_pipe_index(s: Seq<char>)
    ensures
        0 <= pipe_index(s) <= s.len(),
        pipe_index(s) < s.len() ==> s[pipe_index(s)] == '|',
        forall|k: int| 0 <= k < pipe_index(s) ==> s[k] != '|',
    decreases s.len(),
{
    if s.len() > 0 && s[0] != '|' {
        lemma_pipe_index(s.drop_first());
        assert forall|k: int| 0 <= k < pipe_index(s) implies s[k] != '|' by {
            if k > 0 { assert(s.drop_first()[k - 1] == s[k]); }
        }
    }
}

/// The command a source runs (see `filtered_command`).
pub fn filter_source_command(command: &str) -> (s: String)
    ensures
        s@ == filtered_command(command@),
{
    let v = chars_of(command);
    if contains_chars(&v, &chars_of("journalctl")) && !contains_chars(&v, &chars_of("--since")) {
        let p = find_char(&v, 0, '|');
        proof {
            lemma_pipe_index(v@);
            let q = pipe_index(v@);
            if q < p { assert(v@[q] == '|'); }
            if q > p && p < v@.len() { assert(v@[p as int] == '|'); }
        }
        if p < v.len() {
            let head = trim_range(&v, 0, p);
            let mut s = string_of(&head);
            append_str(&mut s, " --since 'now' |");
            let tail = string_of_range(&v, p + 1, v.len());
            append_str(&mut s, tail.as_str());
            proof {
                assert(v@.subrange(0, p as int) =~= v@.take(p as int));
                assert(tail@ =~= v@.skip(p + 1));
            }
            s
        } else {
            let mut s = owned(command);
            append_str(&mut s, " --since 'now'");
            s
        }
    } else {
        owned(command)
    }
}

/// The answer to `list-sources` and `list-parsers`.
pub fn configured_message(what: &str, names: &Vec<String>) -> (s: String)
    ensures
        s@ == "Configured "@ + what@ + ": "@ + join(strs(names@), ", "@),
{
    let mut s = String::new();
    append_str(&mut s, "Configured ");
    append_str(&mut s, what);
    append_str(&mut s, ": ");
    let ghost head = s@;
    let ghost parts = strs(names@);
    let mut i: usize = 0;
    while i < names.len()
        invariant
            i <= names@.len(),
            parts == strs(names@),
            s@ == head + join(parts.take(i as int), ", "@),
        decreases names@.len() - i,
    {
        if i > 0 {
            append_str(&mut s, ", ");
        }
        append_str(&mut s, names[i].as_str());
        proof {
            let t = parts.take(i as int + 1);
            assert(t.drop_last() =~= parts.take(i as int));
            assert(t.last() == names@[i as int]@);
            if i == 0 { assert(t =~= seq![t[0]]); }
            assert(s@ =~= head + join(t, ", "@));
        }
        i = i + 1;
    }
    proof { assert(parts.take(names@.len() as int) =~= parts); }
    s
}


/// Lines that a `tail -f` source prints in its first ten seconds are old
/// lines of the file, and are not announced.
pub fn in_startup_grace(command: &str, elapsed_secs: u64) -> (b: bool)
    ensures
        b == (contains_seq(command@, "tail -f"@) && elapsed_secs < 10),
{
    contains_chars(&chars_of(command), &chars_of("tail -f")) && elapsed_secs < 10
}

/// The shell command that shows `text` with Hyprland's `notify`: icon
/// number, timeout in milliseconds, colour, and the text in single quotes
/// with its double quotes escaped.
pub open spec fn notify_command_text(icon: Seq<char>, timeout: int, color: Seq<char>, text: Seq<char>) -> Seq<char> {
    "hyprctl notify "@ + icon + " "@ + int_text(timeout) + " "@ + color + " '"@
        + replace_all(text, "\""@, "\\\""@) + "'"@
}

/// Builds the `hyprctl notify` command line (see `notify_command_text`).
pub fn notify_command(icon: &str, timeout: i32, color: &str, text: &str) -> (s: String)
    ensures
        s@ == notify_command_text(icon@, timeout as int, color@, text@),
{
    proof { reveal_strlit("\""); }
    let escaped = replace_chars(&chars_of(text), &chars_of("\""), &chars_of("\\\""));
    let mut s = owned("hyprctl notify ");
    append_str(&mut s, icon);
    append_str(&mut s, " ");
    append_int(&mut s, timeout as i64);
    append_str(&mut s, " ");
    append_str(&mut s, color);
    append_str(&mut s, " '");
    let e = string_of(&escaped);
    append_str(&mut s, e.as_str());
    append_str(&mut s, "'");
    s
}


/// The answer to `status`.
pub fn notifier_status(sources: usize, parsers: usize, monitors: usize) -> (s: String)
    ensures
        s@ == "System Notifier Status:\n- Simple Mode (Hyprland-native notifications)\n- Sources: "@ + nat_digits(sources as nat)
            + "\n- Parsers: "@ + nat_digits(parsers as nat) + "\n- Active monitors: "@ + nat_digits(monitors as nat),
{
    let mut s = owned("System Notifier Status:\n- Simple Mode (Hyprland-native notifications)\n- Sources: ");
    append_nat(&mut s, sources as u64);
    append_str(&mut s, "\n- Parsers: ");
    append_nat(&mut s, parsers as u64);
    append_str(&mut s, "\n- Active monitors: ");
    append_nat(&mut s, monitors as u64);
    s
}

} // verus!
