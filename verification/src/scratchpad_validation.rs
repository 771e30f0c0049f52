//! Checking scratchpad configurations: variable expansion, template
//! inheritance, and the errors and warnings reported for each scratchpad.
use vstd::prelude::*;
use vstd::string::*;
use crate::text::{
    append_str, chars_of, copy_opt, copy_string, copy_strings, is_ws, is_ws_char, opt_chars,
    owned, replace_all, replace_chars, string_of, strs, trim, trim_end, trim_start,
};
use crate::scratchpad_config::{
    ScratchpadConfig, ValidatedConfig, auto_detect, auto_detect_string, default_size,
};
use crate::scratchpad_geometry::{
    GeometryCalculator, MonitorInfo, geometry_error_text, offset_of, size_of,
};

verus! {

// ---------------------------------------------------------------------------
// Variable expansion
// ---------------------------------------------------------------------------

pub open spec fn bracketed(key: Seq<char>) -> Seq<char> {
    seq!['['] + key + seq![']']
}

pub open spec fn vars_view(v: Seq<(String, String)>) -> Seq<(Seq<char>, Seq<char>)> {
    v.map_values(|p: (String, String)| (p.0@, p.1@))
}

/// Every `[name]` replaced by the variable's value, variable after variable in
/// the order given.
pub open spec fn expand_vars(s: Seq<char>, vars: Seq<(Seq<char>, Seq<char>)>) -> Seq<char>
    decreases vars.len(),
{
    if vars.len() == 0 {
        s
    } else {
        replace_all(expand_vars(s, vars.drop_last()), bracketed(vars.last().0), vars.last().1)
    }
}

// ---------------------------------------------------------------------------
// Settings after the first pass
// ---------------------------------------------------------------------------

/// The class a scratchpad is matched by: the configured one, or the auto-detect
/// placeholder when it is missing or blank.
pub open spec fn class_of(c: Option<Seq<char>>) -> Seq<char> {
    match c {
        Some(s) => if trim(s).len() > 0 { s } else { auto_detect() },
        None => auto_detect(),
    }
}

pub open spec fn or_else<T>(a: Option<T>, b: Option<T>) -> Option<T> {
    match a {
        Some(x) => Some(x),
        None => b,
    }
}

/// The settings that validation leaves as they are agree between `a` and `b`.
pub open spec fn same_settings(a: ValidatedConfig, b: ValidatedConfig) -> bool {
    &&& a.command@ == b.command@
    &&& a.class@ == b.class@
    &&& a.size@ == b.size@
    &&& opt_chars(a.animation) == opt_chars(b.animation)
    &&& a.margin == b.margin
    &&& opt_chars(a.offset) == opt_chars(b.offset)
    &&& a.hide_delay == b.hide_delay
    &&& a.lazy == b.lazy
    &&& a.pinned == b.pinned
    &&& strs(a.excludes@) == strs(b.excludes@)
    &&& a.restore_excluded == b.restore_excluded
    &&& a.preserve_aspect == b.preserve_aspect
    &&& opt_chars(a.force_monitor) == opt_chars(b.force_monitor)
    &&& a.alt_toggle == b.alt_toggle
    &&& a.allow_special_workspaces == b.allow_special_workspaces
    &&& a.smart_focus == b.smart_focus
    &&& a.close_on_hide == b.close_on_hide
    &&& opt_chars(a.unfocus) == opt_chars(b.unfocus)
    &&& opt_chars(a.max_size) == opt_chars(b.max_size)
    &&& opt_chars(a.use_template) == opt_chars(b.use_template)
    &&& opt_chars(a.position) == opt_chars(b.position)
    &&& a.hysteresis_ms == b.hysteresis_ms
    &&& a.restore_focus == b.restore_focus
    &&& a.multi == b.multi
    &&& a.multi_window == b.multi_window
    &&& a.max_instances == b.max_instances
}

/// `v` holds the settings of `c` as `convert_to_validated` copies them, with
/// command and class given separately.
pub open spec fn copied_from(c: ScratchpadConfig, v: ValidatedConfig) -> bool {
    &&& v.size@ == c.size@
    &&& opt_chars(v.animation) == opt_chars(c.animation)
    &&& v.margin == c.margin
    &&& opt_chars(v.offset) == opt_chars(c.offset)
    &&& v.hide_delay == c.hide_delay
    &&& v.lazy == c.lazy
    &&& v.pinned == c.pinned
    &&& strs(v.excludes@) == strs(c.excludes@)
    &&& v.restore_excluded == c.restore_excluded
    &&& v.preserve_aspect == c.preserve_aspect
    &&& opt_chars(v.force_monitor) == opt_chars(c.force_monitor)
    &&& v.alt_toggle == c.alt_toggle
    &&& v.allow_special_workspaces == c.allow_special_workspaces
    &&& v.smart_focus == c.smart_focus
    &&& v.close_on_hide == c.close_on_hide
    &&& opt_chars(v.unfocus) == opt_chars(c.unfocus)
    &&& opt_chars(v.max_size) == opt_chars(c.max_size)
    &&& opt_chars(v.use_template) == opt_chars(c.use_template)
    &&& opt_chars(v.position) == opt_chars(c.position)
    &&& v.hysteresis_ms == c.hysteresis_ms
    &&& v.restore_focus == c.restore_focus
    &&& v.multi == c.multi
    &&& v.multi_window == (c.multi_window || c.multi)
    &&& v.max_instances == c.max_instances
}

/// `v` is what `convert_to_validated(c)` returns.
pub open spec fn converted(c: ScratchpadConfig, v: ValidatedConfig) -> bool {
    &&& v.command@ == c.command@
    &&& v.class@ == class_of(opt_chars(c.class))
    &&& copied_from(c, v)
    &&& v.validation_errors@.len() == 0
    &&& v.validation_warnings@.len() == 0
    &&& v.parsed_size is None
    &&& v.parsed_offset is None
    &&& v.parsed_max_size is None
    &&& v.parsed_position is None
}

/// The settings of `new` are those of `old` with the template's settings filling
/// the ones `old` leaves unset (or at their defaults, for command, class and size).
pub open spec fn merged_settings(old: ValidatedConfig, t: ScratchpadConfig, new: ValidatedConfig) -> bool {
    &&& new.command@ == (if old.command@.len() == 0 && t.command@.len() > 0 { t.command@ } else { old.command@ })
    &&& new.class@ == (if old.class@ == auto_detect() {
            match t.class { Some(tc) => tc@, None => old.class@ }
        } else {
            old.class@
        })
    &&& new.size@ == (if old.size@ == default_size() && t.size@ != default_size() { t.size@ } else { old.size@ })
    &&& opt_chars(new.animation) == or_else(opt_chars(old.animation), opt_chars(t.animation))
    &&& new.margin == or_else(old.margin, t.margin)
    &&& opt_chars(new.offset) == or_else(opt_chars(old.offset), opt_chars(t.offset))
    &&& new.hide_delay == or_else(old.hide_delay, t.hide_delay)
    &&& opt_chars(new.position) == or_else(opt_chars(old.position), opt_chars(t.position))
    &&& new.hysteresis_ms == or_else(old.hysteresis_ms, t.hysteresis_ms)
    &&& new.multi == (old.multi || t.multi)
    &&& new.multi_window == (if !old.multi && t.multi { true } else { old.multi_window })
    // Everything else is kept.
    &&& new.lazy == old.lazy
    &&& new.pinned == old.pinned
    &&& strs(new.excludes@) == strs(old.excludes@)
    &&& new.restore_excluded == old.restore_excluded
    &&& new.preserve_aspect == old.preserve_aspect
    &&& opt_chars(new.force_monitor) == opt_chars(old.force_monitor)
    &&& new.alt_toggle == old.alt_toggle
    &&& new.allow_special_workspaces == old.allow_special_workspaces
    &&& new.smart_focus == old.smart_focus
    &&& new.close_on_hide == old.close_on_hide
    &&& opt_chars(new.unfocus) == opt_chars(old.unfocus)
    &&& opt_chars(new.max_size) == opt_chars(old.max_size)
    &&& opt_chars(new.use_template) == opt_chars(old.use_template)
    &&& new.restore_focus == old.restore_focus
    &&& new.max_instances == old.max_instances
}

/// `new` is `merge_with_template(old, t)`: settings merged, problems and
/// pre-computed slots kept.
pub open spec fn merged(old: ValidatedConfig, t: ScratchpadConfig, new: ValidatedConfig) -> bool {
    &&& merged_settings(old, t, new)
    &&& strs(new.validation_errors@) == strs(old.validation_errors@)
    &&& strs(new.validation_warnings@) == strs(old.validation_warnings@)
    &&& new.parsed_size == old.parsed_size
    &&& new.parsed_offset == old.parsed_offset
    &&& new.parsed_max_size == old.parsed_max_size
    &&& new.parsed_position == old.parsed_position
}

// ---------------------------------------------------------------------------
// Errors and warnings
// ---------------------------------------------------------------------------

pub open spec fn monitor_named(ms: Seq<MonitorInfo>, name: Seq<char>) -> bool {
    exists|i: int| 0 <= i < ms.len() && #[trigger] ms[i].name@ == name
}

/// A warning for each excluded scratchpad that is neither `*` nor a configured name.
pub open spec fn exclude_warnings(ex: Seq<Seq<char>>, names: Seq<Seq<char>>) -> Seq<Seq<char>>
    decreases ex.len(),
{
    if ex.len() == 0 {
        Seq::empty()
    } else {
        exclude_warnings(ex.drop_last(), names) + (if ex.last() != "*"@ && !names.contains(ex.last()) {
            seq!["Excluded scratchpad '"@ + ex.last() + "' not found"@]
        } else {
            Seq::empty()
        })
    }
}

/// Errors about size and position against the first monitor.
pub open spec fn monitor_errors(c: ValidatedConfig, m: MonitorInfo) -> Seq<Seq<char>> {
    (match size_of(c.size@, m.width as int, m.height as int, opt_chars(c.max_size), m.percent_pixels@) {
        Err(e) => seq!["Invalid size format: "@ + geometry_error_text(e)],
        Ok(_) => Seq::empty(),
    }) + (match c.position {
        Some(p) => match offset_of(Some(p@), m.width as int, m.height as int, m.percent_pixels@) {
            Err(_) => seq!["Invalid position format: "@ + p@],
            Ok(_) => Seq::empty(),
        },
        None => Seq::empty(),
    })
}

/// The errors `validate_config` adds, in the order it adds them.
pub open spec fn config_errors(c: ValidatedConfig, ms: Seq<MonitorInfo>) -> Seq<Seq<char>> {
    (if c.command@.len() == 0 { seq!["Command cannot be empty"@] } else { Seq::empty() })
    + (if ms.len() > 0 { monitor_errors(c, ms[0]) } else { Seq::empty() })
    + (if c.multi_window && c.max_instances == Some(0u32) {
        seq!["max_instances cannot be 0 when multi_window is enabled"@]
    } else {
        Seq::empty()
    })
    + (match c.hysteresis_ms {
        Some(h) => if h < 0 { seq!["Hysteresis cannot be negative"@] } else { Seq::empty() },
        None => Seq::empty(),
    })
}

/// The warnings `validate_config` adds, in the order it adds them.
pub open spec fn config_warnings(c: ValidatedConfig, ms: Seq<MonitorInfo>, names: Seq<Seq<char>>) -> Seq<Seq<char>> {
    (match c.force_monitor {
        Some(n) => if !monitor_named(ms, n@) {
            seq!["Monitor '"@ + n@ + "' not found, will use focused monitor"@]
        } else {
            Seq::empty()
        },
        None => Seq::empty(),
    })
    + exclude_warnings(strs(c.excludes@), names)
    + (match c.max_instances {
        Some(k) => if c.multi_window && k > 10 {
            seq!["High max_instances value may impact performance"@]
        } else {
            Seq::empty()
        },
        None => Seq::empty(),
    })
    + (match c.hide_delay {
        Some(d) => if d > 10000 {
            seq!["Hide delay over 10 seconds may be unintentionally long"@]
        } else {
            Seq::empty()
        },
        None => Seq::empty(),
    })
    + (match c.hysteresis_ms {
        Some(h) => if h > 5000 {
            seq!["Very high hysteresis value may make unfocus behavior sluggish"@]
        } else {
            Seq::empty()
        },
        None => Seq::empty(),
    })
}

/// What a successful parse against the first monitor leaves in a pre-computed slot
/// (the slot is kept when there is no monitor or the parse fails).
pub open spec fn keep_or<T>(r: Result<T, (crate::scratchpad_geometry::GeometryErrorKind, Seq<char>)>, old: Option<T>) -> Option<T> {
    match r {
        Ok(v) => Some(v),
        Err(_) => old,
    }
}

/// `new` is `old` after `validate_config` against `ms` with the scratchpad names `names`.
pub open spec fn validated(old: ValidatedConfig, new: ValidatedConfig, ms: Seq<MonitorInfo>, names: Seq<Seq<char>>) -> bool {
    &&& same_settings(old, new)
    &&& strs(new.validation_errors@) == strs(old.validation_errors@) + config_errors(old, ms)
    &&& strs(new.validation_warnings@) == strs(old.validation_warnings@) + config_warnings(old, ms, names)
    &&& if ms.len() > 0 {
        let m = ms[0];
        &&& new.parsed_size == keep_or(size_of(old.size@, m.width as int, m.height as int, opt_chars(old.max_size), m.percent_pixels@), old.parsed_size)
        &&& new.parsed_offset == keep_or(offset_of(opt_chars(old.offset), m.width as int, m.height as int, m.percent_pixels@), old.parsed_offset)
        &&& new.parsed_max_size == match old.max_size {
            Some(mx) => keep_or(size_of(mx@, m.width as int, m.height as int, None, m.percent_pixels@), old.parsed_max_size),
            None => old.parsed_max_size,
        }
        &&& new.parsed_position == match old.position {
            Some(p) => keep_or(offset_of(Some(p@), m.width as int, m.height as int, m.percent_pixels@), old.parsed_position),
            None => old.parsed_position,
        }
    } else {
        &&& new.parsed_size == old.parsed_size
        &&& new.parsed_offset == old.parsed_offset
        &&& new.parsed_max_size == old.parsed_max_size
        &&& new.parsed_position == old.parsed_position
    }
}

// ---------------------------------------------------------------------------
// Whole configurations
// ---------------------------------------------------------------------------

pub open spec fn names_of(cfgs: Seq<(String, ScratchpadConfig)>) -> Seq<Seq<char>> {
    cfgs.map_values(|p: (String, ScratchpadConfig)| p.0@)
}

/// Index of the first configuration called `name`.
pub open spec fn find_named(cfgs: Seq<(String, ScratchpadConfig)>, name: Seq<char>) -> Option<int>
    decreases cfgs.len(),
{
    if cfgs.len() == 0 {
        None
    } else {
        match find_named(cfgs.drop_last(), name) {
            Some(i) => Some(i),
            None => if cfgs.last().0@ == name { Some(cfgs.len() - 1) } else { None },
        }
    }
}

/// The configuration named by `c`'s `use` setting, when there is one.
pub open spec fn template_of(cfgs: Seq<(String, ScratchpadConfig)>, c: ScratchpadConfig) -> Option<ScratchpadConfig> {
    match c.use_template {
        Some(t) => match find_named(cfgs, t@) {
            Some(j) => Some(cfgs[j].1),
            None => None,
        },
        None => None,
    }
}

/// The settings of scratchpad `i` once variables are expanded and its template merged.
pub open spec fn first_pass(cfgs: Seq<(String, ScratchpadConfig)>, vars: Seq<(Seq<char>, Seq<char>)>, i: int, v: ValidatedConfig) -> bool {
    let c = cfgs[i].1;
    let class = class_of(opt_chars(c.class));
    let expanded_class = if class == auto_detect() { class } else { expand_vars(class, vars) };
    let template = template_of(cfgs, c);
    exists|a: ValidatedConfig| {
        &&& #[trigger] a.command@ == expand_vars(c.command@, vars)
        &&& a.class@ == expanded_class
        &&& copied_from(c, a)
        &&& match template {
            Some(t) => merged_settings(a, t, v),
            None => same_settings(a, v),
        }
    }
}

/// The errors validation starts from: a missing template.
pub open spec fn template_errors(c: ScratchpadConfig, cfgs: Seq<(String, ScratchpadConfig)>) -> Seq<Seq<char>> {
    match c.use_template {
        Some(t) => match find_named(cfgs, t@) {
            Some(_) => Seq::empty(),
            None => seq!["Template '"@ + t@ + "' not found"@],
        },
        None => Seq::empty(),
    }
}

pub open spec fn parsed_after(v: ValidatedConfig, ms: Seq<MonitorInfo>) -> bool {
    if ms.len() > 0 {
        let m = ms[0];
        &&& v.parsed_size == keep_or(size_of(v.size@, m.width as int, m.height as int, opt_chars(v.max_size), m.percent_pixels@), None)
        &&& v.parsed_offset == keep_or(offset_of(opt_chars(v.offset), m.width as int, m.height as int, m.percent_pixels@), None)
        &&& v.parsed_max_size == match v.max_size {
            Some(mx) => keep_or(size_of(mx@, m.width as int, m.height as int, None, m.percent_pixels@), None),
            None => None,
        }
        &&& v.parsed_position == match v.position {
            Some(p) => keep_or(offset_of(Some(p@), m.width as int, m.height as int, m.percent_pixels@), None),
            None => None,
        }
    } else {
        &&& v.parsed_size is None
        &&& v.parsed_offset is None
        &&& v.parsed_max_size is None
        &&& v.parsed_position is None
    }
}

// ---------------------------------------------------------------------------
// Lemmas
// ---------------------------------------------------------------------------

pub proof fn lemma_trim_start_empty(s: Seq<char>)
    ensures
        (trim_start(s).len() == 0) == (forall|i: int| 0 <= i < s.len() ==> is_ws(#[trigger] s[i])),
    decreases s.len(),
{
    if s.len() > 0 {
        lemma_trim_start_empty(s.drop_first());
        if is_ws(s[0]) {
            assert((forall|i: int| 0 <= i < s.len() ==> is_ws(#[trigger] s[i]))
                == (forall|i: int| 0 <= i < s.drop_first().len() ==> is_ws(#[trigger] s.drop_first()[i]))) by {
                if forall|i: int| 0 <= i < s.drop_first().len() ==> is_ws(#[trigger] s.drop_first()[i]) {
                    assert forall|i: int| 0 <= i < s.len() implies is_ws(#[trigger] s[i]) by {
                        if i > 0 {
                            assert(s[i] == s.drop_first()[i - 1]);
                        }
                    }
                }
                if forall|i: int| 0 <= i < s.len() ==> is_ws(#[trigger] s[i]) {
                    assert forall|i: int| 0 <= i < s.drop_first().len() implies is_ws(#[trigger] s.drop_first()[i]) by {
                        assert(s.drop_first()[i] == s[i + 1]);
                    }
                }
            }
        }
    }
}

pub proof fn lemma_trim_end_keeps_head(s: Seq<char>)
    requires
        s.len() > 0,
        !is_ws(s[0]),
    ensures
        trim_end(s).len() > 0,
    decreases s.len(),
{
    if s.len() > 1 && is_ws(s.last()) {
        assert(s.drop_last()[0] == s[0]);
        lemma_trim_end_keeps_head(s.drop_last());
    }
}

pub proof fn lemma_trim_empty(s: Seq<char>)
    ensures
        (trim(s).len() == 0) == (forall|i: int| 0 <= i < s.len() ==> is_ws(#[trigger] s[i])),
{
    lemma_trim_start_empty(s);
    crate::text::lemma_trim_start_head(s);
    if trim_start(s).len() > 0 {
        lemma_trim_end_keeps_head(trim_start(s));
    }
}

// ---------------------------------------------------------------------------
// Implementation
// ---------------------------------------------------------------------------

/// Whether `s` is empty or whitespace only.
fn is_blank(s: &String) -> (b: bool)
    ensures
        b == (trim(s@).len() == 0),
{
    let v = chars_of(s.as_str());
    let mut i: usize = 0;
    proof { lemma_trim_empty(s@); }
    while i < v.len()
        invariant
            v@ == s@,
            i <= v@.len(),
            forall|q: int| 0 <= q < i ==> is_ws(#[trigger] v@[q]),
        decreases v@.len() - i,
    {
        if !is_ws_char(v[i]) {
            assert(!is_ws(s@[i as int]));
            proof { lemma_trim_empty(s@); }
            return false;
        }
        i = i + 1;
    }
    true
}

fn is_auto_detect(s: &String) -> (b: bool)
    ensures
        b == (s@ == auto_detect()),
{
    let v = chars_of(s.as_str());
    let a = chars_of("AUTO_DETECT");
    proof {
        reveal_strlit("AUTO_DETECT");
        assert(a@ =~= auto_detect());
    }
    crate::text::chars_eq(&v, &a)
}

fn is_default_size(s: &String) -> (b: bool)
    ensures
        b == (s@ == default_size()),
{
    let v = chars_of(s.as_str());
    let a = chars_of("50% 50%");
    proof {
        reveal_strlit("50% 50%");
        assert(a@ =~= default_size());
    }
    crate::text::chars_eq(&v, &a)
}

fn merge_command(own: String, t: &String) -> (r: String)
    ensures
        r@ == (if own@.len() == 0 && t@.len() > 0 { t@ } else { own@ }),
{
    if own.as_str().unicode_len() == 0 && t.as_str().unicode_len() > 0 {
        copy_string(t)
    } else {
        own
    }
}

fn merge_class(own: String, t: &Option<String>) -> (r: String)
    ensures
        r@ == (if own@ == auto_detect() {
            match *t { Some(tc) => tc@, None => own@ }
        } else {
            own@
        }),
{
    if is_auto_detect(&own) {
        match t {
            Some(tc) => copy_string(tc),
            None => own,
        }
    } else {
        own
    }
}

fn merge_size(own: String, t: &String) -> (r: String)
    ensures
        r@ == (if own@ == default_size() && t@ != default_size() { t@ } else { own@ }),
{
    if is_default_size(&own) && !is_default_size(t) {
        copy_string(t)
    } else {
        own
    }
}

fn or_else_string(own: Option<String>, t: &Option<String>) -> (r: Option<String>)
    ensures
        opt_chars(r) == or_else(opt_chars(own), opt_chars(*t)),
{
    match own {
        Some(s) => Some(s),
        None => copy_opt(t),
    }
}

pub struct ConfigValidator;

impl ConfigValidator {
    /// Every `[name]` in `input` replaced by the value of variable `name`,
    /// variable after variable; unknown names are left as they are.
    pub fn expand_variables(input: &str, variables: &Vec<(String, String)>) -> (r: String)
        ensures
            r@ == expand_vars(input@, vars_view(variables@)),
    {
        let mut cur = chars_of(input);
        let mut i: usize = 0;
        while i < variables.len()
            invariant
                i <= variables@.len(),
                cur@ == expand_vars(input@, vars_view(variables@).take(i as int)),
            decreases variables@.len() - i,
        {
            let mut pat: Vec<char> = vec!['['];
            let key = chars_of(variables[i].0.as_str());
            let mut k: usize = 0;
            while k < key.len()
                invariant
                    k <= key@.len(),
                    pat@ == seq!['['] + key@.take(k as int),
                decreases key@.len() - k,
            {
                pat.push(key[k]);
                k = k + 1;
                assert(pat@ =~= seq!['['] + key@.take(k as int));
            }
            pat.push(']');
            assert(key@.take(key@.len() as int) =~= key@);
            assert(pat@ =~= bracketed(variables@[i as int].0@));
            let value = chars_of(variables[i].1.as_str());
            cur = replace_chars(&cur, &pat, &value);
            proof {
                let vv = vars_view(variables@);
                assert(vv.take(i + 1).drop_last() =~= vv.take(i as int));
                assert(vv.take(i + 1).last() == (variables@[i as int].0@, variables@[i as int].1@));
            }
            i = i + 1;
        }
        assert(vars_view(variables@).take(variables@.len() as int) =~= vars_view(variables@));
        string_of(&cur)
    }

    /// A validated configuration carrying the settings of `config`, with the
    /// class resolved and no problems recorded yet.
    pub fn convert_to_validated(config: &ScratchpadConfig) -> (v: ValidatedConfig)
        ensures
            converted(*config, v),
    {
        let class = match &config.class {
            Some(c) => if !is_blank(c) { copy_string(c) } else { auto_detect_string() },
            None => auto_detect_string(),
        };
        ValidatedConfig {
            command: copy_string(&config.command),
            class,
            size: copy_string(&config.size),
            animation: copy_opt(&config.animation),
            margin: config.margin,
            offset: copy_opt(&config.offset),
            hide_delay: config.hide_delay,
            lazy: config.lazy,
            pinned: config.pinned,
            excludes: copy_strings(&config.excludes),
            restore_excluded: config.restore_excluded,
            preserve_aspect: config.preserve_aspect,
            force_monitor: copy_opt(&config.force_monitor),
            alt_toggle: config.alt_toggle,
            allow_special_workspaces: config.allow_special_workspaces,
            smart_focus: config.smart_focus,
            close_on_hide: config.close_on_hide,
            unfocus: copy_opt(&config.unfocus),
            max_size: copy_opt(&config.max_size),
            use_template: copy_opt(&config.use_template),
            position: copy_opt(&config.position),
            hysteresis_ms: config.hysteresis_ms,
            restore_focus: config.restore_focus,
            multi: config.multi,
            multi_window: config.multi_window || config.multi,
            max_instances: config.max_instances,
            validation_errors: Vec::new(),
            validation_warnings: Vec::new(),
            parsed_size: None,
            parsed_offset: None,
            parsed_max_size: None,
            parsed_position: None,
        }
    }

    /// `config` with the template's settings filling those it leaves unset (or at
    /// their defaults, for command, class and size).
    pub fn merge_with_template(config: ValidatedConfig, template: &ScratchpadConfig) -> (v: ValidatedConfig)
        ensures
            merged(config, *template, v),
    {
        let ValidatedConfig {
            command, class, size, animation, margin, offset, hide_delay, lazy, pinned, excludes,
            restore_excluded, preserve_aspect, force_monitor, alt_toggle, allow_special_workspaces,
            smart_focus, close_on_hide, unfocus, max_size, use_template, position, hysteresis_ms,
            restore_focus, multi, multi_window, max_instances, validation_errors,
            validation_warnings, parsed_size, parsed_offset, parsed_max_size, parsed_position,
        } = config;
        let take_template_multi = !multi && template.multi;
        ValidatedConfig {
            command: merge_command(command, &template.command),
            class: merge_class(class, &template.class),
            size: merge_size(size, &template.size),
            animation: or_else_string(animation, &template.animation),
            margin: if margin.is_none() { template.margin } else { margin },
            offset: or_else_string(offset, &template.offset),
            hide_delay: if hide_delay.is_none() { template.hide_delay } else { hide_delay },
            lazy,
            pinned,
            excludes,
            restore_excluded,
            preserve_aspect,
            force_monitor,
            alt_toggle,
            allow_special_workspaces,
            smart_focus,
            close_on_hide,
            unfocus,
            max_size,
            use_template,
            position: or_else_string(position, &template.position),
            hysteresis_ms: if hysteresis_ms.is_none() { template.hysteresis_ms } else { hysteresis_ms },
            restore_focus,
            multi: if take_template_multi { template.multi } else { multi },
            multi_window: if take_template_multi { true } else { multi_window },
            max_instances,
            validation_errors,
            validation_warnings,
            parsed_size,
            parsed_offset,
            parsed_max_size,
            parsed_position,
        }
    }

    /// Records the problems of one scratchpad: errors that make it unusable and
    /// warnings about doubtful settings; pre-computes size, offset, maximum size
    /// and position against the first monitor.
    pub fn validate_config(name: &str, config: &mut ValidatedConfig, monitors: &Vec<MonitorInfo>, all_names: &Vec<String>)
        ensures
            validated(*old(config), *final(config), monitors@, strs(all_names@)),
    {
        let ghost start = *config;
        check_command(config);
        let ghost c1 = *config;
        check_geometry(config, monitors);
        let ghost c2 = *config;
        check_force_monitor(config, monitors);
        let ghost c3 = *config;
        check_excludes(config, all_names);
        let ghost c4 = *config;
        check_instances(config);
        check_hide_delay(config);
        check_hysteresis(config);
        proof {
            assert(strs(config.validation_errors@) =~= strs(start.validation_errors@) + config_errors(start, monitors@));
            assert(strs(config.validation_warnings@) =~= strs(start.validation_warnings@) + config_warnings(start, monitors@, strs(all_names@)));
        }
    }
}

/// Parsed slots and settings unchanged.
pub open spec fn same_parsed(a: ValidatedConfig, b: ValidatedConfig) -> bool {
    &&& a.parsed_size == b.parsed_size
    &&& a.parsed_offset == b.parsed_offset
    &&& a.parsed_max_size == b.parsed_max_size
    &&& a.parsed_position == b.parsed_position
}

fn check_command(config: &mut ValidatedConfig)
    ensures
        same_settings(*old(config), *final(config)),
        same_parsed(*old(config), *final(config)),
        strs(final(config).validation_warnings@) == strs(old(config).validation_warnings@),
        strs(final(config).validation_errors@) == strs(old(config).validation_errors@)
            + (if old(config).command@.len() == 0 { seq!["Command cannot be empty"@] } else { Seq::empty() }),
{
    let ghost start = *config;
    if config.command.as_str().unicode_len() == 0 {
        config.validation_errors.push(owned("Command cannot be empty"));
    }
    assert(strs(config.validation_errors@) =~= strs(start.validation_errors@)
        + (if start.command@.len() == 0 { seq!["Command cannot be empty"@] } else { Seq::empty() }));
    assert(strs(config.validation_warnings@) =~= strs(start.validation_warnings@));
}

fn check_geometry(config: &mut ValidatedConfig, monitors: &Vec<MonitorInfo>)
    ensures
        same_settings(*old(config), *final(config)),
        strs(final(config).validation_warnings@) == strs(old(config).validation_warnings@),
        strs(final(config).validation_errors@) == strs(old(config).validation_errors@)
            + (if monitors@.len() > 0 { monitor_errors(*old(config), monitors@[0]) } else { Seq::empty() }),
        validated_parsed(*old(config), *final(config), monitors@),
{
    let ghost start = *config;
    if monitors.len() > 0 {
        let m = &monitors[0];
        check_size(config, m);
        let ghost c1 = *config;
        check_slots(config, m);
        let ghost c2 = *config;
        check_position(config, m);
        assert(strs(config.validation_errors@) =~= strs(start.validation_errors@) + monitor_errors(start, monitors@[0]));
    } else {
        assert(strs(config.validation_errors@) =~= strs(start.validation_errors@) + Seq::<Seq<char>>::empty());
    }
}

fn check_size(config: &mut ValidatedConfig, m: &MonitorInfo)
    ensures
        same_settings(*old(config), *final(config)),
        strs(final(config).validation_warnings@) == strs(old(config).validation_warnings@),
        strs(final(config).validation_errors@) == strs(old(config).validation_errors@)
            + (match size_of(old(config).size@, m.width as int, m.height as int, opt_chars(old(config).max_size), m.percent_pixels@) {
                Err(e) => seq!["Invalid size format: "@ + geometry_error_text(e)],
                Ok(_) => Seq::empty(),
            }),
        final(config).parsed_size == keep_or(size_of(old(config).size@, m.width as int, m.height as int, opt_chars(old(config).max_size), m.percent_pixels@), old(config).parsed_size),
        final(config).parsed_offset == old(config).parsed_offset,
        final(config).parsed_max_size == old(config).parsed_max_size,
        final(config).parsed_position == old(config).parsed_position,
{
    let ghost start = *config;
    let max = match &config.max_size {
        Some(s) => Some(s.as_str()),
        None => None,
    };
    match GeometryCalculator::parse_size(config.size.as_str(), m, max) {
        Ok(p) => { config.parsed_size = Some(p); },
        Err(e) => {
            let mut msg = owned("Invalid size format: ");
            let t = e.message();
            append_str(&mut msg, t.as_str());
            config.validation_errors.push(msg);
        },
    }
    assert(strs(config.validation_warnings@) =~= strs(start.validation_warnings@));
    assert(strs(config.validation_errors@) =~= strs(start.validation_errors@)
        + (match size_of(start.size@, m.width as int, m.height as int, opt_chars(start.max_size), m.percent_pixels@) {
            Err(e) => seq!["Invalid size format: "@ + geometry_error_text(e)],
            Ok(_) => Seq::empty(),
        }));
}

fn check_slots(config: &mut ValidatedConfig, m: &MonitorInfo)
    ensures
        same_settings(*old(config), *final(config)),
        strs(final(config).validation_warnings@) == strs(old(config).validation_warnings@),
        strs(final(config).validation_errors@) == strs(old(config).validation_errors@),
        final(config).parsed_size == old(config).parsed_size,
        final(config).parsed_offset == keep_or(offset_of(opt_chars(old(config).offset), m.width as int, m.height as int, m.percent_pixels@), old(config).parsed_offset),
        final(config).parsed_max_size == match old(config).max_size {
            Some(mx) => keep_or(size_of(mx@, m.width as int, m.height as int, None, m.percent_pixels@), old(config).parsed_max_size),
            None => old(config).parsed_max_size,
        },
        final(config).parsed_position == old(config).parsed_position,
{
    let ghost start = *config;
    let off = match &config.offset {
        Some(s) => Some(s.as_str()),
        None => None,
    };
    match GeometryCalculator::parse_offset(off, m) {
        Ok(p) => { config.parsed_offset = Some(p); },
        Err(_) => {},
    }
    match &config.max_size {
        Some(ms) => match GeometryCalculator::parse_size(ms.as_str(), m, None) {
            Ok(p) => { config.parsed_max_size = Some(p); },
            Err(_) => {},
        },
        None => {},
    }
    assert(strs(config.validation_warnings@) =~= strs(start.validation_warnings@));
    assert(strs(config.validation_errors@) =~= strs(start.validation_errors@));
}

fn check_position(config: &mut ValidatedConfig, m: &MonitorInfo)
    ensures
        same_settings(*old(config), *final(config)),
        strs(final(config).validation_warnings@) == strs(old(config).validation_warnings@),
        strs(final(config).validation_errors@) == strs(old(config).validation_errors@)
            + (match old(config).position {
                Some(p) => match offset_of(Some(p@), m.width as int, m.height as int, m.percent_pixels@) {
                    Err(_) => seq!["Invalid position format: "@ + p@],
                    Ok(_) => Seq::empty(),
                },
                None => Seq::empty(),
            }),
        final(config).parsed_size == old(config).parsed_size,
        final(config).parsed_offset == old(config).parsed_offset,
        final(config).parsed_max_size == old(config).parsed_max_size,
        final(config).parsed_position == match old(config).position {
            Some(p) => keep_or(offset_of(Some(p@), m.width as int, m.height as int, m.percent_pixels@), old(config).parsed_position),
            None => old(config).parsed_position,
        },
{
    let ghost start = *config;
    let pos = copy_opt(&config.position);
    match pos {
        Some(ps) => match GeometryCalculator::parse_offset(Some(ps.as_str()), m) {
            Ok(p) => { config.parsed_position = Some(p); },
            Err(_) => {
                let mut msg = owned("Invalid position format: ");
                append_str(&mut msg, ps.as_str());
                config.validation_errors.push(msg);
            },
        },
        None => {},
    }
    assert(strs(config.validation_warnings@) =~= strs(start.validation_warnings@));
    assert(strs(config.validation_errors@) =~= strs(start.validation_errors@)
        + (match start.position {
            Some(p) => match offset_of(Some(p@), m.width as int, m.height as int, m.percent_pixels@) {
                Err(_) => seq!["Invalid position format: "@ + p@],
                Ok(_) => Seq::empty(),
            },
            None => Seq::empty(),
        }));
}

/// The pre-computed slots after validation against `ms`.
pub open spec fn validated_parsed(old: ValidatedConfig, new: ValidatedConfig, ms: Seq<MonitorInfo>) -> bool {
    if ms.len() > 0 {
        let m = ms[0];
        &&& new.parsed_size == keep_or(size_of(old.size@, m.width as int, m.height as int, opt_chars(old.max_size), m.percent_pixels@), old.parsed_size)
        &&& new.parsed_offset == keep_or(offset_of(opt_chars(old.offset), m.width as int, m.height as int, m.percent_pixels@), old.parsed_offset)
        &&& new.parsed_max_size == match old.max_size {
            Some(mx) => keep_or(size_of(mx@, m.width as int, m.height as int, None, m.percent_pixels@), old.parsed_max_size),
            None => old.parsed_max_size,
        }
        &&& new.parsed_position == match old.position {
            Some(p) => keep_or(offset_of(Some(p@), m.width as int, m.height as int, m.percent_pixels@), old.parsed_position),
            None => old.parsed_position,
        }
    } else {
        same_parsed(old, new)
    }
}

fn check_force_monitor(config: &mut ValidatedConfig, monitors: &Vec<MonitorInfo>)
    ensures
        same_settings(*old(config), *final(config)),
        same_parsed(*old(config), *final(config)),
        strs(final(config).validation_errors@) == strs(old(config).validation_errors@),
        strs(final(config).validation_warnings@) == strs(old(config).validation_warnings@) + (match old(config).force_monitor {
            Some(n) => if !monitor_named(monitors@, n@) {
                seq!["Monitor '"@ + n@ + "' not found, will use focused monitor"@]
            } else {
                Seq::empty()
            },
            None => Seq::empty(),
        }),
{
    let ghost start = *config;
    match &config.force_monitor {
        Some(mname) => {
            let target = chars_of(mname.as_str());
            let mut found = false;
            let mut i: usize = 0;
            while i < monitors.len()
                invariant
                    target@ == mname@,
                    i <= monitors@.len(),
                    found == exists|j: int| 0 <= j < i && #[trigger] monitors@[j].name@ == mname@,
                decreases monitors@.len() - i,
            {
                if crate::text::chars_eq(&chars_of(monitors[i].name.as_str()), &target) {
                    found = true;
                }
                i = i + 1;
            }
            if !found {
                let mut msg = owned("Monitor '");
                append_str(&mut msg, mname.as_str());
                append_str(&mut msg, "' not found, will use focused monitor");
                config.validation_warnings.push(msg);
            }
        },
        None => {},
    }
    assert(strs(config.validation_errors@) =~= strs(start.validation_errors@));
    assert(strs(config.validation_warnings@) =~= strs(start.validation_warnings@) + (match start.force_monitor {
        Some(n) => if !monitor_named(monitors@, n@) {
            seq!["Monitor '"@ + n@ + "' not found, will use focused monitor"@]
        } else {
            Seq::empty()
        },
        None => Seq::empty(),
    }));
}

/// Whether `name` is among `names`.
pub(crate) fn contains_name(names: &Vec<String>, name: &Vec<char>) -> (b: bool)
    ensures
        b == strs(names@).contains(name@),
{
    let mut j: usize = 0;
    while j < names.len()
        invariant
            j <= names@.len(),
            forall|q: int| 0 <= q < j ==> #[trigger] names@[q]@ != name@,
        decreases names@.len() - j,
    {
        if crate::text::chars_eq(&chars_of(names[j].as_str()), name) {
            assert(strs(names@)[j as int] == name@);
            return true;
        }
        j = j + 1;
    }
    assert forall|q: int| 0 <= q < strs(names@).len() implies strs(names@)[q] != name@ by {
        assert(strs(names@)[q] == names@[q]@);
    }
    false
}

fn check_excludes(config: &mut ValidatedConfig, all_names: &Vec<String>)
    ensures
        same_settings(*old(config), *final(config)),
        same_parsed(*old(config), *final(config)),
        strs(final(config).validation_errors@) == strs(old(config).validation_errors@),
        strs(final(config).validation_warnings@) == strs(old(config).validation_warnings@)
            + exclude_warnings(strs(old(config).excludes@), strs(all_names@)),
{
    let ghost start = *config;
    let excludes = copy_strings(&config.excludes);
    let mut i: usize = 0;
    while i < excludes.len()
        invariant
            i <= excludes@.len(),
            strs(excludes@) == strs(start.excludes@),
            same_settings(start, *config),
            same_parsed(start, *config),
            strs(config.validation_errors@) == strs(start.validation_errors@),
            strs(config.validation_warnings@) == strs(start.validation_warnings@)
                + exclude_warnings(strs(excludes@).take(i as int), strs(all_names@)),
        decreases excludes@.len() - i,
    {
        let ex = chars_of(excludes[i].as_str());
        let star = vec!['*'];
        let is_star = crate::text::chars_eq(&ex, &star);
        let known = contains_name(all_names, &ex);
        let ghost before = strs(config.validation_warnings@);
        if !is_star && !known {
            let mut msg = owned("Excluded scratchpad '");
            append_str(&mut msg, excludes[i].as_str());
            append_str(&mut msg, "' not found");
            config.validation_warnings.push(msg);
        }
        proof {
            reveal_strlit("*");
            assert(star@ =~= "*"@);
            let e = strs(excludes@);
            assert(e.take(i + 1).drop_last() =~= e.take(i as int));
            assert(e.take(i + 1).last() == ex@);
            assert(strs(config.validation_warnings@) =~= before + (if ex@ != "*"@ && !strs(all_names@).contains(ex@) {
                seq!["Excluded scratchpad '"@ + ex@ + "' not found"@]
            } else {
                Seq::empty()
            }));
            assert(strs(config.validation_errors@) =~= strs(start.validation_errors@));
        }
        i = i + 1;
    }
    assert(strs(excludes@).take(excludes@.len() as int) =~= strs(excludes@));
}

fn check_instances(config: &mut ValidatedConfig)
    ensures
        same_settings(*old(config), *final(config)),
        same_parsed(*old(config), *final(config)),
        strs(final(config).validation_errors@) == strs(old(config).validation_errors@)
            + (if old(config).multi_window && old(config).max_instances == Some(0u32) {
                seq!["max_instances cannot be 0 when multi_window is enabled"@]
            } else {
                Seq::empty()
            }),
        strs(final(config).validation_warnings@) == strs(old(config).validation_warnings@)
            + (match old(config).max_instances {
                Some(k) => if old(config).multi_window && k > 10 {
                    seq!["High max_instances value may impact performance"@]
                } else {
                    Seq::empty()
                },
                None => Seq::empty(),
            }),
{
    let ghost start = *config;
    if config.multi_window {
        match config.max_instances {
            Some(k) => {
                if k == 0 {
                    config.validation_errors.push(owned("max_instances cannot be 0 when multi_window is enabled"));
                } else if k > 10 {
                    config.validation_warnings.push(owned("High max_instances value may impact performance"));
                }
            },
            None => {},
        }
    }
    assert(strs(config.validation_errors@) =~= strs(start.validation_errors@)
        + (if start.multi_window && start.max_instances == Some(0u32) {
            seq!["max_instances cannot be 0 when multi_window is enabled"@]
        } else {
            Seq::empty()
        }));
    assert(strs(config.validation_warnings@) =~= strs(start.validation_warnings@)
        + (match start.max_instances {
            Some(k) => if start.multi_window && k > 10 {
                seq!["High max_instances value may impact performance"@]
            } else {
                Seq::empty()
            },
            None => Seq::empty(),
        }));
}

fn check_hide_delay(config: &mut ValidatedConfig)
    ensures
        same_settings(*old(config), *final(config)),
        same_parsed(*old(config), *final(config)),
        strs(final(config).validation_errors@) == strs(old(config).validation_errors@),
        strs(final(config).validation_warnings@) == strs(old(config).validation_warnings@)
            + (match old(config).hide_delay {
                Some(d) => if d > 10000 {
                    seq!["Hide delay over 10 seconds may be unintentionally long"@]
                } else {
                    Seq::empty()
                },
                None => Seq::empty(),
            }),
{
    let ghost start = *config;
    match config.hide_delay {
        Some(d) => {
            if d > 10000 {
                config.validation_warnings.push(owned("Hide delay over 10 seconds may be unintentionally long"));
            }
        },
        None => {},
    }
    assert(strs(config.validation_errors@) =~= strs(start.validation_errors@));
    assert(strs(config.validation_warnings@) =~= strs(start.validation_warnings@)
        + (match start.hide_delay {
            Some(d) => if d > 10000 {
                seq!["Hide delay over 10 seconds may be unintentionally long"@]
            } else {
                Seq::empty()
            },
            None => Seq::empty(),
        }));
}

fn check_hysteresis(config: &mut ValidatedConfig)
    ensures
        same_settings(*old(config), *final(config)),
        same_parsed(*old(config), *final(config)),
        strs(final(config).validation_errors@) == strs(old(config).validation_errors@)
            + (match old(config).hysteresis_ms {
                Some(h) => if h < 0 { seq!["Hysteresis cannot be negative"@] } else { Seq::empty() },
                None => Seq::empty(),
            }),
        strs(final(config).validation_warnings@) == strs(old(config).validation_warnings@)
            + (match old(config).hysteresis_ms {
                Some(h) => if h > 5000 {
                    seq!["Very high hysteresis value may make unfocus behavior sluggish"@]
                } else {
                    Seq::empty()
                },
                None => Seq::empty(),
            }),
{
    let ghost start = *config;
    match config.hysteresis_ms {
        Some(h) => {
            if h < 0 {
                config.validation_errors.push(owned("Hysteresis cannot be negative"));
            } else if h > 5000 {
                config.validation_warnings.push(owned("Very high hysteresis value may make unfocus behavior sluggish"));
            }
        },
        None => {},
    }
    assert(strs(config.validation_errors@) =~= strs(start.validation_errors@) + (match start.hysteresis_ms {
        Some(h) => if h < 0 { seq!["Hysteresis cannot be negative"@] } else { Seq::empty() },
        None => Seq::empty(),
    }));
    assert(strs(config.validation_warnings@) =~= strs(start.validation_warnings@) + (match start.hysteresis_ms {
        Some(h) => if h > 5000 {
            seq!["Very high hysteresis value may make unfocus behavior sluggish"@]
        } else {
            Seq::empty()
        },
        None => Seq::empty(),
    }));
}

pub proof fn lemma_find_named_prefix(cfgs: Seq<(String, ScratchpadConfig)>, name: Seq<char>, k: int)
    requires
        0 <= k <= cfgs.len(),
        find_named(cfgs.take(k), name) is Some,
    ensures
        find_named(cfgs, name) == find_named(cfgs.take(k), name),
    decreases cfgs.len() - k,
{
    if k < cfgs.len() {
        assert(cfgs.take(k + 1).drop_last() =~= cfgs.take(k));
        lemma_find_named_prefix(cfgs, name, k + 1);
    } else {
        assert(cfgs.take(k) =~= cfgs);
    }
}

pub proof fn lemma_find_named_bounds(cfgs: Seq<(String, ScratchpadConfig)>, name: Seq<char>)
    ensures
        match find_named(cfgs, name) {
            Some(j) => 0 <= j < cfgs.len() && cfgs[j].0@ == name,
            None => forall|j: int| 0 <= j < cfgs.len() ==> cfgs[j].0@ != name,
        },
    decreases cfgs.len(),
{
    if cfgs.len() > 0 {
        lemma_find_named_bounds(cfgs.drop_last(), name);
        match find_named(cfgs.drop_last(), name) {
            Some(j) => { assert(cfgs.drop_last()[j] == cfgs[j]); },
            None => {
                assert forall|j: int| 0 <= j < cfgs.len() - 1 implies cfgs[j].0@ != name by {
                    assert(cfgs.drop_last()[j] == cfgs[j]);
                }
            },
        }
    }
}

/// Index of the first configuration called `name`.
fn find_config(configs: &Vec<(String, ScratchpadConfig)>, name: &String) -> (r: Option<usize>)
    ensures
        match find_named(configs@, name@) {
            Some(j) => r == Some(j as usize),
            None => r is None,
        },
        r matches Some(j) ==> find_named(configs@, name@) == Some(j as int) && j < configs@.len(),
{
    let target = chars_of(name.as_str());
    let mut i: usize = 0;
    assert(configs@.take(0) =~= Seq::<(String, ScratchpadConfig)>::empty());
    while i < configs.len()
        invariant
            i <= configs@.len(),
            target@ == name@,
            find_named(configs@.take(i as int), name@) is None,
        decreases configs@.len() - i,
    {
        assert(configs@.take(i + 1).drop_last() =~= configs@.take(i as int));
        if crate::text::chars_eq(&chars_of(configs[i].0.as_str()), &target) {
            proof {
                assert(find_named(configs@.take(i + 1), name@) == Some(i as int));
                lemma_find_named_prefix(configs@, name@, i + 1);
            }
            return Some(i);
        }
        i = i + 1;
    }
    assert(configs@.take(configs@.len() as int) =~= configs@);
    None
}

pub proof fn lemma_problems_follow_settings(a: ValidatedConfig, b: ValidatedConfig, ms: Seq<MonitorInfo>, names: Seq<Seq<char>>)
    requires
        same_settings(a, b),
    ensures
        config_errors(a, ms) == config_errors(b, ms),
        config_warnings(a, ms, names) == config_warnings(b, ms, names),
{
    if ms.len() > 0 {
        assert(monitor_errors(a, ms[0]) == monitor_errors(b, ms[0]));
    }
}

pub proof fn lemma_first_pass_settings(cfgs: Seq<(String, ScratchpadConfig)>, vars: Seq<(Seq<char>, Seq<char>)>, i: int, a: ValidatedConfig, b: ValidatedConfig)
    requires
        first_pass(cfgs, vars, i, a),
        same_settings(a, b),
    ensures
        first_pass(cfgs, vars, i, b),
{
    let c = cfgs[i].1;
    let class = class_of(opt_chars(c.class));
    let expanded_class = if class == auto_detect() { class } else { expand_vars(class, vars) };
    let template = template_of(cfgs, c);
    let w = choose|w: ValidatedConfig| {
        &&& #[trigger] w.command@ == expand_vars(c.command@, vars)
        &&& w.class@ == expanded_class
        &&& copied_from(c, w)
        &&& match template {
            Some(t) => merged_settings(w, t, a),
            None => same_settings(w, a),
        }
    };
    assert(w.command@ == expand_vars(c.command@, vars));
}

/// What `validate_configs` produces for scratchpad `i`.
pub open spec fn validated_entry(cfgs: Seq<(String, ScratchpadConfig)>, vars: Seq<(Seq<char>, Seq<char>)>, ms: Seq<MonitorInfo>, i: int, v: ValidatedConfig) -> bool {
    &&& first_pass(cfgs, vars, i, v)
    &&& strs(v.validation_errors@) == template_errors(cfgs[i].1, cfgs) + config_errors(v, ms)
    &&& strs(v.validation_warnings@) == config_warnings(v, ms, names_of(cfgs))
    &&& parsed_after(v, ms)
}

/// The template of scratchpad `i` merged into `a`, or an error when it is missing.
#[verifier::rlimit(80)]
fn apply_template(configs: &Vec<(String, ScratchpadConfig)>, i: usize, a: ValidatedConfig) -> (v: ValidatedConfig)
    requires
        i < configs@.len(),
    ensures
        match template_of(configs@, configs@[i as int].1) {
            Some(t) => merged_settings(a, t, v),
            None => same_settings(a, v),
        },
        strs(v.validation_errors@) == strs(a.validation_errors@) + template_errors(configs@[i as int].1, configs@),
        strs(v.validation_warnings@) == strs(a.validation_warnings@),
        same_parsed(a, v),
{
    let config = &configs[i].1;
    let ghost c = configs@[i as int].1;
    match &config.use_template {
        Some(t) => match find_config(configs, t) {
            Some(j) => {
                proof { lemma_find_named_bounds(configs@, t@); }
                let v = ConfigValidator::merge_with_template(a, &configs[j].1);
                assert(c == *config);
                assert(c.use_template == Some(*t));
                assert(find_named(configs@, t@) == Some(j as int));
                assert(template_of(configs@, c) == Some(configs@[j as int].1));
                assert(merged_settings(a, configs@[j as int].1, v));
                assert(strs(v.validation_errors@) =~= strs(a.validation_errors@) + template_errors(c, configs@));
                v
            },
            None => {
                let mut v = a;
                let mut msg = owned("Template '");
                append_str(&mut msg, t.as_str());
                append_str(&mut msg, "' not found");
                v.validation_errors.push(msg);
                assert(template_of(configs@, c) is None);
                assert(same_settings(a, v));
                assert(strs(v.validation_errors@) =~= strs(a.validation_errors@) + template_errors(c, configs@));
                assert(strs(v.validation_warnings@) =~= strs(a.validation_warnings@));
                v
            },
        },
        None => {
            assert(strs(a.validation_errors@) =~= strs(a.validation_errors@) + template_errors(c, configs@));
            a
        },
    }
}

/// Expansion and template merge for scratchpad `i`.
fn first_pass_of(configs: &Vec<(String, ScratchpadConfig)>, i: usize, variables: &Vec<(String, String)>) -> (v: ValidatedConfig)
    requires
        i < configs@.len(),
    ensures
        first_pass(configs@, vars_view(variables@), i as int, v),
        strs(v.validation_errors@) == template_errors(configs@[i as int].1, configs@),
        v.validation_warnings@.len() == 0,
        v.parsed_size is None,
        v.parsed_offset is None,
        v.parsed_max_size is None,
        v.parsed_position is None,
{
    let config = &configs[i].1;
    let mut a = ConfigValidator::convert_to_validated(config);
    a.command = ConfigValidator::expand_variables(a.command.as_str(), variables);
    if !is_auto_detect(&a.class) {
        a.class = ConfigValidator::expand_variables(a.class.as_str(), variables);
    }
    let ghost ga = a;
    let v = apply_template(configs, i, a);
    proof {
        assert(strs(ga.validation_errors@) =~= Seq::<Seq<char>>::empty());
        assert(strs(v.validation_errors@) =~= template_errors(configs@[i as int].1, configs@));
        assert(strs(v.validation_warnings@).len() == 0);
        assert(ga.command@ == expand_vars(configs@[i as int].1.command@, vars_view(variables@)));
    }
    v
}

fn validate_one(
    configs: &Vec<(String, ScratchpadConfig)>,
    i: usize,
    monitors: &Vec<MonitorInfo>,
    variables: &Vec<(String, String)>,
    names: &Vec<String>,
) -> (v: ValidatedConfig)
    requires
        i < configs@.len(),
        strs(names@) == names_of(configs@),
    ensures
        validated_entry(configs@, vars_view(variables@), monitors@, i as int, v),
{
    let mut v = first_pass_of(configs, i, variables);
    let ghost mid = v;
    proof {
        assert(strs(mid.validation_warnings@) =~= Seq::<Seq<char>>::empty());
    }
    ConfigValidator::validate_config(configs[i].0.as_str(), &mut v, monitors, names);
    proof {
        lemma_problems_follow_settings(mid, v, monitors@, names_of(configs@));
        assert(strs(v.validation_errors@) =~= template_errors(configs@[i as int].1, configs@)
            + config_errors(v, monitors@));
        assert(strs(v.validation_warnings@) =~= config_warnings(v, monitors@, names_of(configs@)));
        lemma_first_pass_settings(configs@, vars_view(variables@), i as int, mid, v);
    }
    v
}

impl ConfigValidator {
    /// Validates every scratchpad: variables expanded in command and class, the
    /// template named by `use` merged in (or an error when it is missing), then
    /// the checks of `validate_config` against `monitors` and the configured names.
    pub fn validate_configs(
        configs: &Vec<(String, ScratchpadConfig)>,
        monitors: &Vec<MonitorInfo>,
        variables: &Vec<(String, String)>,
    ) -> (out: Vec<(String, ValidatedConfig)>)
        ensures
            out@.len() == configs@.len(),
            forall|i: int| 0 <= i < out@.len() ==> {
                &&& (#[trigger] out@[i]).0@ == configs@[i].0@
                &&& validated_entry(configs@, vars_view(variables@), monitors@, i, out@[i].1)
            },
    {
        let mut names: Vec<String> = Vec::new();
        let mut k: usize = 0;
        while k < configs.len()
            invariant
                k <= configs@.len(),
                names@.len() == k,
                forall|q: int| 0 <= q < k ==> #[trigger] names@[q]@ == configs@[q].0@,
            decreases configs@.len() - k,
        {
            names.push(copy_string(&configs[k].0));
            k = k + 1;
        }
        assert(strs(names@) =~= names_of(configs@));
        let mut out: Vec<(String, ValidatedConfig)> = Vec::new();
        let mut i: usize = 0;
        while i < configs.len()
            invariant
                i <= configs@.len(),
                strs(names@) == names_of(configs@),
                out@.len() == i,
                forall|q: int| 0 <= q < i ==> {
                    &&& (#[trigger] out@[q]).0@ == configs@[q].0@
                    &&& validated_entry(configs@, vars_view(variables@), monitors@, q, out@[q].1)
                },
            decreases configs@.len() - i,
        {
            let v = validate_one(configs, i, monitors, variables, &names);
            out.push((copy_string(&configs[i].0), v));
            i = i + 1;
        }
        out
    }
}

} // verus!
