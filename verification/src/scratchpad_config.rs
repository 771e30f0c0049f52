//! Scratchpad configuration as written by the user, and the validated form the
//! daemon works with.
use vstd::prelude::*;
use vstd::string::*;

verus! {

/// One `[scratchpads.NAME]` section.
///
/// The unfocus hysteresis is held in milliseconds (the configuration file
/// writes it in seconds).
#[derive(Debug, Clone)]
pub struct ScratchpadConfig {
    pub command: String,
    pub class: Option<String>,
    pub size: String,
    pub animation: Option<String>,
    pub margin: Option<i32>,
    pub offset: Option<String>,
    pub hide_delay: Option<u32>,
    pub lazy: bool,
    pub pinned: bool,
    pub excludes: Vec<String>,
    pub restore_excluded: bool,
    pub preserve_aspect: bool,
    pub force_monitor: Option<String>,
    pub alt_toggle: bool,
    pub allow_special_workspaces: bool,
    pub smart_focus: bool,
    pub close_on_hide: bool,
    pub unfocus: Option<String>,
    pub max_size: Option<String>,
    /// Name of another scratchpad whose settings fill the unset ones (`use = "..."`).
    pub use_template: Option<String>,
    pub position: Option<String>,
    pub hysteresis_ms: Option<i64>,
    pub restore_focus: bool,
    pub multi: bool,
    pub multi_window: bool,
    pub max_instances: Option<u32>,
}

/// The size every scratchpad gets when none is configured.
pub open spec fn default_size() -> Seq<char> {
    seq!['5', '0', '%', ' ', '5', '0', '%']
}

/// The class placeholder used until the spawned window reveals its class.
pub open spec fn auto_detect() -> Seq<char> {
    seq!['A', 'U', 'T', 'O', '_', 'D', 'E', 'T', 'E', 'C', 'T']
}

pub fn default_size_string() -> (s: String)
    ensures
        s@ == default_size(),
{
    let s = String::from_str("50% 50%");
    proof { reveal_strlit("50% 50%"); }
    s
}

/// The size a scratchpad section gives: the configured one, else
/// `50% 50%`.
pub fn size_or_default(size: Option<String>) -> (s: String)
    ensures
        s@ == match size { Some(t) => t@, None => default_size() },
{
    match size {
        Some(t) => t,
        None => default_size_string(),
    }
}

/// The `excludes` entry of a scratchpad section: a list (each item's text,
/// `None` for an item that is no string), a single string, or something
/// else or nothing.
#[derive(Debug)]
pub enum ExcludesEntry {
    List(Vec<Option<String>>),
    Text(String),
    Other,
}

/// The string items of a list, in order.
pub open spec fn string_items(v: Seq<Option<String>>) -> Seq<Seq<char>>
    decreases v.len(),
{
    if v.len() == 0 {
        Seq::empty()
    } else {
        let prev = string_items(v.drop_last());
        match v.last() {
            Some(t) => prev.push(t@),
            None => prev,
        }
    }
}

/// The scratchpads a section excludes: the strings of a list, all (`*`) for
/// the single string `*`, and none otherwise.
pub fn excludes_from(entry: &ExcludesEntry) -> (r: Vec<String>)
    ensures
        r@.map_values(|t: String| t@) == match *entry {
            ExcludesEntry::List(v) => string_items(v@),
            ExcludesEntry::Text(t) => if t@ == seq!['*'] { seq![seq!['*']] } else { Seq::empty() },
            ExcludesEntry::Other => Seq::<Seq<char>>::empty(),
        },
{
    let mut r: Vec<String> = Vec::new();
    match entry {
        ExcludesEntry::List(v) => {
            let mut k: usize = 0;
            proof { assert(v@.take(0) =~= Seq::<Option<String>>::empty()); }
            while k < v.len()
                invariant
                    k <= v@.len(),
                    r@.map_values(|t: String| t@) == string_items(v@.take(k as int)),
                decreases v@.len() - k,
            {
                proof {
                    assert(v@.take(k as int + 1).drop_last() =~= v@.take(k as int));
                    assert(v@.take(k as int + 1).last() == v@[k as int]);
                }
                match &v[k] {
                    Some(t) => {
                        let ghost before = r@;
                        r.push(crate::text::copy_string(t));
                        proof {
                            assert(r@.map_values(|t: String| t@) =~= before.map_values(|t: String| t@).push(t@));
                        }
                    },
                    None => {},
                }
                k = k + 1;
            }
            proof { assert(v@.take(v@.len() as int) =~= v@); }
        },
        ExcludesEntry::Text(t) => {
            let star = crate::text::chars_of("*");
            proof {
                reveal_strlit("*");
                assert("*"@ =~= seq!['*']);
            }
            if crate::text::chars_eq(&crate::text::chars_of(t.as_str()), &star) {
                let all = String::from_str("*");
                proof { assert(all@ =~= seq!['*']); }
                r.push(all);
                proof { assert(r@.map_values(|t: String| t@) =~= seq![seq!['*']]); }
            } else {
                assert(r@.map_values(|t: String| t@) =~= Seq::<Seq<char>>::empty());
            }
        },
        ExcludesEntry::Other => {
            assert(r@.map_values(|t: String| t@) =~= Seq::<Seq<char>>::empty());
        },
    }
    r
}

pub fn auto_detect_string() -> (s: String)
    ensures
        s@ == auto_detect(),
{
    let s = String::from_str("AUTO_DETECT");
    proof { reveal_strlit("AUTO_DETECT"); }
    s
}

impl Default for ScratchpadConfig {
    fn default() -> (c: Self)
        ensures
            c.command@ == Seq::<char>::empty(),
            c.class is None,
            c.size@ == default_size(),
            c.animation is None,
            c.margin is None,
            c.offset is None,
            c.hide_delay is None,
            !c.lazy,
            c.pinned,
            c.excludes@.len() == 0,
            !c.restore_excluded,
            !c.preserve_aspect,
            c.force_monitor is None,
            !c.alt_toggle,
            !c.allow_special_workspaces,
            c.smart_focus,
            !c.close_on_hide,
            c.unfocus is None,
            c.max_size is None,
            c.use_template is None,
            c.position is None,
            c.hysteresis_ms == Some(400i64),
            c.restore_focus,
            !c.multi,
            !c.multi_window,
            c.max_instances == Some(1u32),
    {
        ScratchpadConfig {
            command: String::new(),
            class: None,
            size: default_size_string(),
            animation: None,
            margin: None,
            offset: None,
            hide_delay: None,
            lazy: false,
            pinned: true,
            excludes: Vec::new(),
            restore_excluded: false,
            preserve_aspect: false,
            force_monitor: None,
            alt_toggle: false,
            allow_special_workspaces: false,
            smart_focus: true,
            close_on_hide: false,
            unfocus: None,
            max_size: None,
            use_template: None,
            position: None,
            hysteresis_ms: Some(400),
            restore_focus: true,
            multi: false,
            multi_window: false,
            max_instances: Some(1),
        }
    }
}

/// A scratchpad configuration after validation: the class is resolved (or the
/// auto-detect placeholder), template settings are merged in, problems are
/// listed, and the geometry is pre-computed for the first monitor.
#[derive(Debug, Clone)]
pub struct ValidatedConfig {
    pub command: String,
    pub class: String,
    pub size: String,
    pub animation: Option<String>,
    pub margin: Option<i32>,
    pub offset: Option<String>,
    pub hide_delay: Option<u32>,
    pub lazy: bool,
    pub pinned: bool,
    pub excludes: Vec<String>,
    pub restore_excluded: bool,
    pub preserve_aspect: bool,
    pub force_monitor: Option<String>,
    pub alt_toggle: bool,
    pub allow_special_workspaces: bool,
    pub smart_focus: bool,
    pub close_on_hide: bool,
    pub unfocus: Option<String>,
    pub max_size: Option<String>,
    pub use_template: Option<String>,
    pub position: Option<String>,
    pub hysteresis_ms: Option<i64>,
    pub restore_focus: bool,
    pub multi: bool,
    pub multi_window: bool,
    pub max_instances: Option<u32>,
    pub validation_errors: Vec<String>,
    pub validation_warnings: Vec<String>,
    pub parsed_size: Option<(i32, i32)>,
    pub parsed_offset: Option<(i32, i32)>,
    pub parsed_max_size: Option<(i32, i32)>,
    pub parsed_position: Option<(i32, i32)>,
}

impl Default for ValidatedConfig {
    fn default() -> (c: Self)
        ensures
            c.command@ == Seq::<char>::empty(),
            c.class@ == Seq::<char>::empty(),
            c.size@ == default_size(),
            c.animation is None,
            c.margin is None,
            c.offset is None,
            c.hide_delay is None,
            !c.lazy,
            c.pinned,
            c.excludes@.len() == 0,
            !c.restore_excluded,
            !c.preserve_aspect,
            c.force_monitor is None,
            !c.alt_toggle,
            !c.allow_special_workspaces,
            c.smart_focus,
            !c.close_on_hide,
            c.unfocus is None,
            c.max_size is None,
            c.use_template is None,
            c.position is None,
            c.hysteresis_ms == Some(400i64),
            c.restore_focus,
            !c.multi,
            !c.multi_window,
            c.max_instances == Some(1u32),
            c.validation_errors@.len() == 0,
            c.validation_warnings@.len() == 0,
            c.parsed_size is None,
            c.parsed_offset is None,
            c.parsed_max_size is None,
            c.parsed_position is None,
    {
        ValidatedConfig {
            command: String::new(),
            class: String::new(),
            size: default_size_string(),
            animation: None,
            margin: None,
            offset: None,
            hide_delay: None,
            lazy: false,
            pinned: true,
            excludes: Vec::new(),
            restore_excluded: false,
            preserve_aspect: false,
            force_monitor: None,
            alt_toggle: false,
            allow_special_workspaces: false,
            smart_focus: true,
            close_on_hide: false,
            unfocus: None,
            max_size: None,
            use_template: None,
            position: None,
            hysteresis_ms: Some(400),
            restore_focus: true,
            multi: false,
            multi_window: false,
            max_instances: Some(1),
            validation_errors: Vec::new(),
            validation_warnings: Vec::new(),
            parsed_size: None,
            parsed_offset: None,
            parsed_max_size: None,
            parsed_position: None,
        }
    }
}

} // verus!
