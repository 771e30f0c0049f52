//! The geometries last seen of scratchpad windows, so that the compositor
//! need not be asked again while nothing moved.
use vstd::prelude::*;
use crate::keyed::{find_key, remove_entry, set_entry, unique_keys, value_of};
use crate::scratchpad_geometry::WindowGeometry;
use crate::scratchpad_state::{owner, ScratchpadRegistry};
use crate::text::{chars_eq, chars_of, copy_string};

verus! {

/// A geometry as plain values: position, size, workspace, monitor, floating.
pub open spec fn geom_view(g: WindowGeometry) -> (i32, i32, i32, i32, Seq<char>, i32, bool) {
    (g.x, g.y, g.width, g.height, g.workspace@, g.monitor, g.floating)
}

/// Two geometries put the window in the same place: same position, size and
/// workspace.
pub open spec fn same_place(a: (i32, i32, i32, i32, Seq<char>, i32, bool), b: (i32, i32, i32, i32, Seq<char>, i32, bool)) -> bool {
    a.0 == b.0 && a.1 == b.1 && a.2 == b.2 && a.3 == b.3 && a.4 == b.4
}

/// The geometry stored last under `a` in `gs`, if any.
pub open spec fn last_geometry(gs: Seq<(String, WindowGeometry)>, a: Seq<char>) -> Option<WindowGeometry>
    decreases gs.len(),
{
    if gs.len() == 0 {
        None
    } else if gs.last().0@ == a {
        Some(gs.last().1)
    } else {
        last_geometry(gs.drop_last(), a)
    }
}

/// Window address, then the geometry last seen of it.
#[derive(Debug)]
pub struct GeometryCache {
    pub entries: Vec<(String, WindowGeometry)>,
}

impl GeometryCache {
    /// Each window is held once.
    pub open spec fn wf(&self) -> bool {
        unique_keys(self.entries@)
    }

    /// The geometry held for window `a`.
    pub open spec fn cached(&self, a: Seq<char>) -> Option<(i32, i32, i32, i32, Seq<char>, i32, bool)> {
        match value_of(self.entries@, a) {
            Some(g) => Some(geom_view(g)),
            None => None,
        }
    }

    /// Nothing held.
    pub fn new() -> (c: Self)
        ensures
            c.wf(),
            forall|a: Seq<char>| #[trigger] c.cached(a) is None,
    {
        GeometryCache { entries: Vec::new() }
    }

    /// The geometry held for `window_address`.
    pub fn get_cached_geometry(&self, window_address: &str) -> (r: Option<WindowGeometry>)
        ensures
            match r {
                Some(g) => self.cached(window_address@) == Some(geom_view(g)),
                None => self.cached(window_address@) is None,
            },
    {
        match find_key(&self.entries, window_address) {
            Some(i) => Some(copy_geometry(&self.entries[i].1)),
            None => None,
        }
    }

    /// Takes in the geometry just read for `window_address`: it is stored
    /// when none was held or the window is no longer in the same place, and
    /// the answer says whether it was.
    pub fn update(&mut self, window_address: &str, g: WindowGeometry) -> (changed: bool)
        requires
            old(self).wf(),
        ensures
            final(self).wf(),
            changed == !(old(self).cached(window_address@) matches Some(c) && same_place(c, geom_view(g))),
            changed ==> final(self).cached(window_address@) == Some(geom_view(g)),
            !changed ==> final(self).entries@ == old(self).entries@,
            forall|a: Seq<char>| a != window_address@ ==> #[trigger] final(self).cached(a) == old(self).cached(a),
    {
        let same = match find_key(&self.entries, window_address) {
            Some(i) => {
                let c = &self.entries[i].1;
                c.x == g.x && c.y == g.y && c.width == g.width && c.height == g.height
                    && chars_eq(&chars_of(c.workspace.as_str()), &chars_of(g.workspace.as_str()))
            },
            None => false,
        };
        if same {
            return false;
        }
        let ghost gv = geom_view(g);
        let ghost before = *self;
        set_entry(&mut self.entries, window_address, g);
        proof {
            assert forall|a: Seq<char>| a != window_address@ implies #[trigger] self.cached(a) == before.cached(a) by {
                assert(value_of(self.entries@, a) == value_of(before.entries@, a));
            }
        }
        true
    }

    /// Forgets `window_address` (its window is gone).
    pub fn forget(&mut self, window_address: &str)
        requires
            old(self).wf(),
        ensures
            final(self).wf(),
            final(self).cached(window_address@) is None,
            forall|a: Seq<char>| a != window_address@ ==> #[trigger] final(self).cached(a) == old(self).cached(a),
    {
        let ghost before = *self;
        let _ = remove_entry(&mut self.entries, window_address);
        proof {
            assert forall|a: Seq<char>| a != window_address@ implies #[trigger] self.cached(a) == before.cached(a) by {
                assert(value_of(self.entries@, a) == value_of(before.entries@, a));
            }
        }
    }

    /// A window moved: its geometry is stored when it belongs to a
    /// scratchpad of `registry`; others are not held.
    pub fn window_moved(&mut self, registry: &ScratchpadRegistry, window_address: &str, g: WindowGeometry)
        requires
            old(self).wf(),
        ensures
            final(self).wf(),
            owner(*registry, window_address@) is Some ==> final(self).cached(window_address@) == Some(geom_view(g)),
            owner(*registry, window_address@) is None ==> final(self).entries@ == old(self).entries@,
            forall|a: Seq<char>| a != window_address@ ==> #[trigger] final(self).cached(a) == old(self).cached(a),
    {
        match find_key(&registry.window_to_scratchpad, window_address) {
            Some(_) => {
                let ghost before = *self;
                set_entry(&mut self.entries, window_address, g);
                proof {
                    assert forall|a: Seq<char>| a != window_address@ implies #[trigger] self.cached(a) == before.cached(a) by {
                        assert(value_of(self.entries@, a) == value_of(before.entries@, a));
                    }
                }
            },
            None => {},
        }
    }

    /// Stores every geometry read for the tracked windows, the last one
    /// read winning for a window read twice.
    pub fn store_all(&mut self, geometries: Vec<(String, WindowGeometry)>)
        requires
            old(self).wf(),
        ensures
            final(self).wf(),
            forall|a: Seq<char>| #[trigger] final(self).cached(a) == match last_geometry(geometries@, a) {
                Some(g) => Some(geom_view(g)),
                None => old(self).cached(a),
            },
    {
        let ghost start = *self;
        let ghost gs = geometries@;
        let mut k: usize = 0;
        while k < geometries.len()
            invariant
                k <= gs.len(),
                gs == geometries@,
                self.wf(),
                forall|a: Seq<char>| #[trigger] self.cached(a) == match last_geometry(gs.take(k as int), a) {
                    Some(g) => Some(geom_view(g)),
                    None => start.cached(a),
                },
            decreases gs.len() - k,
        {
            let ghost before = *self;
            let name = copy_string(&geometries[k].0);
            let g = copy_geometry(&geometries[k].1);
            set_entry(&mut self.entries, name.as_str(), g);
            proof {
                let t = gs.take(k as int + 1);
                assert(t.drop_last() =~= gs.take(k as int));
                assert(t.last() == gs[k as int]);
                assert forall|a: Seq<char>| #[trigger] self.cached(a) == match last_geometry(t, a) {
                    Some(g) => Some(geom_view(g)),
                    None => start.cached(a),
                } by {
                    if a != name@ {
                        assert(value_of(self.entries@, a) == value_of(before.entries@, a));
                        assert(before.cached(a) == match last_geometry(gs.take(k as int), a) {
                            Some(g) => Some(geom_view(g)),
                            None => start.cached(a),
                        });
                    }
                }
            }
            k = k + 1;
        }
        assert(gs.take(gs.len() as int) =~= gs);
    }
}

/// A copy of `g`.
pub fn copy_geometry(g: &WindowGeometry) -> (r: WindowGeometry)
    ensures
        geom_view(r) == geom_view(*g),
{
    WindowGeometry {
        x: g.x,
        y: g.y,
        width: g.width,
        height: g.height,
        workspace: copy_string(&g.workspace),
        monitor: g.monitor,
        floating: g.floating,
    }
}

} // verus!
