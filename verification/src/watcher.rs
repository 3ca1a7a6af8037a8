//! The watcher's decision kernel: coalesce a debounce window's
//! filesystem events by path and decide, per path, whether to ignore
//! it, remove it from the graph, or rebuild it. Watching the
//! filesystem, sleeping out the window and applying the actions under
//! the writer lock are the caller's business.

use vstd::prelude::*;

use crate::lang::spec_lang_of_path;
use crate::strutil::streq;

verus! {

/// One filesystem event after the dust settles: a path, and whether
/// the file still exists.
#[derive(Clone, Debug)]
pub struct WatchEvent {
    pub path: String,
    pub exists: bool,
}

/// What to do about one path.
#[derive(Clone, Copy, Debug, PartialEq, Eq, Structural)]
pub enum WatchAction {
    /// The extension maps to no supported language: leave the graph
    /// alone.
    Ignore,
    /// The file is gone: remove it from the graph.
    Remove,
    /// The file changed: remove and re-ingest it.
    Rebuild,
}

/// The model of an event.
pub ghost struct EventView {
    pub path: Seq<char>,
    pub exists: bool,
}

impl View for WatchEvent {
    type V = EventView;

    open spec fn view(&self) -> EventView {
        EventView { path: self.path@, exists: self.exists }
    }
}

pub open spec fn events_view(s: Seq<WatchEvent>) -> Seq<EventView> {
    Seq::new(s.len(), |i: int| s[i]@)
}

pub open spec fn plans_view(s: Seq<(String, WatchAction)>) -> Seq<(Seq<char>, WatchAction)> {
    Seq::new(s.len(), |i: int| (s[i].0@, s[i].1))
}

/// The action one event asks for.
pub open spec fn spec_action(e: EventView) -> WatchAction {
    if spec_lang_of_path(e.path) is None {
        WatchAction::Ignore
    } else if !e.exists {
        WatchAction::Remove
    } else {
        WatchAction::Rebuild
    }
}

pub open spec fn plan_has_path(plan: Seq<(Seq<char>, WatchAction)>, p: Seq<char>) -> bool {
    exists|i: int| 0 <= i < plan.len() && (#[trigger] plan[i]).0 == p
}

pub open spec fn plan_path_idx(plan: Seq<(Seq<char>, WatchAction)>, p: Seq<char>) -> int {
    choose|i: int| 0 <= i < plan.len() && (#[trigger] plan[i]).0 == p
}

/// The coalesced plan of a window: one entry per distinct path in
/// order of first occurrence, carrying the action of that path's
/// latest event.
pub open spec fn spec_plan(events: Seq<EventView>) -> Seq<(Seq<char>, WatchAction)>
    decreases events.len(),
{
    if events.len() == 0 {
        Seq::empty()
    } else {
        let rest = spec_plan(events.drop_last());
        let e = events.last();
        if plan_has_path(rest, e.path) {
            rest.update(plan_path_idx(rest, e.path), (e.path, spec_action(e)))
        } else {
            rest.push((e.path, spec_action(e)))
        }
    }
}

/// Position of a path in the plan built so far.
fn find_plan_entry(v: &Vec<(String, WatchAction)>, path: &str) -> (r: Option<usize>)
    ensures
        match r {
            Some(i) => (i as int) < v@.len() && v@[i as int].0@ == path@,
            None => forall|i: int| 0 <= i < v@.len() ==> (#[trigger] v@[i]).0@ != path@,
        },
{
    let n = v.len();
    let mut i: usize = 0;
    while i < n
        invariant
            0 <= i <= n,
            n == v@.len(),
            forall|k: int| 0 <= k < i ==> (#[trigger] v@[k]).0@ != path@,
        decreases n - i,
    {
        if streq(v[i].0.as_str(), path) {
            return Some(i);
        }
        i += 1;
    }
    None
}

/// Whether the plan keys are pairwise distinct, as the coalescing
/// promises.
pub open spec fn plan_keys_distinct(plan: Seq<(Seq<char>, WatchAction)>) -> bool {
    forall|i: int, j: int|
        0 <= i < j < plan.len() ==> (#[trigger] plan[i]).0 != (#[trigger] plan[j]).0
}

/// Coalesce one debounce window: each distinct path appears once, in
/// order of first occurrence, with the action its latest event asks
/// for — unsupported extensions are ignored, vanished files removed,
/// and everything else rebuilt.
pub fn plan_flush(events: &Vec<WatchEvent>) -> (r: Vec<(String, WatchAction)>)
    ensures
        plans_view(r@) == spec_plan(events_view(events@)),
{
    let n = events.len();
    let mut out: Vec<(String, WatchAction)> = Vec::new();
    let mut i: usize = 0;
    while i < n
        invariant
            0 <= i <= n,
            n == events@.len(),
            plans_view(out@) == spec_plan(events_view(events@).take(i as int)),
            plan_keys_distinct(plans_view(out@)),
        decreases n - i,
    {
        proof {
            assert(events_view(events@).take(i + 1).drop_last() =~= events_view(events@).take(
                i as int,
            ));
            assert(events_view(events@).take(i + 1).last() == events@[i as int]@);
        }
        let action = if crate::lang::SupportedLanguage::from_path(
            events[i].path.as_str(),
        ).is_none() {
            WatchAction::Ignore
        } else if !events[i].exists {
            WatchAction::Remove
        } else {
            WatchAction::Rebuild
        };
        proof {
            assert(action == spec_action(events@[i as int]@));
        }
        match find_plan_entry(&out, events[i].path.as_str()) {
            Some(pi) => {
                proof {
                    let plan = plans_view(out@);
                    assert(plan[pi as int].0 == events@[i as int].path@);
                    assert(plan_has_path(plan, events@[i as int].path@));
                    let gi = plan_path_idx(plan, events@[i as int].path@);
                    if gi != pi as int {
                        assert(plan[gi].0 != plan[pi as int].0);
                    }
                }
                let path = events[i].path.clone();
                out[pi] = (path, action);
                proof {
                    assert(plans_view(out@) =~= spec_plan(
                        events_view(events@).take(i + 1),
                    ));
                }
            },
            None => {
                proof {
                    assert forall|k: int|
                        0 <= k < plans_view(out@).len() implies (#[trigger] plans_view(out@)[
                    k]).0 != events@[i as int].path@ by {
                        assert(plans_view(out@)[k].0 == out@[k].0@);
                    }
                    assert(!plan_has_path(plans_view(out@), events@[i as int].path@));
                }
                let path = events[i].path.clone();
                out.push((path, action));
                proof {
                    assert(plans_view(out@) =~= spec_plan(
                        events_view(events@).take(i + 1),
                    ));
                }
            },
        }
        i += 1;
    }
    proof {
        assert(events_view(events@).take(n as int) =~= events_view(events@));
    }
    out
}

} // verus!
