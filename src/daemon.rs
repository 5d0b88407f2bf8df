//! The decisions of the daemon's event loop. The loop itself, which waits on
//! the control socket and the change notifications, lives with the program;
//! it hands each event here and carries out what comes back.

use crate::index::{
    has_key, index_of, keys_unique, lemma_index_of, lemma_push_unique, lemma_update_unique, value_of,
    IndexModel, State,
};
use crate::types::{Action, ActionModel, Alias, AliasModel, Error};
use vstd::prelude::*;

verus! {

/// The index to run with, given what loading the persisted one gave: a
/// failed load, at start or on a reload, falls back to an empty index.
pub fn load_index(loaded: Result<State, Error>) -> (r: State)
    ensures
        loaded matches Ok(s) ==> r@ == s@,
        loaded is Err ==> r@ == Seq::<(Seq<char>, crate::index::EntryModel)>::empty(),
{
    match loaded {
        Ok(s) => s,
        Err(_) => State::new(),
    }
}

/// What the loop does after a wait, given whether the handled request asks
/// for the watches to be renewed and which signals came.
pub enum Step {
    /// Persist the index and stop.
    Exit,
    Continue {
        /// Replace the index with the persisted one.
        reload_index: bool,
        /// Register a watch again for every tracked path.
        rewatch: bool,
    },
}

pub open spec fn spec_next_step(request_rewatch: bool, terminate: bool, hangup: bool) -> Step {
    if terminate {
        Step::Exit
    } else {
        Step::Continue { reload_index: hangup, rewatch: request_rewatch || hangup }
    }
}

/// Decides the loop's next step. A termination signal wins; a hang-up
/// reloads the index, which discards changes made since it was last saved.
pub fn next_step(request_rewatch: bool, terminate: bool, hangup: bool) -> (r: Step)
    ensures
        r == spec_next_step(request_rewatch, terminate, hangup),
{
    if terminate {
        Step::Exit
    } else {
        Step::Continue { reload_index: hangup, rewatch: request_rewatch || hangup }
    }
}

/// Whether a change notification calls for a new watch: the old one was
/// dropped by the system and the daemon runs with persistent watches.
pub fn renews_watch(persistent: bool, watch_dropped: bool) -> (r: bool)
    ensures
        r == (persistent && watch_dropped),
{
    persistent && watch_dropped
}

/// What a change of a tracked file sets off.
#[derive(Debug)]
pub enum Plan {
    /// Capture a snapshot, with labels from this policy.
    Capture(Alias),
    /// Start this program with the path as its argument, without waiting.
    Spawn(String),
}

pub enum PlanModel {
    Capture(AliasModel),
    Spawn(Seq<char>),
}

impl View for Plan {
    type V = PlanModel;

    open spec fn view(&self) -> PlanModel {
        match self {
            Plan::Capture(a) => PlanModel::Capture(a@),
            Plan::Spawn(s) => PlanModel::Spawn(s@),
        }
    }
}

/// The plan that the entry of a tracked path calls for.
pub open spec fn spec_plan(m: IndexModel, path: Seq<char>) -> PlanModel {
    match value_of(m, path).action {
        ActionModel::Save => PlanModel::Capture(value_of(m, path).alias),
        ActionModel::Script(s) => PlanModel::Spawn(s),
    }
}

/// Decides what a change of `path` sets off; a path that is not tracked is
/// not found.
pub fn plan_action(state: &State, path: &String) -> (r: Result<Plan, Error>)
    ensures
        has_key(state@, path@) ==> (r matches Ok(p) && p@ == spec_plan(state@, path@)),
        !has_key(state@, path@) ==> (r matches Err(e) && e is NotFound),
{
    match state.entry_for(path) {
        Some(e) => match e.action() {
            Action::Save => Ok(Plan::Capture(e.alias().clone())),
            Action::Script(s) => Ok(Plan::Spawn(s.clone())),
        },
        None => Err(Error::NotFound(String::from_str("no such tracked file"))),
    }
}

/// The daemon's table from watch descriptors, as numbers, to the tracked
/// paths that they watch.
pub struct WatchTable {
    watches: Vec<(i32, String)>,
}

/// The model of a list of watches.
pub open spec fn watches_view(ws: Seq<(i32, String)>) -> Seq<(i32, Seq<char>)> {
    ws.map_values(|w: (i32, String)| (w.0, w.1@))
}

impl View for WatchTable {
    type V = Seq<(i32, Seq<char>)>;

    closed spec fn view(&self) -> Seq<(i32, Seq<char>)> {
        watches_view(self.watches@)
    }
}

/// The table after `wd` is set to watch `path`: a known descriptor is
/// pointed at the path, a new one is added.
pub open spec fn watched(t: Seq<(i32, Seq<char>)>, wd: i32, path: Seq<char>) -> Seq<(i32, Seq<char>)> {
    if has_key(t, wd) {
        t.update(index_of(t, wd), (wd, path))
    } else {
        t.push((wd, path))
    }
}

fn find_watch(ws: &Vec<(i32, String)>, wd: i32) -> (r: Option<usize>)
    ensures
        match r {
            Some(i) => i < ws@.len() && watches_view(ws@)[i as int].0 == wd,
            None => !has_key(watches_view(ws@), wd),
        },
{
    let mut i: usize = 0;
    while i < ws.len()
        invariant
            i <= ws@.len(),
            forall|j: int| 0 <= j < i ==> #[trigger] watches_view(ws@)[j].0 != wd,
        decreases ws@.len() - i,
    {
        if ws[i].0 == wd {
            return Some(i);
        }
        i = i + 1;
    }
    None
}

impl WatchTable {
    /// No descriptor occurs twice.
    #[verifier::type_invariant]
    spec fn inv(&self) -> bool {
        keys_unique(self@)
    }

    pub fn new() -> (r: WatchTable)
        ensures
            r@ == Seq::<(i32, Seq<char>)>::empty(),
    {
        let r = WatchTable { watches: Vec::new() };
        assert(r@ =~= Seq::<(i32, Seq<char>)>::empty());
        r
    }

    /// Records that `wd` watches `path`.
    pub fn insert(&mut self, wd: i32, path: &String)
        ensures
            final(self)@ == watched(old(self)@, wd, path@),
            keys_unique(final(self)@),
    {
        proof {
            use_type_invariant(&*self);
        }
        let ghost t = old(self)@;
        let mut ws: Vec<(i32, String)> = Vec::new();
        std::mem::swap(&mut ws, &mut self.watches);
        assert(watches_view(ws@) == t);
        match find_watch(&ws, wd) {
            Some(i) => {
                proof {
                    lemma_index_of(t, i as int);
                }
                ws[i].1 = path.clone();
                proof {
                    assert(watches_view(ws@) =~= t.update(i as int, (wd, path@)));
                    lemma_update_unique(t, i as int, path@);
                }
            },
            None => {
                ws.push((wd, path.clone()));
                proof {
                    assert(watches_view(ws@) =~= t.push((wd, path@)));
                    lemma_push_unique(t, wd, path@);
                }
            },
        }
        self.watches = ws;
    }

    /// The path that `wd` watches, where it is known.
    pub fn path_of(&self, wd: i32) -> (r: Option<String>)
        ensures
            has_key(self@, wd) ==> (r matches Some(p) && p@ == value_of(self@, wd)),
            !has_key(self@, wd) ==> r is None,
    {
        proof {
            use_type_invariant(self);
        }
        match find_watch(&self.watches, wd) {
            Some(i) => {
                proof {
                    lemma_index_of(self@, i as int);
                }
                Some(self.watches[i].1.clone())
            },
            None => None,
        }
    }

    /// Forgets the watch `wd`.
    fn forget(&mut self, wd: i32)
        ensures
            keys_unique(final(self)@),
            !has_key(final(self)@, wd),
            forall|w: i32|
                w != wd ==> (has_key(final(self)@, w) == has_key(old(self)@, w) && (has_key(
                    old(self)@,
                    w,
                ) ==> value_of(final(self)@, w) == value_of(old(self)@, w))),
    {
        proof {
            use_type_invariant(&*self);
        }
        let ghost before = old(self)@;
        match find_watch(&self.watches, wd) {
            Some(i) => {
                let mut ws: Vec<(i32, String)> = Vec::new();
                std::mem::swap(&mut ws, &mut self.watches);
                ws.remove(i);
                let ghost after = watches_view(ws@);
                proof {
                    assert(after =~= before.remove(i as int));
                    assert forall|a: int, b: int|
                        0 <= a < after.len() && 0 <= b < after.len() && #[trigger] after[a].0
                            == #[trigger] after[b].0 implies a == b by {
                        let a2 = if a < i { a } else { a + 1 };
                        let b2 = if b < i { b } else { b + 1 };
                        assert(before[a2].0 == before[b2].0);
                    }
                    assert forall|w: i32| w != wd && has_key(before, w) implies has_key(after, w)
                        && value_of(after, w) == value_of(before, w) by {
                        let k = index_of(before, w);
                        lemma_index_of(before, k);
                        let k2 = if k < i { k } else { k - 1 };
                        assert(after[k2] == before[k]);
                        lemma_index_of(after, k2);
                    }
                    assert forall|w: i32| has_key(after, w) implies has_key(before, w) by {
                        let k = index_of(after, w);
                        let k2 = if k < i { k } else { k + 1 };
                        assert(before[k2] == after[k]);
                    }
                    assert(!has_key(after, wd)) by {
                        if has_key(after, wd) {
                            let k = index_of(after, wd);
                            let k2 = if k < i { k } else { k + 1 };
                            assert(before[k2].0 == wd);
                        }
                    }
                }
                self.watches = ws;
            },
            None => {},
        }
    }

    /// Replaces the watch `old_wd`, which the system dropped, by `new_wd` on
    /// the same path.
    pub fn renew(&mut self, old_wd: i32, new_wd: i32, path: &String)
        ensures
            !has_key(final(self)@, old_wd) || old_wd == new_wd,
            has_key(final(self)@, new_wd) && value_of(final(self)@, new_wd) == path@,
            forall|w: i32|
                w != old_wd && w != new_wd ==> (has_key(final(self)@, w) == has_key(old(self)@, w)
                    && (has_key(old(self)@, w) ==> value_of(final(self)@, w) == value_of(
                    old(self)@,
                    w,
                ))),
    {
        self.forget(old_wd);
        let ghost mid = self@;
        self.insert(new_wd, path);
        proof {
            if has_key(mid, new_wd) {
                lemma_index_of(mid, index_of(mid, new_wd));
                lemma_index_of(self@, index_of(mid, new_wd));
            } else {
                lemma_index_of(self@, mid.len() as int);
            }
            assert forall|w: i32| w != new_wd && has_key(mid, w) implies has_key(self@, w)
                && value_of(self@, w) == value_of(mid, w) by {
                lemma_index_of(mid, index_of(mid, w));
                let k = index_of(mid, w);
                assert(self@[k] == mid[k]);
                lemma_index_of(self@, k);
            }
            assert forall|w: i32| w != new_wd && has_key(self@, w) implies has_key(mid, w) by {
                let k = index_of(self@, w);
                assert(k < mid.len());
                assert(mid[k].0 == w);
            }
        }
    }
}

} // verus!
