//! Browser download bookkeeping: the lifecycle of one download and the
//! collection the downloads panel shows, with its count of active downloads.
use vstd::prelude::*;
use std::collections::HashMap;

verus! {

broadcast use vstd::std_specs::hash::group_hash_axioms;

#[derive(Clone, Debug, PartialEq, Eq)]
pub enum DownloadPhase {
    InProgress,
    Cancelling,
    Complete,
    Cancelled,
    Failed(String),
}

impl DownloadPhase {
    /// Complete, cancelled and failed downloads are over.
    pub open spec fn terminal(&self) -> bool {
        self is Complete || self is Cancelled || self is Failed
    }

    pub fn is_terminal(&self) -> (r: bool)
        ensures
            r == self.terminal(),
    {
        match self {
            DownloadPhase::Complete | DownloadPhase::Cancelled | DownloadPhase::Failed(_) => true,
            _ => false,
        }
    }
}

/// The phase after a cancel request: only a running download starts
/// cancelling.
pub open spec fn after_cancel(p: DownloadPhase) -> DownloadPhase {
    if p is InProgress {
        DownloadPhase::Cancelling
    } else {
        p
    }
}

/// The phase after the bytes stopped: a cancelling download ends cancelled,
/// a running one complete; an ended one stays as it is.
pub open spec fn after_finish(p: DownloadPhase) -> DownloadPhase {
    if p.terminal() {
        p
    } else if p is Cancelling {
        DownloadPhase::Cancelled
    } else {
        DownloadPhase::Complete
    }
}

/// The phase after a failure: a cancelling download ends cancelled, a
/// running one failed with `error`; an ended one stays as it is.
pub open spec fn after_fail(p: DownloadPhase, error: String) -> DownloadPhase {
    if p.terminal() {
        p
    } else if p is Cancelling {
        DownloadPhase::Cancelled
    } else {
        DownloadPhase::Failed(error)
    }
}

#[derive(Clone, Debug)]
pub struct DownloadLifecycle {
    phase: DownloadPhase,
}

impl Default for DownloadLifecycle {
    fn default() -> (r: Self)
        ensures
            r.phase_of() == DownloadPhase::InProgress,
    {
        DownloadLifecycle { phase: DownloadPhase::InProgress }
    }
}

impl DownloadLifecycle {
    pub closed spec fn phase_of(&self) -> DownloadPhase {
        self.phase
    }

    pub fn phase(&self) -> (r: &DownloadPhase)
        ensures
            *r == self.phase_of(),
    {
        &self.phase
    }

    /// Starts cancelling a running download; `false` when it was not running.
    pub fn request_cancel(&mut self) -> (r: bool)
        ensures
            r == (old(self).phase_of() is InProgress),
            final(self).phase_of() == after_cancel(old(self).phase_of()),
    {
        match self.phase {
            DownloadPhase::InProgress => {
                self.phase = DownloadPhase::Cancelling;
                true
            },
            _ => false,
        }
    }

    /// Ends the download; `false` when it had already ended.
    pub fn finish(&mut self) -> (r: bool)
        ensures
            r == !old(self).phase_of().terminal(),
            final(self).phase_of() == after_finish(old(self).phase_of()),
    {
        if self.phase.is_terminal() {
            return false;
        }
        self.phase = match self.phase {
            DownloadPhase::Cancelling => DownloadPhase::Cancelled,
            _ => DownloadPhase::Complete,
        };
        true
    }

    /// Ends the download with `error`; `false` when it had already ended.
    pub fn fail(&mut self, error: String) -> (r: bool)
        ensures
            r == !old(self).phase_of().terminal(),
            final(self).phase_of() == after_fail(old(self).phase_of(), error),
    {
        if self.phase.is_terminal() {
            return false;
        }
        self.phase = match self.phase {
            DownloadPhase::Cancelling => DownloadPhase::Cancelled,
            _ => DownloadPhase::Failed(error),
        };
        true
    }
}

/// The ids of the downloads still running or cancelling.
pub open spec fn active_ids(m: Map<u64, DownloadPhase>) -> Set<u64> {
    m.dom().filter(|id: u64| !m[id].terminal())
}

/// The ids of the downloads that have ended.
pub open spec fn terminal_ids(m: Map<u64, DownloadPhase>) -> Set<u64> {
    m.dom().filter(|id: u64| m[id].terminal())
}

/// The downloads the panel lists, by id, with the number still active.
pub struct DownloadCollection {
    next_id: u64,
    active_count: usize,
    entries: HashMap<u64, DownloadLifecycle>,
}

impl Default for DownloadCollection {
    fn default() -> (r: Self)
        ensures
            r.wf(),
            r.phases() == Map::<u64, DownloadPhase>::empty(),
            r.next_id_view() == 0,
    {
        let r = DownloadCollection { next_id: 0, active_count: 0, entries: HashMap::new() };
        proof {
            assert(r.phases() =~= Map::<u64, DownloadPhase>::empty());
            assert(active_ids(r.phases()) =~= Set::<u64>::empty());
        }
        r
    }
}

impl DownloadCollection {
    /// Each listed download's phase, by id.
    pub closed spec fn phases(&self) -> Map<u64, DownloadPhase> {
        Map::new(|id: u64| self.entries@.contains_key(id), |id: u64| self.entries@[id].phase_of())
    }

    /// The id the next download gets.
    pub closed spec fn next_id_view(&self) -> u64 {
        self.next_id
    }

    /// The kept count of active downloads.
    pub closed spec fn active_view(&self) -> usize {
        self.active_count
    }

    /// The kept count is the number of listed downloads not yet ended, and
    /// every listed id was handed out before.
    pub closed spec fn wf(&self) -> bool {
        &&& self.active_count == active_ids(self.phases()).len()
        &&& forall|id: u64| #[trigger] self.entries@.contains_key(id) ==> id < self.next_id
    }

    proof fn lemma_finite(&self)
        ensures
            self.phases().dom().finite(),
            active_ids(self.phases()).finite(),
            terminal_ids(self.phases()).finite(),
    {
        assert(self.phases().dom() =~= self.entries@.dom());
        let m = self.phases();
        m.dom().lemma_len_filter(|id: u64| !m[id].terminal());
        m.dom().lemma_len_filter(|id: u64| m[id].terminal());
    }

    /// The public reading of `wf`: the kept count is the number of active
    /// downloads.
    pub proof fn lemma_active_count(&self)
        requires
            self.wf(),
        ensures
            self.active_view() == active_ids(self.phases()).len(),
            forall|id: u64| #[trigger] self.phases().contains_key(id) ==> id < self.next_id_view(),
    {
    }

    /// Lists a new running download and returns its id.
    pub fn insert(&mut self) -> (id: u64)
        requires
            old(self).wf(),
            old(self).next_id_view() < u64::MAX,
            old(self).active_view() < usize::MAX,
        ensures
            final(self).wf(),
            id == old(self).next_id_view(),
            !old(self).phases().contains_key(id),
            final(self).phases() == old(self).phases().insert(id, DownloadPhase::InProgress),
            final(self).next_id_view() == old(self).next_id_view() + 1,
            final(self).active_view() == old(self).active_view() + 1,
    {
        proof {
            self.lemma_finite();
        }
        let ghost before = self.phases();
        let id = self.next_id;
        self.next_id = self.next_id + 1;
        self.active_count = self.active_count + 1;
        self.entries.insert(id, DownloadLifecycle::default());
        proof {
            assert(!before.contains_key(id));
            assert(self.phases() =~= before.insert(id, DownloadPhase::InProgress));
            assert(active_ids(self.phases()) =~= active_ids(before).insert(id));
        }
        id
    }

    /// Starts cancelling download `id`; `false` when it is not listed or not
    /// running.
    pub fn request_cancel(&mut self, id: u64) -> (r: bool)
        requires
            old(self).wf(),
        ensures
            final(self).wf(),
            r == (old(self).phases().contains_key(id) && old(self).phases()[id] is InProgress),
            final(self).phases() == (if r {
                old(self).phases().insert(id, DownloadPhase::Cancelling)
            } else {
                old(self).phases()
            }),
            final(self).next_id_view() == old(self).next_id_view(),
            final(self).active_view() == old(self).active_view(),
    {
        let ghost before = self.phases();
        match self.entries.remove(&id) {
            Some(mut entry) => {
                let r = entry.request_cancel();
                self.entries.insert(id, entry);
                proof {
                    if r {
                        assert(self.phases() =~= before.insert(id, DownloadPhase::Cancelling));
                        assert(active_ids(self.phases()) =~= active_ids(before));
                    } else {
                        assert(self.phases() =~= before);
                    }
                }
                r
            },
            None => {
                proof {
                    assert(self.phases() =~= before);
                }
                false
            },
        }
    }

    /// Ends download `id`; `true` exactly when it was listed and had not
    /// ended, and only then does the active count drop.
    pub fn finish(&mut self, id: u64) -> (r: bool)
        requires
            old(self).wf(),
        ensures
            final(self).wf(),
            r == (old(self).phases().contains_key(id) && !old(self).phases()[id].terminal()),
            final(self).phases() == (if r {
                old(self).phases().insert(id, after_finish(old(self).phases()[id]))
            } else {
                old(self).phases()
            }),
            final(self).next_id_view() == old(self).next_id_view(),
            final(self).active_view() == old(self).active_view() - (if r { 1int } else { 0int }),
    {
        proof {
            self.lemma_finite();
        }
        let ghost before = self.phases();
        match self.entries.remove(&id) {
            Some(mut entry) => {
                let r = entry.finish();
                self.entries.insert(id, entry);
                proof {
                    if r {
                        assert(self.phases() =~= before.insert(id, after_finish(before[id])));
                        assert(active_ids(self.phases()) =~= active_ids(before).remove(id));
                    } else {
                        assert(self.phases() =~= before);
                    }
                }
                if r {
                    self.active_count = self.active_count - 1;
                }
                r
            },
            None => {
                proof {
                    assert(self.phases() =~= before);
                }
                false
            },
        }
    }

    /// Ends download `id` with `error`; `true` exactly when it was listed and
    /// had not ended, and only then does the active count drop.
    pub fn fail(&mut self, id: u64, error: String) -> (r: bool)
        requires
            old(self).wf(),
        ensures
            final(self).wf(),
            r == (old(self).phases().contains_key(id) && !old(self).phases()[id].terminal()),
            final(self).phases() == (if r {
                old(self).phases().insert(id, after_fail(old(self).phases()[id], error))
            } else {
                old(self).phases()
            }),
            final(self).next_id_view() == old(self).next_id_view(),
            final(self).active_view() == old(self).active_view() - (if r { 1int } else { 0int }),
    {
        proof {
            self.lemma_finite();
        }
        let ghost before = self.phases();
        match self.entries.remove(&id) {
            Some(mut entry) => {
                let r = entry.fail(error);
                self.entries.insert(id, entry);
                proof {
                    if r {
                        assert(self.phases() =~= before.insert(id, after_fail(before[id], error)));
                        assert(active_ids(self.phases()) =~= active_ids(before).remove(id));
                    } else {
                        assert(self.phases() =~= before);
                    }
                }
                if r {
                    self.active_count = self.active_count - 1;
                }
                r
            },
            None => {
                proof {
                    assert(self.phases() =~= before);
                }
                false
            },
        }
    }

    /// Drops download `id` from the list if it has ended.
    pub fn remove_terminal(&mut self, id: u64) -> (r: bool)
        requires
            old(self).wf(),
        ensures
            final(self).wf(),
            r == (old(self).phases().contains_key(id) && old(self).phases()[id].terminal()),
            final(self).phases() == (if r {
                old(self).phases().remove(id)
            } else {
                old(self).phases()
            }),
            final(self).next_id_view() == old(self).next_id_view(),
            final(self).active_view() == old(self).active_view(),
    {
        let ghost before = self.phases();
        let ended = match self.entries.get(&id) {
            Some(entry) => entry.phase().is_terminal(),
            None => false,
        };
        if !ended {
            return false;
        }
        self.entries.remove(&id);
        proof {
            assert(self.phases() =~= before.remove(id));
            assert(active_ids(self.phases()) =~= active_ids(before));
        }
        true
    }

    /// Drops every ended download; returns their ids in ascending order.
    pub fn clear_terminal(&mut self) -> (ids: Vec<u64>)
        requires
            old(self).wf(),
        ensures
            final(self).wf(),
            ids@.to_set() == terminal_ids(old(self).phases()),
            forall|i: int, j: int| 0 <= i < j < ids@.len() ==> ids@[i] < ids@[j],
            final(self).phases() == old(self).phases().restrict(active_ids(old(self).phases())),
            final(self).next_id_view() == old(self).next_id_view(),
            final(self).active_view() == old(self).active_view(),
    {
        let ghost before = self.phases();
        let mut terminal: Vec<u64> = Vec::new();
        if self.entries.len() == 0 {
            proof {
                assert(before.dom() =~= self.entries@.dom());
                assert(terminal_ids(before) =~= Set::<u64>::empty());
                assert(terminal@.to_set() =~= Set::<u64>::empty());
                assert(before.restrict(active_ids(before)) =~= before);
            }
            return terminal;
        }
        for key in it: self.entries.keys()
            invariant
                self.phases() == before,
                self.next_id == old(self).next_id,
                self.active_count == old(self).active_count,
                it.seq().unref().to_set() == self.entries@.dom(),
                it.seq().unref().no_duplicates(),
                forall|i: int, j: int| 0 <= i < j < terminal@.len() ==> terminal@[i] < terminal@[j],
                terminal@.to_set() == terminal_ids(before).intersect(
                    it.seq().unref().take(it.index() as int).to_set(),
                ),
                it.index() == it.seq().len() ==> terminal@.to_set() == terminal_ids(before),
        {
            assert(terminal@.to_set() == terminal_ids(before).intersect(
                it.seq().unref().take(it.index() as int).to_set(),
            ));
            let ghost s = it.seq().unref();
            let ghost n = it.index() as int;
            assert(terminal@.to_set() == terminal_ids(before).intersect(s.take(n).to_set()));
            assert(s[n] == *key);
            assert(s.take(n + 1) =~= s.take(n).push(*key));
            assert(self.entries@.contains_key(*key)) by {
                assert(s.to_set().contains(s[n]));
            }
            assert(!s.take(n).contains(*key)) by {
                if s.take(n).contains(*key) {
                    let k = choose|k: int| 0 <= k < n && s.take(n)[k] == *key;
                    assert(s[k] == s[n]);
                }
            }
            assert(!terminal@.contains(*key)) by {
                if terminal@.contains(*key) {
                    assert(terminal@.to_set().contains(*key));
                }
            }
            let ended = match self.entries.get(key) {
                Some(entry) => entry.phase().is_terminal(),
                None => false,
            };
            assert(ended == before[*key].terminal());
            let ghost old_terminal = terminal@;
            if ended {
                insert_sorted(&mut terminal, *key);
            }
            assert(before.contains_key(*key));
            assert(terminal_ids(before).contains(*key) == ended);
            assert(s.take(n + 1).to_set() =~= s.take(n).to_set().insert(*key)) by {
                s.take(n).lemma_push_to_set_commute(*key);
            }
            assert(old_terminal.to_set() == terminal_ids(before).intersect(s.take(n).to_set()));
            assert forall|y: u64| #[trigger] terminal@.to_set().contains(y) == terminal_ids(before).intersect(
                s.take(n + 1).to_set(),
            ).contains(y) by {
                if y == *key {
                } else {
                    assert(terminal@.to_set().contains(y) == old_terminal.to_set().contains(y));
                    assert(s.take(n + 1).to_set().contains(y) == s.take(n).to_set().contains(y));
                }
            }
            assert(terminal@.to_set() =~= terminal_ids(before).intersect(s.take(n + 1).to_set()));
            assert(s.take(s.len() as int) =~= s);
            assert(before.dom() =~= self.entries@.dom());
            assert(terminal_ids(before).intersect(s.to_set()) =~= terminal_ids(before));
            assert(n + 1 == s.len() ==> terminal@.to_set() == terminal_ids(before));
        }
        let mut i: usize = 0;
        proof {
            assert(before.dom() =~= self.entries@.dom());
            assert(terminal@.take(0).to_set() =~= Set::<u64>::empty());
            assert(before.remove_keys(Set::<u64>::empty()) =~= before);
        }
        while i < terminal.len()
            invariant
                i <= terminal@.len(),
                self.phases() == before.remove_keys(terminal@.take(i as int).to_set()),
                forall|id: u64| #[trigger] self.entries@.contains_key(id) ==> before.contains_key(id),
                forall|id: u64| #[trigger] before.contains_key(id) ==> id < self.next_id,
                self.next_id == old(self).next_id,
                self.active_count == old(self).active_count,
                self.active_count == active_ids(before).len(),
            decreases terminal@.len() - i,
        {
            let ghost pre = self.phases();
            let k = terminal[i];
            self.entries.remove(&k);
            proof {
                assert(self.phases() =~= pre.remove(k));
                assert(terminal@.take(i + 1) =~= terminal@.take(i as int).push(k));
                terminal@.take(i as int).lemma_push_to_set_commute(k);
                assert(before.remove_keys(terminal@.take(i + 1).to_set()) =~= pre.remove(k));
            }
            i = i + 1;
        }
        proof {
            assert(terminal@.take(terminal@.len() as int) =~= terminal@);
            assert(self.phases() =~= before.restrict(active_ids(before)));
            assert(active_ids(self.phases()) =~= active_ids(before));
        }
        terminal
    }

    /// The kept count of active downloads.
    pub fn active_count(&self) -> (r: usize)
        ensures
            r == self.active_view(),
    {
        self.active_count
    }

    /// The number of listed downloads.
    pub fn len(&self) -> (r: usize)
        ensures
            r == self.phases().len(),
    {
        proof {
            assert(self.phases().dom() =~= self.entries@.dom());
        }
        self.entries.len()
    }
}

/// Inserts `x` into the strictly ascending `v`, which does not hold it yet.
fn insert_sorted(v: &mut Vec<u64>, x: u64)
    requires
        forall|i: int, j: int| 0 <= i < j < old(v)@.len() ==> old(v)@[i] < old(v)@[j],
        !old(v)@.contains(x),
    ensures
        forall|i: int, j: int| 0 <= i < j < final(v)@.len() ==> final(v)@[i] < final(v)@[j],
        final(v)@.to_set() == old(v)@.to_set().insert(x),
{
    let mut p: usize = 0;
    while p < v.len() && v[p] < x
        invariant
            p <= v@.len(),
            forall|k: int| 0 <= k < p ==> v@[k] < x,
        decreases v@.len() - p,
    {
        p = p + 1;
    }
    let ghost before = v@;
    v.insert(p, x);
    proof {
        assert(v@ =~= before.take(p as int).push(x) + before.skip(p as int));
        assert(v@.to_set() =~= before.to_set().insert(x)) by {
            assert forall|y: u64| v@.to_set().contains(y) implies before.to_set().insert(x).contains(y) by {
                let k = choose|k: int| 0 <= k < v@.len() && v@[k] == y;
                if k < p {
                    assert(before[k] == y);
                } else if k > p {
                    assert(before[k - 1] == y);
                }
            }
            assert forall|y: u64| before.to_set().insert(x).contains(y) implies v@.to_set().contains(y) by {
                if y == x {
                    assert(v@[p as int] == x);
                } else {
                    let k = choose|k: int| 0 <= k < before.len() && before[k] == y;
                    if k < p {
                        assert(v@[k] == y);
                    } else {
                        assert(v@[k + 1] == y);
                    }
                }
            }
        }
    }
}

// ------------------------------------------------------------------
// Laws
// ------------------------------------------------------------------

/// An ended download stays as it ended: no later event changes it.
pub proof fn lemma_terminal_is_final(p: DownloadPhase, error: String)
    requires
        p.terminal(),
    ensures
        after_cancel(p) == p,
        after_finish(p) == p,
        after_fail(p, error) == p,
{
}

/// A download whose cancel was requested never completes nor fails: every
/// event leaves it cancelling or ends it cancelled.
pub proof fn lemma_cancelled_never_completes(p: DownloadPhase, error: String)
    requires
        p is Cancelling || p is Cancelled,
    ensures
        after_cancel(p) is Cancelling || after_cancel(p) is Cancelled,
        after_finish(p) is Cancelled,
        after_fail(p, error) is Cancelled,
{
}

/// Finishing or failing a download that has not ended always ends it.
pub proof fn lemma_end_events_end(p: DownloadPhase, error: String)
    requires
        !p.terminal(),
    ensures
        after_finish(p).terminal(),
        after_fail(p, error).terminal(),
{
}

} // verus!
