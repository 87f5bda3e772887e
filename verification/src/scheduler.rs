//! Check scheduler and delta engine: decides when each check of the active
//! snapshot is due, remembers the last status each check produced, and
//! routes every fresh result either onto the fast path (send at once) or
//! onto the batch path (defer to the next periodic flush).
//!
//! A status change is never lost: the fast path either delivers the delta
//! or parks its encoded frame in the offline buffer.

use vstd::prelude::*;

verus! {

use crate::wire::{Snapshot, StatusDelta, DeltaView};
use crate::codec::{encode_delta, encode_delta_spec, delta_wf, lemma_encode_line_free, delta_views};
use crate::buffer::OfflineBuffer;
use crate::native::NativeResult;
use crate::text::str_eq;

/// Per-check memory: the status last produced and the time execution last
/// started, in monotonic seconds.
pub struct CheckState {
    pub component_id: String,
    pub check_name: String,
    pub last_status: Option<String>,
    pub last_run: Option<u64>,
}

/// The first state for this `(component id, check name)` key, if any.
pub open spec fn find_state(s: Seq<CheckState>, cid: Seq<char>, name: Seq<char>) -> Option<
    CheckState,
>
    decreases s.len(),
{
    if s.len() == 0 {
        None
    } else if s[0].component_id@ == cid && s[0].check_name@ == name {
        Some(s[0])
    } else {
        find_state(s.skip(1), cid, name)
    }
}

/// The snapshot mentions this `(component id, check name)` pair.
pub open spec fn snapshot_has_key(snap: Snapshot, cid: Seq<char>, name: Seq<char>) -> bool {
    exists|i: int, j: int|
        0 <= i < snap.components@.len() && 0 <= j < (#[trigger] snap.components@[i]).checks@.len()
            && snap.components@[i].id@ == cid && (#[trigger] snap.components@[i].checks@[j]).name@
            == name
}

/// The states that survive replacing the snapshot: those whose key the new
/// snapshot still mentions.
pub open spec fn retained_states(s: Seq<CheckState>, snap: Snapshot) -> Seq<CheckState> {
    s.filter(|st: CheckState| snapshot_has_key(snap, st.component_id@, st.check_name@))
}

/// The scheduler: the active snapshot, per-check memory, and the deltas
/// awaiting the next batch flush.
pub struct CheckScheduler {
    snapshot: Option<Snapshot>,
    states: Vec<CheckState>,
    pending_batch: Vec<StatusDelta>,
}

impl CheckScheduler {
    pub closed spec fn spec_states(&self) -> Seq<CheckState> {
        self.states@
    }

    pub closed spec fn spec_snapshot(&self) -> Option<Snapshot> {
        self.snapshot
    }

    pub closed spec fn spec_pending(&self) -> Seq<StatusDelta> {
        self.pending_batch@
    }

    /// Check keys are pairwise distinct.
    pub open spec fn well_formed(&self) -> bool {
        forall|a: int, b: int|
            0 <= a < b < self.spec_states().len() ==> !((#[trigger] self.spec_states()[a]).component_id@
                == (#[trigger] self.spec_states()[b]).component_id@ && self.spec_states()[a].check_name@
                == self.spec_states()[b].check_name@)
    }

    /// Whether the check at `(i, j)` of the active snapshot is due at
    /// `now` (monotonic seconds): never run, or run at least its interval
    /// ago.
    pub open spec fn check_due(&self, i: int, j: int, now: u64) -> bool
        recommends
            self.spec_snapshot() is Some,
    {
        let snap = self.spec_snapshot().unwrap();
        let c = snap.components@[i];
        let ch = c.checks@[j];
        match find_state(self.spec_states(), c.id@, ch.name@) {
            None => true,
            Some(st) => match st.last_run {
                None => true,
                Some(t) => now as int >= t + ch.interval_secs,
            },
        }
    }

    /// Valid position of a check in the active snapshot.
    pub open spec fn valid_pair(&self, i: int, j: int) -> bool {
        &&& self.spec_snapshot() is Some
        &&& 0 <= i < self.spec_snapshot().unwrap().components@.len()
        &&& 0 <= j < self.spec_snapshot().unwrap().components@[i].checks@.len()
    }

    pub fn new() -> (r: Self)
        ensures
            r.spec_snapshot() is None,
            r.spec_states() == Seq::<CheckState>::empty(),
            r.spec_pending() == Seq::<StatusDelta>::empty(),
            r.well_formed(),
    {
        CheckScheduler { snapshot: None, states: Vec::new(), pending_batch: Vec::new() }
    }

    /// Replace the active snapshot.  Checks whose key the new snapshot no
    /// longer mentions lose their memory; checks that persist keep it.
    pub fn update_snapshot(&mut self, snapshot: Snapshot)
        requires
            old(self).well_formed(),
        ensures
            final(self).well_formed(),
            final(self).spec_snapshot() == Some(snapshot),
            final(self).spec_states() == retained_states(old(self).spec_states(), snapshot),
            final(self).spec_pending() == old(self).spec_pending(),
    {
        proof {
            reveal(Seq::filter);
        }
        let ghost orig = self.states@;
        let mut i: usize = 0;
        let ghost mut j: int = 0;
        proof {
            assert(retained_states(orig.take(0), snapshot) =~= Seq::<CheckState>::empty());
            assert(self.states@ =~= retained_states(orig.take(0), snapshot) + orig.skip(0));
        }
        while i < self.states.len()
            invariant
                0 <= j <= orig.len(),
                i == retained_states(orig.take(j), snapshot).len(),
                self.states@ == retained_states(orig.take(j), snapshot) + orig.skip(j),
                forall|a: int, b: int|
                    0 <= a < b < self.states@.len() ==> !((
                    #[trigger] self.states@[a]).component_id@ == (
                    #[trigger] self.states@[b]).component_id@ && self.states@[a].check_name@
                        == self.states@[b].check_name@),
                self.snapshot == old(self).snapshot,
                self.pending_batch@ == old(self).pending_batch@,
            decreases self.states@.len() - i,
        {
            proof {
                reveal(Seq::filter);
            }
            let ghost pre = self.states@;
            proof {
                orig.take(j).lemma_filter_len(
                    |st: CheckState| snapshot_has_key(snapshot, st.component_id@, st.check_name@),
                );
                assert(retained_states(orig.take(j), snapshot).len() <= orig.take(j).len());
                assert(j < orig.len());
                assert(pre[i as int] == orig.skip(j)[0]);
                assert(orig.skip(j)[0] == orig[j]);
            }
            let keep = snapshot_contains(
                &snapshot,
                self.states[i].component_id.as_str(),
                self.states[i].check_name.as_str(),
            );
            let ghost t = orig.take(j + 1);
            proof {
                assert(t.drop_last() =~= orig.take(j));
                assert(t.last() == orig[j]);
            }
            if keep {
                proof {
                    assert(snapshot_has_key(snapshot, orig[j].component_id@, orig[j].check_name@));
                    assert(retained_states(t, snapshot) == retained_states(
                        orig.take(j),
                        snapshot,
                    ).push(orig[j]));
                    assert(self.states@ =~= retained_states(t, snapshot) + orig.skip(j + 1));
                }
                i = i + 1;
            } else {
                let _ = self.states.remove(i);
                proof {
                    assert(!snapshot_has_key(snapshot, orig[j].component_id@, orig[j].check_name@));
                    assert(retained_states(t, snapshot) == retained_states(orig.take(j), snapshot));
                    assert(self.states@ =~= retained_states(t, snapshot) + orig.skip(j + 1));
                    assert forall|a: int, b: int|
                        0 <= a < b < self.states@.len() implies !((
                        #[trigger] self.states@[a]).component_id@ == (
                        #[trigger] self.states@[b]).component_id@ && self.states@[a].check_name@
                            == self.states@[b].check_name@) by {
                        if b < i {
                            assert(self.states@[a] == pre[a] && self.states@[b] == pre[b]);
                            assert(!(pre[a].component_id@ == pre[b].component_id@
                                && pre[a].check_name@ == pre[b].check_name@));
                        } else if a < i {
                            assert(self.states@[a] == pre[a] && self.states@[b] == pre[b + 1]);
                            assert(!(pre[a].component_id@ == pre[b + 1].component_id@
                                && pre[a].check_name@ == pre[b + 1].check_name@));
                        } else {
                            assert(self.states@[a] == pre[a + 1] && self.states@[b] == pre[b + 1]);
                            assert(!(pre[a + 1].component_id@ == pre[b + 1].component_id@
                                && pre[a + 1].check_name@ == pre[b + 1].check_name@));
                        }
                    }
                }
            }
            proof {
                j = j + 1;
            }
        }
        proof {
            orig.take(j).lemma_filter_len(
                |st: CheckState| snapshot_has_key(snapshot, st.component_id@, st.check_name@),
            );
            assert(retained_states(orig.take(j), snapshot).len() <= orig.take(j).len());
            assert(j == orig.len());
            assert(orig.take(j) =~= orig);
            assert(orig.skip(j) =~= Seq::<CheckState>::empty());
            assert(self.states@ =~= retained_states(orig, snapshot));
        }
        self.snapshot = Some(snapshot);
    }

    /// The positions of every check that is due at `now`, in snapshot
    /// order: exactly those never run or last run at least their interval
    /// ago.  With no active snapshot nothing is due.
    pub fn due_checks(&self, now: u64) -> (r: Vec<(usize, usize)>)
        ensures
            self.spec_snapshot() is None ==> r@.len() == 0,
            forall|k: int|
                0 <= k < r@.len() ==> self.valid_pair(
                    (#[trigger] r@[k]).0 as int,
                    r@[k].1 as int,
                ) && self.check_due(r@[k].0 as int, r@[k].1 as int, now),
            forall|i: int, j: int|
                self.valid_pair(i, j) && self.check_due(i, j, now) ==> r@.contains(
                    (i as usize, j as usize),
                ),
            forall|k1: int, k2: int| 0 <= k1 < k2 < r@.len() ==> r@[k1] != r@[k2],
    {
        let mut out: Vec<(usize, usize)> = Vec::new();
        let snap = match &self.snapshot {
            Some(s) => s,
            None => {
                return out;
            },
        };
        let mut i: usize = 0;
        while i < snap.components.len()
            invariant
                i <= snap.components@.len(),
                self.spec_snapshot() == Some(*snap),
                forall|k: int|
                    0 <= k < out@.len() ==> self.valid_pair(
                        (#[trigger] out@[k]).0 as int,
                        out@[k].1 as int,
                    ) && self.check_due(out@[k].0 as int, out@[k].1 as int, now),
                forall|a: int, b: int|
                    0 <= a < i && self.valid_pair(a, b) && self.check_due(a, b, now) ==> out@.contains(
                        (a as usize, b as usize),
                    ),
                forall|k: int| 0 <= k < out@.len() ==> ((#[trigger] out@[k]).0 as int) < i,
                forall|k1: int, k2: int| 0 <= k1 < k2 < out@.len() ==> out@[k1] != out@[k2],
            decreases snap.components@.len() - i,
        {
            let c = &snap.components[i];
            let mut j: usize = 0;
            while j < c.checks.len()
                invariant
                    i < snap.components@.len(),
                    j <= c.checks@.len(),
                    *c == snap.components@[i as int],
                    self.spec_snapshot() == Some(*snap),
                    forall|k: int|
                        0 <= k < out@.len() ==> self.valid_pair(
                            (#[trigger] out@[k]).0 as int,
                            out@[k].1 as int,
                        ) && self.check_due(out@[k].0 as int, out@[k].1 as int, now),
                    forall|a: int, b: int|
                        0 <= a < i && self.valid_pair(a, b) && self.check_due(a, b, now)
                            ==> out@.contains((a as usize, b as usize)),
                    forall|b: int|
                        0 <= b < j && self.check_due(i as int, b, now) ==> out@.contains(
                            (i, b as usize),
                        ),
                    forall|k: int|
                        0 <= k < out@.len() ==> ((#[trigger] out@[k]).0 as int) < i || (
                        out@[k].0 == i && (out@[k].1 as int) < j),
                    forall|k1: int, k2: int| 0 <= k1 < k2 < out@.len() ==> out@[k1] != out@[k2],
                decreases c.checks@.len() - j,
            {
                let ch = &c.checks[j];
                let due = match self.state_index(c.id.as_str(), ch.name.as_str()) {
                    None => true,
                    Some(si) => match self.states[si].last_run {
                        None => true,
                        Some(t) => {
                            if ch.interval_secs > u64::MAX - t {
                                false
                            } else {
                                now >= t + ch.interval_secs
                            }
                        },
                    },
                };
                proof {
                    assert(due == self.check_due(i as int, j as int, now));
                }
                let ghost pre = out@;
                if due {
                    out.push((i, j));
                    proof {
                        assert(out@[out@.len() - 1] == (i, j));
                        assert forall|k1: int, k2: int|
                            0 <= k1 < k2 < out@.len() implies out@[k1] != out@[k2] by {
                            if k2 < out@.len() - 1 {
                                assert(out@[k1] == pre[k1] && out@[k2] == pre[k2]);
                            } else {
                                assert(out@[k1] == pre[k1]);
                                assert(((pre[k1].0 as int) < i as int) || (pre[k1].0 == i
                                    && (pre[k1].1 as int) < j as int));
                            }
                        }
                        assert forall|a: int, b: int|
                            0 <= a < i && self.valid_pair(a, b) && self.check_due(
                                a,
                                b,
                                now,
                            ) implies out@.contains((a as usize, b as usize)) by {
                            assert(pre.contains((a as usize, b as usize)));
                            let w = choose|w: int|
                                0 <= w < pre.len() && pre[w] == (a as usize, b as usize);
                            assert(out@[w] == (a as usize, b as usize));
                        }
                        assert forall|b: int|
                            0 <= b < j + 1 && self.check_due(i as int, b, now) implies out@.contains(
                            (i, b as usize),
                        ) by {
                            if b < j {
                                assert(pre.contains((i, b as usize)));
                                let w = choose|w: int|
                                    0 <= w < pre.len() && pre[w] == (i, b as usize);
                                assert(out@[w] == (i, b as usize));
                            } else {
                                assert(out@[out@.len() - 1] == (i, b as usize));
                            }
                        }
                    }
                }
                j = j + 1;
            }
            i = i + 1;
        }
        out
    }

    /// Index of the state for this key, if present.
    fn state_index(&self, cid: &str, name: &str) -> (r: Option<usize>)
        ensures
            match r {
                Some(k) => k < self.spec_states().len() && self.spec_states()[k as int].component_id@
                    == cid@ && self.spec_states()[k as int].check_name@ == name@ && find_state(
                    self.spec_states(),
                    cid@,
                    name@,
                ) == Some(self.spec_states()[k as int]),
                None => find_state(self.spec_states(), cid@, name@) is None,
            },
    {
        let mut k: usize = 0;
        while k < self.states.len()
            invariant
                k <= self.spec_states().len(),
                forall|m: int|
                    0 <= m < k ==> !((#[trigger] self.spec_states()[m]).component_id@ == cid@
                        && self.spec_states()[m].check_name@ == name@),
            decreases self.spec_states().len() - k,
        {
            if str_eq(self.states[k].component_id.as_str(), cid) && str_eq(
                self.states[k].check_name.as_str(),
                name,
            ) {
                proof {
                    lemma_find_state_at(self.spec_states(), cid@, name@, k as int);
                }
                return Some(k);
            }
            k = k + 1;
        }
        proof {
            lemma_find_state_at(self.spec_states(), cid@, name@, self.spec_states().len() as int);
        }
        None
    }
}

/// If no state before `k` has the key, the search outcome is decided at
/// `k`.
proof fn lemma_find_state_at(s: Seq<CheckState>, cid: Seq<char>, name: Seq<char>, k: int)
    requires
        0 <= k <= s.len(),
        forall|j: int|
            0 <= j < k ==> !((#[trigger] s[j]).component_id@ == cid && s[j].check_name@ == name),
        k < s.len() ==> s[k].component_id@ == cid && s[k].check_name@ == name,
    ensures
        find_state(s, cid, name) == if k < s.len() {
            Some(s[k])
        } else {
            None::<CheckState>
        },
    decreases s.len(),
{
    if s.len() == 0 {
    } else if s[0].component_id@ == cid && s[0].check_name@ == name {
        assert(k == 0);
    } else {
        let t = s.skip(1);
        assert forall|j: int|
            0 <= j < k - 1 implies !((#[trigger] t[j]).component_id@ == cid && t[j].check_name@
                == name) by {
            assert(t[j] == s[j + 1]);
        }
        if k - 1 < t.len() {
            assert(t[k - 1] == s[k]);
        }
        lemma_find_state_at(t, cid, name, k - 1);
        if k < s.len() {
            assert(t[k - 1] == s[k]);
        }
    }
}

/// Executable check whether the snapshot mentions this key.
fn snapshot_contains(snap: &Snapshot, cid: &str, name: &str) -> (r: bool)
    ensures
        r == snapshot_has_key(*snap, cid@, name@),
{
    let mut i: usize = 0;
    while i < snap.components.len()
        invariant
            i <= snap.components@.len(),
            forall|a: int, b: int|
                0 <= a < i && 0 <= b < (#[trigger] snap.components@[a]).checks@.len() ==> !(
                snap.components@[a].id@ == cid@ && (#[trigger] snap.components@[a].checks@[b]).name@
                    == name@),
        decreases snap.components@.len() - i,
    {
        let c = &snap.components[i];
        if str_eq(c.id.as_str(), cid) {
            let mut j: usize = 0;
            while j < c.checks.len()
                invariant
                    i < snap.components@.len(),
                    j <= c.checks@.len(),
                    *c == snap.components@[i as int],
                    c.id@ == cid@,
                    forall|b: int|
                        0 <= b < j ==> (#[trigger] snap.components@[i as int].checks@[b]).name@
                            != name@,
                decreases c.checks@.len() - j,
            {
                if str_eq(c.checks[j].name.as_str(), name) {
                    proof {
                        assert(snap.components@[i as int].checks@[j as int].name@ == name@);
                    }
                    return true;
                }
                j = j + 1;
            }
        }
        proof {
            assert forall|b: int|
                0 <= b < snap.components@[i as int].checks@.len() implies !(
                snap.components@[i as int].id@ == cid@ && (
                #[trigger] snap.components@[i as int].checks@[b]).name@ == name@) by {}
        }
        i = i + 1;
    }
    false
}

} // verus!
// === Change detection and the two paths =================================

verus! {

/// Whether this delta's status differs from the status last recorded for
/// its key — a never-seen key counts as changed.
pub open spec fn status_changed(states: Seq<CheckState>, d: DeltaView) -> bool {
    match find_state(states, d.component_id, d.check_name) {
        None => true,
        Some(st) => match st.last_status {
            None => true,
            Some(s) => s@ != d.status,
        },
    }
}

impl CheckScheduler {
    /// Note that execution of this check started at `now` (monotonic
    /// seconds).  The check's last status survives; an unknown key gets a
    /// fresh state.
    pub fn record_run(&mut self, component_id: &str, check_name: &str, now: u64)
        requires
            old(self).well_formed(),
        ensures
            final(self).well_formed(),
            final(self).spec_snapshot() == old(self).spec_snapshot(),
            final(self).spec_pending() == old(self).spec_pending(),
            match find_state(final(self).spec_states(), component_id@, check_name@) {
                Some(st) => {
                    &&& st.last_run == Some(now)
                    &&& st.component_id@ == component_id@
                    &&& st.check_name@ == check_name@
                    &&& st.last_status == (match find_state(
                        old(self).spec_states(),
                        component_id@,
                        check_name@,
                    ) {
                        Some(o) => o.last_status,
                        None => None::<String>,
                    })
                },
                None => false,
            },
            forall|c: Seq<char>, n: Seq<char>|
                !(c == component_id@ && n == check_name@) ==> #[trigger] find_state(
                    final(self).spec_states(),
                    c,
                    n,
                ) == find_state(old(self).spec_states(), c, n),
    {
        let ghost pre = self.states@;
        match self.state_index(component_id, check_name) {
            Some(k) => {
                let mut st = self.states.remove(k);
                st.last_run = Some(now);
                self.states.insert(k, st);
                proof {
                    lemma_state_update_at(pre, self.states@, k as int, component_id@, check_name@);
                }
            },
            None => {
                let st = CheckState {
                    component_id: String::from_str(component_id),
                    check_name: String::from_str(check_name),
                    last_status: None,
                    last_run: Some(now),
                };
                self.states.push(st);
                proof {
                    lemma_state_append(pre, self.states@, component_id@, check_name@);
                }
            },
        }
    }

    /// Route a fresh delta: returns true when its status differs from the
    /// last one recorded for its key — the caller must then send it at
    /// once — and records the new status either way.  An unchanged status
    /// joins the pending batch instead.
    pub fn route_delta(&mut self, delta: &StatusDelta) -> (fast: bool)
        requires
            old(self).well_formed(),
        ensures
            final(self).well_formed(),
            final(self).spec_snapshot() == old(self).spec_snapshot(),
            fast == status_changed(old(self).spec_states(), delta@),
            fast ==> {
                &&& final(self).spec_pending() == old(self).spec_pending()
                &&& match find_state(final(self).spec_states(), delta.component_id@, delta.check_name@) {
                    Some(st) => {
                        &&& st.last_status matches Some(s) && s@ == delta.status@
                        &&& st.last_run == (match find_state(
                            old(self).spec_states(),
                            delta.component_id@,
                            delta.check_name@,
                        ) {
                            Some(o) => o.last_run,
                            None => None::<u64>,
                        })
                    },
                    None => false,
                }
                &&& forall|c: Seq<char>, n: Seq<char>|
                    !(c == delta.component_id@ && n == delta.check_name@) ==> #[trigger] find_state(
                        final(self).spec_states(),
                        c,
                        n,
                    ) == find_state(old(self).spec_states(), c, n)
            },
            !fast ==> {
                &&& final(self).spec_states() == old(self).spec_states()
                &&& delta_views(final(self).spec_pending()) == delta_views(
                    old(self).spec_pending(),
                ).push(delta@)
            },
    {
        let ghost pre = self.states@;
        let changed = match self.state_index(
            delta.component_id.as_str(),
            delta.check_name.as_str(),
        ) {
            None => true,
            Some(k) => match &self.states[k].last_status {
                None => true,
                Some(s) => !str_eq(s.as_str(), delta.status.as_str()),
            },
        };
        if changed {
            match self.state_index(delta.component_id.as_str(), delta.check_name.as_str()) {
                Some(k) => {
                    let mut st = self.states.remove(k);
                    st.last_status = Some(delta.status.clone());
                    self.states.insert(k, st);
                    proof {
                        lemma_state_update_at(
                            pre,
                            self.states@,
                            k as int,
                            delta.component_id@,
                            delta.check_name@,
                        );
                    }
                },
                None => {
                    let st = CheckState {
                        component_id: delta.component_id.clone(),
                        check_name: delta.check_name.clone(),
                        last_status: Some(delta.status.clone()),
                        last_run: None,
                    };
                    self.states.push(st);
                    proof {
                        lemma_state_append(pre, self.states@, delta.component_id@, delta.check_name@);
                    }
                },
            }
            true
        } else {
            let ghost pp = self.pending_batch@;
            self.pending_batch.push(delta.clone());
            proof {
                assert(delta_views(self.pending_batch@) =~= delta_views(pp).push(delta@));
            }
            false
        }
    }

    /// Take everything awaiting the batch flush, leaving the batch empty.
    pub fn take_batch(&mut self) -> (r: Vec<StatusDelta>)
        requires
            old(self).well_formed(),
        ensures
            final(self).well_formed(),
            final(self).spec_snapshot() == old(self).spec_snapshot(),
            final(self).spec_states() == old(self).spec_states(),
            r@ == old(self).spec_pending(),
            final(self).spec_pending() == Seq::<StatusDelta>::empty(),
    {
        let mut drained: Vec<StatusDelta> = Vec::new();
        core::mem::swap(&mut self.pending_batch, &mut drained);
        drained
    }

    /// The component id and check definition at a position of the active
    /// snapshot, as returned by `due_checks`.
    pub fn check_at(&self, i: usize, j: usize) -> (r: Option<(String, crate::wire::CheckDefinition)>)
        ensures
            match r {
                Some((cid, ch)) => {
                    &&& self.valid_pair(i as int, j as int)
                    &&& cid@ == self.spec_snapshot().unwrap().components@[i as int].id@
                    &&& ch.name@ == self.spec_snapshot().unwrap().components@[i as int].checks@[j as int].name@
                    &&& ch.check_type@ == self.spec_snapshot().unwrap().components@[i as int].checks@[j as int].check_type@
                    &&& ch.config@ == self.spec_snapshot().unwrap().components@[i as int].checks@[j as int].config@
                    &&& ch.interval_secs == self.spec_snapshot().unwrap().components@[i as int].checks@[j as int].interval_secs
                    &&& ch.timeout_secs == self.spec_snapshot().unwrap().components@[i as int].checks@[j as int].timeout_secs
                },
                None => !self.valid_pair(i as int, j as int),
            },
    {
        match &self.snapshot {
            None => None,
            Some(snap) => {
                if i < snap.components.len() {
                    let c = &snap.components[i];
                    if j < c.checks.len() {
                        Some((c.id.clone(), c.checks[j].clone()))
                    } else {
                        None
                    }
                } else {
                    None
                }
            },
        }
    }

    /// How many deltas await the next batch flush.
    pub fn pending_len(&self) -> (r: usize)
        ensures
            r == self.spec_pending().len(),
    {
        self.pending_batch.len()
    }
}

/// Assemble the delta for one check outcome: the check's key, the
/// outcome's status, message and metrics, and the given wall-clock
/// timestamp.
pub fn delta_of_result(
    component_id: &str,
    check_name: &str,
    result: NativeResult,
    timestamp: u64,
) -> (r: StatusDelta)
    ensures
        r.component_id@ == component_id@,
        r.check_name@ == check_name@,
        r.status == result.status,
        r.message == result.message,
        r.metrics matches Some(m) && m == result.metrics,
        r.timestamp == timestamp,
{
    StatusDelta {
        component_id: String::from_str(component_id),
        check_name: String::from_str(check_name),
        status: result.status,
        message: result.message,
        metrics: Some(result.metrics),
        timestamp,
    }
}

/// Fast-path fallback: a delta that could not be delivered is parked in
/// the offline buffer as its encoded frame — so a changed status is either
/// delivered upstream or sits in the buffer, never silently dropped.
pub fn buffer_unsent(buffer: &mut OfflineBuffer, delta: &StatusDelta, sent: bool)
    requires
        old(buffer).well_formed(),
        delta_wf(delta@),
    ensures
        final(buffer).well_formed(),
        final(buffer).spec_max_size() == old(buffer).spec_max_size(),
        sent ==> final(buffer)@ == old(buffer)@,
        sent || final(buffer)@.contains(encode_delta_spec(delta@)),
        !sent ==> final(buffer)@.len() > 0 && final(buffer)@[final(buffer)@.len() - 1]
            == encode_delta_spec(delta@),
{
    if !sent {
        let line = encode_delta(delta);
        proof {
            lemma_encode_line_free(delta@);
        }
        buffer.push(line);
        proof {
            assert(buffer@[buffer@.len() - 1] == encode_delta_spec(delta@));
        }
    }
}

/// Execution spacing: a check whose last start was at `t` is not due again
/// before `t` plus its interval, and is due at every instant from then on.
/// Together with the exactness of `due_checks` and `record_run` at each
/// start, consecutive starts of one check lie at least its interval apart,
/// and at most one scheduling tick beyond it when every due check runs.
pub proof fn lemma_run_spacing(s: CheckScheduler, i: int, j: int, now: u64, t: u64)
    requires
        s.valid_pair(i, j),
        find_state(
            s.spec_states(),
            s.spec_snapshot().unwrap().components@[i].id@,
            s.spec_snapshot().unwrap().components@[i].checks@[j].name@,
        ) matches Some(st) && st.last_run == Some(t),
    ensures
        (now as int) < t + s.spec_snapshot().unwrap().components@[i].checks@[j].interval_secs
            ==> !s.check_due(i, j, now),
        (now as int) >= t + s.spec_snapshot().unwrap().components@[i].checks@[j].interval_secs
            ==> s.check_due(i, j, now),
{
}

/// States only change by replacement at the key's position; searches for
/// other keys are untouched.
proof fn lemma_state_update_at(
    pre: Seq<CheckState>,
    post: Seq<CheckState>,
    k: int,
    cid: Seq<char>,
    name: Seq<char>,
)
    requires
        0 <= k < pre.len(),
        post.len() == pre.len(),
        pre[k].component_id@ == cid && pre[k].check_name@ == name,
        post[k].component_id@ == cid && post[k].check_name@ == name,
        forall|m: int| 0 <= m < pre.len() && m != k ==> post[m] == pre[m],
        forall|a: int, b: int|
            0 <= a < b < pre.len() ==> !((#[trigger] pre[a]).component_id@ == (
            #[trigger] pre[b]).component_id@ && pre[a].check_name@ == pre[b].check_name@),
    ensures
        find_state(post, cid, name) == Some(post[k]),
        find_state(pre, cid, name) == Some(pre[k]),
        forall|c: Seq<char>, n: Seq<char>|
            !(c == cid && n == name) ==> #[trigger] find_state(post, c, n) == find_state(
                pre,
                c,
                n,
            ),
        forall|a: int, b: int|
            0 <= a < b < post.len() ==> !((#[trigger] post[a]).component_id@ == (
            #[trigger] post[b]).component_id@ && post[a].check_name@ == post[b].check_name@),
{
    assert forall|m: int|
        0 <= m < k implies !((#[trigger] post[m]).component_id@ == cid && post[m].check_name@
            == name) by {
        assert(post[m] == pre[m]);
    }
    lemma_state_find_at_ext(post, cid, name, k);
    lemma_state_find_at_ext(pre, cid, name, k);
    assert forall|c: Seq<char>, n: Seq<char>|
        !(c == cid && n == name) implies #[trigger] find_state(post, c, n) == find_state(
        pre,
        c,
        n,
    ) by {
        lemma_state_congruent(pre, post, k, c, n);
    }
    assert forall|a: int, b: int|
        0 <= a < b < post.len() implies !((#[trigger] post[a]).component_id@ == (
        #[trigger] post[b]).component_id@ && post[a].check_name@ == post[b].check_name@) by {
        if a != k && b != k {
            assert(post[a] == pre[a] && post[b] == pre[b]);
            assert(!(pre[a].component_id@ == pre[b].component_id@ && pre[a].check_name@
                == pre[b].check_name@));
        } else if a == k {
            assert(post[b] == pre[b]);
            assert(!(pre[k].component_id@ == pre[b].component_id@ && pre[k].check_name@
                == pre[b].check_name@));
        } else {
            assert(post[a] == pre[a]);
            assert(!(pre[a].component_id@ == pre[k].component_id@ && pre[a].check_name@
                == pre[k].check_name@));
        }
    }
}

/// Appending a state with a key nothing carried makes that key found and
/// leaves other searches untouched.
proof fn lemma_state_append(
    pre: Seq<CheckState>,
    post: Seq<CheckState>,
    cid: Seq<char>,
    name: Seq<char>,
)
    requires
        find_state(pre, cid, name) is None,
        post == pre.push(post[post.len() - 1]),
        post.len() == pre.len() + 1,
        post[post.len() - 1].component_id@ == cid && post[post.len() - 1].check_name@ == name,
        forall|a: int, b: int|
            0 <= a < b < pre.len() ==> !((#[trigger] pre[a]).component_id@ == (
            #[trigger] pre[b]).component_id@ && pre[a].check_name@ == pre[b].check_name@),
    ensures
        find_state(post, cid, name) == Some(post[post.len() - 1]),
        forall|c: Seq<char>, n: Seq<char>|
            !(c == cid && n == name) ==> #[trigger] find_state(post, c, n) == find_state(
                pre,
                c,
                n,
            ),
        forall|a: int, b: int|
            0 <= a < b < post.len() ==> !((#[trigger] post[a]).component_id@ == (
            #[trigger] post[b]).component_id@ && post[a].check_name@ == post[b].check_name@),
{
    let e = post[post.len() - 1];
    assert forall|m: int|
        0 <= m < pre.len() implies !((#[trigger] pre[m]).component_id@ == cid && pre[m].check_name@
            == name) by {
        if pre[m].component_id@ == cid && pre[m].check_name@ == name {
            lemma_state_present(pre, cid, name, m);
        }
    }
    assert forall|m: int|
        0 <= m < post.len() - 1 implies !((#[trigger] post[m]).component_id@ == cid
            && post[m].check_name@ == name) by {
        assert(post[m] == pre[m]);
    }
    lemma_state_find_at_ext(post, cid, name, post.len() - 1);
    assert forall|c: Seq<char>, n: Seq<char>|
        !(c == cid && n == name) implies #[trigger] find_state(post, c, n) == find_state(
        pre,
        c,
        n,
    ) by {
        lemma_state_push_other(pre, e, c, n);
    }
    assert forall|a: int, b: int|
        0 <= a < b < post.len() implies !((#[trigger] post[a]).component_id@ == (
        #[trigger] post[b]).component_id@ && post[a].check_name@ == post[b].check_name@) by {
        if b < post.len() - 1 {
            assert(post[a] == pre[a] && post[b] == pre[b]);
            assert(!(pre[a].component_id@ == pre[b].component_id@ && pre[a].check_name@
                == pre[b].check_name@));
        } else {
            assert(post[a] == pre[a]);
            assert(!(pre[a].component_id@ == cid && pre[a].check_name@ == name));
        }
    }
}

/// Like `lemma_find_state_at`, but the decisive position is given as the
/// first carrying the key.
proof fn lemma_state_find_at_ext(s: Seq<CheckState>, cid: Seq<char>, name: Seq<char>, k: int)
    requires
        0 <= k < s.len(),
        forall|j: int|
            0 <= j < k ==> !((#[trigger] s[j]).component_id@ == cid && s[j].check_name@ == name),
        s[k].component_id@ == cid && s[k].check_name@ == name,
    ensures
        find_state(s, cid, name) == Some(s[k]),
{
    lemma_find_state_at(s, cid, name, k);
}

/// If some position carries the key, the search succeeds.
proof fn lemma_state_present(s: Seq<CheckState>, cid: Seq<char>, name: Seq<char>, m: int)
    requires
        0 <= m < s.len(),
        s[m].component_id@ == cid && s[m].check_name@ == name,
    ensures
        find_state(s, cid, name) is Some,
    decreases s.len(),
{
    if !(s[0].component_id@ == cid && s[0].check_name@ == name) {
        assert(s.skip(1)[m - 1] == s[m]);
        lemma_state_present(s.skip(1), cid, name, m - 1);
    }
}

/// Pushing a state with a different key leaves a search untouched.
proof fn lemma_state_push_other(s: Seq<CheckState>, e: CheckState, c: Seq<char>, n: Seq<char>)
    requires
        !(e.component_id@ == c && e.check_name@ == n),
    ensures
        find_state(s.push(e), c, n) == find_state(s, c, n),
    decreases s.len(),
{
    let t = s.push(e);
    if s.len() == 0 {
        assert(t[0] == e);
        assert(t.skip(1) =~= Seq::<CheckState>::empty());
        assert(find_state(Seq::<CheckState>::empty(), c, n) is None);
        assert(find_state(t, c, n) == find_state(t.skip(1), c, n));
        assert(find_state(s, c, n) is None);
    } else {
        assert(t[0] == s[0]);
        if s[0].component_id@ == c && s[0].check_name@ == n {
        } else {
            assert(t.skip(1) =~= s.skip(1).push(e));
            lemma_state_push_other(s.skip(1), e, c, n);
        }
    }
}

/// Two state lists differing only at a position with another key search
/// alike.
proof fn lemma_state_congruent(
    pre: Seq<CheckState>,
    post: Seq<CheckState>,
    k: int,
    c: Seq<char>,
    n: Seq<char>,
)
    requires
        0 <= k < pre.len(),
        post.len() == pre.len(),
        !(pre[k].component_id@ == c && pre[k].check_name@ == n),
        !(post[k].component_id@ == c && post[k].check_name@ == n),
        forall|m: int| 0 <= m < pre.len() && m != k ==> post[m] == pre[m],
    ensures
        find_state(post, c, n) == find_state(pre, c, n),
    decreases pre.len(),
{
    if pre.len() > 0 {
        if k == 0 {
            assert(pre.skip(1) =~= post.skip(1));
        } else {
            assert(post[0] == pre[0]);
            if pre[0].component_id@ == c && pre[0].check_name@ == n {
            } else {
                assert forall|m: int|
                    0 <= m < pre.skip(1).len() && m != k - 1 implies post.skip(1)[m] == pre.skip(
                    1,
                )[m] by {
                    assert(pre.skip(1)[m] == pre[m + 1]);
                    assert(post.skip(1)[m] == post[m + 1]);
                }
                assert(pre.skip(1)[k - 1] == pre[k]);
                assert(post.skip(1)[k - 1] == post[k]);
                lemma_state_congruent(pre.skip(1), post.skip(1), k - 1, c, n);
            }
        }
    }
}

} // verus!
