//! Registry of live agents on a gateway, with label-indexed lookup and one
//! bounded command queue per agent.
//!
//! Identifiers are unique: registering an id that is already present
//! replaces the old session.  Routing by labels selects the agents whose
//! labels are a superset of the selector; an empty selector selects nobody,
//! so a malformed command cannot broadcast by accident.

use vstd::prelude::*;

verus! {

use std::collections::VecDeque;
use crate::wire::{Label, LabelView};
use crate::text::str_eq;

/// Space in each agent's command queue.
pub const COMMAND_QUEUE_CAPACITY: usize = 100;

/// What a gateway knows about one connected agent.  Times are wall-clock
/// milliseconds.
pub struct AgentInfo {
    pub id: String,
    pub hostname: String,
    pub labels: Vec<Label>,
    pub version: String,
    pub os: String,
    pub connected_at: u64,
    pub last_heartbeat: u64,
}

/// The views of a sequence of labels.
pub open spec fn label_views(ls: Seq<Label>) -> Seq<LabelView> {
    ls.map_values(|l: Label| l@)
}

/// The labels as plain key/value pairs of character sequences.
pub open spec fn label_pairs(ls: Seq<Label>) -> Seq<(Seq<char>, Seq<char>)> {
    ls.map_values(|l: Label| (l.key@, l.value@))
}

/// The mathematical content of an `AgentInfo`.
pub ghost struct AgentInfoView {
    pub id: Seq<char>,
    pub hostname: Seq<char>,
    pub labels: Seq<LabelView>,
    pub version: Seq<char>,
    pub os: Seq<char>,
    pub connected_at: u64,
    pub last_heartbeat: u64,
}

impl View for AgentInfo {
    type V = AgentInfoView;

    open spec fn view(&self) -> AgentInfoView {
        AgentInfoView {
            id: self.id@,
            hostname: self.hostname@,
            labels: label_views(self.labels@),
            version: self.version@,
            os: self.os@,
            connected_at: self.connected_at,
            last_heartbeat: self.last_heartbeat,
        }
    }
}

impl Clone for AgentInfo {
    fn clone(&self) -> (r: Self)
        ensures
            r@ == self@,
    {
        AgentInfo {
            id: self.id.clone(),
            hostname: self.hostname.clone(),
            labels: clone_labels(&self.labels),
            version: self.version.clone(),
            os: self.os.clone(),
            connected_at: self.connected_at,
            last_heartbeat: self.last_heartbeat,
        }
    }
}

fn clone_labels(labels: &Vec<Label>) -> (r: Vec<Label>)
    ensures
        label_views(r@) == label_views(labels@),
{
    let mut out: Vec<Label> = Vec::new();
    let mut i: usize = 0;
    while i < labels.len()
        invariant
            i <= labels.len(),
            label_views(out@) == label_views(labels@.take(i as int)),
        decreases labels.len() - i,
    {
        let ghost pre = out@;
        let l = &labels[i];
        out.push(Label { key: l.key.clone(), value: l.value.clone() });
        proof {
            assert(label_views(pre).len() == pre.len());
            assert(label_views(labels@.take(i as int)).len() == i);
            assert(pre.len() == i);
            assert(out@.last()@ == labels@[i as int]@);
            assert forall|k: int|
                0 <= k < out@.len() implies label_views(out@)[k] == label_views(
                labels@.take(i + 1),
            )[k] by {
                if k < i {
                    assert(out@[k] == pre[k]);
                    assert(label_views(pre)[k] == label_views(labels@.take(i as int))[k]);
                    assert(labels@.take(i as int)[k] == labels@.take(i + 1)[k]);
                } else {
                    assert(out@[k] == out@.last());
                    assert(labels@.take(i + 1)[k] == labels@[i as int]);
                }
            }
            assert(label_views(out@) =~= label_views(labels@.take(i + 1)));
        }
        i = i + 1;
    }
    proof {
        assert(labels@.take(labels@.len() as int) =~= labels@);
    }
    out
}

/// A command queued for delivery to one agent.
pub struct AgentCommand {
    pub id: String,
    pub command_type: String,
    pub component_id: String,
    pub action_name: Option<String>,
    pub params: String,
    pub timeout_secs: u64,
}

impl Clone for AgentCommand {
    fn clone(&self) -> (r: Self)
        ensures
            r == *self,
    {
        AgentCommand {
            id: self.id.clone(),
            command_type: self.command_type.clone(),
            component_id: self.component_id.clone(),
            action_name: match &self.action_name {
                Some(a) => Some(a.clone()),
                None => None,
            },
            params: self.params.clone(),
            timeout_secs: self.timeout_secs,
        }
    }
}

/// One registered agent together with its pending commands.
pub struct AgentEntry {
    pub info: AgentInfo,
    pub queue: VecDeque<AgentCommand>,
}

/// Why a send failed.
pub enum SendError {
    AgentNotFound,
    QueueFull,
}

/// The labels of `ls` include the pair `(key, value)`.
pub open spec fn labels_contain(ls: Seq<LabelView>, key: Seq<char>, value: Seq<char>) -> bool {
    exists|i: int| 0 <= i < ls.len() && (#[trigger] ls[i]).key == key && ls[i].value == value
}

/// Every pair of `sel` occurs among `ls`.
pub open spec fn labels_superset(ls: Seq<LabelView>, sel: Seq<LabelView>) -> bool {
    forall|i: int|
        0 <= i < sel.len() ==> labels_contain(ls, (#[trigger] sel[i]).key, sel[i].value)
}

/// Whether the selector picks this agent: a non-empty selector whose pairs
/// all occur among the agent's labels.
pub open spec fn selector_matches(info: AgentInfoView, sel: Seq<LabelView>) -> bool {
    sel.len() > 0 && labels_superset(info.labels, sel)
}

/// The first entry with this id, if any.
pub open spec fn find_entry(s: Seq<AgentEntry>, id: Seq<char>) -> Option<AgentEntry>
    decreases s.len(),
{
    if s.len() == 0 {
        None
    } else if s[0].info.id@ == id {
        Some(s[0])
    } else {
        find_entry(s.skip(1), id)
    }
}

/// If nothing before `k` has the id, the search outcome is decided at `k`.
proof fn lemma_find_entry_at(s: Seq<AgentEntry>, id: Seq<char>, k: int)
    requires
        0 <= k <= s.len(),
        forall|j: int| 0 <= j < k ==> (#[trigger] s[j]).info.id@ != id,
        k < s.len() ==> s[k].info.id@ == id,
    ensures
        find_entry(s, id) == if k < s.len() {
            Some(s[k])
        } else {
            None::<AgentEntry>
        },
    decreases s.len(),
{
    if s.len() == 0 {
    } else if s[0].info.id@ == id {
        assert(k == 0);
    } else {
        let t = s.skip(1);
        assert forall|j: int| 0 <= j < k - 1 implies (#[trigger] t[j]).info.id@ != id by {
            assert(t[j] == s[j + 1]);
        }
        if k - 1 < t.len() {
            assert(t[k - 1] == s[k]);
        }
        lemma_find_entry_at(t, id, k - 1);
        if k < s.len() {
            assert(t[k - 1] == s[k]);
        }
    }
}

/// The info views of a sequence of entries.
pub open spec fn info_views(s: Seq<AgentEntry>) -> Seq<AgentInfoView> {
    s.map_values(|e: AgentEntry| e.info@)
}

/// The views of a vector of infos.
pub open spec fn agent_views(s: Seq<AgentInfo>) -> Seq<AgentInfoView> {
    s.map_values(|a: AgentInfo| a@)
}

/// Registry of live agents: unique ids, one bounded queue each.
pub struct AgentRegistry {
    agents: Vec<AgentEntry>,
}

impl View for AgentRegistry {
    type V = Seq<AgentEntry>;

    closed spec fn view(&self) -> Seq<AgentEntry> {
        self.agents@
    }
}

impl AgentRegistry {
    /// Ids are pairwise distinct and no queue is over capacity.
    pub open spec fn well_formed(&self) -> bool {
        &&& forall|i: int, j: int|
            0 <= i < j < self@.len() ==> (#[trigger] self@[i]).info.id@ != (
            #[trigger] self@[j]).info.id@
        &&& forall|i: int|
            0 <= i < self@.len() ==> (#[trigger] self@[i]).queue@.len()
                <= COMMAND_QUEUE_CAPACITY
    }

    pub open spec fn spec_contains(&self, id: Seq<char>) -> bool {
        find_entry(self@, id) is Some
    }

    pub fn new() -> (r: Self)
        ensures
            r@ == Seq::<AgentEntry>::empty(),
            r.well_formed(),
    {
        AgentRegistry { agents: Vec::new() }
    }

    /// Index of the entry with this id, if present.
    fn index_of(&self, id: &str) -> (r: Option<usize>)
        ensures
            match r {
                Some(i) => i < self@.len() && self@[i as int].info.id@ == id@ && find_entry(
                    self@,
                    id@,
                ) == Some(self@[i as int]),
                None => find_entry(self@, id@) is None,
            },
    {
        let mut i: usize = 0;
        while i < self.agents.len()
            invariant
                i <= self@.len(),
                forall|j: int| 0 <= j < i ==> (#[trigger] self@[j]).info.id@ != id@,
            decreases self@.len() - i,
        {
            if str_eq(self.agents[i].info.id.as_str(), id) {
                proof {
                    lemma_find_entry_at(self@, id@, i as int);
                }
                return Some(i);
            }
            i = i + 1;
        }
        proof {
            lemma_find_entry_at(self@, id@, self@.len() as int);
        }
        None
    }

    /// Insert this agent with an empty command queue; an entry with the
    /// same id is replaced, the new session winning.
    pub fn register(&mut self, info: AgentInfo)
        requires
            old(self).well_formed(),
        ensures
            final(self).well_formed(),
            find_entry(final(self)@, info.id@) == Some(
                AgentEntry { info, queue: final(self)@.last().queue },
            ),
            final(self)@.last().queue@ == Seq::<AgentCommand>::empty(),
            final(self)@.last().info == info,
            forall|other: Seq<char>|
                other != info.id@ ==> #[trigger] find_entry(final(self)@, other) == find_entry(
                    old(self)@,
                    other,
                ),
            old(self).spec_contains(info.id@) ==> final(self)@.len() == old(self)@.len(),
            !old(self).spec_contains(info.id@) ==> final(self)@.len() == old(self)@.len() + 1,
    {
        let ghost pre = self@;
        match self.index_of(info.id.as_str()) {
            Some(i) => {
                let _ = self.agents.remove(i);
                proof {
                    lemma_remove_other(pre, i as int, info.id@);
                }
            },
            None => {},
        }
        let ghost mid = self@;
        self.agents.push(AgentEntry { info, queue: VecDeque::new() });
        proof {
            let s = self@;
            let k = s.len() - 1;
            assert(s[k].info.id@ == info.id@);
            assert forall|j: int| 0 <= j < k implies (#[trigger] s[j]).info.id@ != info.id@ by {
                assert(s[j] == mid[j]);
                if mid[j].info.id@ == info.id@ {
                    lemma_find_present(mid, info.id@, j);
                }
            }
            lemma_find_entry_at(s, info.id@, k);
            assert forall|other: Seq<char>| other != info.id@ implies #[trigger] find_entry(
                s,
                other,
            ) == find_entry(pre, other) by {
                lemma_find_push_other(mid, s[k], other);
            }
        }
    }

    /// Remove this agent; nothing happens if it is absent.
    pub fn unregister(&mut self, agent_id: &str)
        requires
            old(self).well_formed(),
        ensures
            final(self).well_formed(),
            find_entry(final(self)@, agent_id@) is None,
            forall|other: Seq<char>|
                other != agent_id@ ==> #[trigger] find_entry(final(self)@, other) == find_entry(
                    old(self)@,
                    other,
                ),
            old(self).spec_contains(agent_id@) ==> final(self)@.len() == old(self)@.len() - 1,
            !old(self).spec_contains(agent_id@) ==> final(self)@ == old(self)@,
    {
        let ghost pre = self@;
        match self.index_of(agent_id) {
            Some(i) => {
                let _ = self.agents.remove(i);
                proof {
                    lemma_remove_other(pre, i as int, agent_id@);
                    lemma_find_absent(self@, agent_id@);
                }
            },
            None => {},
        }
    }

    /// A copy of this agent's record.
    pub fn get(&self, agent_id: &str) -> (r: Option<AgentInfo>)
        ensures
            match r {
                Some(info) => find_entry(self@, agent_id@) matches Some(e) && e.info@ == info@,
                None => find_entry(self@, agent_id@) is None,
            },
    {
        match self.index_of(agent_id) {
            Some(i) => Some(self.agents[i].info.clone()),
            None => None,
        }
    }

    /// Record a heartbeat now; nothing happens if the agent is absent.
    pub fn heartbeat(&mut self, agent_id: &str, now: u64)
        requires
            old(self).well_formed(),
        ensures
            final(self).well_formed(),
            match find_entry(old(self)@, agent_id@) {
                Some(e) => find_entry(final(self)@, agent_id@) == Some(
                    AgentEntry {
                        info: AgentInfo { last_heartbeat: now, ..e.info },
                        queue: e.queue,
                    },
                ),
                None => final(self)@ == old(self)@,
            },
            forall|other: Seq<char>|
                other != agent_id@ ==> #[trigger] find_entry(final(self)@, other) == find_entry(
                    old(self)@,
                    other,
                ),
            final(self)@.len() == old(self)@.len(),
    {
        let ghost pre = self@;
        match self.index_of(agent_id) {
            Some(i) => {
                let mut entry = self.agents.remove(i);
                entry.info.last_heartbeat = now;
                self.agents.insert(i, entry);
                proof {
                    lemma_update_at(pre, self@, i as int, agent_id@);
                }
            },
            None => {},
        }
    }

    /// Copies of all records, in registration order.
    pub fn list(&self) -> (r: Vec<AgentInfo>)
        ensures
            agent_views(r@) == info_views(self@),
    {
        let mut out: Vec<AgentInfo> = Vec::new();
        let mut i: usize = 0;
        while i < self.agents.len()
            invariant
                i <= self@.len(),
                agent_views(out@) == info_views(self@.take(i as int)),
            decreases self@.len() - i,
        {
            let ghost pre = out@;
            out.push(self.agents[i].info.clone());
            proof {
                assert(agent_views(pre).len() == pre.len());
                assert(info_views(self@.take(i as int)).len() == i);
                assert(pre.len() == i);
                assert(out@.last()@ == self@[i as int].info@);
                assert forall|k: int|
                    0 <= k < out@.len() implies agent_views(out@)[k] == info_views(
                    self@.take(i + 1),
                )[k] by {
                    if k < i {
                        assert(out@[k] == pre[k]);
                        assert(agent_views(pre)[k] == info_views(self@.take(i as int))[k]);
                        assert(self@.take(i as int)[k] == self@.take(i + 1)[k]);
                    } else {
                        assert(out@[k] == out@.last());
                        assert(self@.take(i + 1)[k] == self@[i as int]);
                    }
                }
                assert(agent_views(out@) =~= info_views(self@.take(i + 1)));
            }
            i = i + 1;
        }
        proof {
            assert(self@.take(self@.len() as int) =~= self@);
        }
        out
    }

    /// How many agents are registered.
    pub fn count(&self) -> (r: usize)
        ensures
            r == self@.len(),
    {
        self.agents.len()
    }
}

/// Removing the entry at the id's index leaves searches for other ids
/// unchanged, and drops one entry.
proof fn lemma_remove_other(s: Seq<AgentEntry>, i: int, id: Seq<char>)
    requires
        0 <= i < s.len(),
        s[i].info.id@ == id,
        forall|a: int, b: int|
            0 <= a < b < s.len() ==> (#[trigger] s[a]).info.id@ != (#[trigger] s[b]).info.id@,
    ensures
        forall|other: Seq<char>|
            other != id ==> #[trigger] find_entry(s.remove(i), other) == find_entry(s, other),
        forall|j: int| 0 <= j < s.remove(i).len() ==> (#[trigger] s.remove(i)[j]).info.id@ != id,
    decreases s.len(),
{
    let t = s.remove(i);
    assert forall|other: Seq<char>| other != id implies #[trigger] find_entry(t, other)
        == find_entry(s, other) by {
        lemma_find_remove(s, i, other);
    }
    assert forall|j: int| 0 <= j < t.len() implies (#[trigger] t[j]).info.id@ != id by {
        if j < i {
            assert(t[j] == s[j]);
        } else {
            assert(t[j] == s[j + 1]);
        }
    }
}

/// Searching for an id another entry does not carry skips a removal.
proof fn lemma_find_remove(s: Seq<AgentEntry>, i: int, other: Seq<char>)
    requires
        0 <= i < s.len(),
        s[i].info.id@ != other,
    ensures
        find_entry(s.remove(i), other) == find_entry(s, other),
    decreases s.len(),
{
    if s.len() > 0 {
        if i == 0 {
            assert(s.remove(0) =~= s.skip(1));
        } else {
            assert(s.remove(i).skip(1) =~= s.skip(1).remove(i - 1));
            assert(s.remove(i)[0] == s[0]);
            if s[0].info.id@ != other {
                lemma_find_remove(s.skip(1), i - 1, other);
            }
        }
    }
}

/// Pushing an entry does not change searches for other ids.
proof fn lemma_find_push_other(s: Seq<AgentEntry>, e: AgentEntry, other: Seq<char>)
    requires
        e.info.id@ != other,
    ensures
        find_entry(s.push(e), other) == find_entry(s, other),
    decreases s.len(),
{
    let t = s.push(e);
    if s.len() == 0 {
        assert(t[0] == e);
        assert(t[0].info.id@ != other);
        assert(t.skip(1) =~= Seq::<AgentEntry>::empty());
        assert(find_entry(t.skip(1), other) is None);
        assert(find_entry(t, other) is None);
        assert(find_entry(s, other) is None);
    } else {
        assert(t[0] == s[0]);
        if s[0].info.id@ == other {
            assert(find_entry(t, other) == Some(t[0]));
            assert(find_entry(s, other) == Some(s[0]));
        } else {
            assert(t.skip(1) =~= s.skip(1).push(e));
            lemma_find_push_other(s.skip(1), e, other);
            assert(find_entry(t, other) == find_entry(t.skip(1), other));
            assert(find_entry(s, other) == find_entry(s.skip(1), other));
        }
    }
}

/// If an entry with the id is found, some position carries it.
proof fn lemma_find_present(s: Seq<AgentEntry>, id: Seq<char>, j: int)
    requires
        0 <= j < s.len(),
        s[j].info.id@ == id,
    ensures
        find_entry(s, id) is Some,
    decreases s.len(),
{
    if s[0].info.id@ != id {
        assert(s.skip(1)[j - 1] == s[j]);
        lemma_find_present(s.skip(1), id, j - 1);
    }
}

/// If no position carries the id, the search fails.
proof fn lemma_find_absent(s: Seq<AgentEntry>, id: Seq<char>)
    requires
        forall|j: int| 0 <= j < s.len() ==> (#[trigger] s[j]).info.id@ != id,
    ensures
        find_entry(s, id) is None,
    decreases s.len(),
{
    if s.len() > 0 {
        assert forall|j: int| 0 <= j < s.skip(1).len() implies (#[trigger] s.skip(1)[j]).info.id@
            != id by {
            assert(s.skip(1)[j] == s[j + 1]);
        }
        lemma_find_absent(s.skip(1), id);
    }
}

/// Replacing the entry at the id's position with another entry carrying
/// the same id rewires the search for that id and nothing else.
proof fn lemma_update_at(pre: Seq<AgentEntry>, post: Seq<AgentEntry>, i: int, id: Seq<char>)
    requires
        0 <= i < pre.len(),
        post.len() == pre.len(),
        pre[i].info.id@ == id,
        post[i].info.id@ == id,
        forall|j: int| 0 <= j < pre.len() && j != i ==> post[j] == pre[j],
        forall|a: int, b: int|
            0 <= a < b < pre.len() ==> (#[trigger] pre[a]).info.id@ != (
            #[trigger] pre[b]).info.id@,
    ensures
        find_entry(post, id) == Some(post[i]),
        find_entry(pre, id) == Some(pre[i]),
        forall|other: Seq<char>|
            other != id ==> #[trigger] find_entry(post, other) == find_entry(pre, other),
{
    assert forall|j: int| 0 <= j < i implies (#[trigger] post[j]).info.id@ != id by {
        assert(post[j] == pre[j]);
    }
    lemma_find_entry_at(post, id, i);
    lemma_find_entry_at(pre, id, i);
    assert forall|other: Seq<char>| other != id implies #[trigger] find_entry(post, other)
        == find_entry(pre, other) by {
        lemma_find_congruent(pre, post, i, other);
    }
}

/// Two sequences differing only at a position whose id is not the one
/// sought search alike.
proof fn lemma_find_congruent(pre: Seq<AgentEntry>, post: Seq<AgentEntry>, i: int, other: Seq<char>)
    requires
        0 <= i < pre.len(),
        post.len() == pre.len(),
        pre[i].info.id@ != other,
        post[i].info.id@ != other,
        forall|j: int| 0 <= j < pre.len() && j != i ==> post[j] == pre[j],
    ensures
        find_entry(post, other) == find_entry(pre, other),
    decreases pre.len(),
{
    if pre.len() > 0 {
        if i == 0 {
            assert(pre.skip(1) =~= post.skip(1));
        } else {
            assert(post[0] == pre[0]);
            if pre[0].info.id@ != other {
                assert forall|j: int|
                    0 <= j < pre.skip(1).len() && j != i - 1 implies post.skip(1)[j] == pre.skip(
                    1,
                )[j] by {
                    assert(pre.skip(1)[j] == pre[j + 1]);
                    assert(post.skip(1)[j] == post[j + 1]);
                }
                assert(pre.skip(1)[i - 1] == pre[i]);
                assert(post.skip(1)[i - 1] == post[i]);
                lemma_find_congruent(pre.skip(1), post.skip(1), i - 1, other);
            }
        }
    }
}

} // verus!
// === Label lookup and routing ===========================================

verus! {

/// Whether the selector picks this agent, executably.
pub fn matches_selector(info: &AgentInfo, selector: &Vec<Label>) -> (r: bool)
    ensures
        r == selector_matches(info@, label_views(selector@)),
{
    if selector.len() == 0 {
        return false;
    }
    let mut i: usize = 0;
    while i < selector.len()
        invariant
            i <= selector.len(),
            selector@.len() > 0,
            forall|m: int|
                0 <= m < i ==> labels_contain(
                    label_views(info.labels@),
                    label_views(selector@)[m].key,
                    label_views(selector@)[m].value,
                ),
        decreases selector.len() - i,
    {
        let l = &selector[i];
        if !has_label(&info.labels, &l.key, &l.value) {
            proof {
                assert(label_views(selector@)[i as int] == selector@[i as int]@);
            }
            return false;
        }
        proof {
            assert(label_views(selector@)[i as int] == selector@[i as int]@);
        }
        i = i + 1;
    }
    proof {
        assert(labels_superset(label_views(info.labels@), label_views(selector@)));
    }
    true
}

/// Whether `labels` carries the pair `(key, value)`.
fn has_label(labels: &Vec<Label>, key: &String, value: &String) -> (r: bool)
    ensures
        r == labels_contain(label_views(labels@), key@, value@),
{
    let mut i: usize = 0;
    while i < labels.len()
        invariant
            i <= labels.len(),
            forall|j: int|
                0 <= j < i ==> !((#[trigger] label_views(labels@)[j]).key == key@ && label_views(
                    labels@,
                )[j].value == value@),
        decreases labels.len() - i,
    {
        if str_eq(labels[i].key.as_str(), key.as_str()) && str_eq(
            labels[i].value.as_str(),
            value.as_str(),
        ) {
            proof {
                assert((label_views(labels@)[i as int]).key == key@ && label_views(
                    labels@,
                )[i as int].value == value@);
            }
            return true;
        }
        proof {
            assert(label_views(labels@)[i as int] == labels@[i as int]@);
        }
        i = i + 1;
    }
    false
}

/// The selector's filter over info views.
pub open spec fn label_filter(s: Seq<AgentInfoView>, sel: Seq<LabelView>) -> Seq<AgentInfoView> {
    s.filter(|a: AgentInfoView| selector_matches(a, sel))
}

/// Exactly the agents whose labels include every pair of the selector are
/// selected — no others, and none twice beyond their occurrences.
pub proof fn lemma_label_selection_exact(s: Seq<AgentInfoView>, sel: Seq<LabelView>)
    ensures
        forall|a: AgentInfoView|
            #[trigger] label_filter(s, sel).contains(a) <==> (s.contains(a) && selector_matches(
                a,
                sel,
            )),
    decreases s.len(),
{
    reveal(Seq::filter);
    let pred = |a: AgentInfoView| selector_matches(a, sel);
    let f = label_filter(s, sel);
    if s.len() == 0 {
        assert forall|a: AgentInfoView| !(#[trigger] f.contains(a)) && !s.contains(a) by {
            assert(f.len() == 0);
        }
    } else {
        let dl = s.drop_last();
        lemma_label_selection_exact(dl, sel);
        let fd = label_filter(dl, sel);
        assert(f == if pred(s.last()) {
            fd.push(s.last())
        } else {
            fd
        });
        assert forall|a: AgentInfoView|
            #[trigger] f.contains(a) <==> (s.contains(a) && selector_matches(a, sel)) by {
            if pred(s.last()) {
                assert(f == fd.push(s.last()));
                if f.contains(a) {
                    let i = choose|i: int| 0 <= i < f.len() && f[i] == a;
                    if i < fd.len() {
                        assert(fd.contains(a));
                        let j = choose|j: int| 0 <= j < dl.len() && dl[j] == a;
                        assert(s[j] == a);
                    } else {
                        assert(a == s.last());
                        assert(s[s.len() - 1] == a);
                    }
                }
                if s.contains(a) && selector_matches(a, sel) {
                    let i = choose|i: int| 0 <= i < s.len() && s[i] == a;
                    if i < s.len() - 1 {
                        assert(dl[i] == a);
                        assert(dl.contains(a));
                        assert(fd.contains(a));
                        let j = choose|j: int| 0 <= j < fd.len() && fd[j] == a;
                        assert(f[j] == a);
                    } else {
                        assert(f[f.len() - 1] == a);
                    }
                }
            } else {
                assert(f == fd);
                if f.contains(a) {
                    let j = choose|j: int| 0 <= j < dl.len() && dl[j] == a;
                    assert(s[j] == a);
                }
                if s.contains(a) && selector_matches(a, sel) {
                    let i = choose|i: int| 0 <= i < s.len() && s[i] == a;
                    assert(i < s.len() - 1);
                    assert(dl[i] == a);
                    assert(dl.contains(a));
                    let j = choose|j: int| 0 <= j < fd.len() && fd[j] == a;
                    assert(f[j] == a);
                }
            }
        }
    }
}

impl AgentRegistry {
    /// Copies of the agents the selector picks, in registration order.  An
    /// empty selector picks nobody.
    pub fn find_by_labels(&self, selector: &Vec<Label>) -> (r: Vec<AgentInfo>)
        ensures
            agent_views(r@) == label_filter(info_views(self@), label_views(selector@)),
    {
        proof {
            reveal(Seq::filter);
        }
        let ghost sel = label_views(selector@);
        let mut out: Vec<AgentInfo> = Vec::new();
        let mut i: usize = 0;
        proof {
            assert(info_views(self@.take(0)) =~= Seq::<AgentInfoView>::empty());
            assert(agent_views(out@) =~= label_filter(info_views(self@.take(0)), sel));
        }
        while i < self.agents.len()
            invariant
                i <= self@.len(),
                sel == label_views(selector@),
                agent_views(out@) == label_filter(info_views(self@.take(i as int)), sel),
            decreases self@.len() - i,
        {
            proof {
                reveal(Seq::filter);
            }
            let ghost pre = out@;
            let ghost pv = info_views(self@.take(i as int));
            let ghost cv = info_views(self@.take(i + 1));
            proof {
                assert(cv.drop_last() =~= pv);
                assert(cv.last() == self@[i as int].info@);
            }
            if matches_selector(&self.agents[i].info, selector) {
                out.push(self.agents[i].info.clone());
                proof {
                    assert(label_filter(cv, sel) == label_filter(pv, sel).push(cv.last()));
                    assert(agent_views(pre).len() == label_filter(pv, sel).len());
                    assert forall|k: int|
                        0 <= k < out@.len() implies agent_views(out@)[k] == label_filter(
                        cv,
                        sel,
                    )[k] by {
                        if k < pre.len() {
                            assert(out@[k] == pre[k]);
                            assert(agent_views(pre)[k] == label_filter(pv, sel)[k]);
                        } else {
                            assert(out@[k] == out@.last());
                            assert(out@.last()@ == self@[i as int].info@);
                        }
                    }
                    assert(agent_views(out@) =~= label_filter(cv, sel));
                }
            } else {
                proof {
                    assert(label_filter(cv, sel) == label_filter(pv, sel));
                }
            }
            i = i + 1;
        }
        proof {
            assert(self@.take(self@.len() as int) =~= self@);
        }
        out
    }

    /// A copy of the first agent with this hostname, in registration
    /// order.
    pub fn find_by_hostname(&self, hostname: &str) -> (r: Option<AgentInfo>)
        ensures
            match r {
                Some(info) => exists|i: int|
                    0 <= i < self@.len() && (#[trigger] self@[i]).info.hostname@ == hostname@
                        && self@[i].info@ == info@,
                None => forall|i: int|
                    0 <= i < self@.len() ==> (#[trigger] self@[i]).info.hostname@ != hostname@,
            },
    {
        let mut i: usize = 0;
        while i < self.agents.len()
            invariant
                i <= self@.len(),
                forall|j: int| 0 <= j < i ==> (#[trigger] self@[j]).info.hostname@ != hostname@,
            decreases self@.len() - i,
        {
            if str_eq(self.agents[i].info.hostname.as_str(), hostname) {
                return Some(self.agents[i].info.clone());
            }
            i = i + 1;
        }
        None
    }

    /// Queue a command for one agent.  Fails when the agent is unknown or
    /// its queue is full; a queued command is appended in arrival order.
    pub fn send_command(&mut self, agent_id: &str, command: AgentCommand) -> (r: Result<
        (),
        SendError,
    >)
        requires
            old(self).well_formed(),
        ensures
            final(self).well_formed(),
            forall|other: Seq<char>|
                other != agent_id@ ==> #[trigger] find_entry(final(self)@, other) == find_entry(
                    old(self)@,
                    other,
                ),
            match r {
                Ok(()) => {
                    &&& find_entry(old(self)@, agent_id@) matches Some(e)
                        && e.queue@.len() < COMMAND_QUEUE_CAPACITY
                    &&& find_entry(final(self)@, agent_id@) matches Some(e2) && (find_entry(
                        old(self)@,
                        agent_id@,
                    ) matches Some(e) && e2.info == e.info && e2.queue@ == e.queue@.push(command))
                },
                Err(SendError::AgentNotFound) => find_entry(old(self)@, agent_id@) is None
                    && final(self)@ == old(self)@,
                Err(SendError::QueueFull) => find_entry(old(self)@, agent_id@) matches Some(e)
                    && e.queue@.len() >= COMMAND_QUEUE_CAPACITY && final(self)@ == old(self)@,
            },
    {
        let ghost pre = self@;
        match self.index_of(agent_id) {
            None => Err(SendError::AgentNotFound),
            Some(i) => {
                let mut entry = self.agents.remove(i);
                if entry.queue.len() >= COMMAND_QUEUE_CAPACITY {
                    self.agents.insert(i, entry);
                    proof {
                        assert(self@ =~= pre);
                    }
                    Err(SendError::QueueFull)
                } else {
                    entry.queue.push_back(command);
                    self.agents.insert(i, entry);
                    proof {
                        lemma_update_at(pre, self@, i as int, agent_id@);
                    }
                    Ok(())
                }
            },
        }
    }
}

} // verus!
// === Fan-out and staleness ==============================================

verus! {

/// Per-agent delivery outcomes of a labelled send, in registration order:
/// the agent's id paired with whether its queue had room.
pub open spec fn fanout_spec(s: Seq<AgentEntry>, sel: Seq<LabelView>) -> Seq<(Seq<char>, bool)>
    decreases s.len(),
{
    if s.len() == 0 {
        Seq::empty()
    } else {
        fanout_spec(s.drop_last(), sel) + (if selector_matches(s.last().info@, sel) {
            seq![(s.last().info.id@, s.last().queue@.len() < COMMAND_QUEUE_CAPACITY)]
        } else {
            Seq::empty()
        })
    }
}

/// The views of a vector of send outcomes.
pub open spec fn fanout_views(r: Seq<(String, Result<(), SendError>)>) -> Seq<(Seq<char>, bool)> {
    r.map_values(|p: (String, Result<(), SendError>)| (p.0@, p.1 is Ok))
}

/// Whether an entry survives a staleness sweep with this cutoff.
pub open spec fn fresh_at(e: AgentEntry, cutoff: u64) -> bool {
    e.info.last_heartbeat >= cutoff
}

/// The entries that survive a staleness sweep with this cutoff.
pub open spec fn sweep_filter(s: Seq<AgentEntry>, cutoff: u64) -> Seq<AgentEntry> {
    s.filter(|e: AgentEntry| fresh_at(e, cutoff))
}

/// The heartbeat cutoff: `now` minus the age in milliseconds, saturating.
pub open spec fn stale_cutoff(now: u64, max_age_secs: u64) -> u64 {
    let age = if max_age_secs > u64::MAX / 1000 {
        u64::MAX
    } else {
        (max_age_secs * 1000) as u64
    };
    if now > age {
        (now - age) as u64
    } else {
        0
    }
}

impl AgentRegistry {
    /// Queue a copy of the command for every agent the selector picks.
    /// Returns one outcome per selected agent, in registration order; a
    /// full queue fails that agent only.
    pub fn send_command_to_labels(&mut self, selector: &Vec<Label>, command: AgentCommand) -> (r:
        Vec<(String, Result<(), SendError>)>)
        requires
            old(self).well_formed(),
        ensures
            final(self).well_formed(),
            final(self)@.len() == old(self)@.len(),
            forall|k: int|
                0 <= k < old(self)@.len() ==> (#[trigger] final(self)@[k]).info == old(
                    self,
                )@[k].info,
            forall|k: int|
                0 <= k < old(self)@.len() ==> (#[trigger] final(self)@[k]).queue@ == (
                if selector_matches(old(self)@[k].info@, label_views(selector@)) && old(
                    self,
                )@[k].queue@.len() < COMMAND_QUEUE_CAPACITY {
                    old(self)@[k].queue@.push(command)
                } else {
                    old(self)@[k].queue@
                }),
            fanout_views(r@) == fanout_spec(old(self)@, label_views(selector@)),
    {
        let ghost sel = label_views(selector@);
        let ghost orig = self@;
        let mut out: Vec<(String, Result<(), SendError>)> = Vec::new();
        let mut i: usize = 0;
        proof {
            assert(orig.take(0) =~= Seq::<AgentEntry>::empty());
            assert(fanout_views(out@) =~= fanout_spec(orig.take(0), sel));
        }
        while i < self.agents.len()
            invariant
                i <= self@.len(),
                self@.len() == orig.len(),
                sel == label_views(selector@),
                forall|k: int| i <= k < orig.len() ==> (#[trigger] self@[k]) == orig[k],
                forall|k: int| 0 <= k < i ==> (#[trigger] self@[k]).info == orig[k].info,
                forall|k: int|
                    0 <= k < i ==> (#[trigger] self@[k]).queue@ == (if selector_matches(
                        orig[k].info@,
                        sel,
                    ) && orig[k].queue@.len() < COMMAND_QUEUE_CAPACITY {
                        orig[k].queue@.push(command)
                    } else {
                        orig[k].queue@
                    }),
                fanout_views(out@) == fanout_spec(orig.take(i as int), sel),
                forall|a: int, b: int|
                    0 <= a < b < self@.len() ==> (#[trigger] self@[a]).info.id@ != (
                    #[trigger] self@[b]).info.id@,
                forall|k: int|
                    0 <= k < self@.len() ==> (#[trigger] self@[k]).queue@.len()
                        <= COMMAND_QUEUE_CAPACITY,
            decreases self@.len() - i,
        {
            let ghost pre = self@;
            let ghost outpre = out@;
            let matched = matches_selector(&self.agents[i].info, selector);
            if matched {
                let mut entry = self.agents.remove(i);
                let roomy = entry.queue.len() < COMMAND_QUEUE_CAPACITY;
                if roomy {
                    entry.queue.push_back(command.clone());
                }
                let id = entry.info.id.clone();
                self.agents.insert(i, entry);
                out.push(
                    (
                        id,
                        if roomy {
                            Ok(())
                        } else {
                            Err(SendError::QueueFull)
                        },
                    ),
                );
                proof {
                    assert forall|k: int|
                        0 <= k < self@.len() && k != i implies #[trigger] self@[k] == pre[k] by {
                        if k < i {
                            assert(self@[k] == pre.remove(i as int)[k]);
                        } else {
                            assert(self@[k] == pre.remove(i as int)[k - 1]);
                        }
                    }
                    assert(self@[i as int].info == orig[i as int].info);
                }
            }
            proof {
                let t = orig.take(i + 1);
                assert(t.drop_last() =~= orig.take(i as int));
                assert(t.last() == orig[i as int]);
                assert(fanout_spec(t, sel) == fanout_spec(orig.take(i as int), sel) + (
                if selector_matches(orig[i as int].info@, sel) {
                    seq![
                        (
                            orig[i as int].info.id@,
                            orig[i as int].queue@.len() < COMMAND_QUEUE_CAPACITY,
                        ),
                    ]
                } else {
                    Seq::empty()
                }));
                if matched {
                    assert(fanout_views(out@) =~= fanout_spec(t, sel));
                } else {
                    assert(fanout_views(out@) =~= fanout_spec(t, sel));
                }
            }
            i = i + 1;
        }
        proof {
            assert(orig.take(orig.len() as int) =~= orig);
        }
        out
    }

    /// Take the oldest queued command for this agent, if any.
    pub fn take_queued(&mut self, agent_id: &str) -> (r: Option<AgentCommand>)
        requires
            old(self).well_formed(),
        ensures
            final(self).well_formed(),
            forall|other: Seq<char>|
                other != agent_id@ ==> #[trigger] find_entry(final(self)@, other) == find_entry(
                    old(self)@,
                    other,
                ),
            match find_entry(old(self)@, agent_id@) {
                None => r is None && final(self)@ == old(self)@,
                Some(e) => find_entry(final(self)@, agent_id@) matches Some(e2) && e2.info
                    == e.info && (match r {
                    Some(cmd) => e.queue@.len() > 0 && cmd == e.queue@[0] && e2.queue@
                        == e.queue@.skip(1),
                    None => e.queue@.len() == 0 && e2.queue@ == e.queue@,
                }),
            },
    {
        let ghost pre = self@;
        match self.index_of(agent_id) {
            None => None,
            Some(i) => {
                let mut entry = self.agents.remove(i);
                let popped = entry.queue.pop_front();
                self.agents.insert(i, entry);
                proof {
                    lemma_update_at(pre, self@, i as int, agent_id@);
                }
                popped
            },
        }
    }

    /// Remove every agent whose last heartbeat lies before the cutoff
    /// derived from `now` and `max_age_secs`.
    pub fn cleanup_stale(&mut self, now: u64, max_age_secs: u64)
        requires
            old(self).well_formed(),
        ensures
            final(self).well_formed(),
            final(self)@ == sweep_filter(old(self)@, stale_cutoff(now, max_age_secs)),
    {
        proof {
            reveal(Seq::filter);
        }
        let age: u64 = if max_age_secs > u64::MAX / 1000 {
            u64::MAX
        } else {
            max_age_secs * 1000
        };
        let cutoff: u64 = if now > age {
            now - age
        } else {
            0
        };
        proof {
            assert(cutoff == stale_cutoff(now, max_age_secs));
        }
        let ghost orig = self@;
        let mut i: usize = 0;
        let ghost mut j: int = 0;
        proof {
            assert(sweep_filter(orig.take(0), cutoff) =~= Seq::<AgentEntry>::empty());
            assert(self@ =~= sweep_filter(orig.take(0), cutoff) + orig.skip(0));
        }
        while i < self.agents.len()
            invariant
                0 <= j <= orig.len(),
                cutoff == stale_cutoff(now, max_age_secs),
                i == sweep_filter(orig.take(j), cutoff).len(),
                self@ == sweep_filter(orig.take(j), cutoff) + orig.skip(j),
                forall|a: int, b: int|
                    0 <= a < b < self@.len() ==> (#[trigger] self@[a]).info.id@ != (
                    #[trigger] self@[b]).info.id@,
                forall|k: int|
                    0 <= k < self@.len() ==> (#[trigger] self@[k]).queue@.len()
                        <= COMMAND_QUEUE_CAPACITY,
            decreases self@.len() - i,
        {
            proof {
                reveal(Seq::filter);
            }
            let ghost pre = self@;
            proof {
                assert(forall|a: int, b: int|
                    0 <= a < b < pre.len() ==> (#[trigger] pre[a]).info.id@ != (
                    #[trigger] pre[b]).info.id@);
                orig.take(j).lemma_filter_len(|e: AgentEntry| fresh_at(e, cutoff));
                assert(sweep_filter(orig.take(j), cutoff).len() <= orig.take(j).len());
                assert(j < orig.len());
                assert(pre[i as int] == orig.skip(j)[0]);
                assert(orig.skip(j)[0] == orig[j]);
            }
            let stale = self.agents[i].info.last_heartbeat < cutoff;
            let ghost t = orig.take(j + 1);
            proof {
                assert(t.drop_last() =~= orig.take(j));
                assert(t.last() == orig[j]);
            }
            if stale {
                let _ = self.agents.remove(i);
                proof {
                    assert(!fresh_at(orig[j], cutoff));
                    assert(sweep_filter(t, cutoff) == sweep_filter(orig.take(j), cutoff));
                    assert(self@ =~= sweep_filter(t, cutoff) + orig.skip(j + 1));
                    assert forall|a: int, b: int|
                        0 <= a < b < self@.len() implies (#[trigger] self@[a]).info.id@ != (
                        #[trigger] self@[b]).info.id@ by {
                        if b < i {
                            assert(self@[a] == pre[a] && self@[b] == pre[b]);
                            assert(pre[a].info.id@ != pre[b].info.id@);
                        } else if a < i {
                            assert(self@[a] == pre[a] && self@[b] == pre[b + 1]);
                            assert(pre[a].info.id@ != pre[b + 1].info.id@);
                        } else {
                            assert(self@[a] == pre[a + 1] && self@[b] == pre[b + 1]);
                            assert(pre[a + 1].info.id@ != pre[b + 1].info.id@);
                        }
                    }
                    assert forall|k: int|
                        0 <= k < self@.len() implies (#[trigger] self@[k]).queue@.len()
                            <= COMMAND_QUEUE_CAPACITY by {
                        if k < i {
                            assert(self@[k] == pre[k]);
                        } else {
                            assert(self@[k] == pre[k + 1]);
                        }
                    }
                }
            } else {
                proof {
                    assert(fresh_at(orig[j], cutoff));
                    assert(sweep_filter(t, cutoff) == sweep_filter(orig.take(j), cutoff).push(
                        orig[j],
                    ));
                    assert(self@ =~= sweep_filter(t, cutoff) + orig.skip(j + 1));
                }
                i = i + 1;
            }
            proof {
                j = j + 1;
            }
        }
        proof {
            orig.take(j).lemma_filter_len(|e: AgentEntry| fresh_at(e, cutoff));
            assert(sweep_filter(orig.take(j), cutoff).len() <= orig.take(j).len());
            assert(j == orig.len());
            assert(orig.take(j) =~= orig);
            assert(orig.skip(j) =~= Seq::<AgentEntry>::empty());
            assert(self@ =~= sweep_filter(orig, cutoff));
        }
    }
}

} // verus!
