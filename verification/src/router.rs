//! Routing of backend commands to agents: by explicit agent id or by label
//! selector, with one delivery outcome per addressed agent.

use vstd::prelude::*;

verus! {

use crate::registry::{
    AgentCommand,
    AgentInfo,
    AgentRegistry,
    SendError,
    find_entry,
    fanout_spec,
    label_filter,
    label_views,
    info_views,
    selector_matches,
    COMMAND_QUEUE_CAPACITY,
};
use crate::shims::{json_str_field, json_str_map_field, json_str_field_of, json_str_map_field_of};
use crate::wire::Label;

/// The outcome of routing one command to one agent.
pub struct RouteResult {
    pub agent_id: String,
    pub success: bool,
    pub error: Option<String>,
}

/// The id and success flag of each route result.
pub open spec fn route_views(r: Seq<RouteResult>) -> Seq<(Seq<char>, bool)> {
    r.map_values(|x: RouteResult| (x.agent_id@, x.success))
}

/// A short text for a delivery failure.
fn describe_send_error(e: &SendError) -> (r: String)
    ensures
        match e {
            SendError::AgentNotFound => r@ == "agent not found"@,
            SendError::QueueFull => r@ == "command queue full"@,
        },
{
    match e {
        SendError::AgentNotFound => String::from_str("agent not found"),
        SendError::QueueFull => String::from_str("command queue full"),
    }
}

/// Route a command: to the named agent when an id is given, else to every
/// agent the label selector picks, else to nobody.  One result per
/// addressed agent; a failed delivery carries its reason.
pub fn route_command(
    registry: &mut AgentRegistry,
    agent_id: Option<&String>,
    labels: Option<&Vec<Label>>,
    command: AgentCommand,
) -> (r: Vec<RouteResult>)
    requires
        old(registry).well_formed(),
    ensures
        final(registry).well_formed(),
        match agent_id {
            Some(id) => {
                &&& r@.len() == 1
                &&& r@[0].agent_id@ == id@
                &&& r@[0].success == (find_entry(old(registry)@, id@) matches Some(e)
                    && e.queue@.len() < COMMAND_QUEUE_CAPACITY)
                &&& r@[0].success == (r@[0].error is None)
            },
            None => match labels {
                Some(sel) => route_views(r@) == fanout_spec(old(registry)@, label_views(sel@))
                    && (forall|j: int|
                    0 <= j < r@.len() ==> ((#[trigger] r@[j]).success == (r@[j].error is None))),
                None => r@.len() == 0 && final(registry)@ == old(registry)@,
            },
        },
{
    let mut out: Vec<RouteResult> = Vec::new();
    match agent_id {
        Some(id) => {
            let result = registry.send_command(id.as_str(), command);
            match result {
                Ok(()) => {
                    out.push(
                        RouteResult { agent_id: id.clone(), success: true, error: None },
                    );
                },
                Err(e) => {
                    let text = describe_send_error(&e);
                    out.push(
                        RouteResult { agent_id: id.clone(), success: false, error: Some(text) },
                    );
                },
            }
        },
        None => {
            match labels {
                Some(sel) => {
                    let sent = registry.send_command_to_labels(sel, command);
                    let ghost outcomes = sent@;
                    proof {
                        assert(route_views(out@) =~= crate::registry::fanout_views(
                            outcomes.take(0),
                        ));
                    }
                    let rest = sent;
                    // Convert each delivery outcome into a route result, in
                    // order.
                    let n = rest.len();
                    let mut k: usize = 0;
                    while k < n
                        invariant
                            k <= n,
                            n == rest.len(),
                            rest@ == outcomes,
                            route_views(out@) == crate::registry::fanout_views(
                                outcomes.take(k as int),
                            ),
                            forall|j: int|
                                0 <= j < out@.len() ==> ((#[trigger] out@[j]).success == (
                                out@[j].error is None)),
                        decreases n - k,
                    {
                        let ghost pre = out@;
                        let id = rest[k].0.clone();
                        let ok = rest[k].1.is_ok();
                        if ok {
                            out.push(RouteResult { agent_id: id, success: true, error: None });
                        } else {
                            let text = match &rest[k].1 {
                                Ok(_) => String::new(),
                                Err(e) => describe_send_error(e),
                            };
                            out.push(
                                RouteResult { agent_id: id, success: false, error: Some(text) },
                            );
                        }
                        proof {
                            let t = outcomes.take(k + 1);
                            assert(crate::registry::fanout_views(outcomes.take(k as int)).len()
                                == pre.len());
                            assert forall|j: int|
                                0 <= j < out@.len() implies route_views(out@)[j]
                                == crate::registry::fanout_views(t)[j] by {
                                if j < pre.len() {
                                    assert(out@[j] == pre[j]);
                                    assert(route_views(pre)[j] == crate::registry::fanout_views(
                                        outcomes.take(k as int),
                                    )[j]);
                                    assert(t[j] == outcomes[j]);
                                    assert(outcomes.take(k as int)[j] == outcomes[j]);
                                } else {
                                    assert(out@[j] == out@.last());
                                    assert(t[j] == outcomes[k as int]);
                                }
                            }
                            assert(route_views(out@) =~= crate::registry::fanout_views(t));
                        }
                        k = k + 1;
                    }
                    proof {
                        assert(outcomes.take(outcomes.len() as int) =~= outcomes);
                    }
                },
                None => {},
            }
        },
    }
    out
}

/// The best agent for a component: the named one when an id is given, else
/// the first the label selector picks, else none.
pub fn find_agent_for_component(registry: &AgentRegistry, selector: &AgentSelector) -> (r: Option<
    AgentInfo,
>)
    ensures
        match &selector.agent_id {
            Some(id) => match r {
                Some(info) => find_entry(registry@, id@) matches Some(e) && e.info@ == info@,
                None => find_entry(registry@, id@) is None,
            },
            None => match &selector.labels {
                Some(sel) => {
                    let picked = label_filter(info_views(registry@), label_views(sel@));
                    match r {
                        Some(info) => picked.len() > 0 && info@ == picked[0],
                        None => picked.len() == 0,
                    }
                },
                None => r is None,
            },
        },
{
    match &selector.agent_id {
        Some(id) => registry.get(id.as_str()),
        None => {
            match &selector.labels {
                Some(sel) => {
                    let mut found = registry.find_by_labels(sel);
                    let ghost fv = found@;
                    if found.len() == 0 {
                        None
                    } else {
                        let first = found.remove(0);
                        proof {
                            assert(crate::registry::agent_views(fv)[0] == fv[0]@);
                        }
                        Some(first)
                    }
                },
                None => None,
            }
        },
    }
}

/// How a backend command names its targets: an explicit agent id, a label
/// selector, or neither.
pub struct AgentSelector {
    pub agent_id: Option<String>,
    pub labels: Option<Vec<Label>>,
}

impl AgentSelector {
    /// Read a selector from raw JSON text: the `agent_id` string field and
    /// the `labels` string-map field, each absent when missing or of the
    /// wrong shape.
    pub fn from_json(text: &str) -> (r: Self)
        ensures
            match &r.agent_id {
                Some(id) => json_str_field_of(text@, "agent_id"@) == Some(id@),
                None => json_str_field_of(text@, "agent_id"@) is None,
            },
            match &r.labels {
                Some(ls) => json_str_map_field_of(text@, "labels"@) == Some(
                    crate::registry::label_pairs(ls@),
                ),
                None => json_str_map_field_of(text@, "labels"@) is None,
            },
    {
        AgentSelector {
            agent_id: json_str_field(text, "agent_id"),
            labels: json_str_map_field(text, "labels"),
        }
    }
}

} // verus!
