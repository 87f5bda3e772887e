//! Session-level message handling: the gateway's demux of agent frames,
//! registration, the agent's own register frame, and the decisions for
//! frames arriving from the backend.
//!
//! Relaying keeps payloads verbatim: a `status_delta` from an agent leaves
//! for the backend as a `status_update` frame around the same payload
//! text.

use vstd::prelude::*;

verus! {

use crate::codec::{frame_spec, unframe_spec, frame_message, unframe_message, quoted, push_quoted};
use crate::registry::{AgentInfo, AgentCommand, label_pairs};
use crate::wire::{RegisterPayload, Label, ConfigUpdate};
use crate::text::{str_eq, str_views, u64_to_dec, dec_rep};
use crate::shims::{
    json_str_field,
    json_u64_field,
    json_raw_field,
    json_str_map_field,
    json_str_field_of,
    json_u64_field_of,
    json_raw_field_of,
    json_str_map_field_of,
    json_array_field,
    json_array_field_of,
};

/// What the gateway does with one frame from a registered agent.
pub enum SessionAction {
    /// Forward one frame to the backend.
    Forward(String),
    /// Forward one frame per batched delta to the backend.
    ForwardBatch(Vec<String>),
    /// Note the agent's liveness.
    Heartbeat,
    /// A second registration: ignored.
    DuplicateRegister,
    /// Unknown tag or unreadable frame: logged and ignored.
    Ignored,
}

/// The demux rule for frames a registered agent sends: status deltas and
/// batches leave as `status_update` frames around the same payload text,
/// command responses keep their tag, a pong marks liveness, a second
/// register is ignored, anything else is dropped.
pub fn agent_session_action(text: &str) -> (r: SessionAction)
    ensures
        text@ == "{\"type\":\"pong\"}"@ ==> r is Heartbeat,
        text@ != "{\"type\":\"pong\"}"@ ==> match unframe_spec(text@) {
            Some((tag, payload)) => {
                &&& tag == "register"@ ==> r is DuplicateRegister
                &&& tag == "status_delta"@ ==> (r matches SessionAction::Forward(f) && f@
                    == frame_spec("status_update"@, payload))
                &&& tag == "command_response"@ ==> (r matches SessionAction::Forward(f) && f@
                    == frame_spec("command_response"@, payload))
                &&& tag == "status_batch"@ ==> match json_array_field_of(payload, "deltas"@) {
                    Some(elems) => r matches SessionAction::ForwardBatch(v) && str_views(v@).len()
                        == elems.len() && (forall|i: int|
                        0 <= i < elems.len() ==> #[trigger] str_views(v@)[i] == frame_spec(
                            "status_update"@,
                            elems[i],
                        )),
                    None => r is Ignored,
                }
            },
            None => r is Ignored,
        },
{
    proof {
        reveal_strlit("register");
        reveal_strlit("status_delta");
        reveal_strlit("command_response");
        reveal_strlit("status_batch");
        assert("register"@.len() == 8);
        assert("status_delta"@.len() == 12);
        assert("command_response"@.len() == 16);
        assert("status_batch"@.len() == 12);
        assert("status_delta"@[7] == 'd');
        assert("status_batch"@[7] == 'b');
    }
    if str_eq(text, "{\"type\":\"pong\"}") {
        return SessionAction::Heartbeat;
    }
    let (tag, payload) = match unframe_message(text) {
        Some(x) => x,
        None => {
            return SessionAction::Ignored;
        },
    };
    if str_eq(tag.as_str(), "register") {
        SessionAction::DuplicateRegister
    } else if str_eq(tag.as_str(), "status_delta") {
        SessionAction::Forward(frame_message("status_update", payload.as_str()))
    } else if str_eq(tag.as_str(), "command_response") {
        SessionAction::Forward(frame_message("command_response", payload.as_str()))
    } else if str_eq(tag.as_str(), "status_batch") {
        let elems = match json_array_field(payload.as_str(), "deltas") {
            Some(e) => e,
            None => {
                return SessionAction::Ignored;
            },
        };
        let ghost ev = str_views(elems@);
        let mut out: Vec<String> = Vec::new();
        let mut i: usize = 0;
        while i < elems.len()
            invariant
                i <= elems@.len(),
                ev == str_views(elems@),
                ev.len() == elems@.len(),
                str_views(out@).len() == i,
                forall|k: int|
                    0 <= k < i ==> #[trigger] str_views(out@)[k] == frame_spec(
                        "status_update"@,
                        ev[k],
                    ),
            decreases elems@.len() - i,
        {
            let ghost pre = out@;
            out.push(frame_message("status_update", elems[i].as_str()));
            proof {
                assert forall|k: int|
                    0 <= k < i + 1 implies #[trigger] str_views(out@)[k] == frame_spec(
                    "status_update"@,
                    ev[k],
                ) by {
                    if k < i {
                        assert(out@[k] == pre[k]);
                        assert(str_views(pre)[k] == frame_spec("status_update"@, ev[k]));
                    } else {
                        assert(out@[k] == out@.last());
                    }
                }
            }
            i = i + 1;
        }
        SessionAction::ForwardBatch(out)
    } else {
        SessionAction::Ignored
    }
}

/// Read a registration from the payload of a `register` frame: the four
/// identity strings are required, labels default to none.
pub fn registration_payload(payload: &str) -> (r: Option<RegisterPayload>)
    ensures
        match r {
            Some(reg) => {
                &&& json_str_field_of(payload@, "agent_id"@) == Some(reg.agent_id@)
                &&& json_str_field_of(payload@, "hostname"@) == Some(reg.hostname@)
                &&& json_str_field_of(payload@, "version"@) == Some(reg.version@)
                &&& json_str_field_of(payload@, "os"@) == Some(reg.os@)
                &&& match json_str_map_field_of(payload@, "labels"@) {
                    Some(ls) => label_pairs(reg.labels@) == ls,
                    None => reg.labels@.len() == 0,
                }
            },
            None => json_str_field_of(payload@, "agent_id"@) is None || json_str_field_of(
                payload@,
                "hostname"@,
            ) is None || json_str_field_of(payload@, "version"@) is None || json_str_field_of(
                payload@,
                "os"@,
            ) is None,
        },
{
    let agent_id = match json_str_field(payload, "agent_id") {
        Some(v) => v,
        None => {
            return None;
        },
    };
    let hostname = match json_str_field(payload, "hostname") {
        Some(v) => v,
        None => {
            return None;
        },
    };
    let version = match json_str_field(payload, "version") {
        Some(v) => v,
        None => {
            return None;
        },
    };
    let os = match json_str_field(payload, "os") {
        Some(v) => v,
        None => {
            return None;
        },
    };
    let labels = match json_str_map_field(payload, "labels") {
        Some(ls) => ls,
        None => Vec::new(),
    };
    Some(RegisterPayload { agent_id, hostname, labels, version, os })
}

/// The registry record for a fresh registration: both clocks start now.
pub fn agent_info_of(reg: RegisterPayload, now: u64) -> (r: AgentInfo)
    ensures
        r.id@ == reg.agent_id@,
        r.hostname@ == reg.hostname@,
        r.labels == reg.labels,
        r.version@ == reg.version@,
        r.os@ == reg.os@,
        r.connected_at == now,
        r.last_heartbeat == now,
{
    AgentInfo {
        id: reg.agent_id,
        hostname: reg.hostname,
        labels: reg.labels,
        version: reg.version,
        os: reg.os,
        connected_at: now,
        last_heartbeat: now,
    }
}

/// The command `cmd` is what reading the raw JSON text `raw` yields.
pub open spec fn command_matches(raw: Seq<char>, cmd: AgentCommand) -> bool {
    &&& json_str_field_of(raw, "id"@) == Some(cmd.id@)
    &&& json_str_field_of(raw, "command_type"@) == Some(cmd.command_type@)
    &&& json_str_field_of(raw, "component_id"@) == Some(cmd.component_id@)
    &&& match cmd.action_name {
        Some(a) => json_str_field_of(raw, "action_name"@) == Some(a@),
        None => json_str_field_of(raw, "action_name"@) is None,
    }
    &&& cmd.params@ == (match json_raw_field_of(raw, "params"@) {
        Some(p) => p,
        None => "null"@,
    })
    &&& cmd.timeout_secs == (match json_u64_field_of(raw, "timeout_secs"@) {
        Some(t) => t,
        None => 60,
    })
}

/// A raw command text misses one of its required fields.
pub open spec fn command_unreadable(raw: Seq<char>) -> bool {
    json_str_field_of(raw, "id"@) is None || json_str_field_of(raw, "command_type"@) is None
        || json_str_field_of(raw, "component_id"@) is None
}

/// Read a command from the `command` field of a backend frame's payload.
pub fn parse_agent_command(raw: &str) -> (r: Option<AgentCommand>)
    ensures
        match r {
            Some(cmd) => command_matches(raw@, cmd),
            None => command_unreadable(raw@),
        },
{
    let id = match json_str_field(raw, "id") {
        Some(v) => v,
        None => {
            return None;
        },
    };
    let command_type = match json_str_field(raw, "command_type") {
        Some(v) => v,
        None => {
            return None;
        },
    };
    let component_id = match json_str_field(raw, "component_id") {
        Some(v) => v,
        None => {
            return None;
        },
    };
    let action_name = json_str_field(raw, "action_name");
    let params = match json_raw_field(raw, "params") {
        Some(p) => p,
        None => String::from_str("null"),
    };
    let timeout_secs = match json_u64_field(raw, "timeout_secs") {
        Some(t) => t,
        None => 60,
    };
    Some(AgentCommand { id, command_type, component_id, action_name, params, timeout_secs })
}

/// What the gateway does with one frame from the backend.
pub enum BackendAction {
    /// Route this command: the optional explicit target, the optional
    /// label selector, and the command itself.
    Route(Option<String>, Option<Vec<Label>>, AgentCommand),
    /// Hand this `snapshot` frame to the named agent's session.
    ForwardSnapshot(String, String),
    /// The backend probed liveness; nothing to do.
    Noted,
    /// Unknown tag or unreadable frame: logged and ignored.
    Ignored,
}

/// The demux rule for backend frames: a `command` frame is routed by its
/// selector, a `snapshot` frame is re-framed for its agent, a ping is
/// noted, anything else is dropped.
pub fn backend_action(text: &str) -> (r: BackendAction)
    ensures
        text@ == "{\"type\":\"ping\"}"@ ==> r is Noted,
        text@ != "{\"type\":\"ping\"}"@ ==> match unframe_spec(text@) {
            Some((tag, payload)) => {
                &&& tag == "command"@ ==> (match r {
                    BackendAction::Route(aid, sel, cmd) => {
                        &&& match aid {
                            Some(a) => json_str_field_of(payload, "agent_id"@) == Some(a@),
                            None => json_str_field_of(payload, "agent_id"@) is None,
                        }
                        &&& match sel {
                            Some(ls) => json_str_map_field_of(payload, "labels"@) == Some(
                                label_pairs(ls@),
                            ),
                            None => json_str_map_field_of(payload, "labels"@) is None,
                        }
                        &&& json_raw_field_of(payload, "command"@) matches Some(raw)
                            && command_matches(raw, cmd)
                    },
                    BackendAction::Ignored => json_raw_field_of(payload, "command"@) is None || (
                    json_raw_field_of(payload, "command"@) matches Some(raw) && command_unreadable(
                        raw,
                    )),
                    _ => false,
                })
                &&& tag == "snapshot"@ ==> (match r {
                    BackendAction::ForwardSnapshot(aid, frame) => {
                        &&& json_str_field_of(payload, "agent_id"@) == Some(aid@)
                        &&& json_raw_field_of(payload, "snapshot"@) matches Some(snap)
                            && frame@ == frame_spec("snapshot"@, snap)
                    },
                    BackendAction::Ignored => json_str_field_of(payload, "agent_id"@) is None
                        || json_raw_field_of(payload, "snapshot"@) is None,
                    _ => false,
                })
            },
            None => r is Ignored,
        },
{
    proof {
        reveal_strlit("command");
        reveal_strlit("snapshot");
        assert("command"@.len() == 7);
        assert("snapshot"@.len() == 8);
    }
    if str_eq(text, "{\"type\":\"ping\"}") {
        return BackendAction::Noted;
    }
    let (tag, payload) = match unframe_message(text) {
        Some(x) => x,
        None => {
            return BackendAction::Ignored;
        },
    };
    if str_eq(tag.as_str(), "command") {
        let raw = match json_raw_field(payload.as_str(), "command") {
            Some(c) => c,
            None => {
                return BackendAction::Ignored;
            },
        };
        let cmd = match parse_agent_command(raw.as_str()) {
            Some(c) => c,
            None => {
                return BackendAction::Ignored;
            },
        };
        let aid = json_str_field(payload.as_str(), "agent_id");
        let sel = json_str_map_field(payload.as_str(), "labels");
        BackendAction::Route(aid, sel, cmd)
    } else if str_eq(tag.as_str(), "snapshot") {
        let aid = match json_str_field(payload.as_str(), "agent_id") {
            Some(a) => a,
            None => {
                return BackendAction::Ignored;
            },
        };
        let snap = match json_raw_field(payload.as_str(), "snapshot") {
            Some(s) => s,
            None => {
                return BackendAction::Ignored;
            },
        };
        BackendAction::ForwardSnapshot(aid, frame_message("snapshot", snap.as_str()))
    } else {
        BackendAction::Ignored
    }
}

/// What an agent does with one frame from its gateway.
pub enum AgentAction {
    /// Hand this raw snapshot payload to the snapshot reader.
    ApplySnapshot(String),
    /// Execute this command.
    RunCommand(AgentCommand),
    /// Answer the liveness probe with a pong frame.
    ReplyPong,
    /// Apply this runtime configuration update.
    UpdateConfig(ConfigUpdate),
    /// Unknown tag or unreadable frame: logged and ignored.
    Ignored,
}

/// The demux rule for frames a gateway sends its agent: a snapshot's
/// payload goes to the snapshot reader, a command is parsed and run, a
/// ping asks for a pong, a configuration update is read, anything else is
/// dropped.
pub fn gateway_frame_action(text: &str) -> (r: AgentAction)
    ensures
        text@ == "{\"type\":\"ping\"}"@ ==> r is ReplyPong,
        text@ != "{\"type\":\"ping\"}"@ ==> match unframe_spec(text@) {
            Some((tag, payload)) => {
                &&& tag == "snapshot"@ ==> (r matches AgentAction::ApplySnapshot(p) && p@
                    == payload)
                &&& tag == "command"@ ==> (match r {
                    AgentAction::RunCommand(cmd) => command_matches(payload, cmd),
                    AgentAction::Ignored => command_unreadable(payload),
                    _ => false,
                })
                &&& tag == "config_update"@ ==> (r matches AgentAction::UpdateConfig(u) && (
                match u.check_interval_secs {
                    Some(v) => json_u64_field_of(payload, "check_interval_secs"@) == Some(v),
                    None => json_u64_field_of(payload, "check_interval_secs"@) is None,
                }))
            },
            None => r is Ignored,
        },
{
    proof {
        reveal_strlit("snapshot");
        reveal_strlit("command");
        reveal_strlit("config_update");
        assert("snapshot"@.len() == 8);
        assert("command"@.len() == 7);
        assert("config_update"@.len() == 13);
    }
    if str_eq(text, "{\"type\":\"ping\"}") {
        return AgentAction::ReplyPong;
    }
    let (tag, payload) = match unframe_message(text) {
        Some(x) => x,
        None => {
            return AgentAction::Ignored;
        },
    };
    if str_eq(tag.as_str(), "snapshot") {
        AgentAction::ApplySnapshot(payload)
    } else if str_eq(tag.as_str(), "command") {
        match parse_agent_command(payload.as_str()) {
            Some(cmd) => AgentAction::RunCommand(cmd),
            None => AgentAction::Ignored,
        }
    } else if str_eq(tag.as_str(), "config_update") {
        AgentAction::UpdateConfig(
            ConfigUpdate {
                check_interval_secs: json_u64_field(payload.as_str(), "check_interval_secs"),
            },
        )
    } else {
        AgentAction::Ignored
    }
}

/// A routed backend command: its optional explicit target, its optional
/// label selector, and the command itself.
pub struct CommandPayload {
    pub agent_id: Option<String>,
    pub labels: Option<Vec<Label>>,
    pub command: AgentCommand,
}

/// Read a full command payload from a backend `command` frame's payload.
pub fn parse_command_payload(payload: &str) -> (r: Option<CommandPayload>)
    ensures
        match r {
            Some(p) => {
                &&& match &p.agent_id {
                    Some(a) => json_str_field_of(payload@, "agent_id"@) == Some(a@),
                    None => json_str_field_of(payload@, "agent_id"@) is None,
                }
                &&& match &p.labels {
                    Some(ls) => json_str_map_field_of(payload@, "labels"@) == Some(
                        label_pairs(ls@),
                    ),
                    None => json_str_map_field_of(payload@, "labels"@) is None,
                }
                &&& json_raw_field_of(payload@, "command"@) matches Some(raw) && command_matches(
                    raw,
                    p.command,
                )
            },
            None => json_raw_field_of(payload@, "command"@) is None || (json_raw_field_of(
                payload@,
                "command"@,
            ) matches Some(raw) && command_unreadable(raw)),
        },
{
    let raw = match json_raw_field(payload, "command") {
        Some(c) => c,
        None => {
            return None;
        },
    };
    let command = match parse_agent_command(raw.as_str()) {
        Some(c) => c,
        None => {
            return None;
        },
    };
    let agent_id = json_str_field(payload, "agent_id");
    let labels = json_str_map_field(payload, "labels");
    Some(CommandPayload { agent_id, labels, command })
}

/// The register frame an agent opens its session with.
pub open spec fn register_frame_spec(reg: RegisterPayload) -> Seq<char> {
    "{\"type\":\"register\",\"payload\":{\"agent_id\":"@ + quoted(reg.agent_id@)
        + ",\"hostname\":"@ + quoted(reg.hostname@) + ",\"labels\":{"@ + labels_object_spec(
        label_pairs(reg.labels@),
    ) + "},\"version\":"@ + quoted(reg.version@) + ",\"os\":"@ + quoted(reg.os@) + "}}"@
}

/// A JSON object body of label pairs, comma separated.
pub open spec fn labels_object_spec(ls: Seq<(Seq<char>, Seq<char>)>) -> Seq<char>
    decreases ls.len(),
{
    if ls.len() == 0 {
        Seq::empty()
    } else if ls.len() == 1 {
        quoted(ls[0].0) + ":"@ + quoted(ls[0].1)
    } else {
        labels_object_spec(ls.drop_last()) + ","@ + quoted(ls.last().0) + ":"@ + quoted(
            ls.last().1,
        )
    }
}

/// Render the register frame for this announcement.
pub fn encode_register(reg: &RegisterPayload) -> (r: String)
    ensures
        r@ == register_frame_spec(*reg),
{
    let mut out = String::from_str("{\"type\":\"register\",\"payload\":{\"agent_id\":");
    push_quoted(&mut out, reg.agent_id.as_str());
    out.append(",\"hostname\":");
    push_quoted(&mut out, reg.hostname.as_str());
    out.append(",\"labels\":{");
    push_labels_object(&mut out, &reg.labels);
    out.append("},\"version\":");
    push_quoted(&mut out, reg.version.as_str());
    out.append(",\"os\":");
    push_quoted(&mut out, reg.os.as_str());
    out.append("}}");
    proof {
        assert(out@ =~= register_frame_spec(*reg));
    }
    out
}

/// Append the comma-separated body of a labels object.
fn push_labels_object(out: &mut String, labels: &Vec<Label>)
    ensures
        final(out)@ == old(out)@ + labels_object_spec(label_pairs(labels@)),
{
    let ghost pairs = label_pairs(labels@);
    let mut i: usize = 0;
    let ghost base = out@;
    proof {
        assert(pairs.take(0) =~= Seq::<(Seq<char>, Seq<char>)>::empty());
        assert(out@ == base + labels_object_spec(pairs.take(0)));
    }
    while i < labels.len()
        invariant
            i <= labels@.len(),
            pairs == label_pairs(labels@),
            pairs.len() == labels@.len(),
            out@ == base + labels_object_spec(pairs.take(i as int)),
        decreases labels@.len() - i,
    {
        if i > 0 {
            out.append(",");
            proof {
                reveal_strlit(",");
            }
        }
        push_quoted(out, labels[i].key.as_str());
        out.append(":");
        push_quoted(out, labels[i].value.as_str());
        proof {
            reveal_strlit(":");
            let t = pairs.take(i + 1);
            assert(t.drop_last() =~= pairs.take(i as int));
            assert(t.last() == pairs[i as int]);
            assert(pairs[i as int] == (labels@[i as int].key@, labels@[i as int].value@));
            if i == 0 {
                assert(labels_object_spec(t) == quoted(t[0].0) + ":"@ + quoted(t[0].1));
                assert(out@ =~= base + labels_object_spec(t));
            } else {
                assert(labels_object_spec(t) == labels_object_spec(pairs.take(i as int)) + ","@
                    + quoted(t.last().0) + ":"@ + quoted(t.last().1));
                assert(","@ =~= seq![',']);
                assert(out@ =~= base + labels_object_spec(t));
            }
        }
        i = i + 1;
    }
    proof {
        assert(pairs.take(pairs.len() as int) =~= pairs);
    }
}

/// One agent's record as a JSON object.
pub open spec fn agent_obj_spec(a: AgentInfo) -> Seq<char> {
    "{\"id\":"@ + quoted(a.id@) + ",\"hostname\":"@ + quoted(a.hostname@) + ",\"labels\":{"@
        + labels_object_spec(label_pairs(a.labels@)) + "},\"version\":"@ + quoted(a.version@)
        + ",\"os\":"@ + quoted(a.os@) + ",\"connected_at\":"@ + dec_rep(a.connected_at as nat)
        + ",\"last_heartbeat\":"@ + dec_rep(a.last_heartbeat as nat) + "}"@
}

/// The agent records joined by commas.
pub open spec fn agents_array_spec(s: Seq<AgentInfo>) -> Seq<char>
    decreases s.len(),
{
    if s.len() == 0 {
        Seq::empty()
    } else if s.len() == 1 {
        agent_obj_spec(s[0])
    } else {
        agents_array_spec(s.drop_last()) + ","@ + agent_obj_spec(s.last())
    }
}

/// The register frame a gateway opens its backend bridge with: identity,
/// zone, version and the agents currently live.
pub open spec fn gateway_register_spec(reg: crate::gateway_config::RegisterPayload) -> Seq<char> {
    "{\"type\":\"register\",\"payload\":{\"gateway_id\":"@ + quoted(reg.gateway_id@)
        + ",\"zone\":"@ + quoted(reg.zone@) + ",\"version\":"@ + quoted(reg.version@)
        + ",\"agents\":["@ + agents_array_spec(reg.agents@) + "]}}"@
}

/// Append one agent's record.
fn push_agent_info(out: &mut String, a: &AgentInfo)
    ensures
        final(out)@ == old(out)@ + agent_obj_spec(*a),
{
    out.append("{\"id\":");
    push_quoted(out, a.id.as_str());
    out.append(",\"hostname\":");
    push_quoted(out, a.hostname.as_str());
    out.append(",\"labels\":{");
    push_labels_object(out, &a.labels);
    out.append("},\"version\":");
    push_quoted(out, a.version.as_str());
    out.append(",\"os\":");
    push_quoted(out, a.os.as_str());
    out.append(",\"connected_at\":");
    let c = u64_to_dec(a.connected_at);
    out.append(c.as_str());
    out.append(",\"last_heartbeat\":");
    let h = u64_to_dec(a.last_heartbeat);
    out.append(h.as_str());
    out.append("}");
    proof {
        assert(out@ =~= old(out)@ + agent_obj_spec(*a));
    }
}

/// Render the register frame for this gateway announcement.
pub fn encode_gateway_register(reg: &crate::gateway_config::RegisterPayload) -> (r: String)
    ensures
        r@ == gateway_register_spec(*reg),
{
    let mut out = String::from_str("{\"type\":\"register\",\"payload\":{\"gateway_id\":");
    push_quoted(&mut out, reg.gateway_id.as_str());
    out.append(",\"zone\":");
    push_quoted(&mut out, reg.zone.as_str());
    out.append(",\"version\":");
    push_quoted(&mut out, reg.version.as_str());
    out.append(",\"agents\":[");
    let ghost base = out@;
    let mut i: usize = 0;
    proof {
        assert(reg.agents@.take(0) =~= Seq::<AgentInfo>::empty());
        assert(out@ == base + agents_array_spec(reg.agents@.take(0)));
    }
    while i < reg.agents.len()
        invariant
            i <= reg.agents@.len(),
            out@ == base + agents_array_spec(reg.agents@.take(i as int)),
        decreases reg.agents@.len() - i,
    {
        if i > 0 {
            out.append(",");
            proof {
                reveal_strlit(",");
            }
        }
        push_agent_info(&mut out, &reg.agents[i]);
        proof {
            let t = reg.agents@.take(i + 1);
            assert(t.drop_last() =~= reg.agents@.take(i as int));
            assert(t.last() == reg.agents@[i as int]);
            if i == 0 {
                assert(agents_array_spec(t) == agent_obj_spec(t[0]));
                assert(out@ =~= base + agents_array_spec(t));
            } else {
                assert(agents_array_spec(t) == agents_array_spec(reg.agents@.take(i as int)) + ","@
                    + agent_obj_spec(t.last()));
                assert(","@ =~= seq![',']);
                assert(out@ =~= base + agents_array_spec(t));
            }
        }
        i = i + 1;
    }
    proof {
        assert(reg.agents@.take(reg.agents@.len() as int) =~= reg.agents@);
    }
    out.append("]}}");
    proof {
        assert(out@ =~= gateway_register_spec(*reg));
    }
    out
}

} // verus!