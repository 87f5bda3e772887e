//! The messages both processes exchange, as plain data.
//!
//! Opaque JSON values (check configuration, command parameters, metrics)
//! are carried as raw JSON text; timestamps are wall-clock milliseconds.

use vstd::prelude::*;

verus! {

/// One check result heading upstream.  `metrics` is raw JSON text or
/// absent (wire `null`); `timestamp` is wall-clock milliseconds.
pub struct StatusDelta {
    pub component_id: String,
    pub check_name: String,
    pub status: String,
    pub message: Option<String>,
    pub metrics: Option<String>,
    pub timestamp: u64,
}

/// The mathematical content of a `StatusDelta`.
pub ghost struct DeltaView {
    pub component_id: Seq<char>,
    pub check_name: Seq<char>,
    pub status: Seq<char>,
    pub message: Option<Seq<char>>,
    pub metrics: Option<Seq<char>>,
    pub timestamp: u64,
}

impl View for StatusDelta {
    type V = DeltaView;

    open spec fn view(&self) -> DeltaView {
        DeltaView {
            component_id: self.component_id@,
            check_name: self.check_name@,
            status: self.status@,
            message: match self.message {
                Some(m) => Some(m@),
                None => None,
            },
            metrics: match self.metrics {
                Some(m) => Some(m@),
                None => None,
            },
            timestamp: self.timestamp,
        }
    }
}

impl Clone for StatusDelta {
    fn clone(&self) -> (r: Self)
        ensures
            r@ == self@,
    {
        StatusDelta {
            component_id: self.component_id.clone(),
            check_name: self.check_name.clone(),
            status: self.status.clone(),
            message: match &self.message {
                Some(m) => Some(m.clone()),
                None => None,
            },
            metrics: match &self.metrics {
                Some(m) => Some(m.clone()),
                None => None,
            },
            timestamp: self.timestamp,
        }
    }
}

/// Several deltas sent together on the periodic batch path.
pub struct StatusBatch {
    pub deltas: Vec<StatusDelta>,
}

/// What a finished command execution produced.
pub struct CommandResult {
    pub exit_code: i32,
    pub stdout: String,
    pub stderr: String,
    pub duration_ms: u64,
    pub timed_out: bool,
    pub job_id: Option<String>,
}

/// Terminal or `started` report for one command.
pub struct CommandResponse {
    pub command_id: String,
    pub status: String,
    pub result: Option<CommandResult>,
    pub error: Option<String>,
    pub timestamp: u64,
}

/// An order from the backend.  `params` is raw JSON text.
pub struct Command {
    pub id: String,
    pub command_type: String,
    pub component_id: String,
    pub action_name: Option<String>,
    pub params: String,
    pub timeout_secs: u64,
}

/// One scheduled check of a component.  `config` is raw JSON text.
pub struct CheckDefinition {
    pub name: String,
    pub check_type: String,
    pub config: String,
    pub interval_secs: u64,
    pub timeout_secs: u64,
}

impl Clone for CheckDefinition {
    fn clone(&self) -> (r: Self)
        ensures
            r.name@ == self.name@,
            r.check_type@ == self.check_type@,
            r.config@ == self.config@,
            r.interval_secs == self.interval_secs,
            r.timeout_secs == self.timeout_secs,
    {
        CheckDefinition {
            name: self.name.clone(),
            check_type: self.check_type.clone(),
            config: self.config.clone(),
            interval_secs: self.interval_secs,
            timeout_secs: self.timeout_secs,
        }
    }
}

/// One action a component offers.
pub struct ActionDefinition {
    pub name: String,
    pub command: String,
    pub args: Vec<String>,
    pub run_as_user: Option<String>,
    pub is_async: bool,
    pub confirmation_required: bool,
}

/// A managed component with its checks and actions.
pub struct ComponentSnapshot {
    pub id: String,
    pub name: String,
    pub component_type: String,
    pub checks: Vec<CheckDefinition>,
    pub actions: Vec<ActionDefinition>,
}

/// Versioned description of everything an agent must manage.
pub struct Snapshot {
    pub version: u64,
    pub components: Vec<ComponentSnapshot>,
}

/// One label: a key/value tag used to select agents.
pub struct Label {
    pub key: String,
    pub value: String,
}

/// The mathematical content of a `Label`.
pub ghost struct LabelView {
    pub key: Seq<char>,
    pub value: Seq<char>,
}

impl View for Label {
    type V = LabelView;

    open spec fn view(&self) -> LabelView {
        LabelView { key: self.key@, value: self.value@ }
    }
}

/// What an agent announces when it connects.
pub struct RegisterPayload {
    pub agent_id: String,
    pub hostname: String,
    pub labels: Vec<Label>,
    pub version: String,
    pub os: String,
}

/// Runtime settings pushed by the backend.
pub struct ConfigUpdate {
    pub check_interval_secs: Option<u64>,
}

/// Frames a gateway sends to an agent.
pub enum GatewayMessage {
    Snapshot(Snapshot),
    Command(Command),
    Ping,
    ConfigUpdate(ConfigUpdate),
}

/// Frames an agent sends to its gateway.
pub enum AgentMessage {
    Register(RegisterPayload),
    StatusDelta(StatusDelta),
    StatusBatch(StatusBatch),
    CommandResponse(CommandResponse),
    Pong,
}

} // verus!
