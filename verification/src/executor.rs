//! Command execution decisions: which commands detach, what a shell
//! invocation looks like, where a detached job logs, and the exact
//! responses each outcome produces.  The process work itself — spawn,
//! capture, fork — happens outside the crate; everything it needs is
//! decided here.

use vstd::prelude::*;

verus! {

use crate::wire::{CommandResult, CommandResponse};
use crate::text::{str_eq, str_views, dec_rep, u64_to_dec};
use crate::shims::{
    json_str_field,
    json_str_list_field,
    json_str_field_of,
    json_str_list_field_of,
};

/// How a command type is executed.
#[derive(PartialEq, Eq, Structural, Clone, Copy)]
pub enum CommandKind {
    /// Detach a process that outlives the agent; reply `started` at once.
    AsyncJob,
    /// Run to completion and report the full result.
    Sync,
    /// Not a command type this agent knows.
    Unknown,
}

/// The kind of a command type tag.
pub open spec fn kind_of(t: Seq<char>) -> CommandKind {
    if t == "start"@ || t == "stop"@ || t == "restart"@ || t == "action"@ {
        CommandKind::AsyncJob
    } else if t == "check"@ || t == "native"@ {
        CommandKind::Sync
    } else {
        CommandKind::Unknown
    }
}

/// Classify a command type tag.
pub fn command_kind(t: &str) -> (r: CommandKind)
    ensures
        r == kind_of(t@),
{
    if str_eq(t, "start") || str_eq(t, "stop") || str_eq(t, "restart") || str_eq(t, "action") {
        CommandKind::AsyncJob
    } else if str_eq(t, "check") || str_eq(t, "native") {
        CommandKind::Sync
    } else {
        CommandKind::Unknown
    }
}

/// The single shell line for a command and its arguments: the command,
/// then each argument preceded by one space.
pub open spec fn invocation_of(cmd: Seq<char>, args: Seq<Seq<char>>) -> Seq<char>
    decreases args.len(),
{
    if args.len() == 0 {
        cmd
    } else {
        invocation_of(cmd, args.drop_last()) + " "@ + args.last()
    }
}

/// Render the shell line for a command and its arguments.
pub fn shell_invocation(command: &str, args: &Vec<String>) -> (r: String)
    ensures
        r@ == invocation_of(command@, str_views(args@)),
{
    let mut out = String::from_str(command);
    let ghost views = str_views(args@);
    let mut i: usize = 0;
    proof {
        assert(views.take(0) =~= Seq::<Seq<char>>::empty());
        assert(out@ == invocation_of(command@, views.take(0)));
    }
    while i < args.len()
        invariant
            i <= args.len(),
            views == str_views(args@),
            views.len() == args@.len(),
            out@ == invocation_of(command@, views.take(i as int)),
        decreases args.len() - i,
    {
        out.append(" ");
        out.append(args[i].as_str());
        proof {
            let t = views.take(i + 1);
            assert(t.drop_last() =~= views.take(i as int));
            assert(t.last() == args@[i as int]@);
            assert(out@ == invocation_of(command@, views.take(i as int)) + " "@ + args@[i as int]@);
        }
        i = i + 1;
    }
    proof {
        assert(views.take(views.len() as int) =~= views);
    }
    out
}

/// Where a detached job writes its output.
pub fn job_log_path(job_id: &str) -> (r: String)
    ensures
        r@ == "/var/log/opsmap/jobs/"@ + job_id@ + ".log"@,
{
    let mut out = String::from_str("/var/log/opsmap/jobs/");
    out.append(job_id);
    out.append(".log");
    out
}

/// What executing a synchronous command came to.
pub enum ExecOutcome {
    /// The child ran to an exit status.
    Finished(CommandResult),
    /// The child could not be run.
    Failed(String),
    /// The child outlived its allotted seconds and was cancelled.
    TimedOut(u64),
}

/// The terminal response for a synchronous command: `completed` on exit
/// code zero, `failed` on any other exit or on a spawn failure, `timeout`
/// when the time allowance ran out.
pub fn response_for_outcome(command_id: &str, outcome: ExecOutcome, now: u64) -> (r:
    CommandResponse)
    ensures
        r.command_id@ == command_id@,
        r.timestamp == now,
        match outcome {
            ExecOutcome::Finished(res) => {
                &&& r.status@ == (if res.exit_code == 0 {
                    "completed"@
                } else {
                    "failed"@
                })
                &&& r.result matches Some(out) && out == res
                &&& r.error is None
            },
            ExecOutcome::Failed(msg) => {
                &&& r.status@ == "failed"@
                &&& r.result is None
                &&& r.error matches Some(e) && e@ == msg@
            },
            ExecOutcome::TimedOut(secs) => {
                &&& r.status@ == "timeout"@
                &&& r.result is None
                &&& r.error matches Some(e) && e@ == "command timed out after "@ + dec_rep(
                    secs as nat,
                ) + "s"@
            },
        },
{
    match outcome {
        ExecOutcome::Finished(res) => {
            let status = if res.exit_code == 0 {
                String::from_str("completed")
            } else {
                String::from_str("failed")
            };
            CommandResponse {
                command_id: String::from_str(command_id),
                status,
                result: Some(res),
                error: None,
                timestamp: now,
            }
        },
        ExecOutcome::Failed(msg) => CommandResponse {
            command_id: String::from_str(command_id),
            status: String::from_str("failed"),
            result: None,
            error: Some(msg),
            timestamp: now,
        },
        ExecOutcome::TimedOut(secs) => {
            let mut e = String::from_str("command timed out after ");
            let d = u64_to_dec(secs);
            e.append(d.as_str());
            e.append("s");
            CommandResponse {
                command_id: String::from_str(command_id),
                status: String::from_str("timeout"),
                result: None,
                error: Some(e),
                timestamp: now,
            }
        },
    }
}

/// The immediate `started` response for an accepted asynchronous command,
/// carrying the fresh job id and an empty result.
pub fn started_response(command_id: &str, job_id: String, now: u64) -> (r: CommandResponse)
    ensures
        r.command_id@ == command_id@,
        r.status@ == "started"@,
        r.error is None,
        r.timestamp == now,
        r.result matches Some(res) && {
            &&& res.exit_code == 0
            &&& res.stdout@.len() == 0
            &&& res.stderr@.len() == 0
            &&& res.duration_ms == 0
            &&& !res.timed_out
            &&& res.job_id matches Some(j) && j@ == job_id@
        },
{
    CommandResponse {
        command_id: String::from_str(command_id),
        status: String::from_str("started"),
        result: Some(
            CommandResult {
                exit_code: 0,
                stdout: String::new(),
                stderr: String::new(),
                duration_ms: 0,
                timed_out: false,
                job_id: Some(job_id),
            },
        ),
        error: None,
        timestamp: now,
    }
}

/// The terminal response the agent emits right after detachment: the agent
/// cannot observe the detached job, so it reports completion with exit
/// code zero; real job state travels out of band via check deltas.
pub fn detached_response(command_id: &str, now: u64) -> (r: CommandResponse)
    ensures
        r.command_id@ == command_id@,
        r.status@ == "completed"@,
        r.error is None,
        r.timestamp == now,
        r.result matches Some(res) && res.exit_code == 0 && !res.timed_out && res.job_id is None,
{
    CommandResponse {
        command_id: String::from_str(command_id),
        status: String::from_str("completed"),
        result: Some(
            CommandResult {
                exit_code: 0,
                stdout: String::new(),
                stderr: String::new(),
                duration_ms: 0,
                timed_out: false,
                job_id: None,
            },
        ),
        error: None,
        timestamp: now,
    }
}

/// What a synchronous command runs: it must name an action — a nameless
/// one is refused before any process work — and carry a command line in
/// its parameters.
pub fn sync_shell_job(action_name: &Option<String>, params: &str) -> (r: Result<ShellJob, String>)
    ensures
        match r {
            Ok(job) => {
                &&& action_name is Some
                &&& json_str_field_of(params@, "command"@) == Some(job.command@)
                &&& str_views(job.args@) == (match json_str_list_field_of(params@, "args"@) {
                    Some(a) => a,
                    None => Seq::<Seq<char>>::empty(),
                })
                &&& match &job.run_as_user {
                    Some(u) => json_str_field_of(params@, "run_as_user"@) == Some(u@),
                    None => json_str_field_of(params@, "run_as_user"@) is None,
                }
            },
            Err(e) => (action_name is None && e@ == "missing action name"@) || (action_name is Some
                && json_str_field_of(params@, "command"@) is None && e@
                == "missing command in params"@),
        },
{
    if action_name.is_none() {
        return Err(String::from_str("missing action name"));
    }
    match shell_job_of(params) {
        Some(job) => Ok(job),
        None => Err(String::from_str("missing command in params")),
    }
}

/// What a shell job needs: the command line, its arguments, and who to run
/// it as.
#[derive(Debug)]
pub struct ShellJob {
    pub command: String,
    pub args: Vec<String>,
    pub run_as_user: Option<String>,
}

/// Read a shell job from a command's raw JSON parameters: the `command`
/// string field is required; `args` and `run_as_user` default to empty and
/// nobody.
pub fn shell_job_of(params: &str) -> (r: Option<ShellJob>)
    ensures
        match r {
            Some(job) => {
                &&& json_str_field_of(params@, "command"@) == Some(job.command@)
                &&& str_views(job.args@) == (match json_str_list_field_of(params@, "args"@) {
                    Some(a) => a,
                    None => Seq::<Seq<char>>::empty(),
                })
                &&& match &job.run_as_user {
                    Some(u) => json_str_field_of(params@, "run_as_user"@) == Some(u@),
                    None => json_str_field_of(params@, "run_as_user"@) is None,
                }
            },
            None => json_str_field_of(params@, "command"@) is None,
        },
{
    let command = match json_str_field(params, "command") {
        Some(c) => c,
        None => {
            return None;
        },
    };
    let args = match json_str_list_field(params, "args") {
        Some(a) => a,
        None => Vec::new(),
    };
    proof {
        if json_str_list_field_of(params@, "args"@) is None {
            assert(str_views(Seq::<String>::empty()) =~= Seq::<Seq<char>>::empty());
        }
    }
    let run_as_user = json_str_field(params, "run_as_user");
    Some(ShellJob { command, args, run_as_user })
}

} // verus!
