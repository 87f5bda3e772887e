//! Executor decisions and native check rules: command classification,
//! responses, shell lines, job parameters, check-type dispatch, grading
//! and byte formatting.

use opsmap::executor::{
    command_kind, detached_response, job_log_path, response_for_outcome, shell_invocation,
    shell_job_of, started_response, sync_shell_job, CommandKind, ExecOutcome,
};
use opsmap::native::{
    classify_check_type, format_bytes, grade_percent, is_native_check_name, shell_check_result,
    CheckKind,
};
use opsmap::wire::CommandResult;

#[test]
fn command_kinds() {
    assert!(matches!(command_kind("start"), CommandKind::AsyncJob));
    assert!(matches!(command_kind("stop"), CommandKind::AsyncJob));
    assert!(matches!(command_kind("restart"), CommandKind::AsyncJob));
    assert!(matches!(command_kind("action"), CommandKind::AsyncJob));
    assert!(matches!(command_kind("check"), CommandKind::Sync));
    assert!(matches!(command_kind("native"), CommandKind::Sync));
    assert!(matches!(command_kind("reboot"), CommandKind::Unknown));
    assert!(matches!(command_kind(""), CommandKind::Unknown));
}

#[test]
fn sync_responses_carry_the_outcome() {
    let ok = response_for_outcome(
        "cmd-1",
        ExecOutcome::Finished(CommandResult {
            exit_code: 0,
            stdout: String::from("fine"),
            stderr: String::new(),
            duration_ms: 12,
            timed_out: false,
            job_id: None,
        }),
        999,
    );
    assert_eq!(ok.command_id, "cmd-1");
    assert_eq!(ok.status, "completed");
    assert_eq!(ok.result.as_ref().unwrap().stdout, "fine");
    assert_eq!(ok.timestamp, 999);
    assert!(ok.error.is_none());

    let failed = response_for_outcome(
        "cmd-2",
        ExecOutcome::Finished(CommandResult {
            exit_code: 3,
            stdout: String::new(),
            stderr: String::from("boom"),
            duration_ms: 5,
            timed_out: false,
            job_id: None,
        }),
        999,
    );
    assert_eq!(failed.status, "failed");

    let spawn_failed = response_for_outcome("cmd-3", ExecOutcome::Failed(String::from("no shell")), 1);
    assert_eq!(spawn_failed.status, "failed");
    assert_eq!(spawn_failed.error.as_deref(), Some("no shell"));
    assert!(spawn_failed.result.is_none());

    let late = response_for_outcome("cmd-4", ExecOutcome::TimedOut(30), 1);
    assert_eq!(late.status, "timeout");
    assert_eq!(late.error.as_deref(), Some("command timed out after 30s"));
}

#[test]
fn async_responses_bracket_the_detachment() {
    let started = started_response("cmd-9", String::from("job-abc"), 50);
    assert_eq!(started.status, "started");
    assert_eq!(started.result.as_ref().unwrap().job_id.as_deref(), Some("job-abc"));
    assert_eq!(started.result.as_ref().unwrap().exit_code, 0);

    let done = detached_response("cmd-9", 51);
    assert_eq!(done.status, "completed");
    assert_eq!(done.result.as_ref().unwrap().exit_code, 0);
    assert!(done.result.as_ref().unwrap().job_id.is_none());
}

#[test]
fn shell_lines_join_arguments_with_spaces() {
    assert_eq!(shell_invocation("ls", &Vec::new()), "ls");
    assert_eq!(
        shell_invocation("systemctl", &vec![String::from("restart"), String::from("nginx")]),
        "systemctl restart nginx"
    );
}

#[test]
fn job_logs_live_under_the_jobs_directory() {
    assert_eq!(job_log_path("j-1"), "/var/log/opsmap/jobs/j-1.log");
}

#[test]
fn shell_jobs_come_from_the_parameters() {
    let job = shell_job_of(
        "{\"command\":\"svc start\",\"args\":[\"--fast\",\"-v\"],\"run_as_user\":\"deploy\"}",
    )
    .unwrap();
    assert_eq!(job.command, "svc start");
    assert_eq!(job.args, vec![String::from("--fast"), String::from("-v")]);
    assert_eq!(job.run_as_user.as_deref(), Some("deploy"));

    let bare = shell_job_of("{\"command\":\"true\"}").unwrap();
    assert!(bare.args.is_empty());
    assert!(bare.run_as_user.is_none());

    assert!(shell_job_of("{}").is_none());
    assert!(shell_job_of("not json").is_none());
}

#[test]
fn sync_jobs_require_an_action_name() {
    let err = sync_shell_job(&None, "{\"command\":\"true\"}").unwrap_err();
    assert_eq!(err, "missing action name");

    let err = sync_shell_job(&Some(String::from("run")), "{}").unwrap_err();
    assert_eq!(err, "missing command in params");

    let job = sync_shell_job(&Some(String::from("run")), "{\"command\":\"true\"}").unwrap();
    assert_eq!(job.command, "true");
}

#[test]
fn check_type_dispatch() {
    match classify_check_type("native:memory") {
        CheckKind::Native(n) => assert_eq!(n, "memory"),
        CheckKind::Shell => panic!("prefixed tag must be native"),
    }
    match classify_check_type("uptime") {
        CheckKind::Native(n) => assert_eq!(n, "uptime"),
        CheckKind::Shell => panic!("colon-free tag must be native"),
    }
    assert!(matches!(classify_check_type("shell:df -h"), CheckKind::Shell));
}

#[test]
fn native_names_are_a_closed_set() {
    assert!(is_native_check_name("disk_space"));
    assert!(is_native_check_name("dns"));
    assert!(is_native_check_name("docker_container"));
    assert!(!is_native_check_name("quantum_flux"));
    assert!(!is_native_check_name(""));
}

#[test]
fn grading_follows_the_thresholds() {
    // Thresholds in hundredths of a percent: warning 80%, critical 90%.
    assert_eq!(grade_percent(7999, 8000, 9000), "ok");
    assert_eq!(grade_percent(8000, 8000, 9000), "warning");
    assert_eq!(grade_percent(8999, 8000, 9000), "warning");
    assert_eq!(grade_percent(9000, 8000, 9000), "error");
}

#[test]
fn shell_check_results_map_exit_codes() {
    let ok = shell_check_result(0, String::from("out"), String::new(), 40, false, 5);
    assert_eq!(ok.status, "ok");
    assert_eq!(ok.message.as_deref(), Some("out"));
    assert_eq!(ok.metrics, "{\"exit_code\":0,\"duration_ms\":40}");

    let failed = shell_check_result(2, String::new(), String::from("err"), 7, false, 5);
    assert_eq!(failed.status, "error");
    assert_eq!(failed.message.as_deref(), Some("err"));
    assert_eq!(failed.metrics, "{\"exit_code\":2,\"duration_ms\":7}");

    let signalled = shell_check_result(-1, String::new(), String::new(), 7, false, 5);
    assert_eq!(signalled.metrics, "{\"exit_code\":-1,\"duration_ms\":7}");

    let late = shell_check_result(0, String::new(), String::new(), 5000, true, 5);
    assert_eq!(late.status, "error");
    assert_eq!(late.message.as_deref(), Some("check timed out after 5s"));
    assert_eq!(late.metrics, "{\"timeout\":true,\"duration_ms\":5000}");
}

#[test]
fn byte_formatting_rounds_to_two_places() {
    assert_eq!(format_bytes(0), "0 B");
    assert_eq!(format_bytes(1023), "1023 B");
    assert_eq!(format_bytes(1024), "1.00 KB");
    assert_eq!(format_bytes(1536), "1.50 KB");
    assert_eq!(format_bytes(1048576), "1.00 MB");
    assert_eq!(format_bytes(5 * 1048576 + 1048576 / 4), "5.25 MB");
    assert_eq!(format_bytes(1073741824), "1.00 GB");
    assert_eq!(format_bytes(1099511627776), "1.00 TB");
    // Rounding carries into the whole part.
    assert_eq!(format_bytes(2 * 1024 - 1), "2.00 KB");
}
