//! Scheduler behaviour: due-check selection, the change-triggered fast
//! path against the batch path, snapshot replacement, and the offline
//! fallback.

use opsmap::buffer::OfflineBuffer;
use opsmap::codec::decode_delta;
use opsmap::scheduler::{buffer_unsent, delta_of_result, CheckScheduler};
use opsmap::wire::{CheckDefinition, ComponentSnapshot, Snapshot, StatusDelta};

fn check(name: &str, interval_secs: u64) -> CheckDefinition {
    CheckDefinition {
        name: String::from(name),
        check_type: String::from("native:uptime"),
        config: String::from("{}"),
        interval_secs,
        timeout_secs: 5,
    }
}

fn snapshot(version: u64, component: &str, checks: Vec<CheckDefinition>) -> Snapshot {
    Snapshot {
        version,
        components: vec![
            ComponentSnapshot {
                id: String::from(component),
                name: String::from(component),
                component_type: String::from("service"),
                checks,
                actions: Vec::new(),
            },
        ],
    }
}

fn delta(component: &str, name: &str, status: &str, at: u64) -> StatusDelta {
    StatusDelta {
        component_id: String::from(component),
        check_name: String::from(name),
        status: String::from(status),
        message: None,
        metrics: None,
        timestamp: at,
    }
}

#[test]
fn everything_is_due_before_its_first_run() {
    let mut s = CheckScheduler::new();
    assert_eq!(s.due_checks(0).len(), 0);
    s.update_snapshot(snapshot(1, "c1", vec![check("a", 10), check("b", 30)]));
    let due = s.due_checks(0);
    assert_eq!(due, vec![(0, 0), (0, 1)]);
}

#[test]
fn a_check_is_not_due_again_before_its_interval() {
    let mut s = CheckScheduler::new();
    s.update_snapshot(snapshot(1, "c1", vec![check("a", 10)]));
    s.record_run("c1", "a", 100);
    assert_eq!(s.due_checks(100).len(), 0);
    assert_eq!(s.due_checks(109).len(), 0);
    assert_eq!(s.due_checks(110), vec![(0, 0)]);
    assert_eq!(s.due_checks(500), vec![(0, 0)]);
}

#[test]
fn change_triggered_fast_path_fires_on_transitions() {
    // Status sequence ok, ok, warning, warning, ok: three immediate sends
    // (first value, both transitions), the other two deferred to the batch.
    let mut s = CheckScheduler::new();
    let sequence = ["ok", "ok", "warning", "warning", "ok"];
    let mut fast = 0;
    for (n, status) in sequence.iter().enumerate() {
        if s.route_delta(&delta("c1", "a", status, n as u64)) {
            fast += 1;
        }
    }
    assert_eq!(fast, 3);
    let batched = s.take_batch();
    assert_eq!(batched.len(), 2);
    assert_eq!(batched[0].status, "ok");
    assert_eq!(batched[0].timestamp, 1);
    assert_eq!(batched[1].status, "warning");
    assert_eq!(batched[1].timestamp, 3);
    assert_eq!(s.pending_len(), 0);
}

#[test]
fn distinct_checks_do_not_share_status_memory() {
    let mut s = CheckScheduler::new();
    assert!(s.route_delta(&delta("c1", "a", "ok", 1)));
    assert!(s.route_delta(&delta("c1", "b", "ok", 2)));
    assert!(s.route_delta(&delta("c2", "a", "ok", 3)));
    assert!(!s.route_delta(&delta("c1", "a", "ok", 4)));
}

#[test]
fn snapshot_replacement_keeps_surviving_state() {
    let mut s = CheckScheduler::new();
    s.update_snapshot(snapshot(1, "c1", vec![check("one", 10), check("two", 10)]));
    s.record_run("c1", "one", 100);
    s.record_run("c1", "two", 100);
    assert!(s.route_delta(&delta("c1", "two", "ok", 100)));

    // The new snapshot keeps `two` and drops `one`.
    s.update_snapshot(snapshot(2, "c1", vec![check("two", 10), check("three", 10)]));

    // `two` kept its run time and status memo: not due yet, not changed.
    let due = s.due_checks(105);
    assert_eq!(due, vec![(0, 1)]); // only the fresh check `three`
    assert!(!s.route_delta(&delta("c1", "two", "ok", 106)));

    // `one` lost its memory: if it returns later, it is due at once.
    s.update_snapshot(snapshot(3, "c1", vec![check("one", 10)]));
    assert_eq!(s.due_checks(105), vec![(0, 0)]);
}

#[test]
fn deltas_are_assembled_from_check_outcomes() {
    let outcome = opsmap::native::NativeResult {
        status: String::from("warning"),
        message: Some(String::from("nearly full")),
        metrics: String::from("{\"used_percent\":85.0}"),
    };
    let d = delta_of_result("c1", "disk", outcome, 1234);
    assert_eq!(d.component_id, "c1");
    assert_eq!(d.check_name, "disk");
    assert_eq!(d.status, "warning");
    assert_eq!(d.message.as_deref(), Some("nearly full"));
    assert_eq!(d.metrics.as_deref(), Some("{\"used_percent\":85.0}"));
    assert_eq!(d.timestamp, 1234);
}

#[test]
fn unsent_changes_land_in_the_buffer() {
    let mut buffer = OfflineBuffer::new(10);
    let d = delta("c1", "a", "error", 7);

    // A delivered delta leaves the buffer alone.
    buffer_unsent(&mut buffer, &d, true);
    assert!(buffer.is_empty());

    // An undelivered delta is parked as its encoded frame.
    buffer_unsent(&mut buffer, &d, false);
    assert_eq!(buffer.len(), 1);
    let line = buffer.pop().unwrap();
    let back = decode_delta(&line).unwrap();
    assert_eq!(back.component_id, "c1");
    assert_eq!(back.check_name, "a");
    assert_eq!(back.status, "error");
    assert_eq!(back.timestamp, 7);
}
