//! Registry behaviour: registration, label selection, heartbeats,
//! staleness sweeps, and command routing.

use opsmap::registry::{AgentCommand, AgentInfo, AgentRegistry, SendError};
use opsmap::router::{route_command, find_agent_for_component, AgentSelector};
use opsmap::wire::Label;

fn info(id: &str, host: &str, labels: Vec<Label>) -> AgentInfo {
    AgentInfo {
        id: String::from(id),
        hostname: String::from(host),
        labels,
        version: String::from("1.0"),
        os: String::from("linux"),
        connected_at: 1000,
        last_heartbeat: 1000,
    }
}

fn label(key: &str, value: &str) -> Label {
    Label { key: String::from(key), value: String::from(value) }
}

fn command(id: &str) -> AgentCommand {
    AgentCommand {
        id: String::from(id),
        command_type: String::from("check"),
        component_id: String::from("comp"),
        action_name: None,
        params: String::from("null"),
        timeout_secs: 10,
    }
}

#[test]
fn test_register_unregister() {
    let mut registry = AgentRegistry::new();

    registry.register(info("agent-1", "host-1", Vec::new()));
    assert_eq!(registry.count(), 1);

    registry.unregister("agent-1");
    assert_eq!(registry.count(), 0);
}

#[test]
fn test_find_by_labels() {
    let mut registry = AgentRegistry::new();

    let labels = vec![label("role", "database")];
    registry.register(info("agent-1", "host-1", vec![label("role", "database")]));

    let found = registry.find_by_labels(&labels);
    assert_eq!(found.len(), 1);

    let other_labels = vec![label("role", "web")];
    let not_found = registry.find_by_labels(&other_labels);
    assert_eq!(not_found.len(), 0);
}

#[test]
fn empty_selector_matches_nobody() {
    let mut registry = AgentRegistry::new();
    registry.register(info("a1", "h1", vec![label("role", "db")]));
    assert_eq!(registry.find_by_labels(&Vec::new()).len(), 0);
}

#[test]
fn selector_needs_every_pair() {
    let mut registry = AgentRegistry::new();
    registry.register(info("a1", "h1", vec![label("role", "db"), label("env", "prod")]));
    registry.register(info("a2", "h2", vec![label("role", "web"), label("env", "prod")]));

    let picked = registry.find_by_labels(&vec![label("role", "db"), label("env", "prod")]);
    assert_eq!(picked.len(), 1);
    assert_eq!(picked[0].id, "a1");

    let both = registry.find_by_labels(&vec![label("env", "prod")]);
    assert_eq!(both.len(), 2);
}

#[test]
fn new_session_replaces_old_one() {
    let mut registry = AgentRegistry::new();
    registry.register(info("a1", "old-host", Vec::new()));
    registry.register(info("a1", "new-host", Vec::new()));
    assert_eq!(registry.count(), 1);
    assert_eq!(registry.get("a1").unwrap().hostname, "new-host");
}

#[test]
fn heartbeat_updates_the_clock() {
    let mut registry = AgentRegistry::new();
    registry.register(info("a1", "h1", Vec::new()));
    registry.heartbeat("a1", 5000);
    assert_eq!(registry.get("a1").unwrap().last_heartbeat, 5000);
    // A heartbeat for an unknown agent changes nothing.
    registry.heartbeat("ghost", 6000);
    assert_eq!(registry.count(), 1);
}

#[test]
fn cleanup_removes_only_stale_agents() {
    let mut registry = AgentRegistry::new();
    registry.register(info("fresh", "h1", Vec::new()));
    registry.register(info("stale", "h2", Vec::new()));
    registry.heartbeat("fresh", 100_000);
    registry.heartbeat("stale", 10_000);
    // Cutoff: 130 s minus 60 s of allowance, in milliseconds.
    registry.cleanup_stale(130_000, 60);
    assert_eq!(registry.count(), 1);
    assert!(registry.get("fresh").is_some());
    assert!(registry.get("stale").is_none());
}

#[test]
fn send_command_fails_for_unknown_agent() {
    let mut registry = AgentRegistry::new();
    let r = registry.send_command("nobody", command("c1"));
    assert!(matches!(r, Err(SendError::AgentNotFound)));
}

#[test]
fn send_command_queues_until_full() {
    let mut registry = AgentRegistry::new();
    registry.register(info("a1", "h1", Vec::new()));
    for n in 0..100 {
        let r = registry.send_command("a1", command(&format!("c{}", n)));
        assert!(r.is_ok());
    }
    let overflow = registry.send_command("a1", command("c100"));
    assert!(matches!(overflow, Err(SendError::QueueFull)));
}

#[test]
fn find_by_hostname_returns_first_match() {
    let mut registry = AgentRegistry::new();
    registry.register(info("a1", "shared", Vec::new()));
    registry.register(info("a2", "shared", Vec::new()));
    assert_eq!(registry.find_by_hostname("shared").unwrap().id, "a1");
    assert!(registry.find_by_hostname("absent").is_none());
}

#[test]
fn label_routing_reaches_exactly_the_selected_agent() {
    let mut registry = AgentRegistry::new();
    registry.register(info("a1", "h1", vec![label("role", "db"), label("env", "prod")]));
    registry.register(info("a2", "h2", vec![label("role", "web"), label("env", "prod")]));

    let results = route_command(
        &mut registry,
        None,
        Some(&vec![label("role", "db")]),
        command("c1"),
    );
    assert_eq!(results.len(), 1);
    assert_eq!(results[0].agent_id, "a1");
    assert!(results[0].success);
    assert!(results[0].error.is_none());
}

#[test]
fn routing_by_id_reports_missing_agents() {
    let mut registry = AgentRegistry::new();
    let results = route_command(&mut registry, Some(&String::from("ghost")), None, command("c1"));
    assert_eq!(results.len(), 1);
    assert!(!results[0].success);
    assert_eq!(results[0].error.as_deref(), Some("agent not found"));
}

#[test]
fn component_selector_prefers_the_explicit_id() {
    let mut registry = AgentRegistry::new();
    registry.register(info("a1", "h1", vec![label("role", "db")]));
    registry.register(info("a2", "h2", vec![label("role", "db")]));

    let by_id = AgentSelector { agent_id: Some(String::from("a2")), labels: None };
    assert_eq!(find_agent_for_component(&registry, &by_id).unwrap().id, "a2");

    let by_labels = AgentSelector { agent_id: None, labels: Some(vec![label("role", "db")]) };
    assert_eq!(find_agent_for_component(&registry, &by_labels).unwrap().id, "a1");

    let neither = AgentSelector { agent_id: None, labels: None };
    assert!(find_agent_for_component(&registry, &neither).is_none());
}

#[test]
fn selector_from_json_reads_both_fields() {
    let sel = AgentSelector::from_json("{\"agent_id\":\"a7\",\"labels\":{\"role\":\"db\"}}");
    assert_eq!(sel.agent_id.as_deref(), Some("a7"));
    let labels = sel.labels.unwrap();
    assert_eq!(labels.len(), 1);
    assert_eq!(labels[0].key, "role");
    assert_eq!(labels[0].value, "db");

    let none = AgentSelector::from_json("{}");
    assert!(none.agent_id.is_none());
    assert!(none.labels.is_none());
}
