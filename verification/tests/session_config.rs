//! Configuration defaults, identity rules, and session-level message
//! handling on both sides of a gateway.

use opsmap::agent_config::{
    compose_agent_id, default_agent_id, default_batch_interval, default_buffer_size,
    default_check_interval, default_heartbeat_interval, default_max_concurrent,
    default_reconnect_interval, default_timeout, default_tls_enabled, generate_agent_id,
    id_needs_generation, AgentConfig,
};
use opsmap::gateway_config::{
    default_listen_port, default_verify_clients, metrics_text, GatewayConfig,
};
use opsmap::session::{
    agent_session_action, agent_info_of, backend_action, encode_gateway_register, encode_register,
    gateway_frame_action, parse_agent_command, parse_command_payload, registration_payload,
    AgentAction, BackendAction, SessionAction,
};
use opsmap::wire::{Label, RegisterPayload};

#[test]
fn test_default_config() {
    let config = AgentConfig::default();
    assert_eq!(config.agent.id, "auto");
    assert!(config.tls.enabled);
}

#[test]
fn agent_defaults_match_the_documented_values() {
    let c = AgentConfig::default();
    assert_eq!(default_agent_id(), "auto");
    assert_eq!(default_reconnect_interval(), 10);
    assert_eq!(default_heartbeat_interval(), 30);
    assert_eq!(default_timeout(), 60);
    assert!(default_tls_enabled());
    assert_eq!(default_check_interval(), 30);
    assert_eq!(default_batch_interval(), 60);
    assert_eq!(default_max_concurrent(), 10);
    assert_eq!(default_buffer_size(), 10000);
    assert_eq!(c.gateway.url, "wss://gateway.opsmap.local:443");
    assert_eq!(c.buffer.file_path.as_deref(), Some("/var/lib/opsmap/buffer.json"));
    assert!(c.labels.is_empty());
}

#[test]
fn gateway_defaults_match_the_documented_values() {
    let c = GatewayConfig::default();
    assert_eq!(default_listen_port(), 8443);
    assert_eq!(opsmap::gateway_config::default_reconnect_interval(), 5);
    assert!(default_verify_clients());
    assert_eq!(c.gateway.id, "gateway-1");
    assert_eq!(c.gateway.zone, "default");
    assert_eq!(c.backend.url, "wss://backend.opsmap.local:443/gateway");
}

#[test]
fn metrics_exposition_names_the_gauge() {
    let text = metrics_text(3);
    assert_eq!(
        text,
        "# HELP opsmap_gateway_connected_agents Number of connected agents\n# TYPE opsmap_gateway_connected_agents gauge\nopsmap_gateway_connected_agents 3\n"
    );
}

#[test]
fn agent_ids_are_synthesised_on_demand() {
    assert!(id_needs_generation("auto"));
    assert!(id_needs_generation(""));
    assert!(!id_needs_generation("db-7"));

    assert_eq!(compose_agent_id("web01", "1a2b3c4d"), "web01-1a2b3c4d");

    let generated = generate_agent_id();
    // host name, one dash, eight random characters
    assert!(generated.len() >= 10);
    let chars: Vec<char> = generated.chars().collect();
    assert_eq!(chars[chars.len() - 9], '-');
}

#[test]
fn registration_reads_the_payload() {
    let reg = registration_payload(
        "{\"agent_id\":\"a1\",\"hostname\":\"h1\",\"labels\":{\"role\":\"db\"},\"version\":\"1.0\",\"os\":\"linux\"}",
    )
    .unwrap();
    assert_eq!(reg.agent_id, "a1");
    assert_eq!(reg.hostname, "h1");
    assert_eq!(reg.version, "1.0");
    assert_eq!(reg.os, "linux");
    assert_eq!(reg.labels.len(), 1);
    assert_eq!(reg.labels[0].key, "role");
    assert_eq!(reg.labels[0].value, "db");

    assert!(registration_payload("{\"agent_id\":\"a1\"}").is_none());

    let info = agent_info_of(reg, 777);
    assert_eq!(info.id, "a1");
    assert_eq!(info.connected_at, 777);
    assert_eq!(info.last_heartbeat, 777);
}

#[test]
fn register_frames_are_canonical() {
    let reg = RegisterPayload {
        agent_id: String::from("a1"),
        hostname: String::from("h1"),
        labels: vec![
            Label { key: String::from("env"), value: String::from("prod") },
            Label { key: String::from("role"), value: String::from("db") },
        ],
        version: String::from("1.0"),
        os: String::from("linux"),
    };
    let frame = encode_register(&reg);
    assert_eq!(
        frame,
        "{\"type\":\"register\",\"payload\":{\"agent_id\":\"a1\",\"hostname\":\"h1\",\"labels\":{\"env\":\"prod\",\"role\":\"db\"},\"version\":\"1.0\",\"os\":\"linux\"}}"
    );
    // The gateway reads its own fields back out of that frame's payload.
    let (_, payload) = opsmap::codec::unframe_message(&frame).unwrap();
    let back = registration_payload(&payload).unwrap();
    assert_eq!(back.agent_id, "a1");
    assert_eq!(back.labels.len(), 2);
}

#[test]
fn agent_frames_are_demultiplexed() {
    assert!(matches!(agent_session_action("{\"type\":\"pong\"}"), SessionAction::Heartbeat));
    assert!(matches!(agent_session_action("garbage"), SessionAction::Ignored));
    assert!(matches!(
        agent_session_action("{\"type\":\"register\",\"payload\":{}}"),
        SessionAction::DuplicateRegister
    ));

    match agent_session_action("{\"type\":\"status_delta\",\"payload\":{\"x\":1}}") {
        SessionAction::Forward(f) => {
            assert_eq!(f, "{\"type\":\"status_update\",\"payload\":{\"x\":1}}");
        },
        _ => panic!("a delta must be forwarded"),
    }

    match agent_session_action(
        "{\"type\":\"status_batch\",\"payload\":{\"deltas\":[{\"a\":1},{\"b\":2}]}}",
    ) {
        SessionAction::ForwardBatch(v) => {
            assert_eq!(v.len(), 2);
            assert_eq!(v[0], "{\"type\":\"status_update\",\"payload\":{\"a\":1}}");
            assert_eq!(v[1], "{\"type\":\"status_update\",\"payload\":{\"b\":2}}");
        },
        _ => panic!("a batch must fan out"),
    }

    match agent_session_action("{\"type\":\"command_response\",\"payload\":{\"id\":\"c\"}}") {
        SessionAction::Forward(f) => {
            assert_eq!(f, "{\"type\":\"command_response\",\"payload\":{\"id\":\"c\"}}");
        },
        _ => panic!("a response must be forwarded"),
    }
}

#[test]
fn gateway_frames_are_demultiplexed_on_the_agent() {
    assert!(matches!(gateway_frame_action("{\"type\":\"ping\"}"), AgentAction::ReplyPong));
    assert!(matches!(gateway_frame_action("junk"), AgentAction::Ignored));

    match gateway_frame_action("{\"type\":\"snapshot\",\"payload\":{\"version\":3}}") {
        AgentAction::ApplySnapshot(p) => assert_eq!(p, "{\"version\":3}"),
        _ => panic!("a snapshot payload must be handed on"),
    }

    match gateway_frame_action(
        "{\"type\":\"command\",\"payload\":{\"id\":\"c9\",\"command_type\":\"check\",\"component_id\":\"db\"}}",
    ) {
        AgentAction::RunCommand(cmd) => {
            assert_eq!(cmd.id, "c9");
            assert_eq!(cmd.command_type, "check");
            assert_eq!(cmd.timeout_secs, 60);
        },
        _ => panic!("a readable command must run"),
    }

    match gateway_frame_action(
        "{\"type\":\"config_update\",\"payload\":{\"check_interval_secs\":15}}",
    ) {
        AgentAction::UpdateConfig(u) => assert_eq!(u.check_interval_secs, Some(15)),
        _ => panic!("a configuration update must be read"),
    }
}

#[test]
fn gateway_register_frames_are_canonical() {
    let reg = opsmap::gateway_config::RegisterPayload {
        gateway_id: String::from("gw-1"),
        zone: String::from("eu"),
        version: String::from("1.0"),
        agents: vec![opsmap::registry::AgentInfo {
            id: String::from("a1"),
            hostname: String::from("h1"),
            labels: vec![Label { key: String::from("role"), value: String::from("db") }],
            version: String::from("1.0"),
            os: String::from("linux"),
            connected_at: 5,
            last_heartbeat: 6,
        }],
    };
    let frame = encode_gateway_register(&reg);
    assert_eq!(
        frame,
        "{\"type\":\"register\",\"payload\":{\"gateway_id\":\"gw-1\",\"zone\":\"eu\",\"version\":\"1.0\",\"agents\":[{\"id\":\"a1\",\"hostname\":\"h1\",\"labels\":{\"role\":\"db\"},\"version\":\"1.0\",\"os\":\"linux\",\"connected_at\":5,\"last_heartbeat\":6}]}}"
    );
}

#[test]
fn backend_frames_are_demultiplexed() {
    assert!(matches!(backend_action("{\"type\":\"ping\"}"), BackendAction::Noted));
    assert!(matches!(backend_action("nope"), BackendAction::Ignored));

    let command_frame = "{\"type\":\"command\",\"payload\":{\"agent_id\":\"a1\",\"command\":{\"id\":\"c1\",\"command_type\":\"check\",\"component_id\":\"web\",\"params\":{\"command\":\"true\"},\"timeout_secs\":5}}}";
    match backend_action(command_frame) {
        BackendAction::Route(aid, sel, cmd) => {
            assert_eq!(aid.as_deref(), Some("a1"));
            assert!(sel.is_none());
            assert_eq!(cmd.id, "c1");
            assert_eq!(cmd.command_type, "check");
            assert_eq!(cmd.component_id, "web");
            assert_eq!(cmd.params, "{\"command\":\"true\"}");
            assert_eq!(cmd.timeout_secs, 5);
        },
        _ => panic!("a command must be routed"),
    }

    match backend_action("{\"type\":\"snapshot\",\"payload\":{\"agent_id\":\"a1\",\"snapshot\":{\"version\":2}}}") {
        BackendAction::ForwardSnapshot(aid, frame) => {
            assert_eq!(aid, "a1");
            assert_eq!(frame, "{\"type\":\"snapshot\",\"payload\":{\"version\":2}}");
        },
        _ => panic!("a snapshot must be forwarded"),
    }
}

#[test]
fn command_payloads_fill_their_defaults() {
    let cmd = parse_agent_command("{\"id\":\"c1\",\"command_type\":\"start\",\"component_id\":\"db\"}")
        .unwrap();
    assert_eq!(cmd.params, "null");
    assert_eq!(cmd.timeout_secs, 60);
    assert!(cmd.action_name.is_none());

    assert!(parse_agent_command("{\"id\":\"c1\"}").is_none());

    let payload = parse_command_payload(
        "{\"labels\":{\"role\":\"db\"},\"command\":{\"id\":\"c2\",\"command_type\":\"stop\",\"component_id\":\"db\"}}",
    )
    .unwrap();
    assert!(payload.agent_id.is_none());
    assert_eq!(payload.labels.unwrap()[0].key, "role");
    assert_eq!(payload.command.id, "c2");
}
