//! Wire codec behaviour: the canonical frame text, the delta round trip
//! (including escapes), rejection of malformed frames, and generic
//! envelope framing.

use opsmap::codec::{decode_delta, encode_batch, encode_delta, frame_message, unframe_message};
use opsmap::wire::StatusDelta;

fn sample_delta() -> StatusDelta {
    StatusDelta {
        component_id: String::from("web-1"),
        check_name: String::from("disk_space"),
        status: String::from("ok"),
        message: Some(String::from("Disk usage: 41.2%")),
        metrics: Some(String::from("{\"used_percent\":41.2}")),
        timestamp: 1700000000123,
    }
}

#[test]
fn encode_delta_canonical_text() {
    let d = StatusDelta {
        component_id: String::from("c1"),
        check_name: String::from("ping"),
        status: String::from("ok"),
        message: None,
        metrics: None,
        timestamp: 42,
    };
    let text = encode_delta(&d);
    assert_eq!(
        text,
        "{\"type\":\"status_delta\",\"payload\":{\"component_id\":\"c1\",\"check_name\":\"ping\",\"status\":\"ok\",\"timestamp\":42,\"message\":null,\"metrics\":null}}"
    );
}

#[test]
fn delta_round_trip_plain() {
    let d = sample_delta();
    let text = encode_delta(&d);
    let back = decode_delta(&text).expect("canonical frame must decode");
    assert_eq!(back.component_id, "web-1");
    assert_eq!(back.check_name, "disk_space");
    assert_eq!(back.status, "ok");
    assert_eq!(back.message.as_deref(), Some("Disk usage: 41.2%"));
    assert_eq!(back.metrics.as_deref(), Some("{\"used_percent\":41.2}"));
    assert_eq!(back.timestamp, 1700000000123);
}

#[test]
fn delta_round_trip_with_escapes() {
    let d = StatusDelta {
        component_id: String::from("a\"b"),
        check_name: String::from("c\\d"),
        status: String::from("error"),
        message: Some(String::from("line1\nline2\ttabbed\rcr")),
        metrics: None,
        timestamp: 0,
    };
    let text = encode_delta(&d);
    // The encoded frame stays on a single line.
    assert!(!text.contains('\n'));
    let back = decode_delta(&text).expect("escaped frame must decode");
    assert_eq!(back.component_id, "a\"b");
    assert_eq!(back.check_name, "c\\d");
    assert_eq!(back.message.as_deref(), Some("line1\nline2\ttabbed\rcr"));
    assert_eq!(back.timestamp, 0);
}

#[test]
fn decode_rejects_malformed_frames() {
    assert!(decode_delta("").is_none());
    assert!(decode_delta("{\"type\":\"status_delta\"}").is_none());
    // Wrong tag.
    assert!(decode_delta(
        "{\"type\":\"status_update\",\"payload\":{\"component_id\":\"c\",\"check_name\":\"n\",\"status\":\"ok\",\"timestamp\":1,\"message\":null,\"metrics\":null}}"
    ).is_none());
    // Unterminated string.
    assert!(decode_delta("{\"type\":\"status_delta\",\"payload\":{\"component_id\":\"c").is_none());
    // Leading zero in the timestamp is not canonical.
    assert!(decode_delta(
        "{\"type\":\"status_delta\",\"payload\":{\"component_id\":\"c\",\"check_name\":\"n\",\"status\":\"ok\",\"timestamp\":007,\"message\":null,\"metrics\":null}}"
    ).is_none());
    // Empty metrics text.
    assert!(decode_delta(
        "{\"type\":\"status_delta\",\"payload\":{\"component_id\":\"c\",\"check_name\":\"n\",\"status\":\"ok\",\"timestamp\":1,\"message\":null,\"metrics\":}}"
    ).is_none());
}

#[test]
fn decode_is_not_the_identity() {
    // A decoded field differs from the raw text it was read from: escapes
    // are resolved.
    let text = "{\"type\":\"status_delta\",\"payload\":{\"component_id\":\"a\\\"b\",\"check_name\":\"n\",\"status\":\"ok\",\"timestamp\":1,\"message\":null,\"metrics\":null}}";
    let back = decode_delta(text).unwrap();
    assert_eq!(back.component_id, "a\"b");
}

#[test]
fn batch_encoding_joins_payloads() {
    let d1 = StatusDelta {
        component_id: String::from("c1"),
        check_name: String::from("m"),
        status: String::from("ok"),
        message: None,
        metrics: None,
        timestamp: 1,
    };
    let d2 = StatusDelta {
        component_id: String::from("c2"),
        check_name: String::from("m"),
        status: String::from("warning"),
        message: None,
        metrics: None,
        timestamp: 2,
    };
    let text = encode_batch(&vec![d1, d2]);
    assert_eq!(
        text,
        "{\"type\":\"status_batch\",\"payload\":{\"deltas\":[{\"component_id\":\"c1\",\"check_name\":\"m\",\"status\":\"ok\",\"timestamp\":1,\"message\":null,\"metrics\":null},{\"component_id\":\"c2\",\"check_name\":\"m\",\"status\":\"warning\",\"timestamp\":2,\"message\":null,\"metrics\":null}]}}"
    );
}

#[test]
fn empty_batch_is_an_empty_array() {
    let text = encode_batch(&Vec::new());
    assert_eq!(text, "{\"type\":\"status_batch\",\"payload\":{\"deltas\":[]}}");
}

#[test]
fn frame_and_unframe_round_trip() {
    let framed = frame_message("command_response", "{\"command_id\":\"x\"}");
    assert_eq!(
        framed,
        "{\"type\":\"command_response\",\"payload\":{\"command_id\":\"x\"}}"
    );
    let (tag, payload) = unframe_message(&framed).unwrap();
    assert_eq!(tag, "command_response");
    assert_eq!(payload, "{\"command_id\":\"x\"}");
}

#[test]
fn unframe_rejects_malformed_text() {
    assert!(unframe_message("").is_none());
    assert!(unframe_message("{\"type\":\"pong\"}").is_none());
    assert!(unframe_message("{\"type\":\"x\",\"payload\":").is_none());
}
