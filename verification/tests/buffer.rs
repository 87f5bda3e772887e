//! Offline buffer behaviour: FIFO order, the bound with eviction, and the
//! on-disk round trip.

use opsmap::buffer::OfflineBuffer;

fn json_entry(n: i64) -> String {
    let mut m = serde_json::Map::new();
    m.insert("test".to_string(), serde_json::Value::from(n));
    serde_json::to_string(&serde_json::Value::Object(m)).unwrap()
}

#[test]
fn test_push_pop() {
    let mut buffer = OfflineBuffer::new(10);

    buffer.push(json_entry(1));
    buffer.push(json_entry(2));

    assert_eq!(buffer.len(), 2);

    let item = buffer.pop().unwrap();
    let parsed: serde_json::Value = serde_json::from_str(&item).unwrap();
    assert_eq!(parsed["test"], 1);

    let item = buffer.pop().unwrap();
    let parsed: serde_json::Value = serde_json::from_str(&item).unwrap();
    assert_eq!(parsed["test"], 2);

    assert!(buffer.is_empty());
}

#[test]
fn test_max_size() {
    let mut buffer = OfflineBuffer::new(2);

    buffer.push(json_entry(1));
    buffer.push(json_entry(2));
    buffer.push(json_entry(3)); // evicts the oldest

    assert_eq!(buffer.len(), 2);

    let item = buffer.pop().unwrap();
    let parsed: serde_json::Value = serde_json::from_str(&item).unwrap();
    assert_eq!(parsed["test"], 2); // the first entry was dropped
}

#[test]
fn saturation_keeps_last_entries() {
    let mut buffer = OfflineBuffer::new(3);
    for n in 1..=5 {
        buffer.push(json_entry(n));
    }
    assert_eq!(buffer.len(), 3);
    for expected in 3..=5 {
        let item = buffer.pop().unwrap();
        let parsed: serde_json::Value = serde_json::from_str(&item).unwrap();
        assert_eq!(parsed["test"], expected);
    }
    assert!(buffer.is_empty());
}

#[test]
fn file_contents_round_trip() {
    let mut buffer = OfflineBuffer::new(10);
    buffer.push(json_entry(1));
    buffer.push(json_entry(2));
    buffer.push(String::from("{\"x\":\"y\"}"));

    let contents = buffer.file_contents();
    assert_eq!(contents, "{\"test\":1}\n{\"test\":2}\n{\"x\":\"y\"}\n");

    let mut reloaded = OfflineBuffer::from_file_contents(10, &contents);
    assert_eq!(reloaded.len(), 3);
    assert_eq!(reloaded.pop().unwrap(), json_entry(1));
    assert_eq!(reloaded.pop().unwrap(), json_entry(2));
    assert_eq!(reloaded.pop().unwrap(), "{\"x\":\"y\"}");
}

#[test]
fn load_caps_at_max_size() {
    let contents = "1\n2\n3\n4\n";
    let mut loaded = OfflineBuffer::from_file_contents(2, contents);
    assert_eq!(loaded.len(), 2);
    assert_eq!(loaded.pop().unwrap(), "1");
    assert_eq!(loaded.pop().unwrap(), "2");
}

#[test]
fn load_skips_blank_lines() {
    let mut loaded = OfflineBuffer::from_file_contents(10, "1\n\n\n2\n");
    assert_eq!(loaded.len(), 2);
    assert_eq!(loaded.pop().unwrap(), "1");
    assert_eq!(loaded.pop().unwrap(), "2");
}

#[test]
fn load_skips_lines_that_are_not_json() {
    let contents = "{\"test\":1}\nnot json at all\n{\"test\":2}\n";
    let mut loaded = OfflineBuffer::from_file_contents(10, contents);
    assert_eq!(loaded.len(), 2);
    assert_eq!(loaded.pop().unwrap(), "{\"test\":1}");
    assert_eq!(loaded.pop().unwrap(), "{\"test\":2}");
    // A file of only corrupt lines loads as empty.
    let empty = OfflineBuffer::from_file_contents(10, "x\ny\n");
    assert!(empty.is_empty());
}

#[test]
fn clear_empties_the_queue() {
    let mut buffer = OfflineBuffer::new(4);
    buffer.push(json_entry(1));
    buffer.push(json_entry(2));
    buffer.clear();
    assert!(buffer.is_empty());
    assert_eq!(buffer.pop(), None);
}
