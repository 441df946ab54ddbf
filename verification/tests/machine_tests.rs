use hermenia::Json;
use hermenia::Machine;
use hermenia::NodeReducer;
use hermenia::RecordLog;
use hermenia::json_text;

fn node_machine(initial: Json) -> Machine<NodeReducer, RecordLog> {
    Machine::new(
        vec![("node".to_string(), initial)],
        vec![("node".to_string(), Json::Obj(Vec::new()), NodeReducer {})],
        vec![RecordLog::new()],
    )
}

#[test]
fn empty_state_noop_returns_empty_object() {
    let mut m: Machine<NodeReducer, RecordLog> =
        Machine::new(Vec::new(), Vec::new(), vec![RecordLog::new()]);
    let out = m.consume("noop_event".to_string(), None);
    assert_eq!(out, "{}");
    assert_eq!(m.listeners[0].notes.len(), 0);
}

#[test]
fn node_created_inserts_and_notifies_once() {
    let mut m = node_machine(Json::Obj(Vec::new()));
    let out = m.consume(
        "node_created".to_string(),
        Some("{\"id\":\"n1\",\"payload\":{\"x\":1}}".to_string()),
    );
    assert_eq!(out, "{\"node\":{\"n1\":{\"x\":1}}}");
    assert_eq!(m.listeners[0].notes.len(), 1);
    assert_eq!(m.listeners[0].notes[0].0, "node");
    assert_eq!(json_text(&m.listeners[0].notes[0].1), "{\"n1\":{\"x\":1}}");
}

#[test]
fn node_deleted_then_repeat_is_silent() {
    let mut m = node_machine(Json::Obj(Vec::new()));
    m.consume(
        "node_created".to_string(),
        Some("{\"id\":\"n1\",\"payload\":{\"x\":1}}".to_string()),
    );
    let out = m.consume("node_deleted".to_string(), Some("{\"id\":\"n1\"}".to_string()));
    assert_eq!(out, "{\"node\":{}}");
    assert_eq!(m.listeners[0].notes.len(), 2);
    // a second identical deletion changes nothing and notifies nobody
    let out2 = m.consume("node_deleted".to_string(), Some("{\"id\":\"n1\"}".to_string()));
    assert_eq!(out2, "{\"node\":{}}");
    assert_eq!(m.listeners[0].notes.len(), 2);
}

#[test]
fn malformed_payload_does_not_abort() {
    let mut m = node_machine(Json::Obj(Vec::new()));
    let out = m.consume("node_created".to_string(), Some("not json".to_string()));
    assert_eq!(out, "{\"node\":{}}");
    assert_eq!(m.listeners[0].notes.len(), 0);
}

#[test]
fn absent_payload_equals_empty_object_payload() {
    let mut a = node_machine(Json::Obj(Vec::new()));
    let mut b = node_machine(Json::Obj(Vec::new()));
    let out_a = a.consume("node_created".to_string(), None);
    let out_b = b.consume("node_created".to_string(), Some("{}".to_string()));
    assert_eq!(out_a, out_b);
    assert_eq!(a.listeners[0].notes.len(), b.listeners[0].notes.len());
}

#[test]
fn unknown_event_notifies_nobody() {
    let mut m = node_machine(Json::Obj(vec![(
        "n1".to_string(),
        Json::Obj(vec![("x".to_string(), Json::Int(1))]),
    )]));
    let out = m.consume("unrelated".to_string(), Some("{\"id\":\"n1\"}".to_string()));
    assert_eq!(out, "{\"node\":{\"n1\":{\"x\":1}}}");
    assert_eq!(m.listeners[0].notes.len(), 0);
}

#[test]
fn untouched_slice_is_isolated() {
    let mut m: Machine<NodeReducer, RecordLog> = Machine::new(
        vec![
            ("node".to_string(), Json::Obj(Vec::new())),
            ("other".to_string(), Json::Str("kept".to_string())),
        ],
        vec![("node".to_string(), Json::Obj(Vec::new()), NodeReducer {})],
        vec![RecordLog::new()],
    );
    let out = m.consume(
        "node_created".to_string(),
        Some("{\"id\":\"n1\",\"payload\":true}".to_string()),
    );
    assert_eq!(out, "{\"node\":{\"n1\":true},\"other\":\"kept\"}");
    // exactly one notification, and it names the node slice only
    assert_eq!(m.listeners[0].notes.len(), 1);
    assert_eq!(m.listeners[0].notes[0].0, "node");
}

#[test]
fn replace_existing_node_fires_once() {
    let mut m = node_machine(Json::Obj(vec![("n1".to_string(), Json::Int(1))]));
    let out = m.consume(
        "node_created".to_string(),
        Some("{\"id\":\"n1\",\"payload\":2}".to_string()),
    );
    assert_eq!(out, "{\"node\":{\"n1\":2}}");
    assert_eq!(m.listeners[0].notes.len(), 1);
}

#[test]
fn equal_replacement_is_silent() {
    // the reducer recomputes the same entry: structural equality suppresses
    // both the commit and the notification
    let mut m = node_machine(Json::Obj(vec![("n1".to_string(), Json::Int(2))]));
    let out = m.consume(
        "node_created".to_string(),
        Some("{\"id\":\"n1\",\"payload\":2}".to_string()),
    );
    assert_eq!(out, "{\"node\":{\"n1\":2}}");
    assert_eq!(m.listeners[0].notes.len(), 0);
}

#[test]
fn consume_output_is_json_to_serde() {
    let mut m = node_machine(Json::Obj(Vec::new()));
    let out = m.consume(
        "node_created".to_string(),
        Some("{\"id\":\"n1\",\"payload\":{\"x\":1}}".to_string()),
    );
    let v: serde_json::Value = serde_json::from_str(&out).expect("valid JSON expected");
    assert_eq!(v["node"]["n1"]["x"], serde_json::Value::from(1));
}

#[test]
fn listeners_notified_in_registration_order() {
    let mut m = node_machine(Json::Obj(Vec::new()));
    m.register(RecordLog::new());
    m.consume(
        "node_created".to_string(),
        Some("{\"id\":\"n1\",\"payload\":null}".to_string()),
    );
    assert_eq!(m.listeners.len(), 2);
    assert_eq!(m.listeners[0].notes.len(), 1);
    assert_eq!(m.listeners[1].notes.len(), 1);
    assert_eq!(m.listeners[1].notes[0].0, "node");
}
