use hermenia::Json;
use hermenia::eq_json;
use hermenia::hydrate_event;
use hermenia::json_text;
use hermenia::parse_json;
use hermenia::parse_payload;

#[test]
fn serializes_scalars() {
    assert_eq!(json_text(&Json::Null), "null");
    assert_eq!(json_text(&Json::Bool(true)), "true");
    assert_eq!(json_text(&Json::Bool(false)), "false");
    assert_eq!(json_text(&Json::Int(0)), "0");
    assert_eq!(json_text(&Json::Int(1234567890)), "1234567890");
    assert_eq!(json_text(&Json::Int(-42)), "-42");
    assert_eq!(json_text(&Json::Int(i64::MIN)), "-9223372036854775808");
    assert_eq!(json_text(&Json::Int(i64::MAX)), "9223372036854775807");
}

#[test]
fn serializes_strings_with_escapes() {
    assert_eq!(json_text(&Json::Str("plain".to_string())), "\"plain\"");
    assert_eq!(json_text(&Json::Str("a\"b\\c".to_string())), "\"a\\\"b\\\\c\"");
    assert_eq!(json_text(&Json::Str("a\tb\nc\rd".to_string())), "\"a\\tb\\nc\\rd\"");
    assert_eq!(json_text(&Json::Str(String::new())), "\"\"");
}

#[test]
fn serializes_containers() {
    let arr = Json::Arr(vec![Json::Int(1), Json::Null, Json::Bool(false)]);
    assert_eq!(json_text(&arr), "[1,null,false]");
    let obj = Json::Obj(vec![
        ("a".to_string(), Json::Int(1)),
        ("b".to_string(), Json::Arr(vec![])),
    ]);
    assert_eq!(json_text(&obj), "{\"a\":1,\"b\":[]}");
}

#[test]
fn parses_what_it_prints() {
    let samples = vec![
        Json::Null,
        Json::Bool(true),
        Json::Int(-907),
        Json::Int(i64::MIN),
        Json::Int(i64::MAX),
        Json::Str("with \"quotes\" and \\slashes\\".to_string()),
        Json::Arr(vec![Json::Int(1), Json::Arr(vec![Json::Str("x".to_string())])]),
        Json::Obj(vec![
            ("k".to_string(), Json::Obj(vec![("n".to_string(), Json::Int(7))])),
            ("empty".to_string(), Json::Obj(vec![])),
        ]),
    ];
    for v in samples {
        let text = json_text(&v);
        let back = parse_json(&text).expect("own output must parse");
        assert!(eq_json(&v, &back));
        assert_eq!(json_text(&back), text);
    }
}

#[test]
fn parses_common_json() {
    let v = parse_json(" { \"a\" : [ 1 , -2 , \"x\\ty\" ] , \"b\" : null } ").unwrap();
    assert_eq!(json_text(&v), "{\"a\":[1,-2,\"x\\ty\"],\"b\":null}");
}

#[test]
fn rejects_bad_json() {
    assert!(parse_json("not json").is_none());
    assert!(parse_json("").is_none());
    assert!(parse_json("{\"a\":}").is_none());
    assert!(parse_json("[1,2").is_none());
    assert!(parse_json("12x").is_none());
    assert!(parse_json("1.5").is_none());
    // out of 64-bit range
    assert!(parse_json("9223372036854775808").is_none());
    assert!(parse_json("-9223372036854775809").is_none());
}

#[test]
fn parses_range_edges() {
    let v = parse_json("-9223372036854775808").unwrap();
    assert!(eq_json(&v, &Json::Int(i64::MIN)));
    let w = parse_json("9223372036854775807").unwrap();
    assert!(eq_json(&w, &Json::Int(i64::MAX)));
}

#[test]
fn payload_degrades_to_null() {
    assert!(eq_json(&parse_payload("nonsense"), &Json::Null));
    assert!(eq_json(&parse_payload("{\"a\":1}"), &Json::Obj(vec![(
        "a".to_string(),
        Json::Int(1),
    )])));
}

#[test]
fn structural_equality() {
    let a = Json::Obj(vec![("k".to_string(), Json::Arr(vec![Json::Int(1)]))]);
    let b = Json::Obj(vec![("k".to_string(), Json::Arr(vec![Json::Int(1)]))]);
    let c = Json::Obj(vec![("k".to_string(), Json::Arr(vec![Json::Int(2)]))]);
    assert!(eq_json(&a, &b));
    assert!(!eq_json(&a, &c));
    assert!(!eq_json(&Json::Null, &Json::Bool(false)));
}

#[test]
fn hydrated_event_shape() {
    let e = hydrate_event("node_created", "{\"x\":1}");
    match e {
        Json::Obj(fields) => {
            assert_eq!(fields.len(), 4);
            assert_eq!(fields[0].0, "id");
            match &fields[0].1 {
                Json::Str(id) => assert_eq!(id.chars().count(), 36),
                _ => panic!("id must be a string"),
            }
            assert_eq!(fields[1].0, "createTime");
            match &fields[1].1 {
                Json::Int(t) => assert!(*t > 0),
                _ => panic!("createTime must be an integer"),
            }
            assert_eq!(fields[2].0, "type");
            assert!(eq_json(&fields[2].1, &Json::Str("node_created".to_string())));
            assert_eq!(fields[3].0, "payload");
            assert!(eq_json(&fields[3].1, &Json::Obj(vec![("x".to_string(), Json::Int(1))])));
        },
        _ => panic!("an event record is an object"),
    }
}

#[test]
fn hydrated_ids_differ() {
    let a = hydrate_event("e", "{}");
    let b = hydrate_event("e", "{}");
    let id = |e: &Json| match e {
        Json::Obj(fields) => json_text(&fields[0].1),
        _ => panic!("an event record is an object"),
    };
    assert_ne!(id(&a), id(&b));
}

#[test]
fn hydrated_event_malformed_payload_is_null() {
    let e = hydrate_event("any", "][");
    match e {
        Json::Obj(fields) => assert!(eq_json(&fields[3].1, &Json::Null)),
        _ => panic!("an event record is an object"),
    }
}

#[test]
fn serializer_agrees_with_serde() {
    let v = Json::Obj(vec![
        ("s".to_string(), Json::Str("a\"b".to_string())),
        ("n".to_string(), Json::Int(-5)),
        ("l".to_string(), Json::Arr(vec![Json::Bool(true), Json::Null])),
    ]);
    let mine = json_text(&v);
    let theirs: serde_json::Value = serde_json::from_str(&mine).expect("serde accepts it");
    assert_eq!(theirs["s"], serde_json::Value::from("a\"b"));
    assert_eq!(theirs["n"], serde_json::Value::from(-5));
    assert_eq!(theirs["l"][0], serde_json::Value::from(true));
    assert!(theirs["l"][1].is_null());
}
