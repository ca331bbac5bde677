use event_broker::EventMessage;

#[test]
fn test_event_message_creation() {
    let msg = EventMessage::new("Hello".to_string(), "test_event".to_string());
    assert_eq!(msg.msg, "Hello");
    assert_eq!(msg.event_name, "test_event");
}

#[test]
fn test_event_message_json_serialization() {
    let msg = EventMessage::new("Hello".to_string(), "test_event".to_string());
    let json = msg.to_json().unwrap();
    assert!(json.contains("Hello"));
    assert!(json.contains("test_event"));
}

#[test]
fn test_event_message_json_deserialization() {
    let json = r#"{"msg":"Hello","event_name":"test_event"}"#;
    let msg = EventMessage::from_json(json).unwrap();
    assert_eq!(msg.msg, "Hello");
    assert_eq!(msg.event_name, "test_event");
}

#[test]
fn test_event_message_simple_format() {
    let msg = EventMessage::from_simple_format("test_event:Hello World");
    assert_eq!(msg.event_name, "test_event");
    assert_eq!(msg.msg, "Hello World");
}

#[test]
fn test_event_message_simple_format_no_separator() {
    let msg = EventMessage::from_simple_format("Hello World");
    assert_eq!(msg.msg, "Hello World");
    assert_eq!(msg.event_name, "default");
}

#[test]
fn test_event_message_simple_format_multiple_colons() {
    let msg = EventMessage::from_simple_format("test_event:Hello:World:Test");
    assert_eq!(msg.event_name, "test_event");
    assert_eq!(msg.msg, "Hello:World:Test");
}

#[test]
fn test_event_message_roundtrip_json() {
    let original = EventMessage::new("Test Message".to_string(), "my_event".to_string());
    let json = original.to_json().unwrap();
    let parsed = EventMessage::from_json(&json).unwrap();
    assert_eq!(original.msg, parsed.msg);
    assert_eq!(original.event_name, parsed.event_name);
}

#[test]
fn test_event_message_json_exact_form() {
    let msg = EventMessage::new("Hello".to_string(), "test_event".to_string());
    assert_eq!(msg.to_json().unwrap(), r#"{"msg":"Hello","event_name":"test_event"}"#);
}

#[test]
fn test_event_message_json_escaping_roundtrip() {
    let original = EventMessage::new(
        "say \"hi\" with a \\ backslash".to_string(),
        "quoted".to_string(),
    );
    let json = original.to_json().unwrap();
    let parsed = EventMessage::from_json(&json).unwrap();
    assert_eq!(parsed.msg, "say \"hi\" with a \\ backslash");
    assert_eq!(parsed.event_name, "quoted");
}

#[test]
fn test_event_message_json_reversed_field_order() {
    let msg = EventMessage::from_json(r#"{"event_name":"evt","msg":"payload"}"#).unwrap();
    assert_eq!(msg.msg, "payload");
    assert_eq!(msg.event_name, "evt");
}

#[test]
fn test_event_message_json_decode_error() {
    let res = EventMessage::from_json("not json at all");
    assert!(res.is_err());
    assert_eq!(res.unwrap_err().message(), "structured decode failed");
}

#[test]
fn test_event_message_decode_prefers_structured_form() {
    let msg = EventMessage::decode(r#"{"msg":"a:b","event_name":"structured"}"#);
    assert_eq!(msg.event_name, "structured");
    assert_eq!(msg.msg, "a:b");
}

#[test]
fn test_event_message_decode_simple_first_colon_only() {
    let msg = EventMessage::decode("e:a:b:c");
    assert_eq!(msg.event_name, "e");
    assert_eq!(msg.msg, "a:b:c");
}

#[test]
fn test_event_message_decode_default_fallback() {
    let msg = EventMessage::decode("hello world");
    assert_eq!(msg.event_name, "default");
    assert_eq!(msg.msg, "hello world");
}

#[test]
fn test_event_message_simple_format_trims_parts() {
    let msg = EventMessage::from_simple_format("  spaced  :  padded payload  ");
    assert_eq!(msg.event_name, "spaced");
    assert_eq!(msg.msg, "padded payload");
}

#[test]
fn test_event_message_simple_format_trailing_colon() {
    let msg = EventMessage::from_simple_format("event:");
    assert_eq!(msg.event_name, "default");
    assert_eq!(msg.msg, "event:");
}

#[test]
fn test_to_json_is_standard_json() {
    let msg = EventMessage::new("a \"quoted\" \\ piece".to_string(), "evt".to_string());
    let json = msg.to_json().unwrap();
    let v: serde_json::Value = serde_json::from_str(&json).unwrap();
    assert_eq!(v["msg"], "a \"quoted\" \\ piece");
    assert_eq!(v["event_name"], "evt");
}

#[test]
fn test_from_json_agrees_with_standard_json() {
    let json = r#"{"msg":"payload","event_name":"evt"}"#;
    let mine = EventMessage::from_json(json).unwrap();
    let v: serde_json::Value = serde_json::from_str(json).unwrap();
    assert_eq!(v["msg"].as_str().unwrap(), mine.msg);
    assert_eq!(v["event_name"].as_str().unwrap(), mine.event_name);
}

#[test]
fn test_simple_format_empty_prefix_falls_back() {
    let msg = EventMessage::from_simple_format(":x");
    assert_eq!(msg.event_name, "default");
    assert_eq!(msg.msg, ":x");

    let msg = EventMessage::from_simple_format("   :x");
    assert_eq!(msg.event_name, "default");
    assert_eq!(msg.msg, "   :x");
}

#[test]
fn test_decode_never_yields_empty_event_name() {
    for line in [":x", "  : y ", ":", "", "a:b", "no colon", "{\"msg\":\"m\",\"event_name\":\"e\"}"] {
        let msg = EventMessage::decode(line);
        assert!(!msg.event_name.is_empty(), "empty event name for {:?}", line);
    }
}

#[test]
fn test_json_control_character_roundtrip() {
    let original = EventMessage::new("line one\nline two\twith\rtabs".to_string(), "ctl".to_string());
    let json = original.to_json().unwrap();
    assert!(!json.contains('\n'), "wire form must stay on one line");
    let parsed = EventMessage::from_json(&json).unwrap();
    assert_eq!(parsed.msg, "line one\nline two\twith\rtabs");
    assert_eq!(parsed.event_name, "ctl");
}

#[test]
fn test_json_control_characters_are_standard() {
    let msg = EventMessage::new("a\nb\tc\rd".to_string(), "evt".to_string());
    let json = msg.to_json().unwrap();
    let v: serde_json::Value = serde_json::from_str(&json).unwrap();
    assert_eq!(v["msg"], "a\nb\tc\rd");
    let mine = EventMessage::from_json(&json).unwrap();
    assert_eq!(mine.msg, v["msg"].as_str().unwrap());
}

#[test]
fn test_from_json_tolerates_whitespace() {
    let msg = EventMessage::from_json(r#"{"msg": "a", "event_name": "b"}"#).unwrap();
    assert_eq!(msg.msg, "a");
    assert_eq!(msg.event_name, "b");

    let msg = EventMessage::from_json("  { \"event_name\" : \"b\" , \"msg\" : \"a\" }  ").unwrap();
    assert_eq!(msg.msg, "a");
    assert_eq!(msg.event_name, "b");
}

#[test]
fn test_decode_routes_spaced_json_as_structured() {
    let msg = EventMessage::decode(r#"{"msg": "a", "event_name": "b"}"#);
    assert_eq!(msg.event_name, "b");
    assert_eq!(msg.msg, "a");
}
