use intent_pipeline::gateway::{interpret_response, read_envelope};
use intent_pipeline::json::JsonValue;
use intent_pipeline::models::{GatewayError, GenerateRequest};

#[test]
fn malformed_response_error_retains_the_raw_text_unaltered() {
    let raw = "this is { not parseable as structured data";
    match interpret_response(raw.to_string()) {
        Err(GatewayError::MalformedResponse(t)) => assert_eq!(t, raw),
        _ => panic!("expected a malformed-response failure"),
    }
}

#[test]
fn wellformed_response_parses_into_structured_data() {
    let v = interpret_response("{\"a\": 1, \"b\": [true, null]}".to_string()).unwrap();
    assert_eq!(v.render(), "{\"a\":1,\"b\":[true,null]}");
}

#[test]
fn empty_text_is_malformed() {
    match interpret_response(String::new()) {
        Err(GatewayError::MalformedResponse(t)) => assert_eq!(t, ""),
        _ => panic!("expected a malformed-response failure"),
    }
}

#[test]
fn request_body_is_a_single_non_streaming_structured_request() {
    let req = GenerateRequest::new("llama2".to_string(), "compare these".to_string());
    assert_eq!(req.model, "llama2");
    assert_eq!(req.prompt, "compare these");
    assert!(!req.stream);
    assert_eq!(req.format.as_deref(), Some("json"));
    assert_eq!(
        req.body_text(),
        "{\"model\":\"llama2\",\"prompt\":\"compare these\",\"stream\":false,\"format\":\"json\"}"
    );
}

#[test]
fn request_body_escapes_the_prompt() {
    let req = GenerateRequest::new("m".to_string(), "say \"hi\"\nplease\\".to_string());
    assert_eq!(
        req.body_text(),
        "{\"model\":\"m\",\"prompt\":\"say \\\"hi\\\"\\nplease\\\\\",\"stream\":false,\"format\":\"json\"}"
    );
}

#[test]
fn read_envelope_extracts_the_response_text() {
    let env = read_envelope("{\"response\": \"  {\\\"ok\\\": true} \"}").unwrap();
    assert_eq!(env.response, "  {\"ok\": true} ");
}

#[test]
fn read_envelope_rejects_a_diverging_shape() {
    assert!(read_envelope("not json").is_none());
    assert!(read_envelope("{\"reply\": \"x\"}").is_none());
    assert!(read_envelope("{\"response\": 5}").is_none());
}

#[test]
fn render_escapes_and_nests() {
    let v = JsonValue::Object(vec![
        (
            "k\"1".to_string(),
            JsonValue::Text("a\\b\nc\td\re".to_string()),
        ),
        (
            "k2".to_string(),
            JsonValue::Array(vec![
                JsonValue::Number("2.5".to_string()),
                JsonValue::Object(Vec::new()),
            ]),
        ),
    ]);
    assert_eq!(
        v.render(),
        "{\"k\\\"1\":\"a\\\\b\\nc\\td\\re\",\"k2\":[2.5,{}]}"
    );
}

#[test]
fn object_lookup_takes_the_first_binding() {
    let v = JsonValue::Object(vec![
        ("a".to_string(), JsonValue::Number("1".to_string())),
        ("a".to_string(), JsonValue::Number("2".to_string())),
    ]);
    match v.get("a") {
        Some(JsonValue::Number(n)) => assert_eq!(n, "1"),
        _ => panic!("expected the first binding"),
    }
    assert!(v.get("b").is_none());
    assert!(JsonValue::Null.get("a").is_none());
}

#[test]
fn request_body_escapes_control_characters() {
    let req = GenerateRequest::new("m".to_string(), "a\u{0}b\u{7}c\u{1f}d".to_string());
    assert_eq!(
        req.body_text(),
        "{\"model\":\"m\",\"prompt\":\"a\\u0000b\\u0007c\\u001fd\",\"stream\":false,\"format\":\"json\"}"
    );
}

#[test]
fn envelope_text_is_trimmed_of_surrounding_whitespace() {
    let env = read_envelope("{\"response\": \" \\n\\t {\\\"ok\\\": true} \\u00a0 \"}").unwrap();
    assert_eq!(env.trimmed(), "{\"ok\": true}");
    let env = read_envelope("{\"response\": \"   \"}").unwrap();
    assert_eq!(env.trimmed(), "");
    let env = read_envelope("{\"response\": \"no edges\"}").unwrap();
    assert_eq!(env.trimmed(), "no edges");
}
