use intent_pipeline::confirm::{confirmation_from_response, generate_confirmation_prompt};
use intent_pipeline::gateway::interpret_response;
use intent_pipeline::intent::{extraction_prompt, flatten_fields, intent_from_response};
use intent_pipeline::mapper::{mapped_from_response, match_fields_prompt, parameters_text};
use intent_pipeline::models::{
    ConfirmError, Endpoint, ExtractError, GatewayError, MapError, Parameter,
};

fn param(name: &str, description: &str) -> Parameter {
    Parameter {
        name: name.to_string(),
        description: description.to_string(),
        required: false,
        alternatives: Vec::new(),
    }
}

fn mail_endpoint() -> Endpoint {
    Endpoint {
        id: "email.send".to_string(),
        text: "send an email".to_string(),
        description: "Send email".to_string(),
        parameters: vec![param("to", "recipient address"), param("body", "message body")],
    }
}

#[test]
fn extraction_prompt_frames_the_sentence() {
    let p = extraction_prompt("send mail");
    assert!(p.starts_with("Sentence: send mail\n\nTask: Generate a precise, minimal JSON"));
    assert!(p.ends_with("Now for your sentence: send mail"));
    assert!(p.contains("Do NOT invent additional endpoints or fields"));
}

#[test]
fn intent_reading_keeps_descriptions_and_field_text() {
    let reply = interpret_response(
        "{\"endpoints\": [{\"description\": \"send an email to John\", \"fields\": {\"recipient\": \"John\", \"count\": 2}}]}".to_string(),
    );
    let intent = intent_from_response(reply).unwrap();
    assert_eq!(intent.actions.len(), 1);
    assert_eq!(intent.actions[0].description, "send an email to John");
    assert_eq!(intent.actions[0].fields.len(), 2);
    assert_eq!(intent.actions[0].fields[0].0, "recipient");
    assert_eq!(intent.actions[0].fields[0].1, "\"John\"");
    assert_eq!(intent.actions[0].fields[1].0, "count");
    assert_eq!(intent.actions[0].fields[1].1, "2");
    assert_eq!(
        intent.primary_fields_text(),
        "recipient: \"John\", count: 2"
    );
}

#[test]
fn intent_tolerates_missing_description_and_fields() {
    let reply = interpret_response("{\"endpoints\": [{}]}".to_string());
    let intent = intent_from_response(reply).unwrap();
    assert_eq!(intent.actions.len(), 1);
    assert_eq!(intent.actions[0].description, "");
    assert!(intent.actions[0].fields.is_empty());
    assert_eq!(intent.primary_fields_text(), "");
}

#[test]
fn intent_without_endpoints_array_is_a_shape_error() {
    let reply = interpret_response("{\"other\": []}".to_string());
    assert!(matches!(intent_from_response(reply), Err(ExtractError::Shape)));
    let reply = interpret_response("{\"endpoints\": []}".to_string());
    assert!(matches!(intent_from_response(reply), Err(ExtractError::Shape)));
    let reply = interpret_response("{\"endpoints\": 7}".to_string());
    assert!(matches!(intent_from_response(reply), Err(ExtractError::Shape)));
}

#[test]
fn intent_wraps_gateway_failures() {
    let out = intent_from_response(Err(GatewayError::MalformedResponse("raw".to_string())));
    match out {
        Err(ExtractError::Gateway(GatewayError::MalformedResponse(t))) => assert_eq!(t, "raw"),
        _ => panic!("expected a wrapped gateway failure"),
    }
}

#[test]
fn flattening_joins_fields_in_order() {
    let fields = vec![
        ("recipient".to_string(), "\"John\"".to_string()),
        ("subject".to_string(), "\"hello\"".to_string()),
    ];
    assert_eq!(flatten_fields(&fields), "recipient: \"John\", subject: \"hello\"");
    assert_eq!(flatten_fields(&Vec::new()), "");
}

#[test]
fn mapping_prompt_lists_input_and_parameters() {
    let reply = interpret_response(
        "{\"endpoints\": [{\"description\": \"send mail\", \"fields\": {\"recipient\": \"John\", \"subject\": \"hello\"}}]}".to_string(),
    );
    let intent = intent_from_response(reply).unwrap();
    let p = match_fields_prompt(&intent, &mail_endpoint());
    let expected = "Map these input fields to endpoint parameters:\n\
                    Input: recipient: \"John\", subject: \"hello\"\n\
                    Parameters:\nto: recipient address\nbody: message body\n\
                    Return only a JSON with parameter names as keys and matched values";
    assert_eq!(p, expected);
}

#[test]
fn parameters_render_one_line_each() {
    assert_eq!(parameters_text(&Vec::new()), "");
    assert_eq!(
        parameters_text(&vec![param("to", "recipient address")]),
        "to: recipient address"
    );
}

#[test]
fn field_mapper_returns_the_mapping_verbatim() {
    // The stubbed reply echoes a mapping; the mapper hands it back unchanged.
    let reply = interpret_response("{\"to\":\"John\",\"body\":\"hello\"}".to_string());
    let mapped = mapped_from_response(reply).unwrap();
    assert_eq!(mapped.render(), "{\"to\":\"John\",\"body\":\"hello\"}");
}

#[test]
fn field_mapper_wraps_gateway_failures() {
    let out = mapped_from_response(Err(GatewayError::Transport("down".to_string())));
    match out {
        Err(MapError::Gateway(GatewayError::Transport(t))) => assert_eq!(t, "down"),
        _ => panic!("expected a wrapped gateway failure"),
    }
}

#[test]
fn confirmation_prompt_tabulates_the_mapped_fields() {
    let mapped = interpret_response("{\"to\":\"John\",\"body\":\"hello\"}".to_string()).unwrap();
    let p = generate_confirmation_prompt(&mapped, &mail_endpoint());
    let expected = "Generate a question asking for user confirmation:\n\
                    Action: Send email\n\
                    Parameters:\n\
                    | Field | Value |\n\
                    |-------|-------|\n\
                    | to | \"John\" |\n| body | \"hello\" |\n\
                    Return the complete confirmation question directly, no JSON wrapper, but explicitly explaining shortly every field value";
    assert_eq!(p, expected);
}

#[test]
fn confirmation_prompt_tolerates_a_non_object_mapping() {
    let mapped = interpret_response("[1, 2]".to_string()).unwrap();
    let p = generate_confirmation_prompt(&mapped, &mail_endpoint());
    assert!(p.contains("|-------|-------|\n\nReturn the complete confirmation question"));
}

#[test]
fn confirmation_is_the_raw_reply() {
    let out = confirmation_from_response(Ok("Shall I send it?".to_string())).unwrap();
    assert_eq!(out, "Shall I send it?");
    let failed = confirmation_from_response(Err(GatewayError::Transport("down".to_string())));
    match failed {
        Err(ConfirmError::Gateway(GatewayError::Transport(t))) => assert_eq!(t, "down"),
        _ => panic!("expected a wrapped gateway failure"),
    }
}
