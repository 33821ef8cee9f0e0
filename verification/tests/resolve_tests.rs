use intent_pipeline::gateway::interpret_response;
use intent_pipeline::models::{Endpoint, GatewayError, ResolveError};
use intent_pipeline::resolve::{
    find_matching_endpoint, verdict_from_response, verdict_from_value, Tournament, Verdict,
};
use intent_pipeline::json::JsonValue;

fn endpoint(id: &str, text: &str, description: &str) -> Endpoint {
    Endpoint {
        id: id.to_string(),
        text: text.to_string(),
        description: description.to_string(),
        parameters: Vec::new(),
    }
}

fn email_send() -> Endpoint {
    endpoint("email.send", "send an email", "Send email")
}

fn ticket_create() -> Endpoint {
    endpoint("ticket.create", "create a ticket", "Create ticket")
}

#[test]
fn resolve_empty_catalog_returns_empty() {
    let out = find_matching_endpoint(Vec::new(), &Vec::new());
    assert!(out.is_empty());
}

#[test]
fn resolve_single_endpoint_needs_no_comparison() {
    let out = find_matching_endpoint(vec![email_send()], &Vec::new());
    assert_eq!(out.len(), 1);
    assert_eq!(out[0].id, "email.send");

    let t = Tournament::start(vec![email_send()]);
    assert!(t.is_finished());
    assert_eq!(t.comparisons(), 0);
}

#[test]
fn resolve_plays_exactly_one_comparison_fewer_than_the_catalog() {
    let listing = vec![
        endpoint("a", "a", "a"),
        endpoint("b", "b", "b"),
        endpoint("c", "c", "c"),
    ];
    let mut t = Tournament::start(listing);
    let mut steps = 0;
    while !t.is_finished() {
        t.step(Verdict::Reference);
        steps += 1;
    }
    assert_eq!(steps, 2);
    assert_eq!(t.comparisons(), 2);
    assert!(t.winner().is_some());
}

#[test]
fn resolve_returns_a_member_of_the_catalog() {
    let listing = vec![
        endpoint("a", "a", "a"),
        endpoint("b", "b", "b"),
        endpoint("c", "c", "c"),
    ];
    for verdicts in [
        vec![Verdict::Reference, Verdict::Reference],
        vec![Verdict::Reference, Verdict::Candidate],
        vec![Verdict::Candidate, Verdict::Reference],
        vec![Verdict::Candidate, Verdict::Candidate],
    ] {
        let out = find_matching_endpoint(listing.clone(), &verdicts);
        assert_eq!(out.len(), 1);
        assert!(["a", "b", "c"].contains(&out[0].id.as_str()));
    }
}

#[test]
fn candidate_verdict_replaces_the_champion() {
    // The stubbed comparison reply names the candidate as the closer match,
    // so the second-listed endpoint wins the single comparison.
    let reply = interpret_response("{\"closer_endpoint\": \"candidate\"}".to_string());
    let verdict = verdict_from_response(reply).unwrap();
    assert_eq!(verdict, Verdict::Candidate);

    let mut t = Tournament::start(vec![email_send(), ticket_create()]);
    let prompt = t
        .comparison_prompt("send an email to John", "recipient: \"John\"")
        .unwrap();
    assert!(prompt.contains("Reference: ID: email.send"));
    assert!(prompt.contains("Candidate: ID: ticket.create"));
    t.step(verdict);
    let winner = t.winner().unwrap();
    assert_eq!(winner.id, "ticket.create");
}

#[test]
fn missing_verdict_field_keeps_the_champion() {
    // A reply that parses but lacks the verdict field falls back to keeping
    // the reference: a defined fallback, not a failure.
    let reply = interpret_response("{\"something_else\": true}".to_string());
    let verdict = verdict_from_response(reply).unwrap();
    assert_eq!(verdict, Verdict::Reference);

    let mut t = Tournament::start(vec![email_send(), ticket_create()]);
    t.step(verdict);
    let winner = t.winner().unwrap();
    assert_eq!(winner.id, "email.send");
}

#[test]
fn non_text_verdict_field_keeps_the_champion() {
    let v = interpret_response("{\"closer_endpoint\": 3}".to_string()).unwrap();
    assert_eq!(verdict_from_value(&v), Verdict::Reference);
    let v = interpret_response("{\"closer_endpoint\": \"reference\"}".to_string()).unwrap();
    assert_eq!(verdict_from_value(&v), Verdict::Reference);
    let v = interpret_response("{\"closer_endpoint\": \"candidate\"}".to_string()).unwrap();
    assert_eq!(verdict_from_value(&v), Verdict::Candidate);
}

#[test]
fn gateway_failure_propagates_through_resolution() {
    let out = verdict_from_response(Err(GatewayError::Transport("down".to_string())));
    match out {
        Err(ResolveError::Gateway(GatewayError::Transport(t))) => assert_eq!(t, "down"),
        _ => panic!("expected a propagated transport failure"),
    }
}

#[test]
fn comparison_prompt_lists_both_endpoints() {
    let t = Tournament::start(vec![email_send(), ticket_create()]);
    let prompt = t.comparison_prompt("send an email", "recipient: \"John\"").unwrap();
    let expected = "Compare endpoints vs input:\n\
                    Input: send an email\n\
                    Fields: recipient: \"John\"\n\
                    Reference: ID: email.send, Text: send an email, Description: Send email\n\
                    Candidate: ID: ticket.create, Text: create a ticket, Description: Create ticket\n\
                    JSON: {\"closer_endpoint\": \"reference\" or \"candidate\"}";
    assert_eq!(prompt, expected);
}

#[test]
fn finished_tournament_offers_no_prompt() {
    let t = Tournament::start(vec![email_send()]);
    assert!(t.comparison_prompt("x", "y").is_none());
    let null_value = JsonValue::Null;
    assert_eq!(verdict_from_value(&null_value), Verdict::Reference);
}
