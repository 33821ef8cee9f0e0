use intent_pipeline::catalog::{
    encode_endpoint, endpoints_from_pairs, get_endpoint, list_all, load_config, load_endpoints,
    parse_config,
};
use intent_pipeline::models::{Endpoint, Parameter};
use intent_pipeline::gateway::interpret_response;
use intent_pipeline::resolve::{find_matching_endpoint, verdict_from_response};
use intent_pipeline::models::LoadError;
use intent_pipeline::store::Store;

fn temp_db() -> sled::Db {
    sled::Config::new().temporary(true).open().unwrap()
}

fn config_one() -> &'static str {
    "endpoints:\n\
     \x20 - id: email.send\n\
     \x20   text: send an email\n\
     \x20   description: Send email\n\
     \x20   parameters:\n\
     \x20     - name: to\n\
     \x20       description: recipient address\n\
     \x20       required: true\n\
     \x20       alternatives:\n\
     \x20         - recipient\n\
     \x20 - id: ticket.create\n\
     \x20   text: create a ticket\n\
     \x20   description: Create ticket\n\
     \x20   parameters: []\n"
}

fn config_two() -> &'static str {
    "endpoints:\n\
     \x20 - id: report.generate\n\
     \x20   text: generate a report\n\
     \x20   description: Generate report\n\
     \x20   parameters: []\n"
}

#[test]
fn parse_config_reads_every_declared_field() {
    let cfg = parse_config(config_one()).unwrap();
    assert_eq!(cfg.endpoints.len(), 2);
    assert_eq!(cfg.endpoints[0].id, "email.send");
    assert_eq!(cfg.endpoints[0].text, "send an email");
    assert_eq!(cfg.endpoints[0].description, "Send email");
    assert_eq!(cfg.endpoints[0].parameters.len(), 1);
    assert_eq!(cfg.endpoints[0].parameters[0].name, "to");
    assert!(cfg.endpoints[0].parameters[0].required);
    assert_eq!(cfg.endpoints[0].parameters[0].alternatives, vec!["recipient"]);
    assert_eq!(cfg.endpoints[1].id, "ticket.create");
    assert!(cfg.endpoints[1].parameters.is_empty());
}

#[test]
fn malformed_configuration_fails_the_load() {
    assert!(matches!(parse_config("endpoints: 3"), Err(LoadError::ConfigParse)));
    assert!(matches!(parse_config("- ["), Err(LoadError::ConfigParse)));
    // A well-formed document whose entries lack required fields is malformed.
    let missing = "endpoints:\n  - id: x\n    text: y\n";
    assert!(matches!(parse_config(missing), Err(LoadError::ConfigParse)));

    let mut store = Store::from_db(temp_db());
    assert!(matches!(
        load_config(&mut store, "endpoints: 3", false),
        Err(LoadError::ConfigParse)
    ));
    assert!(list_all(&store).is_empty());
}

#[test]
fn load_populates_an_empty_store() {
    let mut store = Store::from_db(temp_db());
    load_config(&mut store, config_one(), false).unwrap();
    let listed = list_all(&store);
    assert_eq!(listed.len(), 2);
    // The store iterates keys in lexicographic order.
    assert_eq!(listed[0].id, "email.send");
    assert_eq!(listed[1].id, "ticket.create");
    let e = get_endpoint(&store, "email.send").unwrap();
    assert_eq!(e.description, "Send email");
    assert_eq!(e.parameters[0].alternatives, vec!["recipient"]);
    assert!(get_endpoint(&store, "absent.id").is_none());
}

#[test]
fn repeated_load_without_force_changes_nothing() {
    let mut store = Store::from_db(temp_db());
    load_config(&mut store, config_one(), false).unwrap();
    // The same document again: a no-op that succeeds.
    load_config(&mut store, config_one(), false).unwrap();
    let listed = list_all(&store);
    assert_eq!(listed.len(), 2);
    assert_eq!(listed[0].id, "email.send");
    assert_eq!(listed[1].id, "ticket.create");
    // A different document without force: still a no-op on a populated store.
    load_config(&mut store, config_two(), false).unwrap();
    let listed = list_all(&store);
    assert_eq!(listed.len(), 2);
    assert_eq!(listed[0].id, "email.send");
    assert!(get_endpoint(&store, "report.generate").is_none());
}

#[test]
fn forced_reload_discards_the_prior_contents() {
    let mut store = Store::from_db(temp_db());
    load_config(&mut store, config_one(), false).unwrap();
    load_config(&mut store, config_two(), true).unwrap();
    let listed = list_all(&store);
    assert_eq!(listed.len(), 1);
    assert_eq!(listed[0].id, "report.generate");
    assert!(get_endpoint(&store, "email.send").is_none());
    assert!(get_endpoint(&store, "ticket.create").is_none());
}

#[test]
fn stored_records_survive_awkward_characters() {
    let config = "endpoints:\n\
                  \x20 - id: quote.test\n\
                  \x20   text: \"say \\\"hi\\\" twice\"\n\
                  \x20   description: \"line one\\nline two \\\\ done\"\n\
                  \x20   parameters: []\n";
    let mut store = Store::from_db(temp_db());
    load_config(&mut store, config, true).unwrap();
    let e = get_endpoint(&store, "quote.test").unwrap();
    assert_eq!(e.text, "say \"hi\" twice");
    assert_eq!(e.description, "line one\nline two \\ done");
}

#[test]
fn corrupt_records_are_skipped_not_fatal() {
    let db = temp_db();
    let mut store = Store::from_db(db.clone());
    load_config(&mut store, config_one(), false).unwrap();
    // A record written past the catalog does not read back as an endpoint.
    db.insert("broken".as_bytes(), "not an endpoint record".as_bytes()).unwrap();
    db.insert("half".as_bytes(), "{\"id\": \"half\"}".as_bytes()).unwrap();
    let listed = list_all(&store);
    assert_eq!(listed.len(), 2);
    assert_eq!(listed[0].id, "email.send");
    assert_eq!(listed[1].id, "ticket.create");
    assert!(get_endpoint(&store, "broken").is_none());
    assert!(get_endpoint(&store, "half").is_none());
}

#[test]
fn resolution_runs_over_the_stored_catalog() {
    let mut store = Store::from_db(temp_db());
    load_config(&mut store, config_one(), false).unwrap();
    let listing = list_all(&store);
    assert_eq!(listing.len(), 2);
    // One comparison for two endpoints; the stub names the candidate.
    let reply = interpret_response("{\"closer_endpoint\": \"candidate\"}".to_string());
    let verdict = verdict_from_response(reply).unwrap();
    let winners = find_matching_endpoint(listing, &vec![verdict]);
    assert_eq!(winners.len(), 1);
    assert_eq!(winners[0].id, "ticket.create");
}

#[test]
fn stored_records_survive_control_characters() {
    // A field holding a raw control character is escaped in the record and
    // reads back intact.
    let endpoint = Endpoint {
        id: "bell.test".to_string(),
        text: "ding \u{7} dong".to_string(),
        description: "one \u{0} two \u{1f} three".to_string(),
        parameters: vec![Parameter {
            name: "level".to_string(),
            description: "alert \u{b} level".to_string(),
            required: false,
            alternatives: vec!["severity \u{1c}".to_string()],
        }],
    };
    let record = encode_endpoint(&endpoint);
    assert!(record.contains("\\u0007"));
    assert!(record.contains("\\u0000"));
    assert!(record.contains("\\u001f"));

    let mut store = Store::from_db(temp_db());
    load_endpoints(&mut store, &vec![endpoint], true).unwrap();
    let read_back = get_endpoint(&store, "bell.test").unwrap();
    assert_eq!(read_back.text, "ding \u{7} dong");
    assert_eq!(read_back.description, "one \u{0} two \u{1f} three");
    assert_eq!(read_back.parameters[0].description, "alert \u{b} level");
    assert_eq!(read_back.parameters[0].alternatives[0], "severity \u{1c}");
}

#[test]
fn endpoints_from_pairs_keeps_exactly_the_decodable_records() {
    let good = Endpoint {
        id: "a".to_string(),
        text: "a".to_string(),
        description: "a".to_string(),
        parameters: Vec::new(),
    };
    let pairs = vec![
        ("a".to_string(), encode_endpoint(&good)),
        ("b".to_string(), "not a record".to_string()),
        ("c".to_string(), "{\"id\": \"c\"}".to_string()),
    ];
    let out = endpoints_from_pairs(&pairs);
    assert_eq!(out.len(), 1);
    assert_eq!(out[0].id, "a");
    assert!(endpoints_from_pairs(&Vec::new()).is_empty());
}
