use formchain::form::Form;
use formchain::ledger::{Ledger, Submission};
use formchain::routes::{greet, handle_form_post, hello_body, CallKind, FormReply};
use serde_json::Value;

fn submission(n: i64) -> Submission {
    let mut map = serde_json::Map::new();
    map.insert("n".to_string(), Value::from(n));
    serde_json::to_vec(&map).unwrap()
}

fn ledger_with_form() -> (Ledger, String) {
    let mut ledger = Ledger::new();
    let id = ledger.create_form(Form::new("f".to_string()), vec![0x12, 0x34], vec![3; 32]).unwrap();
    (ledger, id)
}

#[test]
fn query_call_is_upgraded() {
    let (mut ledger, id) = ledger_with_form();
    let r = handle_form_post(&mut ledger, CallKind::Query, Some(id.clone()), Ok(submission(1)));
    assert!(matches!(r, FormReply::Upgrade));
    assert_eq!(ledger.get_entries_count(id).unwrap(), 0);
}

#[test]
fn missing_form_id_is_bad_request() {
    let (mut ledger, _) = ledger_with_form();
    let r = handle_form_post(&mut ledger, CallKind::Update, None, Ok(submission(1)));
    assert!(matches!(r, FormReply::BadRequest(None)));
}

#[test]
fn unreadable_body_is_bad_request() {
    let (mut ledger, id) = ledger_with_form();
    let r = handle_form_post(&mut ledger, CallKind::Update, Some(id.clone()), Err("not json".to_string()));
    match r {
        FormReply::BadRequest(Some(m)) => assert_eq!(m, "Content body seems invalid: not json"),
        other => panic!("unexpected {:?}", other),
    }
    assert_eq!(ledger.get_entries_count(id).unwrap(), 0);
}

#[test]
fn unknown_form_is_bad_request() {
    let (mut ledger, _) = ledger_with_form();
    let r = handle_form_post(&mut ledger, CallKind::Update, Some("ffff".to_string()), Ok(submission(1)));
    match r {
        FormReply::BadRequest(Some(m)) => assert_eq!(m, "Key does not exist"),
        other => panic!("unexpected {:?}", other),
    }
}

#[test]
fn submission_is_stored() {
    let (mut ledger, id) = ledger_with_form();
    assert_eq!(id, "1234");
    let r = handle_form_post(&mut ledger, CallKind::Update, Some(id.clone()), Ok(submission(5)));
    assert!(matches!(r, FormReply::Accepted));
    assert_eq!(ledger.get_entries(id).unwrap(), vec![submission(5)]);
}

#[test]
fn repeated_submission_is_bad_request() {
    let (mut ledger, id) = ledger_with_form();
    assert!(matches!(
        handle_form_post(&mut ledger, CallKind::Update, Some(id.clone()), Ok(submission(5))),
        FormReply::Accepted
    ));
    match handle_form_post(&mut ledger, CallKind::Update, Some(id.clone()), Ok(submission(5))) {
        FormReply::BadRequest(Some(m)) => assert_eq!(m, "Entry already submitted"),
        other => panic!("unexpected {:?}", other),
    }
    assert_eq!(ledger.get_entries_count(id).unwrap(), 1);
}

#[test]
fn greeting() {
    assert_eq!(greet("World".to_string()), "Hello, World!");
    assert_eq!(greet(String::new()), "Hello, !");
}

#[test]
fn hello_route_body() {
    assert_eq!(hello_body(), "Formchain Canister version 1");
}
