use chacha20poly1305::aead::{Aead, KeyInit};
use chacha20poly1305::{ChaCha20Poly1305, Key, Nonce};
use formchain::form::Form;
use formchain::ledger::{FormChainError, Ledger, Submission};
use formchain::sealing::nonce_for;

const KEY: [u8; 32] = [7; 32];

fn submission(field: &str, value: &str) -> Submission {
    let mut map = serde_json::Map::new();
    map.insert(field.to_string(), serde_json::Value::String(value.to_string()));
    serde_json::to_vec(&map).unwrap()
}

fn new_form(ledger: &mut Ledger, name: &str, rnd: Vec<u8>) -> String {
    ledger.create_form(Form::new(name.to_string()), rnd, KEY.to_vec()).unwrap()
}

fn seal_with(key: &[u8], index: usize, plaintext: &[u8]) -> Vec<u8> {
    let cipher = ChaCha20Poly1305::new(Key::from_slice(key));
    cipher.encrypt(Nonce::from_slice(&nonce_for(index)), plaintext).unwrap()
}

#[test]
fn create_form_uses_hex_of_random_bytes() {
    let mut ledger = Ledger::new();
    assert_eq!(new_form(&mut ledger, "contact", vec![0xde, 0xad, 0xbe, 0xef]), "deadbeef");
}

#[test]
fn create_form_hex_is_lowercase_and_padded() {
    let mut ledger = Ledger::new();
    assert_eq!(new_form(&mut ledger, "f", vec![0x00, 0x0a, 0xff, 0x10]), "000aff10");
}

#[test]
fn create_form_with_no_bytes_gives_empty_id() {
    let mut ledger = Ledger::new();
    assert_eq!(new_form(&mut ledger, "f", vec![]), "");
}

#[test]
fn create_form_refuses_existing_id() {
    let mut ledger = Ledger::new();
    new_form(&mut ledger, "a", vec![1, 2]);
    match ledger.create_form(Form::new("b".to_string()), vec![1, 2], KEY.to_vec()) {
        Err(FormChainError::InternalSystemError(m)) => assert_eq!(m, "System generated a key that exists"),
        other => panic!("unexpected {:?}", other.is_ok()),
    }
}

#[test]
fn create_form_refuses_short_key() {
    let mut ledger = Ledger::new();
    match ledger.create_form(Form::new("b".to_string()), vec![1, 2], vec![1; 16]) {
        Err(FormChainError::InternalSystemError(m)) => assert_eq!(m, "Encryption key must be 32 bytes"),
        other => panic!("unexpected {:?}", other.is_ok()),
    }
    assert!(matches!(ledger.add_entry("0102".to_string(), submission("a", "b")), Err(FormChainError::KeyNotExist)));
}

#[test]
fn add_entry_to_unknown_form_is_refused() {
    let mut ledger = Ledger::new();
    let r = ledger.add_entry("abcd".to_string(), submission("name", "Ann"));
    assert!(matches!(r, Err(FormChainError::KeyNotExist)));
    assert_eq!(ledger.get_entries_count("abcd".to_string()).unwrap(), 0);
}

#[test]
fn add_entry_then_read_back() {
    let mut ledger = Ledger::new();
    let id = new_form(&mut ledger, "contact", vec![7]);
    assert_eq!(id, "07");
    assert!(matches!(ledger.add_entry(id.clone(), submission("name", "Ann")), Ok(true)));
    assert!(matches!(ledger.add_entry(id.clone(), submission("name", "Bob")), Ok(true)));
    let entries = ledger.get_entries(id).unwrap();
    assert_eq!(entries, vec![submission("name", "Ann"), submission("name", "Bob")]);
}

#[test]
fn duplicate_submission_is_refused() {
    let mut ledger = Ledger::new();
    let id = new_form(&mut ledger, "contact", vec![8]);
    assert!(matches!(ledger.add_entry(id.clone(), submission("name", "Ann")), Ok(true)));
    assert!(matches!(ledger.add_entry(id.clone(), submission("name", "Bob")), Ok(true)));
    assert!(matches!(
        ledger.add_entry(id.clone(), submission("name", "Ann")),
        Err(FormChainError::DuplicateEntry)
    ));
    let entries = ledger.get_entries(id).unwrap();
    assert_eq!(entries, vec![submission("name", "Ann"), submission("name", "Bob")]);
}

#[test]
fn same_submission_to_two_forms_is_accepted() {
    let mut ledger = Ledger::new();
    let a = new_form(&mut ledger, "a", vec![1]);
    let b = new_form(&mut ledger, "b", vec![2]);
    assert!(ledger.add_entry(a, submission("x", "1")).is_ok());
    assert!(ledger.add_entry(b, submission("x", "1")).is_ok());
}

#[test]
fn submissions_are_stored_sealed() {
    let mut ledger = Ledger::new();
    let id = new_form(&mut ledger, "contact", vec![9]);
    ledger.add_entry(id.clone(), submission("name", "Ann")).unwrap();
    ledger.add_entry(id.clone(), submission("name", "Bob")).unwrap();
    let (forms, entries) = ledger.into_parts();
    assert_eq!(forms[0].1 .1, KEY.to_vec());
    let stored = &entries[0].1;
    assert_eq!(stored.len(), 2);
    assert_ne!(stored[0], submission("name", "Ann"));
    assert_eq!(stored[0], seal_with(&KEY, 0, &submission("name", "Ann")));
    assert_eq!(stored[1], seal_with(&KEY, 1, &submission("name", "Bob")));
    assert_eq!(stored[0].len(), submission("name", "Ann").len() + 16);
}

#[test]
fn nonces_are_little_endian_indices() {
    assert_eq!(nonce_for(0), vec![0; 12]);
    assert_eq!(nonce_for(0x0102), vec![2, 1, 0, 0, 0, 0, 0, 0, 0, 0, 0, 0]);
}

#[test]
fn entries_count_counts_each_form() {
    let mut ledger = Ledger::new();
    let a = new_form(&mut ledger, "a", vec![1]);
    let b = new_form(&mut ledger, "b", vec![2]);
    ledger.add_entry(a.clone(), submission("x", "1")).unwrap();
    ledger.add_entry(a.clone(), submission("x", "2")).unwrap();
    ledger.add_entry(b.clone(), submission("y", "3")).unwrap();
    let (forms, entries) = ledger.into_parts();
    let ledger = Ledger::from_parts(forms, entries).unwrap();
    assert_eq!(ledger.get_entries_count(a).unwrap(), 2);
}

#[test]
fn entries_of_form_without_submissions_is_empty() {
    let mut ledger = Ledger::new();
    let id = new_form(&mut ledger, "a", vec![9, 9]);
    assert!(ledger.get_entries(id).unwrap().is_empty());
}

#[test]
fn parts_round_trip() {
    let mut ledger = Ledger::new();
    let id = new_form(&mut ledger, "survey", vec![0xab]);
    ledger.add_entry(id.clone(), submission("q", "yes")).unwrap();
    let (forms, entries) = ledger.into_parts();
    assert_eq!(forms.len(), 1);
    assert_eq!(forms[0].0, "ab");
    assert_eq!(forms[0].1 .0.name(), "survey");
    assert_eq!(entries.len(), 1);
    let mut rebuilt = Ledger::from_parts(forms, entries).unwrap();
    assert!(matches!(rebuilt.add_entry(id.clone(), submission("q", "yes")), Err(FormChainError::DuplicateEntry)));
    assert_eq!(rebuilt.get_entries(id).unwrap(), vec![submission("q", "yes")]);
}

#[test]
fn from_parts_refuses_tampered_entry() {
    let mut ledger = Ledger::new();
    let id = new_form(&mut ledger, "survey", vec![0xab]);
    ledger.add_entry(id, submission("q", "yes")).unwrap();
    let (forms, mut entries) = ledger.into_parts();
    entries[0].1[0][0] ^= 1;
    assert!(Ledger::from_parts(forms, entries).is_none());
}

#[test]
fn from_parts_refuses_entries_of_unknown_form() {
    let entries = vec![("aa".to_string(), vec![seal_with(&KEY, 0, b"{}")])];
    assert!(Ledger::from_parts(vec![], entries).is_none());
}

#[test]
fn from_parts_refuses_bad_key() {
    let forms = vec![("aa".to_string(), (Form::new("f".to_string()), vec![1, 2, 3]))];
    assert!(Ledger::from_parts(forms, vec![]).is_none());
}

#[test]
fn from_parts_keeps_last_duplicate() {
    let forms = vec![
        ("aa".to_string(), (Form::new("first".to_string()), KEY.to_vec())),
        ("aa".to_string(), (Form::new("second".to_string()), KEY.to_vec())),
    ];
    let mut ledger = Ledger::from_parts(forms, vec![]).unwrap();
    assert!(ledger.add_entry("aa".to_string(), submission("k", "v")).is_ok());
    let (forms, _) = ledger.into_parts();
    assert_eq!(forms.len(), 1);
    assert_eq!(forms[0].1 .0.name(), "second");
}

#[test]
fn different_random_bytes_give_different_ids() {
    let mut ledger = Ledger::new();
    let a = new_form(&mut ledger, "a", vec![0x01, 0x23]);
    let b = new_form(&mut ledger, "b", vec![0x12, 0x03]);
    assert_ne!(a, b);
    assert_eq!(a.len(), 4);
}

#[test]
fn refused_entry_changes_nothing() {
    let mut ledger = Ledger::new();
    let a = new_form(&mut ledger, "a", vec![0x05]);
    ledger.add_entry(a.clone(), submission("k", "1")).unwrap();
    assert!(ledger.add_entry("06".to_string(), submission("k", "2")).is_err());
    assert!(ledger.add_entry(a.clone(), submission("k", "1")).is_err());
    let (forms, entries) = ledger.into_parts();
    assert_eq!(forms.len(), 1);
    assert_eq!(entries.len(), 1);
    assert_eq!(entries[0].1.len(), 1);
}

#[test]
fn error_messages() {
    assert_eq!(FormChainError::KeyNotExist.to_string(), "Key does not exist");
    assert_eq!(FormChainError::DuplicateEntry.to_string(), "Entry already submitted");
    assert_eq!(
        FormChainError::InternalSystemError("boom".to_string()).to_string(),
        "Internal System Error:boom"
    );
}
