use nessie_client::client::{
    classify_status, commit_path, deletion_target, entries_path, hash_qualified, is_hash_qualified,
    reference_path, references_path, NessieClient,
};
use nessie_client::error::NessieError;
use nessie_client::models::{ContentKey, Reference, ReferenceType};

#[test]
fn flatten_parse_round_trip() {
    let k = ContentKey::new(vec!["a".to_string(), "b".to_string(), "mytable".to_string()]).unwrap();
    assert_eq!(k.flatten(), "a.b.mytable");
    assert_eq!(ContentKey::parse(&k.flatten()).elements, k.elements);
    assert_eq!(ContentKey::parse("single").elements, vec!["single".to_string()]);
    assert_eq!(ContentKey::parse("a..b").elements, vec!["a".to_string(), String::new(), "b".to_string()]);
    assert_eq!(ContentKey::parse("").elements, vec![String::new()]);
}

#[test]
fn content_key_validation() {
    assert!(matches!(ContentKey::new(vec![]), Err(NessieError::Validation(_))));
    assert!(matches!(ContentKey::new(vec!["a.b".to_string()]), Err(NessieError::Validation(_))));
    assert_eq!(ContentKey::new(vec!["x".to_string()]).unwrap().copy_key().elements, vec!["x".to_string()]);
}

#[test]
fn client_parses_base_url() {
    assert!(NessieClient::new("http://localhost:19120/api/v2/").is_ok());
    assert!(matches!(NessieClient::new("not a url"), Err(NessieError::Url(_))));
}

#[test]
fn endpoints_join_the_base() {
    let c = NessieClient::new("http://localhost:19120/api/v2/").unwrap();
    assert_eq!(c.references_url().unwrap().as_str(), "http://localhost:19120/api/v2/trees");
    assert_eq!(c.reference_url("main").unwrap().as_str(), "http://localhost:19120/api/v2/trees/main");
    assert_eq!(
        c.entries_url("main").unwrap().as_str(),
        "http://localhost:19120/api/v2/trees/main/entries"
    );
    assert_eq!(
        c.commit_url("main@abc").unwrap().as_str(),
        "http://localhost:19120/api/v2/trees/main@abc/history/commit"
    );
    assert!(matches!(c.commit_url("main"), Err(NessieError::Validation(_))));
}

#[test]
fn paths_are_built_exactly() {
    assert_eq!(references_path(), "trees");
    assert_eq!(reference_path("main"), "trees/main");
    assert_eq!(entries_path("main@h"), "trees/main@h/entries");
    assert_eq!(commit_path("main@h"), "trees/main@h/history/commit");
    assert_eq!(hash_qualified("main", "2e1c"), "main@2e1c");
    assert!(is_hash_qualified("main@2e1c"));
    assert!(!is_hash_qualified("main"));
}

#[test]
fn deletion_target_pins_hash() {
    let r = Reference { name: "test".to_string(), ref_type: ReferenceType::Branch, hash: Some("h1".to_string()) };
    assert_eq!(deletion_target(&r), "test@h1");
    let r = Reference { name: "test".to_string(), ref_type: ReferenceType::Tag, hash: None };
    assert_eq!(deletion_target(&r), "test");
    assert_eq!(ReferenceType::Branch.as_str(), "BRANCH");
    assert_eq!(ReferenceType::Tag.as_str(), "TAG");
}

#[test]
fn status_classification() {
    assert!(classify_status(200, String::new()).is_ok());
    assert!(classify_status(204, String::new()).is_ok());
    assert!(matches!(classify_status(404, "gone".to_string()), Err(NessieError::NotFound(b)) if b == "gone"));
    assert!(matches!(classify_status(409, "moved".to_string()), Err(NessieError::Conflict(b)) if b == "moved"));
    assert!(matches!(
        classify_status(500, "boom".to_string()),
        Err(NessieError::Protocol { status: 500, body }) if body == "boom"
    ));
}
