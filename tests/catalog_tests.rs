use nessie_client::catalog::{
    commit_outcome, get_namespace, list_tables, plan_create_namespace, plan_drop_namespace,
    plan_drop_table, plan_rename_table, plan_update_namespace, table_exists, table_location,
    NessieCatalog, TableCreation,
};
use nessie_client::client::NessieClient;
use nessie_client::error::NessieError;
use nessie_client::models::{
    CommitMeta, CommitResponse, Content, ContentKey, Entry, Operation, Reference, ReferenceType,
};
use nessie_client::namespace::{infer_namespaces, list_namespaces, namespace_exists};
use nessie_client::provider::NessieCatalogProvider;

fn key(parts: &[&str]) -> ContentKey {
    ContentKey { elements: parts.iter().map(|s| s.to_string()).collect() }
}

fn entry(flat: &str, tag: &str) -> Entry {
    Entry { name: ContentKey::parse(flat), content_type: tag.to_string() }
}

fn meta() -> CommitMeta {
    CommitMeta {
        author: "tester <t@example.com>".to_string(),
        author_time: "2025-06-12T10:00:00Z".to_string(),
        message: "test".to_string(),
        signed_off_by: None,
        properties: Vec::new(),
    }
}

fn table_content(location: &str) -> Content {
    Content {
        content_type: "ICEBERG_TABLE".to_string(),
        metadata_location: location.to_string(),
        snapshot_id: Some(0),
        schema_id: Some(1),
        spec_id: Some(0),
        sort_order_id: Some(0),
    }
}

fn sorted(v: Vec<ContentKey>) -> Vec<Vec<String>> {
    let mut out: Vec<Vec<String>> = v.into_iter().map(|k| k.elements).collect();
    out.sort();
    out
}

fn keys_of(ops: &[Operation]) -> Vec<(String, String)> {
    ops.iter()
        .map(|o| match o {
            Operation::Put { key, content } => (format!("PUT {}", key.flatten()), content.content_type.clone()),
            Operation::Delete { key } => (format!("DELETE {}", key.flatten()), String::new()),
        })
        .collect()
}

/// Applies a commit to a listing the way the store does.
fn apply(entries: &[Entry], ops: &[Operation]) -> Vec<Entry> {
    let mut out: Vec<Entry> = entries.to_vec();
    for op in ops {
        match op {
            Operation::Put { key, content } => {
                out.retain(|e| e.name.elements != key.elements);
                out.push(Entry { name: key.clone(), content_type: content.content_type.clone() });
            }
            Operation::Delete { key } => out.retain(|e| e.name.elements != key.elements),
        }
    }
    out
}

#[test]
fn scenario_single_table_listing() {
    let entries = vec![entry("a.b.mytable", "ICEBERG_TABLE")];
    let listed = sorted(list_namespaces(&entries, None));
    assert_eq!(listed, vec![vec!["a".to_string()], vec!["a".to_string(), "b".to_string()]]);
    assert!(get_namespace(&entries, &key(&["a", "b"])).is_ok());
    assert!(matches!(get_namespace(&entries, &key(&["a", "b", "c"])), Err(NessieError::NotFound(_))));
}

#[test]
fn infer_namespaces_gives_strict_prefixes_once() {
    let entries = vec![
        entry("a.b.t1", "ICEBERG_TABLE"),
        entry("a.b.t2", "ICEBERG_TABLE"),
        entry("c", "NAMESPACE"),
    ];
    let inferred = sorted(infer_namespaces(&entries));
    assert_eq!(inferred, vec![vec!["a".to_string()], vec!["a".to_string(), "b".to_string()]]);
    let all = sorted(list_namespaces(&entries, None));
    assert_eq!(all.len(), 3);
    assert!(all.contains(&vec!["c".to_string()]));
}

#[test]
fn list_namespaces_under_parent() {
    let entries = vec![entry("a.b.c.t", "ICEBERG_TABLE"), entry("x.t", "ICEBERG_TABLE")];
    let under_a = sorted(list_namespaces(&entries, Some(&key(&["a"]))));
    assert_eq!(
        under_a,
        vec![
            vec!["a".to_string(), "b".to_string()],
            vec!["a".to_string(), "b".to_string(), "c".to_string()],
        ]
    );
}

#[test]
fn namespace_exists_explicit_and_implicit() {
    let entries = vec![entry("ns1", "NAMESPACE"), entry("ns2.t", "ICEBERG_TABLE")];
    assert!(namespace_exists(&entries, &key(&["ns1"])));
    assert!(namespace_exists(&entries, &key(&["ns2"])));
    assert!(!namespace_exists(&entries, &key(&["ns2", "t"])));
    assert!(!namespace_exists(&entries, &key(&["ns3"])));
    assert!(!namespace_exists(&entries, &key(&[])));
}

#[test]
fn create_namespace_then_list_once_and_refuse_second() {
    let entries = vec![entry("a.t", "ICEBERG_TABLE")];
    let props = vec![("owner".to_string(), "admin".to_string())];
    let ops = plan_create_namespace(&entries, &key(&["b"]), props.clone(), meta()).unwrap();
    assert_eq!(ops.commit_meta.properties, props);
    assert_eq!(keys_of(&ops.operations), vec![("PUT b".to_string(), "NAMESPACE".to_string())]);
    let after = apply(&entries, &ops.operations);
    let listed = sorted(list_namespaces(&after, None));
    assert_eq!(listed.iter().filter(|k| **k == vec!["b".to_string()]).count(), 1);
    let again = plan_create_namespace(&after, &key(&["b"]), Vec::new(), meta());
    assert!(matches!(again, Err(NessieError::AlreadyExists(_))));
    // implied by a table and explicit as well: still listed once
    let ops = plan_create_namespace(&entries, &key(&["a", "x"]), Vec::new(), meta()).unwrap();
    let after = apply(&after, &ops.operations);
    let again = plan_create_namespace(&after, &key(&["a"]), Vec::new(), meta());
    assert!(matches!(again, Err(NessieError::AlreadyExists(_))));
}

#[test]
fn create_namespace_rejects_dotted_segment() {
    let r = plan_create_namespace(&Vec::new(), &key(&["a.b"]), Vec::new(), meta());
    assert!(matches!(r, Err(NessieError::Validation(_))));
}

#[test]
fn update_namespace_replaces_or_fails() {
    let entries = vec![entry("ns", "NAMESPACE")];
    let props = vec![("k".to_string(), "v".to_string())];
    let ops = plan_update_namespace(&entries, &key(&["ns"]), props.clone(), meta()).unwrap();
    assert_eq!(ops.commit_meta.properties, props);
    assert_eq!(keys_of(&ops.operations), vec![("PUT ns".to_string(), "NAMESPACE".to_string())]);
    let missing = plan_update_namespace(&entries, &key(&["other"]), Vec::new(), meta());
    assert!(matches!(missing, Err(NessieError::NotFound(_))));
}

#[test]
fn drop_namespace_not_empty_then_cascade() {
    let entries = vec![
        entry("db", "NAMESPACE"),
        entry("db.t1", "ICEBERG_TABLE"),
        entry("db.inner.t2", "ICEBERG_TABLE"),
        entry("other.t3", "ICEBERG_TABLE"),
    ];
    let r = plan_drop_namespace(&entries, &key(&["db"]), false, meta());
    assert!(matches!(r, Err(NessieError::NotEmpty(_))));
    let ops = plan_drop_namespace(&entries, &key(&["db"]), true, meta()).unwrap();
    assert_eq!(ops.operations.len(), 3);
    let after = apply(&entries, &ops.operations);
    assert!(!namespace_exists(&after, &key(&["db"])));
    assert!(!namespace_exists(&after, &key(&["db", "inner"])));
    assert_eq!(sorted(list_namespaces(&after, None)), vec![vec!["other".to_string()]]);
}

#[test]
fn drop_namespace_marker_only_and_missing() {
    let entries = vec![entry("empty", "NAMESPACE")];
    let ops = plan_drop_namespace(&entries, &key(&["empty"]), false, meta()).unwrap();
    assert_eq!(keys_of(&ops.operations), vec![("DELETE empty".to_string(), String::new())]);
    let r = plan_drop_namespace(&entries, &key(&["nope"]), true, meta());
    assert!(matches!(r, Err(NessieError::NotFound(_))));
    let implicit = vec![entry("imp.t", "ICEBERG_TABLE")];
    let r = plan_drop_namespace(&implicit, &key(&["imp"]), false, meta());
    assert!(matches!(r, Err(NessieError::NotEmpty(_))));
    let ops = plan_drop_namespace(&implicit, &key(&["imp"]), true, meta()).unwrap();
    assert_eq!(keys_of(&ops.operations), vec![("DELETE imp.t".to_string(), String::new())]);
}

fn catalog() -> NessieCatalog {
    let client = NessieClient::new("http://localhost:19120/api/v2/").unwrap();
    NessieCatalog::new(client, "main".to_string(), "s3://warehouse".to_string())
}

fn creation(name: &str) -> TableCreation {
    TableCreation {
        name: name.to_string(),
        schema_id: Some(3),
        spec_id: Some(0),
        sort_order_id: Some(0),
        snapshot_id: None,
    }
}

#[test]
fn create_table_records_location_and_ids() {
    let cat = catalog();
    let entries = vec![entry("db", "NAMESPACE")];
    let ops = cat.plan_create_table(&entries, &key(&["db"]), &creation("t"), meta()).unwrap();
    match &ops.operations[0] {
        Operation::Put { key, content } => {
            assert_eq!(key.flatten(), "db.t");
            assert_eq!(content.content_type, "ICEBERG_TABLE");
            assert_eq!(content.metadata_location, "s3://warehouse/db.t/metadata.json");
            assert_eq!(content.schema_id, Some(3));
            assert_eq!(content.snapshot_id, None);
        }
        _ => panic!("expected a put"),
    }
    assert_eq!(cat.metadata_location(&key(&["x", "y"])), "s3://warehouse/x.y/metadata.json");
}

#[test]
fn create_table_twice_single_entry() {
    let cat = catalog();
    let entries = vec![entry("db", "NAMESPACE")];
    let first = cat.plan_create_table(&entries, &key(&["db"]), &creation("t"), meta()).unwrap();
    let second_same_start = cat.plan_create_table(&entries, &key(&["db"]), &creation("t"), meta()).unwrap();
    let after = apply(&entries, &first.operations);
    // the loser of the race is told of the conflict by the service
    let lost = commit_outcome(Err(NessieError::Conflict("hash moved".to_string())));
    assert!(matches!(lost, Err(NessieError::ConcurrentModification(b)) if b == "hash moved"));
    assert_eq!(second_same_start.operations.len(), 1);
    let again = cat.plan_create_table(&after, &key(&["db"]), &creation("t"), meta());
    assert!(matches!(again, Err(NessieError::AlreadyExists(_))));
    assert_eq!(after.iter().filter(|e| e.name.flatten() == "db.t").count(), 1);
    let bad = cat.plan_create_table(&entries, &key(&["db"]), &creation("a.b"), meta());
    assert!(matches!(bad, Err(NessieError::Validation(_))));
}

#[test]
fn rename_table_single_commit() {
    let entries = vec![entry("db.a", "ICEBERG_TABLE"), entry("db.taken", "ICEBERG_TABLE")];
    let content = table_content("s3://warehouse/db.a/metadata.json");
    let ops = plan_rename_table(&entries, &key(&["db", "a"]), &key(&["db", "b"]), content, meta()).unwrap();
    assert_eq!(
        keys_of(&ops.operations),
        vec![
            ("DELETE db.a".to_string(), String::new()),
            ("PUT db.b".to_string(), "ICEBERG_TABLE".to_string()),
        ]
    );
    match &ops.operations[1] {
        Operation::Put { content, .. } => {
            assert_eq!(content.metadata_location, "s3://warehouse/db.a/metadata.json");
            assert_eq!(content.schema_id, Some(1));
        }
        _ => panic!("expected a put"),
    }
    let after = apply(&entries, &ops.operations);
    assert!(!table_exists(&after, &key(&["db", "a"])));
    assert!(table_exists(&after, &key(&["db", "b"])));
    let taken = plan_rename_table(&entries, &key(&["db", "a"]), &key(&["db", "taken"]), table_content("x"), meta());
    assert!(matches!(taken, Err(NessieError::AlreadyExists(_))));
    let missing = plan_rename_table(&entries, &key(&["db", "zz"]), &key(&["db", "c"]), table_content("x"), meta());
    assert!(matches!(missing, Err(NessieError::NotFound(_))));
}

#[test]
fn drop_table_and_list_tables() {
    let entries = vec![
        entry("db", "NAMESPACE"),
        entry("db.t1", "ICEBERG_TABLE"),
        entry("db.inner.t2", "ICEBERG_TABLE"),
        entry("db.v", "ICEBERG_VIEW"),
    ];
    let tables = sorted(list_tables(&entries, &key(&["db"])));
    assert_eq!(tables, vec![vec!["db".to_string(), "t1".to_string()]]);
    let ops = plan_drop_table(&entries, &key(&["db", "t1"]), meta()).unwrap();
    assert_eq!(keys_of(&ops.operations), vec![("DELETE db.t1".to_string(), String::new())]);
    let r = plan_drop_table(&entries, &key(&["db", "v"]), meta());
    assert!(matches!(r, Err(NessieError::NotFound(_))));
}

#[test]
fn table_location_reads_tables_only() {
    assert_eq!(table_location(&table_content("s3://w/t/metadata.json")).unwrap(), "s3://w/t/metadata.json");
    let mut ns = table_content("");
    ns.content_type = "NAMESPACE".to_string();
    assert!(matches!(table_location(&ns), Err(NessieError::NotFound(_))));
}

#[test]
fn commit_outcome_passes_other_results() {
    assert!(commit_outcome(Ok(CommitResponse {})).is_ok());
    let r = commit_outcome(Err(NessieError::NotFound("k".to_string())));
    assert!(matches!(r, Err(NessieError::NotFound(b)) if b == "k"));
}

#[test]
fn commit_target_needs_hash() {
    let cat = catalog();
    let head = Reference { name: "main".to_string(), ref_type: ReferenceType::Branch, hash: Some("H0".to_string()) };
    assert_eq!(cat.commit_target(&head).unwrap(), "main@H0");
    let fresh = Reference { name: "main".to_string(), ref_type: ReferenceType::Branch, hash: None };
    assert!(matches!(cat.commit_target(&fresh), Err(NessieError::Validation(_))));
    assert_eq!(cat.branch_name(), "main");
}

#[test]
fn provider_schema_names_are_flattened_namespaces() {
    let entries = vec![entry("a.b.mytable", "ICEBERG_TABLE"), entry("solo", "NAMESPACE")];
    let mut names = NessieCatalogProvider::new().schema_names(&entries);
    names.sort();
    assert_eq!(names, vec!["a".to_string(), "a.b".to_string(), "solo".to_string()]);
}
