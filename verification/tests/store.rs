use silent_cartographer::graph::store::{duplicated_groups, guard_version, StoreOpenError, SCHEMA_VERSION};
use silent_cartographer::identity::CanonicalId;

fn ids(items: &[&str]) -> Vec<CanonicalId> {
    items.iter().map(|s| CanonicalId::from_raw(s)).collect()
}

#[test]
fn twins_group_by_their_descriptor_base_in_base_order() {
    let found = duplicated_groups(&ids(&["ws::b#1", "ws::a#0", "ws::b#0", "ws::a#1", "ws::c#0", "ws::plain"]));
    assert_eq!(
        found,
        vec![("ws::a".to_string(), vec![1, 3]), ("ws::b".to_string(), vec![0, 2])]
    );
    assert!(duplicated_groups(&ids(&["ws::x#y", "ws::z"])).is_empty());
}

#[test]
fn a_store_under_another_schema_version_is_refused_naming_both() {
    assert_eq!(guard_version("/tmp/i.db", SCHEMA_VERSION), Ok(()));
    assert_eq!(
        guard_version("/tmp/i.db", 3),
        Err(StoreOpenError::SchemaVersionMismatch { path: "/tmp/i.db".to_string(), found: 3, expected: SCHEMA_VERSION })
    );
}
