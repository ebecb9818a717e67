use gamesync::collections::{check_collection_name, kept_definitions, review_base, NameError};
use gamesync::library::{CollectionDefinition, LibraryDefinitions, LibraryRevision, StatusDefinition};
use gamesync::records::{ExtraFields, SCHEMA_VERSION};
use gamesync::revisions::RevisionSnapshot;

fn collection(id: u128, name: &str) -> CollectionDefinition {
    CollectionDefinition { id, name: name.to_string(), archived: false, extra: ExtraFields::new() }
}

fn revision(revision_id: u128, parents: Vec<u128>, definitions: LibraryDefinitions) -> LibraryRevision {
    LibraryRevision { schema_version: SCHEMA_VERSION, library_id: 5, revision_id, parents, definitions, extra: ExtraFields::new() }
}

#[test]
fn collection_names_are_trimmed_and_bounded() {
    assert_eq!(check_collection_name("  Evening  ").unwrap(), "Evening");
    assert_eq!(check_collection_name("   ").unwrap_err(), NameError::Empty);
    assert_eq!(check_collection_name(&"x".repeat(121)).unwrap_err(), NameError::TooLong);
    assert_eq!(check_collection_name(&"x".repeat(120)).unwrap(), "x".repeat(120));
    assert_eq!(check_collection_name(&"é".repeat(61)).unwrap_err(), NameError::TooLong);
    assert_eq!(NameError::Empty.message(), "Enter a collection name.");
    assert_eq!(NameError::TooLong.message(), "Choose a shorter collection name.");
}

#[test]
fn collections_are_renamed_archived_and_added() {
    let mut d = LibraryDefinitions::new("Games");
    d.collections.push(collection(9, "Weekend"));
    let renamed = d.with_collection_renamed(9, "Evening".to_string()).unwrap();
    assert_eq!(renamed.collections[0].name, "Evening");
    assert_eq!(renamed.collections[0].id, 9);
    assert!(d.with_collection_renamed(8, "Other".to_string()).is_none());
    let archived = d.with_collection_archived(9).unwrap();
    assert!(archived.collections[0].archived);
    assert_eq!(archived.collections[0].name, "Weekend");
    let added = d.with_new_collection("Cozy".to_string());
    assert_eq!(added.collections.len(), 2);
    assert_eq!(added.collections[1].name, "Cozy");
    assert_eq!((added.collections[1].id >> 76) & 0xf, 4);
    assert_eq!(added.name, "Games");
}

#[test]
fn collection_conflicts_need_all_heads_and_keep_membership_history() {
    let mut local = LibraryDefinitions::new("Games");
    local.collections.push(collection(1, "Evening"));
    let mut remote = LibraryDefinitions::new("Games");
    remote.collections.push(collection(2, "Weekend"));
    remote.statuses.push(StatusDefinition { key: "someday".to_string(), label: "Someday".to_string(), recommendation_eligible: false, extra: ExtraFields::new() });
    let known = vec![revision(10, vec![], LibraryDefinitions::new("Games")), revision(20, vec![10], local), revision(30, vec![10], remote)];
    let kept = kept_definitions(&known, &known[1].definitions);
    assert_eq!(kept.collections.len(), 2);
    assert_eq!(kept.collections[0].name, "Evening");
    assert!(!kept.collections[0].archived);
    assert_eq!(kept.collections[1].id, 2);
    assert!(kept.collections[1].archived);
    assert_eq!(kept.statuses.len(), 7);
    assert_eq!(kept.statuses[6].key, "someday");
    let mut s = RevisionSnapshot::new();
    for r in known {
        s.add_revision(r, Some(5), "history/library".to_string());
    }
    s.finish();
    assert_eq!(review_base(&s, 30).unwrap().revision_id, 30);
    assert!(review_base(&s, 99).is_none());
}
