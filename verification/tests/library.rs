use gamesync::library::{is_status_key, merge_definitions, CollectionDefinition, LibraryDefinitions, LibraryError, LibraryRevision};
use gamesync::records::{ExtraFields, SCHEMA_VERSION};

fn revision(definitions: LibraryDefinitions) -> LibraryRevision {
    LibraryRevision { schema_version: SCHEMA_VERSION, library_id: 5, revision_id: 50, parents: vec![], definitions, extra: ExtraFields::new() }
}

#[test]
fn status_keys_are_short_lowercase_words() {
    assert!(is_status_key("backlog"));
    assert!(is_status_key("for-the_weekend2"));
    assert!(!is_status_key(""));
    assert!(!is_status_key("Backlog"));
    assert!(!is_status_key("../bad"));
    assert!(!is_status_key(&"a".repeat(65)));
    assert!(is_status_key(&"a".repeat(64)));
}

#[test]
fn each_library_error_has_an_input() {
    let ok = LibraryDefinitions::new("Games");
    assert_eq!(ok.validate(), Ok(()));
    assert_eq!(ok.status("playing").unwrap().label, "Playing");
    assert!(ok.status("someday").is_none());
    let mut d = LibraryDefinitions::new("Games");
    d.extra = ExtraFields { entries: vec![("statuses".to_string(), "[]".to_string())] };
    assert_eq!(d.validate(), Err(LibraryError::ReservedField));
    assert_eq!(LibraryDefinitions::new("  ").validate(), Err(LibraryError::EmptyName));
    let mut d = LibraryDefinitions::new("Games");
    d.statuses[1].key = "Bad Key".to_string();
    assert_eq!(d.validate(), Err(LibraryError::StatusKey));
    let mut d = LibraryDefinitions::new("Games");
    d.statuses[1].key = "backlog".to_string();
    assert_eq!(d.validate(), Err(LibraryError::DuplicateStatus));
    let mut d = LibraryDefinitions::new("Games");
    d.statuses[2].label = " ".to_string();
    assert_eq!(d.validate(), Err(LibraryError::EmptyLabel));
    let mut d = LibraryDefinitions::new("Games");
    d.default_status = "someday".to_string();
    assert_eq!(d.validate(), Err(LibraryError::UnknownDefault));
    let collection = |id: u128, name: &str| CollectionDefinition { id, name: name.to_string(), archived: false, extra: ExtraFields::new() };
    let mut d = LibraryDefinitions::new("Games");
    d.collections.push(collection(0, "Nil"));
    assert_eq!(d.validate(), Err(LibraryError::CollectionId));
    let mut d = LibraryDefinitions::new("Games");
    d.collections.push(collection(9, "Evening"));
    d.collections.push(collection(9, "Again"));
    assert_eq!(d.validate(), Err(LibraryError::DuplicateCollection));
    let mut d = LibraryDefinitions::new("Games");
    d.collections.push(collection(9, ""));
    assert_eq!(d.validate(), Err(LibraryError::EmptyCollectionName));
    let mut r = revision(LibraryDefinitions::new("Games"));
    r.schema_version = 2;
    assert_eq!(r.validate(), Err(LibraryError::UnsupportedSchema));
    let mut r = revision(LibraryDefinitions::new("Games"));
    r.library_id = 0;
    assert_eq!(r.validate(), Err(LibraryError::NilId));
    let mut r = revision(LibraryDefinitions::new("Games"));
    r.parents = vec![50];
    assert_eq!(r.validate(), Err(LibraryError::InvalidParents));
}

#[test]
fn labels_order_and_default_change_without_dropping_keys() {
    let base = revision(LibraryDefinitions::new("Games"));
    let mut d = LibraryDefinitions::new("Cozy evenings");
    d.statuses.swap(0, 5);
    d.statuses[0].label = "Someday".to_string();
    d.default_status = "wanted".to_string();
    let merged = merge_definitions(&vec![revision(LibraryDefinitions::new("Games"))], &base, d).unwrap();
    assert_eq!(merged.definitions.name, "Cozy evenings");
    assert_eq!(merged.definitions.statuses[0].key, "dropped");
    assert_eq!(merged.definitions.statuses[0].label, "Someday");
    assert_eq!(merged.definitions.default_status, "wanted");
    let mut fewer = LibraryDefinitions::new("Games");
    fewer.statuses.pop();
    assert_eq!(
        merge_definitions(&vec![revision(LibraryDefinitions::new("Games"))], &base, fewer).unwrap_err(),
        LibraryError::StatusRemoval("dropped".to_string())
    );
}

#[test]
fn unknown_status_fields_survive_a_definition_edit() {
    let mut known = LibraryDefinitions::new("Games");
    known.statuses[0].extra = ExtraFields { entries: vec![("future_color".to_string(), "\"green\"".to_string())] };
    let base = revision(known);
    let merged = merge_definitions(&vec![], &base, LibraryDefinitions::new("Renamed")).unwrap();
    assert_eq!(merged.definitions.statuses[0].extra.entries[0].0, "future_color");
    assert_eq!(merged.definitions.name, "Renamed");
}
