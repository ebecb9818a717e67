use gamesync::library::{LibraryDefinitions, LibraryRevision};
use gamesync::reader::{library_changed, scan_game, scan_ids, shown_games, Action, GameScan, Reason};
use gamesync::records::{ExtraFields, GameData, GameRevision, SCHEMA_VERSION};
use gamesync::revisions::RevisionSnapshot;

fn record(game_id: u128, revision_id: u128, parents: Vec<u128>, title: &str) -> GameRevision {
    GameRevision {
        schema_version: SCHEMA_VERSION,
        game_id,
        revision_id,
        parents,
        deleted: false,
        game: GameData::new(title),
        extra: ExtraFields::new(),
    }
}

fn snapshot(records: Vec<GameRevision>) -> RevisionSnapshot<GameRevision> {
    let mut s = RevisionSnapshot::new();
    for r in records {
        s.add_revision(r, Some(1), String::from("history"));
    }
    s.finish();
    s
}

fn definitions() -> LibraryDefinitions {
    LibraryDefinitions::new("Games")
}

#[test]
fn a_current_revision_with_a_known_status_is_read() {
    match scan_game(1, &snapshot(vec![record(1, 10, vec![], "Hades")]), &definitions(), None) {
        GameScan::Current(g) => assert_eq!(g.game.title, "Hades"),
        other => panic!("unexpected {other:?}"),
    }
}

#[test]
fn invalid_definitions_and_unknown_status_do_not_replace_valid_data() {
    let mut r = record(1, 10, vec![], "Hades");
    r.game.personal.status = "undefined".to_string();
    let scan = scan_game(1, &snapshot(vec![r]), &definitions(), None);
    assert_eq!(scan.issue().unwrap(), "Hades: unknown status 'undefined'; keeping last valid data.");
}

#[test]
fn renamed_conflict_copies_are_detected_without_choosing_a_branch() {
    let s = snapshot(vec![record(1, 10, vec![], "Hades"), record(1, 20, vec![10], "Local"), record(1, 30, vec![10], "Remote")]);
    let scan = scan_game(1, &s, &definitions(), None);
    match &scan {
        GameScan::Unavailable { title, conflict, reason, action } => {
            assert_eq!(title, "Local");
            assert_eq!(conflict.as_deref(), Some("Local"));
            assert_eq!(*reason, Reason::ConflictingEdits);
            assert_eq!(*action, Action::OpenConflicts);
        }
        other => panic!("unexpected {other:?}"),
    }
    assert_eq!(scan.issue().unwrap(), "Local: conflicting edits; open Conflicts to review.");
    let cached = record(1, 10, vec![], "Cached Hades");
    let scan = scan_game(1, &s, &definitions(), Some(&cached));
    assert_eq!(scan.issue().unwrap(), "Cached Hades: conflicting edits; keeping last valid data.");
}

#[test]
fn partial_files_and_missing_sources_keep_valid_data_after_restart() {
    let empty = snapshot(vec![]);
    let scan = scan_game(0x67e5504410b1426f9247bb680e5fe0c8, &empty, &definitions(), None);
    assert_eq!(
        scan.issue().unwrap(),
        "67e55044-10b1-426f-9247-bb680e5fe0c8: files missing; waiting for valid files."
    );
    let incomplete = snapshot(vec![record(1, 30, vec![20], "Late")]);
    let scan = scan_game(1, &incomplete, &definitions(), None);
    assert_eq!(scan.issue().unwrap(), "Late: incomplete history; waiting for valid files.");
}

#[test]
fn tombstones_hide_games() {
    let mut archived = record(2, 20, vec![], "Archived");
    archived.deleted = true;
    let shown = shown_games(&vec![record(1, 10, vec![], "Kept"), archived, record(3, 30, vec![], "Also kept")]);
    assert_eq!(shown.iter().map(|g| g.game.title.as_str()).collect::<Vec<_>>(), vec!["Kept", "Also kept"]);
}

fn manifest(library_id: u128, revision_id: u128) -> LibraryRevision {
    LibraryRevision {
        schema_version: SCHEMA_VERSION,
        library_id,
        revision_id,
        parents: vec![],
        definitions: definitions(),
        extra: ExtraFields::new(),
    }
}

#[test]
fn cached_games_of_another_library_are_dropped() {
    assert!(!library_changed(&None, &manifest(5, 50)));
    assert!(!library_changed(&Some(manifest(5, 40)), &manifest(5, 50)));
    assert!(library_changed(&Some(manifest(6, 60)), &manifest(5, 50)));
}

#[test]
fn a_scan_looks_at_found_and_cached_games_once_each() {
    assert_eq!(scan_ids(&vec![30, 10, 20], &vec![20, 40, 10]), vec![10, 20, 30, 40]);
    assert_eq!(scan_ids(&vec![], &vec![5, 5]), vec![5]);
    assert!(scan_ids(&vec![], &vec![]).is_empty());
}
