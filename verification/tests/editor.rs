use gamesync::editor::Draft;
use gamesync::records::{ExtraFields, GameData, GameRevision, PersonalData, SCHEMA_VERSION};

fn record(revision_id: u128, notes: &str) -> GameRevision {
    let mut game = GameData::new("Hades");
    game.personal.notes = notes.to_string();
    GameRevision { schema_version: SCHEMA_VERSION, game_id: 1, revision_id, parents: vec![], deleted: false, game, extra: ExtraFields::new() }
}

#[test]
fn stale_game_and_remote_conflict_keep_draft_and_existing_files() {
    let mut draft = Draft::new(record(10, "Mine"));
    let mut value = PersonalData::new();
    value.notes = "Unsaved draft".to_string();
    assert!(draft.changed(&value));
    assert_eq!(draft.blocked(&None, true, Some(10)), None);
    assert_eq!(
        draft.blocked(&None, true, Some(11)).unwrap(),
        "This game changed elsewhere. Your unsaved changes are kept."
    );
    assert_eq!(
        draft.blocked(&None, false, Some(10)).unwrap(),
        "Collections or statuses changed. Your unsaved changes are kept."
    );
    assert_eq!(draft.blocked(&Some("Files need attention".to_string()), true, Some(10)).unwrap(), "Files need attention");
    assert!(!draft.rebase(&record(11, "Theirs")));
    assert_eq!(draft.base.revision_id, 10);
}

#[test]
fn provider_refreshes_move_the_draft_along() {
    let mut draft = Draft::new(record(10, "Mine"));
    assert!(draft.rebase(&record(11, "Mine")));
    assert_eq!(draft.base.revision_id, 11);
    assert!(!draft.rebase(&record(11, "Mine")));
}

#[test]
fn a_saved_draft_waits_for_the_library() {
    let mut draft = Draft::new(record(10, "Mine"));
    draft.saved(record(12, "Mine too"));
    assert_eq!(draft.published_from, Some(10));
    assert_eq!(draft.blocked(&None, true, Some(10)).unwrap(), "Waiting for library refresh.");
    assert_eq!(draft.blocked(&None, true, Some(12)), None);
    assert!(!draft.needs_reload(false, true, &record(10, "Mine")));
    assert!(draft.needs_reload(false, true, &record(13, "Other")));
    assert!(!draft.needs_reload(true, false, &record(13, "Other")));
    assert!(draft.needs_reload(false, false, &record(12, "Mine too")));
    assert!(!draft.rebase(&record(10, "Mine too")));
    draft.save_failed();
    assert!(draft.failed);
}

#[test]
fn the_form_reads_one_tag_per_line() {
    let mut personal = PersonalData::new();
    personal.favorite = true;
    personal.tags = vec!["old".to_string()];
    let value = gamesync::editor::form_value(&personal, "rpg\nco-op\n", "Finish the DLC");
    assert_eq!(value.tags, vec!["rpg".to_string(), "co-op".to_string()]);
    assert_eq!(value.notes, "Finish the DLC");
    assert!(value.favorite);
    assert!(gamesync::editor::form_value(&personal, "", "").tags.is_empty());
}
