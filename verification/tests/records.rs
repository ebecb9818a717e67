use gamesync::records::{
    contains_id, is_portable_media_path, without_id, Change, EditError, ExtraFields, GameData, GameRevision,
    PersonalData, RecordError, SteamData, SteamMetadata, SCHEMA_VERSION,
};

fn extra(entries: &[(&str, &str)]) -> ExtraFields {
    ExtraFields { entries: entries.iter().map(|(k, v)| (k.to_string(), v.to_string())).collect() }
}

fn record(game_id: u128, revision_id: u128, parents: Vec<u128>, title: &str) -> GameRevision {
    GameRevision {
        schema_version: SCHEMA_VERSION,
        game_id,
        revision_id,
        parents,
        deleted: false,
        game: GameData::new(title),
        extra: ExtraFields::new(),
    }
}

fn steam(app_id: u32) -> SteamData {
    SteamData {
        app_id,
        description: Some("Steam text".to_string()),
        playtime_minutes: 10,
        owned: true,
        metadata: Some(SteamMetadata {
            genres: vec!["Action".to_string()],
            release_year: Some("2020".to_string()),
            review_label: None,
            review_percent: None,
            cover: Some("media/steam.jpg".to_string()),
            details_complete: true,
            reviews_complete: false,
            cover_complete: true,
        }),
        extra: ExtraFields::new(),
    }
}

#[test]
fn a_fresh_record_is_valid() {
    let r = record(1, 2, vec![], "Hades");
    assert_eq!(r.validate(), Ok(()));
    assert_eq!(r.game.personal.status, "backlog");
}

#[test]
fn each_record_error_has_an_input() {
    let mut r = record(1, 2, vec![], "Hades");
    r.extra = extra(&[("game", "{}")]);
    assert_eq!(r.validate(), Err(RecordError::ReservedField));
    let mut r = record(1, 2, vec![], "Hades");
    r.schema_version = 2;
    assert_eq!(r.validate(), Err(RecordError::UnsupportedSchema(2)));
    assert_eq!(record(0, 2, vec![], "Hades").validate(), Err(RecordError::NilId));
    assert_eq!(record(1, 2, vec![3, 3], "Hades").validate(), Err(RecordError::DuplicateParent));
    assert_eq!(record(1, 2, vec![2], "Hades").validate(), Err(RecordError::InvalidParent));
    assert_eq!(record(1, 2, vec![0], "Hades").validate(), Err(RecordError::InvalidParent));
    assert_eq!(record(1, 2, vec![], "   ").validate(), Err(RecordError::EmptyTitle));
    let mut r = record(1, 2, vec![], "Hades");
    r.game.personal.status = " ".to_string();
    assert_eq!(r.validate(), Err(RecordError::EmptyStatus));
    let mut r = record(1, 2, vec![], "Hades");
    r.game.personal.rating = Some(11);
    assert_eq!(r.validate(), Err(RecordError::Rating));
    r.game.personal.rating = Some(0);
    assert_eq!(r.validate(), Err(RecordError::Rating));
    r.game.personal.rating = Some(10);
    assert_eq!(r.validate(), Ok(()));
    let mut r = record(1, 2, vec![], "Hades");
    r.game.steam = Some(steam(0));
    assert_eq!(r.validate(), Err(RecordError::SteamAppId));
    let mut r = record(1, 2, vec![], "Hades");
    r.game.personal.cover = Some("../cover.jpg".to_string());
    assert_eq!(r.validate(), Err(RecordError::Cover));
}

#[test]
fn record_errors_read_as_sentences() {
    assert_eq!(RecordError::UnsupportedSchema(2).message(), "Unsupported schema version 2");
    assert_eq!(RecordError::Rating.message(), "Rating must be from 0.5 to 5 stars");
    assert_eq!(RecordError::Cover.message(), "Cover must be a relative path inside media/");
}

#[test]
fn invalid_values_and_unsafe_cover_paths_never_publish() {
    for path in ["../cover.jpg", "/media/cover.jpg", "media/../cover.jpg", "media\\cover.jpg", "C:/cover.jpg"] {
        assert!(!is_portable_media_path(path), "{path}");
    }
    assert!(is_portable_media_path("media/cover.jpg"));
    assert!(is_portable_media_path("media/a/b.jpg"));
    assert!(!is_portable_media_path("media//b.jpg"));
    assert!(!is_portable_media_path("media/"));
    assert!(!is_portable_media_path("media/./b.jpg"));
}

#[test]
fn personal_overrides_win_over_provider_values() {
    let mut g = GameData::new("Hades");
    assert_eq!(g.description(), None);
    g.steam = Some(steam(42));
    assert_eq!(g.description(), Some("Steam text"));
    assert_eq!(g.cover(), Some("media/steam.jpg"));
    g.personal.description = Some(String::new());
    assert_eq!(g.description(), Some(""));
    g.personal.cover = Some("media/hades.jpg".to_string());
    assert_eq!(g.cover(), Some("media/hades.jpg"));
}

#[test]
fn supported_unknown_fields_survive_personal_edits() {
    let mut base = record(1, 2, vec![], "Hades");
    base.game.personal.extra = extra(&[("custom_field", "\"cozy\""), ("energy", "\"low\"")]);
    base.game.steam = Some(steam(42));
    let mut personal = PersonalData::new();
    personal.notes = "Calm, sometimes".to_string();
    personal.extra = extra(&[("energy", "\"high\"")]);
    let edited = base.with_personal(personal).unwrap();
    assert_eq!(edited.game.personal.notes, "Calm, sometimes");
    assert_eq!(edited.game.personal.extra.entries.len(), 2);
    assert_eq!(edited.game.personal.extra.entries[0], ("energy".to_string(), "\"high\"".to_string()));
    assert_eq!(edited.game.personal.extra.entries[1], ("custom_field".to_string(), "\"cozy\"".to_string()));
    assert_eq!(edited.game.steam.as_ref().unwrap().description.as_deref(), Some("Steam text"));
    assert_eq!(edited.revision_id, base.revision_id);
}

#[test]
fn archived_games_refuse_edits_and_archive_is_reversible() {
    let base = record(1, 2, vec![], "Hades");
    let archived = base.with_archived(true);
    assert!(archived.deleted);
    assert_eq!(archived.with_personal(PersonalData::new()).unwrap_err(), EditError::Archived);
    let restored = archived.with_archived(false);
    assert!(!restored.deleted);
    assert_eq!(restored.game.title, base.game.title);
    assert_eq!(restored.game_id, base.game_id);
}

#[test]
fn unknown_fields_keep_their_own_first() {
    let mut here = extra(&[("a", "1")]);
    here.retain_from(&extra(&[("a", "2"), ("b", "3")]));
    assert_eq!(here.entries, vec![("a".to_string(), "1".to_string()), ("b".to_string(), "3".to_string())]);
    assert!(here.contains_key("b"));
    assert!(!here.contains_key("c"));
}

#[test]
fn bulk_changes_touch_one_field_and_repeat_harmlessly() {
    let mut p = PersonalData::new();
    p.notes = "Keep this note".to_string();
    Change::Favorite(true).apply(&mut p);
    assert!(p.favorite);
    Change::Status("completed".to_string()).apply(&mut p);
    assert_eq!(p.status, "completed");
    Change::Collection(7, true).apply(&mut p);
    Change::Collection(7, true).apply(&mut p);
    assert_eq!(p.collections, vec![7]);
    Change::Collection(9, true).apply(&mut p);
    Change::Collection(7, false).apply(&mut p);
    assert_eq!(p.collections, vec![9]);
    Change::Hidden(true).apply(&mut p);
    assert!(p.hidden);
    assert_eq!(p.notes, "Keep this note");
}

#[test]
fn id_lists_find_and_drop_members() {
    let v = vec![1u128, 2, 1, 3];
    assert!(contains_id(&v, 3));
    assert!(!contains_id(&v, 4));
    assert_eq!(without_id(&v, 1), vec![2, 3]);
}
