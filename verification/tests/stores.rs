use gamesync::library::{CollectionDefinition, LibraryDefinitions, LibraryError, LibraryRevision};
use gamesync::records::{personal_eq, revision_eq, Change, ExtraFields, GameData, GameRevision, PersonalData, RecordError, SteamData, SCHEMA_VERSION};
use gamesync::revisions::{HistoryError, RevisionIssue, RevisionSnapshot};
use gamesync::steam::OwnedGame;
use gamesync::stores::{steam_game_id, LibraryStore, RecordStore, SteamCandidate, SteamChange, SteamImport, StoreError};
use tempfile::TempDir;

fn folder(root: &std::path::Path, name: &str) -> std::path::PathBuf {
    tempfile::Builder::new().prefix(name).rand_bytes(0).tempdir_in(root).unwrap().keep()
}

fn library_dir() -> TempDir {
    let dir = tempfile::tempdir().unwrap();
    folder(dir.path(), "games");
    folder(dir.path(), "media");
    let history = folder(dir.path(), "history");
    folder(&history, "library");
    dir
}

fn stores() -> (TempDir, RecordStore, LibraryStore) {
    let dir = library_dir();
    let root = dir.path().to_str().unwrap().to_string();
    let records = RecordStore::open(&root).unwrap();
    let library = LibraryStore::open(&root).unwrap();
    (dir, records, library)
}

fn record(game_id: u128, revision_id: u128, parents: Vec<u128>, title: &str) -> GameRevision {
    GameRevision {
        schema_version: SCHEMA_VERSION,
        game_id,
        revision_id,
        parents,
        deleted: false,
        game: GameData::new(title),
        extra: ExtraFields::new(),
    }
}

fn snapshot(records: Vec<GameRevision>) -> RevisionSnapshot<GameRevision> {
    let mut s = RevisionSnapshot::new();
    for r in records {
        let id = r.game_id;
        s.add_revision(r, Some(id), String::from("history"));
    }
    s.finish();
    s
}

fn library_snapshot(records: Vec<LibraryRevision>) -> RevisionSnapshot<LibraryRevision> {
    let mut s = RevisionSnapshot::new();
    for r in records {
        s.add_revision(r, None, String::from("history/library"));
    }
    LibraryStore::note_empty(&mut s);
    s.finish();
    s
}

fn library(id: u128, revision: u128, account: Option<&str>) -> LibraryRevision {
    let mut definitions = LibraryDefinitions::new("Games");
    definitions.steam_account = account.map(|a| a.to_string());
    LibraryRevision { schema_version: SCHEMA_VERSION, library_id: id, revision_id: revision, parents: vec![], definitions, extra: ExtraFields::new() }
}

fn linked(game_id: u128, revision_id: u128, app_id: u32) -> GameRevision {
    let mut r = record(game_id, revision_id, vec![], "Test");
    r.game.steam = Some(SteamData {
        app_id,
        description: None,
        playtime_minutes: 1,
        owned: true,
        metadata: None,
        extra: ExtraFields::new(),
    });
    r
}

fn version_nibble(id: u128) -> u128 {
    (id >> 76) & 0xf
}

#[test]
fn stores_need_the_library_folders() {
    assert_eq!(RecordStore::open("/nonexistent/gamesync/library").err(), Some(StoreError::Unavailable));
    let dir = tempfile::tempdir().unwrap();
    let root = dir.path().to_str().unwrap().to_string();
    assert!(RecordStore::open(&root).is_err());
    folder(dir.path(), "games");
    folder(dir.path(), "history");
    assert_eq!(RecordStore::open(&root).unwrap().root(), root);
    assert!(LibraryStore::open(&root).is_err());
    let (_dir, records, library) = stores();
    assert_eq!(records.root(), library.root());
}

#[test]
fn created_games_get_fresh_identities() {
    let (_dir, store, _) = stores();
    let a = store.create(GameData::new("Hades")).unwrap();
    let b = store.create(GameData::new("Hades")).unwrap();
    assert_ne!(a.game_id, b.game_id);
    assert_eq!(version_nibble(a.game_id), 4);
    assert_eq!(version_nibble(a.revision_id), 4);
    assert!(a.parents.is_empty());
    assert_eq!(store.create(GameData::new("  ")).unwrap_err(), StoreError::InvalidRecord(RecordError::EmptyTitle));
    let fixed = store.create_identified(77, GameData::new("Celeste")).unwrap();
    assert_eq!(fixed.game_id, 77);
}

#[test]
fn edits_preserve_provider_data_and_reject_stale_parents() {
    let (_dir, store, _) = stores();
    let mut base = linked(1, 10, 42);
    base.game.personal.extra = ExtraFields { entries: vec![("custom".to_string(), "\"keep\"".to_string())] };
    let s = snapshot(vec![base]);
    let mut personal = PersonalData::new();
    personal.notes = "Try a short run.\nThen stop.".to_string();
    let n = store.edit_personal(&s, 10, personal.clone()).unwrap();
    assert_eq!(n.parents, vec![10]);
    assert_eq!(n.game.personal.notes, "Try a short run.\nThen stop.");
    assert_eq!(n.game.steam.as_ref().unwrap().app_id, 42);
    assert_eq!(n.game.personal.extra.entries[0].0, "custom");
    assert_eq!(version_nibble(n.revision_id), 4);
    assert_eq!(store.edit_personal(&s, 9, personal).unwrap_err(), StoreError::History(HistoryError::Changed));
}

#[test]
fn archived_games_and_attention_block_personal_edits() {
    let (_dir, store, _) = stores();
    let mut archived = record(1, 10, vec![], "Old");
    archived.deleted = true;
    let s = snapshot(vec![archived]);
    assert_eq!(store.edit_personal(&s, 10, PersonalData::new()).unwrap_err(), StoreError::Archived);
    let restored = store.set_archived(&s, 10, false).unwrap();
    assert!(!restored.deleted);
    assert_eq!(restored.parents, vec![10]);
    let mut blocked = snapshot(vec![record(1, 10, vec![], "A")]);
    blocked.add_issue(RevisionIssue::File("games/1.json".to_string()));
    assert_eq!(
        store.edit_personal(&blocked, 10, PersonalData::new()).unwrap_err(),
        StoreError::History(HistoryError::NeedsAttention)
    );
    let mut bad = PersonalData::new();
    bad.rating = Some(11);
    let s = snapshot(vec![record(1, 10, vec![], "A")]);
    assert_eq!(store.edit_personal(&s, 10, bad).unwrap_err(), StoreError::InvalidRecord(RecordError::Rating));
}

#[test]
fn conflicts_resolve_over_all_reviewed_heads() {
    let (_dir, store, _) = stores();
    let s = snapshot(vec![record(1, 10, vec![], "A"), record(1, 20, vec![10], "Local"), record(1, 30, vec![10], "Remote")]);
    assert_eq!(store.resolve(&s, &vec![20], 20).unwrap_err(), StoreError::ChooseConflict);
    assert_eq!(store.resolve(&s, &vec![20, 40], 20).unwrap_err(), StoreError::History(HistoryError::Changed));
    let n = store.resolve(&s, &vec![20, 30], 30).unwrap();
    assert_eq!(n.game.title, "Remote");
    assert_eq!(n.parents, vec![20, 30]);
    assert_eq!(store.edit_personal(&s, 20, PersonalData::new()).unwrap_err(), StoreError::History(HistoryError::Changed));
}

#[test]
fn steam_updates_change_only_their_stage() {
    let (_dir, store, _) = stores();
    let s = snapshot(vec![linked(1, 10, 42)]);
    let n = store
        .update_steam(&s, 42, SteamChange::Reviews { label: Some("Very Positive".to_string()), percent: Some(90) })
        .unwrap();
    let m = n.game.steam.as_ref().unwrap().metadata.as_ref().unwrap();
    assert!(m.reviews_complete);
    assert!(!m.details_complete);
    assert_eq!(m.review_percent, Some(90));
    assert_eq!(store.update_steam(&s, 43, SteamChange::Owned { playtime_minutes: 5 }).unwrap_err(), StoreError::SteamMismatch);
    let plain = snapshot(vec![record(1, 10, vec![], "A")]);
    assert_eq!(store.update_steam(&plain, 42, SteamChange::Owned { playtime_minutes: 5 }).unwrap_err(), StoreError::SteamMismatch);
    let cover = store.update_steam(&s, 42, SteamChange::Cover { path: "media/42.jpg".to_string() }).unwrap();
    assert_eq!(cover.game.steam.unwrap().metadata.unwrap().cover.as_deref(), Some("media/42.jpg"));
}

#[test]
fn new_libraries_start_with_the_six_statuses() {
    let first = LibraryStore::first_revision("Evening games").unwrap();
    let keys: Vec<&str> = first.definitions.statuses.iter().map(|s| s.key.as_str()).collect();
    assert_eq!(keys, ["backlog", "wanted", "playing", "paused", "completed", "dropped"]);
    assert_eq!(first.definitions.default_status, "backlog");
    assert_eq!(LibraryStore::first_revision(" ").unwrap_err(), StoreError::Library(LibraryError::EmptyName));
    let mut empty = RevisionSnapshot::<LibraryRevision>::new();
    LibraryStore::note_empty(&mut empty);
    assert_eq!(empty.issues, vec![RevisionIssue::NoRevisions]);
}

#[test]
fn invalid_status_edits_and_removals_do_not_publish() {
    let (_dir, _, store) = stores();
    let s = library_snapshot(vec![library(5, 50, None)]);
    let mut d = LibraryDefinitions::new("Games");
    d.statuses.remove(3);
    assert_eq!(store.edit(&s, 50, d).unwrap_err(), StoreError::Library(LibraryError::StatusRemoval("paused".to_string())));
    let mut d = LibraryDefinitions::new("Games");
    d.default_status = "unknown".to_string();
    assert_eq!(store.edit(&s, 50, d).unwrap_err(), StoreError::Library(LibraryError::UnknownDefault));
    let mut d = LibraryDefinitions::new("Games");
    d.statuses[0].label = "Someday".to_string();
    d.collections.push(CollectionDefinition { id: 9, name: "Weekend".to_string(), archived: false, extra: ExtraFields::new() });
    let n = store.edit(&s, 50, d).unwrap();
    assert_eq!(n.parents, vec![50]);
    assert_eq!(n.definitions.statuses[0].label, "Someday");
    assert_eq!(n.definitions.statuses[0].key, "backlog");
    let with_collection = library_snapshot(vec![library(5, 50, None), n]);
    let head = with_collection.heads[0];
    assert_eq!(
        store.edit(&with_collection, head, LibraryDefinitions::new("Games")).unwrap_err(),
        StoreError::Library(LibraryError::CollectionRemoval(9))
    );
}

#[test]
fn steam_binding_happens_once() {
    let (_dir, _, store) = stores();
    let s = library_snapshot(vec![library(5, 50, None)]);
    let bound = store.bind_steam(&s, 50, "76561198000000001").unwrap().unwrap();
    assert_eq!(bound.definitions.steam_account.as_deref(), Some("76561198000000001"));
    let s = library_snapshot(vec![library(5, 50, Some("76561198000000001"))]);
    assert!(store.bind_steam(&s, 50, "76561198000000001").unwrap().is_none());
    assert_eq!(store.bind_steam(&s, 50, "76561198000000002").unwrap_err(), StoreError::Library(LibraryError::OtherAccount));
    assert_eq!(store.bind_steam(&s, 49, "76561198000000001").unwrap_err(), StoreError::Library(LibraryError::Changed));
    let none = library_snapshot(vec![]);
    assert_eq!(store.bind_steam(&none, 50, "76561198000000001").unwrap_err(), StoreError::NoCurrentLibrary);
}

#[test]
fn invalid_status_and_stale_definitions_do_not_publish_a_game_revision() {
    let (_dir, _, store) = stores();
    let lib = library(5, 50, None);
    let ls = library_snapshot(vec![library(5, 50, None)]);
    let gs = snapshot(vec![record(1, 10, vec![], "Hades")]);
    let mut unknown = PersonalData::new();
    unknown.status = "unknown".to_string();
    assert_eq!(
        store.edit_game_personal(&ls, &lib, &gs, 10, unknown).unwrap_err(),
        StoreError::Library(LibraryError::UnknownStatus)
    );
    let mut renamed = library(5, 50, None);
    renamed.definitions.name = "Renamed".to_string();
    assert_eq!(
        store.edit_game_personal(&ls, &renamed, &gs, 10, PersonalData::new()).unwrap_err(),
        StoreError::Library(LibraryError::Changed)
    );
    let mut playing = PersonalData::new();
    playing.status = "playing".to_string();
    let n = store.edit_game_personal(&ls, &lib, &gs, 10, playing).unwrap();
    assert_eq!(n.game.personal.status, "playing");
}

#[test]
fn steam_import_is_idempotent_and_preserves_archived_games_and_manual_changes() {
    let (_dir, records, store) = stores();
    let account = "76561198000000001";
    let base = library(5, 50, None);
    let unbound = library_snapshot(vec![base.dup()]);
    let manifest = store.bind_steam(&unbound, 50, account).unwrap().unwrap();
    let ls = library_snapshot(vec![base.dup(), manifest.dup()]);
    assert_eq!(
        store.bind_steam(&ls, manifest.revision_id, "76561198000000002").unwrap_err(),
        StoreError::Library(LibraryError::OtherAccount)
    );
    let mut input = OwnedGame { appid: 42, name: "Test".to_string(), playtime_forever: 5 };
    let game = match store.import_steam(&ls, account, &input, 0, &vec![]).unwrap() {
        SteamImport::Create(n) => n,
        other => panic!("expected a new game, got {other:?}"),
    };
    assert_eq!(game.game_id, steam_game_id(5, 42));
    assert_eq!(game.game.personal.status, "backlog");
    let candidates = vec![SteamCandidate { game_id: game.game_id, records: snapshot(vec![game.clone()]) }];
    let again = match store.import_steam(&ls, account, &input, 0, &candidates).unwrap() {
        SteamImport::Unchanged(n) => n,
        other => panic!("expected the same record, got {other:?}"),
    };
    assert!(revision_eq(&game, &again));
    assert_eq!((again.game_id, again.revision_id), (game.game_id, game.revision_id));

    let mut personal = game.game.personal.clone();
    personal.rating = Some(8);
    personal.notes = "Keep".to_string();
    personal.hidden = true;
    personal.status = "completed".to_string();
    let history = snapshot(vec![game.clone()]);
    let saved = store.edit_game_personal(&ls, &manifest, &history, game.revision_id, personal.clone()).unwrap();
    let history = snapshot(vec![game.clone(), saved.clone()]);
    let archived = records.set_archived(&history, saved.revision_id, true).unwrap();
    let history = snapshot(vec![game.clone(), saved.clone(), archived.clone()]);
    input.playtime_forever = 10;
    let candidates = vec![SteamCandidate {
        game_id: game.game_id,
        records: snapshot(vec![game.clone(), saved.clone(), archived.clone()]),
    }];
    let synced = match store.import_steam(&ls, account, &input, 0, &candidates).unwrap() {
        SteamImport::Update(n) => n,
        other => panic!("expected an update, got {other:?}"),
    };
    assert!(synced.deleted);
    assert!(personal_eq(&synced.game.personal, &personal));
    assert_eq!(synced.game.steam.as_ref().unwrap().playtime_minutes, 10);
    assert!(store.edit_game_personal(&ls, &manifest, &history, saved.revision_id, personal.clone()).is_err());
    let history = snapshot(vec![game.clone(), saved.clone(), archived.clone(), synced.clone()]);
    assert!(store.edit_game_personal(&ls, &manifest, &history, synced.revision_id, personal).is_err());

    assert_eq!(store.import_steam(&ls, "76561198000000002", &input, 0, &vec![]).unwrap_err(), StoreError::AccountMismatch);
    assert_eq!(store.import_steam(&ls, account, &input, 1, &vec![]).unwrap_err(), StoreError::FilesNeedAttention);
}

#[test]
fn duplicate_steam_id_blocks_import_instead_of_guessing() {
    let (_dir, _, store) = stores();
    let account = "76561198000000001";
    let ls = library_snapshot(vec![library(5, 50, Some(account))]);
    let game = OwnedGame { appid: 42, name: "Test".to_string(), playtime_forever: 10 };
    let candidates = vec![
        SteamCandidate { game_id: 1, records: snapshot(vec![linked(1, 10, 42)]) },
        SteamCandidate { game_id: 2, records: snapshot(vec![linked(2, 20, 42)]) },
    ];
    assert_eq!(store.import_steam(&ls, account, &game, 0, &candidates).unwrap_err(), StoreError::DuplicateSteamGame);
    let conflicted = vec![SteamCandidate {
        game_id: 1,
        records: snapshot(vec![linked(1, 10, 42), linked(1, 20, 42), { let mut r = linked(1, 30, 42); r.parents = vec![10]; r }]),
    }];
    assert_eq!(store.import_steam(&ls, account, &game, 0, &conflicted).unwrap_err(), StoreError::SteamConflict);
    let mut unreadable = snapshot(vec![]);
    unreadable.add_issue(RevisionIssue::File("games/x.json".to_string()));
    let unreadable = vec![SteamCandidate { game_id: 3, records: unreadable }];
    assert_eq!(store.import_steam(&ls, account, &game, 0, &unreadable).unwrap_err(), StoreError::UnreadableGames);
}

#[test]
fn steam_identities_are_name_based_uuids() {
    let library_id: u128 = 0x6ba7b810_9dad_11d1_80b4_00c04fd430c8;
    let expected = uuid::Uuid::new_v5(&uuid::Uuid::from_u128(library_id), b"steam:42").as_u128();
    assert_eq!(steam_game_id(library_id, 42), expected);
    assert_ne!(steam_game_id(library_id, 42), steam_game_id(library_id, 43));
    assert_eq!(steam_game_id(library_id, 42), steam_game_id(library_id, 42));
}

#[test]
fn bulk_edits_preserve_unrelated_fields_and_report_stale_games() {
    let (_dir, _, store) = stores();
    let lib = library(5, 50, None);
    let ls = library_snapshot(vec![library(5, 50, None)]);
    let mut base = record(1, 10, vec![], "Selected");
    base.game.personal.notes = "Keep this note".to_string();
    let gs = snapshot(vec![base.clone()]);
    let saved = store.edit_game_change(&ls, &lib, &gs, &base, &Change::Favorite(true)).unwrap();
    assert!(saved.game.personal.favorite);
    assert_eq!(saved.game.personal.notes, "Keep this note");
    let mut changed = base.clone();
    changed.revision_id = 11;
    changed.parents = vec![10];
    changed.game.personal.notes = "Changed elsewhere".to_string();
    let moved = snapshot(vec![base.clone(), changed]);
    assert_eq!(
        store.edit_game_change(&ls, &lib, &moved, &base, &Change::Favorite(true)).unwrap_err(),
        StoreError::History(HistoryError::Changed)
    );
    assert_eq!(
        store.edit_game_change(&ls, &lib, &gs, &base, &Change::Status("cozy".to_string())).unwrap_err(),
        StoreError::Library(LibraryError::UnknownStatus)
    );
}

#[test]
fn refusals_read_as_sentences() {
    assert_eq!(StoreError::Archived.message(), "Restore the archived game before editing");
    assert_eq!(StoreError::InvalidRecord(RecordError::EmptyTitle).message(), "Game title is empty");
    assert_eq!(
        StoreError::Library(LibraryError::StatusRemoval("paused".to_string())).message(),
        "Status removal requires game reassignment: paused"
    );
    assert_eq!(
        LibraryError::CollectionRemoval(0x67e5504410b1426f9247bb680e5fe0c8).message(),
        "Collections are archived, not removed: 67e55044-10b1-426f-9247-bb680e5fe0c8"
    );
    assert_eq!(
        RevisionIssue::MissingParent(0x67e5504410b1426f9247bb680e5fe0c8).message(),
        "Missing revision parent 67e55044-10b1-426f-9247-bb680e5fe0c8"
    );
    assert_eq!(RevisionIssue::Misplaced("games/x.json".to_string()).message(), "games/x.json: Record identity does not match its file location");
}

fn with_collections(revision: u128, parents: Vec<u128>, names: &[(u128, &str)]) -> LibraryRevision {
    let mut r = library(5, revision, None);
    r.parents = parents;
    for (id, name) in names {
        r.definitions.collections.push(CollectionDefinition { id: *id, name: name.to_string(), archived: false, extra: ExtraFields::new() });
    }
    r
}

#[test]
fn adding_collection_membership_preserves_game_data_and_rejects_stale_writes() {
    let (_dir, _, store) = stores();
    let manifest = with_collections(50, vec![], &[(1, "Evening"), (2, "Weekend")]);
    let ls = library_snapshot(vec![with_collections(50, vec![], &[(1, "Evening"), (2, "Weekend")])]);
    let mut game = record(7, 70, vec![], "Test game");
    game.game.personal.collections.push(1);
    game.game.personal.notes = "Keep my notes".to_string();
    game.game.personal.favorite = true;
    game.game.personal.rating = Some(9);
    let gs = snapshot(vec![game.clone()]);
    let mut personal = game.game.personal.clone();
    personal.collections.push(2);
    let saved = store.edit_game_personal(&ls, &manifest, &gs, 70, personal.clone()).unwrap();
    assert_eq!(saved.game.personal.collections, vec![1, 2]);
    assert_eq!(saved.game.personal.notes, "Keep my notes");
    assert!(saved.game.personal.favorite);
    assert_eq!(saved.game.personal.rating, Some(9));
    assert_eq!(saved.game.title, "Test game");
    let after = snapshot(vec![game.clone(), saved.clone()]);
    assert_eq!(
        store.edit_game_personal(&ls, &manifest, &after, 70, personal.clone()).unwrap_err(),
        StoreError::History(HistoryError::Changed)
    );
    let renamed = library_snapshot(vec![
        with_collections(50, vec![], &[(1, "Evening"), (2, "Weekend")]),
        with_collections(51, vec![50], &[(1, "Evening"), (2, "Renamed elsewhere")]),
    ]);
    assert_eq!(
        store.edit_game_personal(&renamed, &manifest, &after, saved.revision_id, personal).unwrap_err(),
        StoreError::History(HistoryError::Changed)
    );
}

#[test]
fn bulk_collection_add_remove_and_status_use_current_definitions() {
    let (_dir, _, store) = stores();
    let manifest = with_collections(50, vec![], &[(9, "Cozy")]);
    let ls = library_snapshot(vec![with_collections(50, vec![], &[(9, "Cozy")])]);
    let mut games = vec![record(1, 10, vec![], "First"), record(2, 20, vec![], "Second")];
    let mut histories: Vec<Vec<GameRevision>> = games.iter().map(|g| vec![g.clone()]).collect();
    let mut apply = |games: &mut Vec<GameRevision>, change: Change| {
        for (k, base) in games.iter_mut().enumerate() {
            let saved = store.edit_game_change(&ls, &manifest, &snapshot(histories[k].clone()), base, &change).unwrap();
            histories[k].push(saved.clone());
            *base = saved;
        }
    };
    apply(&mut games, Change::Collection(9, true));
    apply(&mut games, Change::Collection(9, true));
    assert!(games.iter().all(|g| g.game.personal.collections == vec![9]));
    let last = manifest.definitions.statuses.last().unwrap().key.clone();
    apply(&mut games, Change::Status(last.clone()));
    assert!(games.iter().all(|g| g.game.personal.status == last));
    apply(&mut games, Change::Collection(9, false));
    assert!(games.iter().all(|g| g.game.personal.collections.is_empty()));
    let archived = library_snapshot(vec![
        with_collections(50, vec![], &[(9, "Cozy")]),
        {
            let mut r = with_collections(51, vec![50], &[(9, "Cozy")]);
            r.definitions.collections[0].archived = true;
            r
        },
    ]);
    for (k, base) in games.iter().enumerate() {
        assert!(store.edit_game_change(&archived, &manifest, &snapshot(histories[k].clone()), base, &Change::Collection(9, true)).is_err());
    }
}

#[test]
fn archiving_then_restoring_gives_back_the_game() {
    let (_dir, store, _) = stores();
    let mut live = record(1, 10, vec![], "Hades");
    live.game.personal.notes = "Keep".to_string();
    let before = snapshot(vec![live.clone()]);
    let archived = store.set_archived(&before, 10, true).unwrap();
    assert!(archived.deleted);
    assert_eq!(archived.parents, vec![10]);
    assert_eq!(version_nibble(archived.revision_id), 4);
    let after = snapshot(vec![live.clone(), archived.clone()]);
    assert_eq!(store.edit_personal(&after, archived.revision_id, PersonalData::new()).unwrap_err(), StoreError::Archived);
    let restored = store.set_archived(&after, archived.revision_id, false).unwrap();
    assert!(!restored.deleted);
    assert_eq!(restored.parents, vec![archived.revision_id]);
    assert_eq!(restored.game.title, "Hades");
    assert_eq!(restored.game.personal.notes, "Keep");
}

#[test]
fn binding_an_unbound_library_changes_only_the_account() {
    let (_dir, _, store) = stores();
    let base = library(5, 50, None);
    let unbound = library_snapshot(vec![base.dup()]);
    let bound = store.bind_steam(&unbound, 50, "76561198000000001").unwrap().unwrap();
    assert_eq!(bound.definitions.steam_account.as_deref(), Some("76561198000000001"));
    assert_eq!(bound.parents, vec![50]);
    assert_eq!(bound.library_id, 5);
    assert_eq!(bound.definitions.name, base.definitions.name);
    assert_eq!(bound.definitions.statuses.len(), base.definitions.statuses.len());
    assert_eq!(bound.definitions.default_status, base.definitions.default_status);
    let both = library_snapshot(vec![base.dup(), bound.dup()]);
    assert!(store.bind_steam(&both, bound.revision_id, "76561198000000001").unwrap().is_none());
    assert_eq!(store.bind_steam(&both, 50, "76561198000000001").unwrap_err(), StoreError::Library(LibraryError::Changed));
}

#[test]
fn opening_needs_every_layout_folder() {
    assert_eq!(gamesync::stores::folder_path("/lib", "history/library"), "/lib/history/library");
    assert!(LibraryStore::open_with("/lib", true, true, true, true).is_ok());
    assert!(matches!(LibraryStore::open_with("/lib", true, false, true, true), Err(StoreError::Unavailable)));
    assert!(matches!(LibraryStore::open_with("/lib", true, true, true, false), Err(StoreError::Unavailable)));
    assert_eq!(LibraryStore::open_with("/lib", true, true, true, true).unwrap().root(), "/lib");
    assert!(RecordStore::open_with("/lib", true, true).is_ok());
    assert!(matches!(RecordStore::open_with("/lib", false, true), Err(StoreError::Unavailable)));
    let empty = tempfile::tempdir().unwrap();
    assert!(matches!(LibraryStore::open(empty.path().to_str().unwrap()), Err(StoreError::Unavailable)));
}

#[test]
fn a_valid_personal_edit_of_a_live_game_is_saved() {
    let (_dir, store, _) = stores();
    let live = record(1, 10, vec![], "Hades");
    let s = snapshot(vec![live]);
    let mut personal = PersonalData::new();
    personal.notes = "Saved".to_string();
    let n = store.edit_personal(&s, 10, personal).unwrap();
    assert_eq!(n.parents, vec![10]);
    assert_eq!(n.game.personal.notes, "Saved");
    assert!(!n.deleted);
}
