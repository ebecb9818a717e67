use gamesync::library::{CollectionDefinition, LibraryDefinitions, LibraryRevision, StatusDefinition};
use gamesync::model::{bulk_message, contains_text, Game, Library, Scope};
use gamesync::records::{ExtraFields, GameData, GameRevision, SCHEMA_VERSION};
use gamesync::settings::{GroupBy, SortBy};

fn game(id: u128, title: &str, status: &str, favorite: bool, tags: &[&str], playtime_minutes: u32, rating: Option<u8>) -> Game {
    Game {
        id,
        title: title.to_string(),
        cover: format!("{id}.jpg"),
        description: format!("About {title}"),
        status: status.to_string(),
        status_label: String::new(),
        collections: Vec::new(),
        cover_path: None,
        rating,
        tags: tags.iter().map(|t| t.to_string()).collect(),
        playtime_minutes,
        favorite,
        record: None,
    }
}

/// Twelve sample games, in no particular order.
fn games() -> Vec<Game> {
    vec![
        game(1145360, "Hades", "playing", true, &["roguelike", "action"], 3000, Some(9)),
        game(504230, "Celeste", "completed", true, &["platformer", "puzzle"], 900, Some(10)),
        game(620, "Portal 2", "completed", false, &["puzzle", "co-op"], 600, Some(9)),
        game(413150, "Stardew Valley", "playing", false, &["farming", "cozy"], 5000, None),
        game(367520, "Hollow Knight", "paused", true, &["metroidvania"], 2400, Some(8)),
        game(736260, "Baba Is You", "backlog", false, &["puzzle"], 120, None),
        game(753640, "Outer Wilds", "wanted", false, &["exploration"], 0, None),
        game(632470, "Disco Elysium", "backlog", false, &["rpg"], 30, Some(7)),
        game(646570, "Slay the Spire", "dropped", false, &["deckbuilder"], 1500, Some(6)),
        game(427520, "Factorio", "paused", false, &["automation"], 7000, None),
        game(590380, "Into the Breach", "completed", false, &["strategy", "puzzle"], 800, Some(8)),
        game(653530, "Return of the Obra Dinn", "wanted", false, &["mystery", "puzzle"], 10, None),
    ]
}

fn library() -> Library {
    Library::new(games())
}

#[test]
fn the_sample_library_is_sorted_by_title_and_shows_everything() {
    let lib = library();
    assert_eq!(lib.games.len(), 12);
    assert_eq!(lib.games[0].title, "Baba Is You");
    assert_eq!(lib.games[11].title, "Stardew Valley");
    assert_eq!(lib.visible, (0..12).collect::<Vec<usize>>());
    assert_eq!(lib.name, "Demo library");
    assert!(lib.demo);
    assert!(lib.selected.is_none());
    assert_eq!(lib.games[0].status_label, "Backlog");
}

#[test]
fn display_sort_filters_groups_and_refresh_compose() {
    let mut lib = library();
    lib.display.sort = SortBy::Hours;
    lib.display.descending = true;
    lib.display.group = GroupBy::Status;
    lib.recompute();
    assert!(lib.visible.windows(2).all(|w| lib.games[w[0]].playtime_minutes >= lib.games[w[1]].playtime_minutes));
    assert_eq!(lib.groups.iter().map(|(_, slots)| slots.len()).sum::<usize>(), lib.visible.len());
    lib.select_slot(0);
    let selected = lib.selected;
    lib.display.sort = SortBy::Name;
    lib.recompute();
    assert_eq!(lib.selected, selected);
    lib.filter_favorites = true;
    lib.filter_status = Some("playing".into());
    lib.recompute();
    assert!(lib.visible.iter().all(|&i| lib.games[i].favorite && lib.games[i].status == "playing"));
    lib.replace(library(), true);
    assert!(lib.filter_favorites);
    assert_eq!(lib.display.group, GroupBy::Status);
    lib.replace(library(), false);
    assert!(!lib.filter_favorites);
    assert_eq!(lib.display.group, GroupBy::Status);
    assert!(!lib.groups.is_empty());
}

#[test]
fn status_and_collection_sort_use_definition_order_and_first_collection() {
    let mut lib = library();
    lib.display.sort = SortBy::Status;
    lib.recompute();
    let ranks: Vec<_> = lib
        .visible
        .iter()
        .map(|&i| lib.statuses.iter().position(|s| s.key == lib.games[i].status).unwrap())
        .collect();
    assert!(ranks.windows(2).all(|w| w[0] <= w[1]));
    lib.games[0].collections = vec!["Zulu".into(), "Alpha".into()];
    lib.games[1].collections = vec!["Beta".into()];
    lib.display.sort = SortBy::Collection;
    lib.recompute();
    assert_eq!(&lib.visible[10..], &[0, 1]);
    lib.display.descending = true;
    lib.recompute();
    assert_eq!(&lib.visible[..2], &[1, 0]);
}

#[test]
fn collection_groups_repeat_members_without_duplicating_results() {
    let mut lib = library();
    lib.games[0].collections = vec!["Cozy".into(), "Weekend".into()];
    lib.display.group = GroupBy::Collections;
    lib.recompute();
    assert_eq!(lib.visible.len(), 12);
    assert_eq!(lib.groups.iter().find(|(n, _)| n == "Cozy").unwrap().1, vec![0]);
    assert_eq!(lib.groups.iter().find(|(n, _)| n == "Weekend").unwrap().1, vec![0]);
    assert_eq!(lib.groups.last().unwrap().0, "No collection");
    lib.set_query("no-match-123");
    assert!(lib.groups.is_empty());
}

#[test]
fn filters_compose_and_clear_hidden_selection() {
    let mut lib = library();
    lib.set_query("hAdEs");
    assert_eq!(lib.visible.len(), 1);
    lib.select_slot(0);
    assert_eq!(lib.selected, Some(1145360));
    lib.set_scope(Scope::Status("completed".into()));
    assert!(lib.visible.is_empty());
    assert!(lib.selected_game().is_none());
}

#[test]
fn selection_survives_refilter_by_identity() {
    let mut lib = library();
    lib.set_query("hades");
    lib.select_slot(0);
    lib.set_query("");
    assert_eq!(lib.selected_game().unwrap().title, "Hades");
}

#[test]
fn keyboard_stops_at_edges_and_handles_empty_results() {
    let mut lib = library();
    assert_eq!(lib.step_selection(-1), Some(0));
    assert_eq!(lib.step_selection(-1), Some(0));
    assert_eq!(lib.step_selection(10_000), Some(lib.visible.len() - 1));
    lib.set_query("no-match-123");
    assert_eq!(lib.step_selection(1), None);
}

#[test]
fn search_includes_tags_and_counts_are_scope_totals() {
    let mut lib = library();
    let total = lib.count(&Scope::All);
    lib.set_query("puzzle");
    assert!(!lib.visible.is_empty());
    assert!(lib.visible.len() < total);
    assert_eq!(lib.count(&Scope::All), total);
}

#[test]
fn refresh_keeps_selection_search_and_viewport_identity() {
    let mut lib = library();
    lib.set_query("hades");
    lib.select_slot(0);
    let visible = lib.visible.clone();
    let mut refreshed = library();
    let hades = refreshed.games.iter_mut().find(|game| game.title == "Hades").unwrap();
    hades.rating = Some(7);
    lib.replace(refreshed, true);
    assert_eq!(lib.visible.len(), 1);
    assert_eq!(lib.selected_game().unwrap().rating, Some(7));
    assert_eq!(visible, lib.visible);
    lib.replace(library(), false);
    assert_eq!(lib.visible.len(), 12);
    assert!(lib.selected.is_none());
}

#[test]
fn custom_status_filters_use_keys_and_display_manifest_labels() {
    let mut lib = library();
    lib.statuses.push(StatusDefinition {
        key: "weekend".into(),
        label: "For the weekend".into(),
        recommendation_eligible: true,
        extra: ExtraFields::new(),
    });
    lib.games[0].status = "weekend".into();
    lib.set_scope(Scope::Status("weekend".into()));
    assert_eq!(lib.visible.len(), 1);
    assert_eq!(lib.scope_label(&lib.scope), "For the weekend");
}

#[test]
fn hidden_games_leave_normal_scopes_and_can_be_restored() {
    let mut lib = library();
    let total = lib.count(&Scope::All);
    let (id, title, status) = (lib.games[0].id, lib.games[0].title.clone(), lib.games[0].status.clone());
    let collection: u128 = 0x9f3c_0000_0000_4000_8000_0000_0000_0001;
    let mut data = GameData::new(&title);
    data.personal.status = status.clone();
    data.personal.favorite = true;
    data.personal.collections.push(collection);
    data.personal.hidden = true;
    let mut record = GameRevision {
        schema_version: SCHEMA_VERSION,
        game_id: id,
        revision_id: 0x1234_0000_0000_4000_8000_0000_0000_0002,
        parents: vec![],
        deleted: false,
        game: data,
        extra: ExtraFields::new(),
    };
    lib.selected = Some(id);
    lib.apply_personal_record(record.clone());
    assert_eq!(lib.count(&Scope::All), total - 1);
    assert_eq!(lib.count(&Scope::Hidden), 1);
    assert_eq!(lib.count(&Scope::Collection(collection)), 0);
    assert!(!Scope::Favorites.contains(&lib.games[0]));
    assert!(!Scope::Status(status).contains(&lib.games[0]));
    assert!(lib.selected.is_none());
    lib.set_show_hidden_games(true);
    lib.set_scope(Scope::Hidden);
    assert_eq!(lib.visible.len(), 1);
    lib.set_query("no-match");
    assert!(lib.visible.is_empty());
    lib.set_query("");
    lib.set_show_hidden_games(false);
    assert!(matches!(lib.scope, Scope::All));
    record.game.personal.hidden = false;
    lib.apply_personal_record(record);
    assert_eq!(lib.count(&Scope::All), total);
    assert_eq!(lib.count(&Scope::Hidden), 0);
}

#[test]
fn scope_labels_name_each_scope() {
    let lib = library();
    assert_eq!(lib.scope_label(&Scope::All), "All games");
    assert_eq!(lib.scope_label(&Scope::Favorites), "Favorites");
    assert_eq!(lib.scope_label(&Scope::Hidden), "Hidden games");
    assert_eq!(lib.scope_label(&Scope::Status("playing".into())), "Playing");
    assert_eq!(lib.scope_label(&Scope::Status("someday".into())), "someday");
    assert_eq!(lib.scope_label(&Scope::Collection(3)), "Collection");
}

#[test]
fn ratings_read_as_half_stars() {
    let lib = library();
    let celeste = lib.games.iter().find(|g| g.title == "Celeste").unwrap();
    assert_eq!(celeste.rating_label(), "5.0 / 5");
    let slay = lib.games.iter().find(|g| g.title == "Slay the Spire").unwrap();
    assert_eq!(slay.rating_label(), "3.0 / 5");
    let disco = lib.games.iter().find(|g| g.title == "Disco Elysium").unwrap();
    assert_eq!(disco.rating_label(), "3.5 / 5");
    let wilds = lib.games.iter().find(|g| g.title == "Outer Wilds").unwrap();
    assert_eq!(wilds.rating_label(), "Unrated");
}

#[test]
fn text_search_finds_infixes() {
    assert!(contains_text("return of the obra dinn", "obra"));
    assert!(contains_text("abc", ""));
    assert!(!contains_text("ab", "abc"));
    assert!(!contains_text("hades", "hadez"));
}

#[test]
fn favorites_scope_and_selection_clear() {
    let mut lib = library();
    lib.set_scope(Scope::Favorites);
    assert_eq!(lib.visible.len(), 3);
    lib.select_slot(99);
    assert!(lib.selected.is_none());
    assert_eq!(lib.step_selection(1), Some(0));
    assert_eq!(lib.step_selection(1), Some(1));
}

#[test]
fn bulk_edits_refuse_conflicts_and_missing_games() {
    let mut lib = library();
    let hades = lib.games.iter().position(|g| g.title == "Hades").unwrap();
    let celeste = lib.games.iter().position(|g| g.title == "Celeste").unwrap();
    let mut data = GameData::new("Hades");
    data.personal.status = "playing".to_string();
    lib.games[hades].record = Some(GameRevision {
        schema_version: SCHEMA_VERSION,
        game_id: 1145360,
        revision_id: 7,
        parents: vec![],
        deleted: false,
        game: data,
        extra: ExtraFields::new(),
    });
    lib.conflicts.push((504230, "Celeste".to_string()));
    let (targets, failed) = lib.bulk_targets(&vec![1145360, 504230, 620, 42]);
    assert_eq!(targets, vec![hades]);
    assert_eq!(
        failed,
        vec![
            (504230, "Resolve this game's conflict first".to_string()),
            (620, "Game is no longer available".to_string()),
            (42, "Game is no longer available".to_string()),
        ]
    );
    assert_ne!(celeste, hades);
    assert_eq!(bulk_message(1, &failed), "1 updated. 3 could not be updated: Resolve this game's conflict first. Refresh and try again.");
    assert_eq!(bulk_message(4, &vec![]), "4 games updated.");
}

#[test]
fn saved_definitions_rename_collections_and_leave_a_removed_scope() {
    let mut lib = library();
    let mut defs = LibraryDefinitions::new("Games");
    defs.collections.push(CollectionDefinition { id: 9, name: "Weekend".to_string(), archived: false, extra: ExtraFields::new() });
    let manifest = |defs: LibraryDefinitions| LibraryRevision { schema_version: SCHEMA_VERSION, library_id: 5, revision_id: 50, parents: vec![], definitions: defs, extra: ExtraFields::new() };
    let mut data = GameData::new("Baba Is You");
    data.personal.collections.push(9);
    lib.games[0].record = Some(GameRevision { schema_version: SCHEMA_VERSION, game_id: 736260, revision_id: 3, parents: vec![], deleted: false, game: data, extra: ExtraFields::new() });
    lib.adopt_definitions(manifest(LibraryDefinitions::new("Games")));
    assert!(lib.source.is_none());
    assert!(lib.games[0].collections.is_empty());
    lib.source = Some(("/games".to_string(), manifest(LibraryDefinitions::new("Games"))));
    lib.adopt_definitions(manifest(defs));
    assert_eq!(lib.games[0].collections, vec!["Weekend".to_string()]);
    assert!(lib.games[1].collections.is_empty());
    lib.set_scope(Scope::Collection(9));
    assert_eq!(lib.visible.len(), 1);
    let archived = lib.source.as_ref().unwrap().1.definitions.with_collection_archived(9).unwrap();
    lib.adopt_definitions(manifest(archived));
    assert!(matches!(lib.scope, Scope::All));
    assert!(lib.games[0].collections.is_empty());
    assert_eq!(lib.visible.len(), 12);
}
