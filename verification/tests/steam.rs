use gamesync::steam::{
    artwork_url, check_owned, check_resolved_account, check_review_counts, details_change, first_pending,
    import_issue, parse_account_input, release_year, stage_issue, trusted_header, AccountError, AccountInput,
    OwnedError, OwnedGame, StageError, SyncProgress, MAX_ISSUES, next_step, SyncStep,
};
use gamesync::stores::SteamChange;
use gamesync::records::{ExtraFields, GameData, GameRevision, SteamData, SteamMetadata, SCHEMA_VERSION};

fn game(appid: u32, name: &str) -> OwnedGame {
    OwnedGame { appid, name: name.to_string(), playtime_forever: 0 }
}

#[test]
fn owned_parser_distinguishes_empty_private_partial_and_duplicates() {
    // {"response":{"game_count":0}}
    assert!(check_owned(Some(0), false, None).unwrap().is_empty());
    // {"response":{}}
    assert!(check_owned(None, false, None).is_err());
    // {"response":{"game_count":2,"games":[{"appid":42,"name":"Test"}]}}
    assert!(check_owned(Some(2), true, Some(vec![game(42, "Test")])).is_err());
    // two games with the same App ID
    assert!(check_owned(Some(2), true, Some(vec![game(42, "Test"), game(42, "Test")])).is_err());
}

#[test]
fn owned_errors_name_their_cause() {
    assert_eq!(check_owned(None, true, Some(vec![])).unwrap_err(), OwnedError::NotExposed);
    assert_eq!(check_owned(Some(1), true, None).unwrap_err(), OwnedError::Incomplete);
    assert_eq!(check_owned(Some(1), true, Some(vec![game(0, "Zero")])).unwrap_err(), OwnedError::InvalidGames);
    assert_eq!(check_owned(Some(1), true, Some(vec![game(7, "   ")])).unwrap_err(), OwnedError::InvalidGames);
    let ok = check_owned(Some(2), true, Some(vec![game(42, "Test"), game(43, "Other")])).unwrap();
    assert_eq!(ok.len(), 2);
    assert_eq!(ok[1].appid, 43);
}

#[test]
fn artwork_sources_stay_on_steam_and_match_the_game() {
    assert!(artwork_url(42, "abc/library_capsule.jpg").is_some());
    for path in ["../cover.jpg", "https://example.com/cover.jpg", "/cover.jpg"] {
        assert!(artwork_url(42, path).is_none());
    }
    assert!(trusted_header(
        42,
        "https://shared.akamai.steamstatic.com/store_item_assets/steam/apps/42/abc/header.jpg"
    ));
    assert!(!trusted_header(42, "https://example.com/steam/apps/42/header.jpg"));
    assert!(!trusted_header(42, "https://cdn.akamai.steamstatic.com/steam/apps/43/header.jpg"));
}

#[test]
fn artwork_addresses_are_built_under_the_game_folder() {
    assert_eq!(
        artwork_url(42, "abc/library_capsule.jpg").unwrap(),
        "https://shared.akamai.steamstatic.com/store_item_assets/steam/apps/42/abc/library_capsule.jpg"
    );
    assert!(artwork_url(42, "").is_none());
    assert!(artwork_url(42, "a//b.jpg").is_none());
    assert!(artwork_url(42, "a/./b.jpg").is_none());
    assert!(artwork_url(42, "a b.jpg").is_none());
}

#[test]
fn header_checks_reject_credentials_ports_and_plain_http() {
    assert!(trusted_header(42, "https://steamstatic.com/steam/apps/42/header.jpg"));
    assert!(!trusted_header(42, "http://cdn.akamai.steamstatic.com/steam/apps/42/header.jpg"));
    assert!(!trusted_header(42, "https://user:pw@cdn.akamai.steamstatic.com/steam/apps/42/header.jpg"));
    assert!(!trusted_header(42, "https://cdn.akamai.steamstatic.com:8443/steam/apps/42/header.jpg"));
    assert!(!trusted_header(42, "https://evilsteamstatic.com/steam/apps/42/header.jpg"));
    assert!(!trusted_header(42, "not a url"));
    assert!(!trusted_header(4, "https://cdn.akamai.steamstatic.com/steam/apps/42/header.jpg"));
}

#[test]
fn profile_field_accepts_ids_links_and_custom_names() {
    match parse_account_input("  76561198000000001/ ").unwrap() {
        AccountInput::Id(id) => assert_eq!(id, "76561198000000001"),
        other => panic!("unexpected {other:?}"),
    }
    match parse_account_input("https://steamcommunity.com/profiles/76561198000000001/").unwrap() {
        AccountInput::Id(id) => assert_eq!(id, "76561198000000001"),
        other => panic!("unexpected {other:?}"),
    }
    match parse_account_input("http://steamcommunity.com/id/some_name").unwrap() {
        AccountInput::Vanity(v) => assert_eq!(v, "some_name"),
        other => panic!("unexpected {other:?}"),
    }
    match parse_account_input("gamer-1").unwrap() {
        AccountInput::Vanity(v) => assert_eq!(v, "gamer-1"),
        other => panic!("unexpected {other:?}"),
    }
    assert_eq!(
        parse_account_input("https://steamcommunity.com/profiles/123").unwrap_err(),
        AccountError::Unrecognized
    );
    assert_eq!(parse_account_input("two words").unwrap_err(), AccountError::Unrecognized);
    assert_eq!(parse_account_input("").unwrap_err(), AccountError::Unrecognized);
}

#[test]
fn resolved_accounts_must_be_ids() {
    assert_eq!(check_resolved_account(Some("76561198000000001")).unwrap(), "76561198000000001");
    assert_eq!(check_resolved_account(Some("1234")).unwrap_err(), AccountError::InvalidAccount);
    assert_eq!(check_resolved_account(None).unwrap_err(), AccountError::NotFound);
}

#[test]
fn release_year_takes_the_first_run_of_four_digits() {
    assert_eq!(release_year("12 Sep, 2020").as_deref(), Some("2020"));
    assert_eq!(release_year("12345 then 1999").as_deref(), Some("1999"));
    assert_eq!(release_year("Coming soon"), None);
    assert_eq!(release_year("2021"), Some("2021".to_string()));
}

#[test]
fn store_details_need_a_description() {
    assert_eq!(
        details_change(None, vec![], Some("1 Jan, 2020")).unwrap_err(),
        StageError::DescriptionMissing
    );
    match details_change(Some("A game".to_string()), vec!["Action".to_string()], Some("1 Jan, 2020")).unwrap() {
        SteamChange::Details { description, genres, release_year } => {
            assert_eq!(description, "A game");
            assert_eq!(genres, vec!["Action".to_string()]);
            assert_eq!(release_year.as_deref(), Some("2020"));
        }
        _ => panic!("expected details"),
    }
}

#[test]
fn review_counts_are_checked() {
    assert_eq!(check_review_counts(None, Some(1)).unwrap_err(), StageError::ReviewCountMissing);
    assert_eq!(check_review_counts(Some(10), None).unwrap_err(), StageError::PositiveCountMissing);
    assert_eq!(check_review_counts(Some(10), Some(11)).unwrap_err(), StageError::InvalidReviewCounts);
    assert_eq!(check_review_counts(Some(100), Some(90)).unwrap(), (100, 90));
    assert_eq!(StageError::InvalidReviewCounts.message(), "Invalid review counts");
}

#[test]
fn pending_stages_resume_in_record_then_stage_order() {
    let needs = vec![vec![false, false, false], vec![false, true, true], vec![true, false, false]];
    assert_eq!(first_pending(&needs, 0, 0), Some((1, 1)));
    assert_eq!(first_pending(&needs, 1, 2), Some((1, 2)));
    assert_eq!(first_pending(&needs, 1, 3), Some((2, 0)));
    assert_eq!(first_pending(&needs, 2, 1), None);
}

#[test]
fn sync_progress_lists_a_bounded_number_of_issues() {
    let mut p = SyncProgress::start();
    assert_eq!(p.message, "Reading Steam library\u{2026}");
    p.record_import();
    p.record_import();
    p.import_message(5);
    assert_eq!(p.message, "Imported 2 of 5 games \u{b7} 0 need attention");
    for i in 0..(MAX_ISSUES + 3) {
        p.record_failure(format!("issue {i}"));
    }
    assert_eq!(p.failures, MAX_ISSUES + 3);
    assert_eq!(p.issues.len(), MAX_ISSUES);
    p.details_message(1, 2);
    assert_eq!(p.message, "Loading details \u{b7} 1 of 2 games \u{b7} 23 stages need retry");
}

#[test]
fn sync_closing_messages() {
    let mut done = SyncProgress::start();
    done.record_import();
    done.finish(false);
    assert_eq!(done.message, "Synced 1 games");
    let mut failed = SyncProgress::start();
    failed.record_failure(stage_issue("Hades", 1, "timeout"));
    failed.record_failure(import_issue("Celeste", "conflict"));
    failed.finish(false);
    assert_eq!(
        failed.message,
        "Sync finished \u{b7} 0 games \u{b7} 2 items need retry or conflict review\nHades \u{b7} reviews: timeout\nCeleste: conflict"
    );
    let mut cancelled = SyncProgress::start();
    cancelled.finish(true);
    assert!(cancelled.cancelled);
    assert_eq!(cancelled.message, "Sync cancelled. Saved progress stays.");
}

#[test]
fn account_errors_read_as_sentences() {
    assert_eq!(AccountError::Unrecognized.message(), "Enter a Steam profile link or SteamID64");
    assert_eq!(AccountError::NotFound.message(), "Steam profile was not found");
    assert_eq!(OwnedError::Incomplete.message(), "Owned games response is incomplete");
}

#[test]
fn a_sync_imports_then_loads_pending_stages_in_order() {
    let none: Vec<Vec<bool>> = vec![];
    assert_eq!(next_step(SyncStep::Start, 2, &none, false), SyncStep::Import(0));
    assert_eq!(next_step(SyncStep::Import(0), 2, &none, false), SyncStep::Import(1));
    let needs = vec![vec![false, false, false], vec![false, true, true]];
    assert_eq!(next_step(SyncStep::Import(1), 2, &needs, false), SyncStep::Stage(1, 1));
    assert_eq!(next_step(SyncStep::Stage(1, 1), 2, &needs, false), SyncStep::Stage(1, 2));
    assert_eq!(next_step(SyncStep::Stage(1, 2), 2, &needs, false), SyncStep::Finish(false));
    assert_eq!(next_step(SyncStep::Stage(1, 1), 2, &needs, true), SyncStep::Finish(true));
    assert_eq!(next_step(SyncStep::Finish(true), 2, &needs, false), SyncStep::Finish(true));
    let done = vec![vec![false, false, false]];
    assert_eq!(next_step(SyncStep::Start, 0, &done, false), SyncStep::Finish(false));
}

#[test]
fn completed_stages_are_never_requested_again() {
    let mut metadata = SteamMetadata::new();
    metadata.details_complete = true;
    metadata.reviews_complete = true;
    metadata.cover_complete = true;
    let mut game = GameData::new("Done");
    game.steam = Some(SteamData { app_id: 42, description: None, playtime_minutes: 5, owned: true, metadata: Some(metadata), extra: ExtraFields::new() });
    let record = GameRevision { schema_version: SCHEMA_VERSION, game_id: 1, revision_id: 2, parents: vec![], deleted: false, game, extra: ExtraFields::new() };
    let needs = vec![gamesync::steam::pending_stages(&record)];
    assert_eq!(needs[0], vec![false, false, false]);
    assert_eq!(next_step(SyncStep::Import(0), 1, &needs, false), SyncStep::Finish(false));
}
