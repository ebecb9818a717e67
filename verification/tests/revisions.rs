use gamesync::records::{ExtraFields, GameData, GameRevision, SCHEMA_VERSION};
use gamesync::revisions::{holds_id, is_valid_choice, HistoryError, RevisionIssue, RevisionSnapshot};

fn record(game_id: u128, revision_id: u128, parents: Vec<u128>, title: &str) -> GameRevision {
    GameRevision {
        schema_version: SCHEMA_VERSION,
        game_id,
        revision_id,
        parents,
        deleted: false,
        game: GameData::new(title),
        extra: ExtraFields::new(),
    }
}

fn snapshot(records: Vec<GameRevision>) -> RevisionSnapshot<GameRevision> {
    let mut s = RevisionSnapshot::new();
    for (i, r) in records.into_iter().enumerate() {
        s.add_revision(r, Some(1), format!("history/{i}.json"));
    }
    s.finish();
    s
}

#[test]
fn a_linear_history_has_one_current_revision() {
    let s = snapshot(vec![record(1, 30, vec![20], "C"), record(1, 10, vec![], "A"), record(1, 20, vec![10], "B")]);
    assert_eq!(s.revisions.iter().map(|r| r.revision_id).collect::<Vec<_>>(), vec![10, 20, 30]);
    assert_eq!(s.heads, vec![30]);
    assert!(s.issues.is_empty());
    assert_eq!(s.current().unwrap().game.title, "C");
    assert!(!s.has_conflict());
    assert_eq!(s.find(20), Some(1));
    assert_eq!(s.find(25), None);
}

#[test]
fn conflict_resolution_retains_both_branches_and_acknowledges_all_heads() {
    let s = snapshot(vec![record(1, 10, vec![], "A"), record(1, 20, vec![10], "Local"), record(1, 30, vec![10], "Played on my other computer")]);
    assert!(s.has_conflict());
    assert_eq!(s.heads, vec![20, 30]);
    assert!(s.current().is_none());
    assert_eq!(s.check_heads(&vec![20]), Err(HistoryError::Changed));
    assert_eq!(s.check_heads(&vec![30, 20]), Ok(()));
    assert_eq!(s.check_heads(&vec![]), Err(HistoryError::Changed));
}

#[test]
fn missing_parent_blocks_writes_until_it_arrives() {
    let s = snapshot(vec![record(1, 10, vec![], "A"), record(1, 30, vec![20], "Arrived first")]);
    assert!(s.issues.contains(&RevisionIssue::MissingParent(20)));
    assert!(s.issues.contains(&RevisionIssue::IncompleteOrCycle));
    assert_eq!(s.check_heads(&s.heads.clone()), Err(HistoryError::NeedsAttention));
    assert!(s.current().is_none());
    let s = snapshot(vec![record(1, 10, vec![], "A"), record(1, 30, vec![20], "Arrived first"), record(1, 20, vec![10], "Delayed parent")]);
    assert!(s.issues.is_empty());
    assert_eq!(s.current().unwrap().revision_id, 30);
}

#[test]
fn duplicate_revision_content_and_cycles_block_writes() {
    let mut s = RevisionSnapshot::new();
    s.add_revision(record(1, 10, vec![], "A"), Some(1), "a.json".to_string());
    s.add_revision(record(1, 10, vec![], "A"), Some(1), "same.json".to_string());
    assert!(s.issues.is_empty());
    s.add_revision(record(1, 10, vec![], "Different content, same ID"), Some(1), "b.json".to_string());
    assert_eq!(s.issues, vec![RevisionIssue::DifferentContent("b.json".to_string())]);
    let cycle = snapshot(vec![record(1, 10, vec![20], "A"), record(1, 20, vec![10], "B")]);
    assert!(cycle.issues.contains(&RevisionIssue::IncompleteOrCycle));
    assert!(cycle.heads.is_empty());
}

#[test]
fn misplaced_and_mixed_records_are_reported() {
    let mut s = RevisionSnapshot::new();
    s.add_revision(record(2, 10, vec![], "Other"), Some(1), "games/1.json".to_string());
    assert_eq!(s.issues, vec![RevisionIssue::Misplaced("games/1.json".to_string())]);
    assert!(s.revisions.is_empty());
    let mut mixed = RevisionSnapshot::new();
    mixed.add_revision(record(1, 10, vec![], "A"), None, "a".to_string());
    mixed.add_revision(record(2, 20, vec![], "B"), None, "b".to_string());
    mixed.finish();
    assert_eq!(mixed.issues[0], RevisionIssue::MixedIdentity);
}

#[test]
fn a_file_issue_blocks_edits_but_keeps_valid_history() {
    let mut s = RevisionSnapshot::new();
    s.add_revision(record(1, 10, vec![], "A"), Some(1), "a".to_string());
    s.add_issue(RevisionIssue::File("games/1.json: newer schema".to_string()));
    s.finish();
    assert_eq!(s.heads, vec![10]);
    assert_eq!(s.revisions.len(), 1);
    assert_eq!(s.check_heads(&vec![10]), Err(HistoryError::NeedsAttention));
}

#[test]
fn a_resolution_must_choose_one_of_several_heads() {
    assert!(is_valid_choice(&vec![20, 30], 30));
    assert!(!is_valid_choice(&vec![20, 20], 20));
    assert!(!is_valid_choice(&vec![20, 30], 40));
    assert!(holds_id(&vec![1, 2], 2));
    assert!(!holds_id(&vec![], 2));
}
