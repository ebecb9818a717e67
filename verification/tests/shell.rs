use gamesync::shell::{close_block, issues_notice, CloseBlock};

#[test]
fn scan_notices_name_the_first_issue_and_count_the_rest() {
    assert_eq!(issues_notice(&vec![]), "");
    assert_eq!(issues_notice(&vec!["Hades: files missing.".to_string()]), "Hades: files missing.");
    assert_eq!(
        issues_notice(&vec!["a".to_string(), "b".to_string(), "c".to_string()]),
        "a (+2 other issues)"
    );
}

#[test]
fn the_window_stays_open_while_work_saves() {
    assert_eq!(close_block(0, false, false, false, false), None);
    assert_eq!(close_block(1, true, true, true, true), Some(CloseBlock::DisplaySettings));
    assert_eq!(close_block(0, true, true, false, false), Some(CloseBlock::GameChanges));
    assert_eq!(close_block(0, false, true, true, false), Some(CloseBlock::CollectionSave));
    assert_eq!(close_block(0, false, false, true, true), Some(CloseBlock::SteamSync));
    assert_eq!(close_block(0, false, false, false, true), Some(CloseBlock::DetailsSaving));
    assert_eq!(CloseBlock::CollectionSave.message(), "Wait for the collection save to finish.");
}
