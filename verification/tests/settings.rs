use gamesync::settings::{sync_label, sync_label_at, GroupBy, LibraryDisplay, SortBy, TestedKey};

#[test]
fn changed_key_or_profile_requires_another_test() {
    let test = TestedKey {
        key: "dummy".into(),
        input: "dummy".into(),
        profile: "profile".into(),
        account: "account".into(),
    };
    assert!(test.matches("dummy", "profile"));
    assert!(!test.matches("replacement", "profile"));
    assert!(!test.matches("dummy", "different-profile"));
}

#[test]
fn tested_fields_are_compared_after_trimming() {
    let test = TestedKey {
        key: "dummy".into(),
        input: "dummy".into(),
        profile: "profile".into(),
        account: "account".into(),
    };
    assert!(test.matches("  dummy\n", "\tprofile "));
    assert!(!test.matches("dum my", "profile"));
}

#[test]
fn sync_labels_use_whole_units() {
    assert_eq!(sync_label_at(None, Some(100)), "No Steam sync time recorded");
    assert_eq!(sync_label_at(Some(1000), Some(1059)), "Last Steam sync: just now");
    assert_eq!(sync_label_at(Some(1000), Some(1000 + 125)), "Last Steam sync: 2 min ago");
    assert_eq!(sync_label_at(Some(0), Some(3 * 3600 + 59)), "Last Steam sync: 3 hours ago");
    assert_eq!(sync_label_at(Some(0), Some(86400 * 12 + 5)), "Last Steam sync: 12 days ago");
}

#[test]
fn sync_times_in_the_future_or_without_a_clock_read_as_just_now() {
    assert_eq!(sync_label_at(Some(5000), Some(10)), "Last Steam sync: just now");
    assert_eq!(sync_label_at(Some(5000), None), "Last Steam sync: just now");
}

#[test]
fn sync_label_reads_the_clock() {
    assert_eq!(sync_label(None), "No Steam sync time recorded");
    let label = sync_label(Some(0));
    assert!(label.starts_with("Last Steam sync: "));
    assert!(label.ends_with(" days ago"));
}

#[test]
fn display_defaults_sort_by_name_ascending_without_groups() {
    let d = LibraryDisplay::default();
    assert_eq!(d.sort, SortBy::Name);
    assert!(!d.descending);
    assert_eq!(d.group, GroupBy::Ungrouped);
}
