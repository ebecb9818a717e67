use gamesync::events::{reduced, MotionPreferences};

#[test]
fn motion_is_reduced_only_when_asked() {
    assert!(!reduced(None));
    assert!(!reduced(Some(&MotionPreferences::default())));
    assert!(reduced(Some(&MotionPreferences { reduced: true })));
}
