use meeting_notes::{APP_NAME, BUNDLE_ID};

#[test]
fn app_identity_is_stable() {
    assert_eq!(APP_NAME, "Meeting Notes");
    assert_eq!(BUNDLE_ID, "com.dweng.meetingnotes");
}
