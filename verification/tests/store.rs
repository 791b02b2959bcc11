use meeting_notes::session::{AudioSource, CreateSessionInput, Session, UpdateSessionInput};
use meeting_notes::store::{
    join_path, order_sessions, parse_segment_name, segment_file_name, validate_id, SessionStore,
};

fn meeting(id: &str, started_at: &str) -> Session {
    let mut session = Session::new(CreateSessionInput {
        title: id.into(),
        context: String::new(),
        attendees: Vec::new(),
    });
    session.id = id.into();
    session.started_at = started_at.into();
    session
}

#[test]
fn list_sorts_timestamps_chronologically_despite_fractional_precision() {
    let older = meeting("older", "2026-01-01T10:00:00Z");
    let newer = meeting("newer", "2026-01-01T10:00:00.1Z");
    let sessions = order_sessions(vec![older, newer]).unwrap();
    assert_eq!(sessions[0].id, "newer");
    assert_eq!(sessions[1].id, "older");
}

#[test]
fn listing_keeps_simultaneous_meetings_in_order_and_reads_offsets() {
    let a = meeting("a", "2026-01-01T10:00:00Z");
    let b = meeting("b", "2026-01-01T11:00:00+01:00");
    let c = meeting("c", "2026-01-01T09:00:00Z");
    let d = meeting("d", "2026-01-01T12:00:00Z");
    let ids: Vec<String> = order_sessions(vec![a, b, c, d])
        .unwrap()
        .into_iter()
        .map(|s| s.id)
        .collect();
    assert_eq!(ids, ["d", "a", "b", "c"]);
}

#[test]
fn listing_refuses_an_unreadable_start_time() {
    let error = order_sessions(vec![meeting("a", "yesterday")]).unwrap_err();
    assert_eq!(error.code, "invalid_session_timestamp");
    assert!(order_sessions(Vec::new()).unwrap().is_empty());
}

#[test]
fn session_ids_are_ascii_letters_digits_and_dashes() {
    assert!(validate_id("abc-123-DEF").is_ok());
    for bad in ["", "../x", "a/b", "a b", "é"] {
        let error = validate_id(bad).unwrap_err();
        assert_eq!(error.code, "invalid_session_id");
        assert_eq!(error.message, "Session ID is invalid");
    }
}

#[test]
fn delete_rejects_traversal_before_constructing_a_path() {
    let store = SessionStore::new("/data".into());
    assert_eq!(store.session_file("../../etc").unwrap_err().code, "invalid_session_id");
    assert_eq!(store.tombstone_file("a/b").unwrap_err().code, "invalid_session_id");
    assert_eq!(store.session_file("abc").unwrap(), "/data/sessions/abc.json");
    assert_eq!(store.tombstone_file("abc").unwrap(), "/data/sessions/abc.json.deleting");
}

#[test]
fn store_paths_are_built_from_the_root() {
    assert_eq!(join_path("", "x"), "x");
    assert_eq!(join_path("/a/", "x"), "/a/x");
    assert_eq!(join_path("/a", "x"), "/a/x");
    let store = SessionStore::new("/data".into());
    assert_eq!(store.sessions_dir(), "/data/sessions");
    assert_eq!(store.audio_directory(), "/data/audio");
    assert_eq!(store.audio_path("m1").unwrap(), "/data/audio/m1.m4a");
    assert_eq!(
        store.chunk_path("m1", AudioSource::Microphone).unwrap(),
        "/data/audio/m1-mic-chunk.m4a"
    );
    assert_eq!(
        store.segment_path("m1", AudioSource::System, 7).unwrap(),
        "/data/audio/m1-system-segment-00000007.m4a"
    );
    assert_eq!(
        store.segment_path("m1", AudioSource::System, 100_000_000).unwrap_err().code,
        "invalid_audio_path"
    );
}

#[test]
fn save_rejects_audio_that_belongs_to_another_session() {
    let store = SessionStore::new("/data".into());
    assert!(store.validate_audio_path("m1", "/data/audio/m1.m4a").is_ok());
    assert_eq!(
        store.validate_audio_path("m1", "/data/audio/m2.m4a").unwrap_err().code,
        "invalid_audio_path"
    );
    assert!(store.validate_microphone_audio_path("m1", "/data/audio/m1-mic.m4a").is_ok());
    assert!(store.validate_microphone_audio_path("m1", "/data/audio/m1.m4a").is_err());
}

#[test]
fn deletion_removes_only_exact_numbered_sections_for_its_meeting() {
    let name = segment_file_name("m1", AudioSource::Microphone, 42);
    assert_eq!(name, "m1-mic-segment-00000042.m4a");
    assert_eq!(parse_segment_name("m1", &name), Some((AudioSource::Microphone, 42)));
    assert_eq!(
        parse_segment_name("m1", "m1-system-segment-00000001.m4a"),
        Some((AudioSource::System, 1))
    );
    for other in [
        "m1-system-segment-0000001.m4a",
        "m1-system-segment-000000001.m4a",
        "m1-system-segment-0000000a.m4a",
        "m10-system-segment-00000001.m4a",
        "m1-system-segment-00000001.m4a.bak",
        "m1.m4a",
    ] {
        assert_eq!(parse_segment_name("m1", other), None, "{other}");
    }
}

fn update(id: &str, notes: Option<String>) -> UpdateSessionInput {
    UpdateSessionInput {
        id: id.into(),
        title: "Changed title".into(),
        context: "Changed context".into(),
        attendees: vec!["Changed attendee".into()],
        folder: "  Changed folder ".into(),
        original_notes: "Changed notes".into(),
        notes,
    }
}

#[test]
fn update_with_different_id_leaves_session_unchanged() {
    let mut session = Session::new(CreateSessionInput {
        title: "Original title".into(),
        context: "Original context".into(),
        attendees: vec!["Original attendee".into()],
    });
    let result = session.apply(update("different-session", None));
    assert_eq!(result.unwrap_err().code, "session_id_mismatch");
    assert_eq!(session.title, "Original title");
    assert_eq!(session.context, "Original context");
    assert_eq!(session.attendees, ["Original attendee"]);
    assert_eq!(session.folder, "");
    assert_eq!(session.original_notes, "");
}

#[test]
fn updates_change_only_the_manual_fields() {
    let mut session = Session::new(CreateSessionInput {
        title: "Original title".into(),
        context: String::new(),
        attendees: Vec::new(),
    });
    session.transcript = Some("kept".into());
    let id = session.id.clone();
    session.apply(update(&id, Some("Edited document".into()))).unwrap();
    assert_eq!(session.title, "Changed title");
    assert_eq!(session.folder, "Changed folder");
    assert_eq!(session.notes.as_deref(), Some("Edited document"));
    assert_eq!(session.transcript.as_deref(), Some("kept"));
    session.apply(update(&id, None)).unwrap();
    assert_eq!(session.notes.as_deref(), Some("Edited document"));
    let error = session.apply(update(&id, Some("n".repeat(4 * 1024 * 1024 + 1)))).unwrap_err();
    assert_eq!(error.code, "invalid_notes");
    assert_eq!(session.notes.as_deref(), Some("Edited document"));
}
