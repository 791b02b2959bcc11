use meeting_notes::error::AppError;
use meeting_notes::lifecycle::{
    check_deletable, exit_outcome, failed_start_at, find_recording, interrupted_recording, persist_recording_at,
    prepare_retry_with, recover_interrupted_sessions, stop_outcome,
};
use meeting_notes::recorder::RecordingFiles;
use meeting_notes::session::{
    combine_transcripts, needs_transcription, recover_interrupted, retry_start,
    transcript_deleted, transition_to_failed, transition_to_processing, CreateSessionInput,
    Session, SessionStatus, SourceTranscript, TranscriptChunk,
};
use meeting_notes::settings::TranscriptionSettings;
use meeting_notes::store::SessionStore;

fn session(status: SessionStatus) -> Session {
    let mut session = Session::new(CreateSessionInput {
        title: "Weekly review".into(),
        context: String::new(),
        attendees: Vec::new(),
    });
    session.original_notes = "rent roll".into();
    session.status = status;
    session
}

fn recording_session() -> Session {
    session(SessionStatus::Recording)
}

fn processing_session() -> Session {
    let mut session = session(SessionStatus::Processing);
    session.audio_path = Some("/tmp/example.m4a".into());
    session
}

fn failed_with_transcript() -> Session {
    let mut session = session(SessionStatus::Failed);
    session.transcript = Some("spoken transcript".into());
    session.enriched_notes = Some("enhanced notes".into());
    session.error = Some(AppError::new("openai", "request failed"));
    session
}

fn flushed_files() -> RecordingFiles {
    RecordingFiles {
        segments: Vec::new(),
        segmented: false,
        health: None,
        system: "/tmp/flushed.m4a".into(),
        microphone: "/tmp/flushed-mic.m4a".into(),
    }
}

#[test]
fn stop_persists_before_processing() {
    let session = recording_session();
    let stopped = transition_to_processing(
        session,
        "/tmp/example.m4a".to_owned(),
        Some("/tmp/example-mic.m4a".into()),
    )
    .unwrap();
    assert_eq!(stopped.status, SessionStatus::Processing);
    assert!(stopped.ended_at.is_some());
    assert_eq!(stopped.audio_path.as_deref(), Some("/tmp/example.m4a"));
    assert_eq!(stopped.microphone_audio_path.as_deref(), Some("/tmp/example-mic.m4a"));
}

#[test]
fn failed_processing_keeps_original_notes_and_audio() {
    let failed = transition_to_failed(processing_session(), AppError::new("openai", "request failed"));
    assert_eq!(failed.original_notes, "rent roll");
    assert!(failed.audio_path.is_some());
}

#[test]
fn stale_recording_is_recovered_as_interrupted() {
    let recovered = recover_interrupted(recording_session());

    assert_eq!(recovered.status, SessionStatus::Failed);
    assert_eq!(recovered.error.unwrap().code, "interrupted");
}

#[test]
fn retry_with_transcript_skips_transcription() {
    let retry = retry_start(failed_with_transcript()).unwrap();

    assert_eq!(retry.status, SessionStatus::Processing);
    assert_eq!(retry.transcript.as_deref(), Some("spoken transcript"));
    assert!(!needs_transcription(&retry));
}

#[test]
fn blank_transcript_is_retried() {
    let mut retry = failed_with_transcript();
    retry.transcript = Some(" \n ".into());

    assert!(needs_transcription(&retry));
}

#[test]
fn system_and_microphone_transcripts_keep_source_labels() {
    let transcript = combine_transcripts("Remote words", "My words").unwrap();

    assert_eq!(transcript, "Meeting audio:\nRemote words\n\nYou:\nMy words");
}

#[test]
fn silent_recording_is_not_a_successful_transcript() {
    let error = combine_transcripts(" \n", "\t").unwrap_err();

    assert_eq!(error.code, "no_speech");
    assert!(error.message.contains("audio was kept"));
}

#[test]
fn transcript_deletion_returns_to_draft_without_changing_original_notes() {
    let reset = transcript_deleted(failed_with_transcript()).unwrap();

    assert_eq!(reset.status, SessionStatus::Draft);
    assert_eq!(reset.original_notes, "rent roll");
    assert!(reset.transcript.is_none());
    assert!(reset.enriched_notes.is_none());
}

#[test]
fn normal_exit_marks_recording_failed_with_returned_audio() {
    let interrupted = interrupted_recording(recording_session(), flushed_files()).unwrap();

    assert_eq!(interrupted.status, SessionStatus::Failed);
    assert_eq!(interrupted.audio_path.as_deref(), Some("/tmp/flushed.m4a"));
    assert_eq!(interrupted.microphone_audio_path.as_deref(), Some("/tmp/flushed-mic.m4a"));
    assert_eq!(interrupted.error.unwrap().code, "interrupted");
    assert!(interrupted.ended_at.is_some());
}

#[test]
fn recovered_recording_keeps_an_honest_coverage_warning_after_retry() {
    let recovered = recover_interrupted(recording_session());
    let retry = retry_start(recovered).unwrap();
    assert!(retry
        .warnings
        .iter()
        .any(|warning| warning.contains("Recording was interrupted") && warning.contains("incomplete")));
}

#[test]
fn deleting_transcript_keeps_the_visible_notes_document() {
    let mut source = failed_with_transcript();
    source.enriched_notes = Some("Saved summary".into());
    for edit in [None, Some("My revision".into()), Some(String::new())] {
        source.edited_enriched_notes = edit;
        let reset = transcript_deleted(source.clone()).unwrap();
        assert_eq!(reset.notes_text(), source.notes_text());
        assert_eq!(reset.original_notes, source.original_notes);
        assert!(reset.transcript.is_none());
    }
}

#[test]
fn exit_stops_the_one_recording_and_keeps_its_audio() {
    let sessions = vec![session(SessionStatus::Complete), recording_session()];
    assert_eq!(find_recording(&sessions), Some(1));
    assert_eq!(find_recording(&sessions[..1].to_vec()), None);

    let (saved, error) = exit_outcome(recording_session(), Ok(flushed_files()), "now".into()).unwrap();
    assert!(error.is_none());
    assert_eq!(saved.status, SessionStatus::Failed);
    assert_eq!(saved.audio_path.as_deref(), Some("/tmp/flushed.m4a"));

    let mut recording = recording_session();
    recording.audio_path = Some("/tmp/kept.m4a".into());
    let (saved, error) = exit_outcome(
        recording,
        Err(AppError::new("recorder_state", "Recording resources are missing")),
        "now".into(),
    )
    .unwrap();
    assert_eq!(error.unwrap().code, "recorder_state");
    assert_eq!(saved.status, SessionStatus::Failed);
    assert_eq!(saved.error.unwrap().code, "interrupted");
    assert_eq!(saved.audio_path.as_deref(), Some("/tmp/kept.m4a"));
}

#[test]
fn stopping_requires_a_recording_and_records_a_recorder_failure() {
    let error = stop_outcome(session(SessionStatus::Draft), Ok(flushed_files()), "t".into()).unwrap_err();
    assert_eq!(error.message, "Only a recording session can be stopped");

    let stopped = stop_outcome(recording_session(), Ok(flushed_files()), "t".into()).unwrap();
    assert_eq!(stopped.status, SessionStatus::Processing);
    assert_eq!(stopped.ended_at.as_deref(), Some("t"));

    let failed = stop_outcome(
        recording_session(),
        Err(AppError::new("audio_capture", "device lost")),
        "t".into(),
    )
    .unwrap();
    assert_eq!(failed.status, SessionStatus::Failed);
    assert_eq!(failed.error.unwrap().code, "audio_capture");
    assert_eq!(failed.ended_at.as_deref(), Some("t"));
}

#[test]
fn product_recording_snapshots_current_settings() {
    let draft = session(SessionStatus::Draft);
    let started = persist_recording_at(
        draft,
        "/tmp/a.m4a".into(),
        "/tmp/a-mic.m4a".into(),
        TranscriptionSettings::new_recording_default(),
        "2026-01-01T00:00:00Z".into(),
    )
    .unwrap();
    assert_eq!(started.status, SessionStatus::Recording);
    assert_eq!(started.transcription_settings.model, "gpt-4o-transcribe-diarize");
    assert_eq!(started.started_at, "2026-01-01T00:00:00Z");
    let again = persist_recording_at(
        started,
        "/tmp/b.m4a".into(),
        "/tmp/b-mic.m4a".into(),
        TranscriptionSettings::default(),
        "later".into(),
    )
    .unwrap_err();
    assert_eq!(again.message, "Only a draft session can start recording");
}

fn chunk(text: Option<&str>) -> TranscriptChunk {
    TranscriptChunk {
        start_us: 0,
        duration_us: 1_000_000,
        transcript: text.map(str::to_owned),
        segment_index: None,
        segments: Vec::new(),
        error: None,
    }
}

#[test]
fn retry_after_no_speech_uses_current_settings_and_clears_only_empty_results() {
    let mut failed = session(SessionStatus::Failed);
    failed.error = Some(AppError::new("no_speech", "No speech was detected."));
    failed.transcription = vec![SourceTranscript {
        source: meeting_notes::session::AudioSource::System,
        chunks: vec![chunk(Some("  ")), chunk(Some("words"))],
    }];
    let retried = prepare_retry_with(
        failed,
        false,
        TranscriptionSettings::new_recording_default(),
        "t".into(),
    )
    .unwrap();
    assert_eq!(retried.status, SessionStatus::Processing);
    assert_eq!(retried.transcription_settings.model, "gpt-4o-transcribe-diarize");
    assert_eq!(retried.transcription[0].chunks[0].transcript, None);
    assert_eq!(retried.transcription[0].chunks[1].transcript.as_deref(), Some("words"));

    let busy = prepare_retry_with(session(SessionStatus::Failed), true, TranscriptionSettings::default(), "t".into());
    assert_eq!(busy.unwrap_err().message, "The last request is still finishing. Try again in a moment.");
}

#[test]
fn deletion_waits_for_recording_processing_and_active_requests() {
    assert!(check_deletable(&session(SessionStatus::Complete), false).is_ok());
    assert_eq!(
        check_deletable(&recording_session(), false).unwrap_err().message,
        "Stop recording or processing before deleting the session"
    );
    assert!(check_deletable(&session(SessionStatus::Complete), true).is_err());
}

#[test]
fn startup_recovers_only_cut_off_meetings() {
    let store = SessionStore::new("/tmp/library".into());
    let mut sectioned = session(SessionStatus::Draft);
    sectioned.segmented_capture = true;
    let id = sectioned.id.clone();
    let sessions = vec![
        session(SessionStatus::Complete),
        processing_session(),
        sectioned,
        session(SessionStatus::Draft),
    ];
    let recovered =
        recover_interrupted_sessions(&store, sessions, &vec![false, false, true, true], "t".into()).unwrap();
    assert_eq!(recovered.len(), 2);
    assert!(recovered.iter().all(|s| s.status == SessionStatus::Failed));
    assert_eq!(
        recovered[1].audio_path.as_deref(),
        Some(format!("/tmp/library/audio/{id}.m4a").as_str())
    );
}

#[test]
fn failed_start_with_numbered_audio_is_durable_and_retryable() {
    let mut draft = session(SessionStatus::Draft);
    draft.segmented_capture = true;
    let error = AppError {
        code: "capture_start".into(),
        message: "Injected startup failure".into(),
    };
    let failed = failed_start_at(draft, error, "/data/audio/m1.m4a".into(), "2026-01-01T10:00:00Z".into());
    assert_eq!(failed.status, SessionStatus::Failed);
    assert_eq!(failed.error.as_ref().unwrap().code, "capture_start");
    assert_eq!(failed.ended_at.as_deref(), Some("2026-01-01T10:00:00Z"));
    assert_eq!(failed.audio_path.as_deref(), Some("/data/audio/m1.m4a"));
    let retried = retry_start(failed).unwrap();
    assert_eq!(retried.status, SessionStatus::Processing);
    assert_eq!(retried.ended_at.as_deref(), Some("2026-01-01T10:00:00Z"));
}

#[test]
fn interruption_names_what_was_cut_off() {
    let recovered = recover_interrupted(recording_session());
    let error = recovered.error.unwrap();
    assert_eq!(error.message, "Recording was interrupted");
    assert_eq!(recovered.original_notes, "rent roll");
    assert_eq!(recovered.warnings.len(), 1);
    assert!(recovered.warnings[0].contains("incomplete"));

    let recovered = recover_interrupted(processing_session());
    assert_eq!(recovered.error.unwrap().message, "Processing was interrupted");
    assert!(recovered.warnings.is_empty());
    assert_eq!(recovered.audio_path.as_deref(), Some("/tmp/example.m4a"));
}

#[test]
fn retry_clears_a_stale_live_failure() {
    let mut failed = failed_with_transcript();
    failed.live_transcription_error = Some(AppError::new("openai_network", "offline"));
    let retry = retry_start(failed).unwrap();
    assert!(retry.live_transcription_error.is_none());
    assert!(retry.error.is_none());
    assert!(retry.ended_at.is_some());
    let error = retry_start(recording_session()).unwrap_err();
    assert_eq!(error.code, "invalid_session_status");
    assert_eq!(error.message, "Only a failed session can be retried");
}

#[test]
fn a_second_exit_stop_finds_no_recording() {
    let mut sessions = vec![session(SessionStatus::Complete), recording_session()];
    let i = find_recording(&sessions).unwrap();
    let (saved, error) = exit_outcome(sessions[i].clone(), Ok(flushed_files()), "now".into()).unwrap();
    assert!(error.is_none());
    assert_eq!(saved.microphone_audio_path.as_deref(), Some("/tmp/flushed-mic.m4a"));
    sessions[i] = saved;
    assert_eq!(find_recording(&sessions), None);
}

#[test]
fn after_startup_recovery_nothing_is_running() {
    let store = SessionStore::new("/tmp/library".into());
    let mut spoken = processing_session();
    spoken.transcript = Some("spoken transcript".into());
    let mut sessions = vec![session(SessionStatus::Complete), spoken, recording_session()];
    let flags = vec![false, false, false];
    let recovered = recover_interrupted_sessions(&store, sessions.clone(), &flags, "t".into()).unwrap();
    assert_eq!(recovered.len(), 2);
    for saved in recovered {
        let place = sessions.iter().position(|s| s.id == saved.id).unwrap();
        assert_eq!(saved.transcript, sessions[place].transcript);
        assert_eq!(saved.audio_path, sessions[place].audio_path);
        sessions[place] = saved;
    }
    assert!(sessions
        .iter()
        .all(|s| s.status != SessionStatus::Recording && s.status != SessionStatus::Processing));
    assert_eq!(sessions[0].status, SessionStatus::Complete);
    assert_eq!(sessions[1].error.as_ref().unwrap().code, "interrupted");
}

#[test]
fn a_normal_retry_keeps_saved_results_and_clears_section_errors() {
    let mut failed = session(SessionStatus::Failed);
    failed.error = Some(AppError::new("openai", "request failed"));
    let mut broken = chunk(None);
    broken.error = Some(AppError::new("invalid_audio", "bad section"));
    failed.transcription = vec![SourceTranscript {
        source: meeting_notes::session::AudioSource::System,
        chunks: vec![chunk(Some("  ")), broken],
    }];
    let kept_settings = failed.transcription_settings.model.clone();
    let retried = prepare_retry_with(
        failed,
        false,
        TranscriptionSettings::new_recording_default(),
        "t".into(),
    )
    .unwrap();
    assert_eq!(retried.transcription_settings.model, kept_settings);
    assert_eq!(retried.transcription[0].chunks[0].transcript.as_deref(), Some("  "));
    assert!(retried.transcription[0].chunks[1].error.is_none());
    assert_eq!(retried.ended_at.as_deref(), Some("t"));
    assert_eq!(retried.original_notes, "rent roll");
}
