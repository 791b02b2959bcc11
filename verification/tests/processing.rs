use meeting_notes::error::AppError;
use meeting_notes::processing::{
    check_chunk_range, checkpoint_chunk_error, duration_us, release_retained_audio, chunk_source, live_pass_result, complete_with_notes, finish_source, first_chunk_error,
    is_checkpointed_chunk_error, is_recoverable_source_error, locate_chunk, next_live_chunk,
    next_pending_chunk, plan_chunks, prepare_source, report_silent_sources, require_speech,
    save_chunk_transcript, should_split, split_chunk,
};
use meeting_notes::session::{
    AiSuggestions, AudioSource, CaptureSegment, CreateSessionInput, Session, SessionStatus, SourceTranscript,
    TranscriptChunk, TranscriptSegment,
};

fn meeting() -> Session {
    let mut session = Session::new(CreateSessionInput {
        title: "Budget".into(),
        context: String::new(),
        attendees: Vec::new(),
    });
    session.status = SessionStatus::Processing;
    session
}

fn pending(start_us: u64, duration_us: u64) -> TranscriptChunk {
    TranscriptChunk {
        start_us,
        duration_us,
        transcript: None,
        segment_index: None,
        segments: Vec::new(),
        error: None,
    }
}

fn done(start_us: u64, duration_us: u64, text: &str) -> TranscriptChunk {
    TranscriptChunk {
        transcript: Some(text.into()),
        ..pending(start_us, duration_us)
    }
}

fn error(code: &str) -> AppError {
    AppError {
        code: code.into(),
        message: "failed".into(),
    }
}

fn track(source: AudioSource, chunks: Vec<TranscriptChunk>) -> SourceTranscript {
    SourceTranscript { source, chunks }
}

#[test]
fn plans_cover_the_source_in_five_minute_chunks() {
    assert!(plan_chunks(0).is_empty());
    let plan = plan_chunks(660_000_000);
    let spans: Vec<(u64, u64)> = plan.iter().map(|c| (c.start_us, c.duration_us)).collect();
    assert_eq!(
        spans,
        [(0, 300_000_000), (300_000_000, 300_000_000), (600_000_000, 60_000_000)]
    );
    assert!(plan.iter().all(|c| c.transcript.is_none() && c.error.is_none()));
    assert_eq!(plan_chunks(300_000_000).len(), 1);
    assert_eq!(plan_chunks(1).len(), 1);
}

#[test]
fn next_pending_chunk_is_the_first_without_words() {
    let t = track(
        AudioSource::System,
        vec![done(0, 1, "a"), pending(1, 1), pending(2, 1)],
    );
    assert_eq!(next_pending_chunk(&t), Some(1));
    let t = track(AudioSource::System, vec![done(0, 1, "a")]);
    assert_eq!(next_pending_chunk(&t), None);
}

#[test]
fn saved_words_rebuild_the_transcript_and_note_dropped_speakers() {
    let mut session = meeting();
    session.transcription = vec![track(
        AudioSource::System,
        vec![pending(0, 300_000_000), pending(300_000_000, 60_000_000)],
    )];
    let session = save_chunk_transcript(session, 0, 1, "Second part".into(), Vec::new(), true);
    assert_eq!(session.transcription[0].chunks[1].transcript.as_deref(), Some("Second part"));
    assert!(session.transcription[0].chunks[0].transcript.is_none());
    assert!(session.transcript.as_deref().unwrap().ends_with(
        "[00:05:00 – 00:06:00] System audio:\nSecond part"
    ));
    assert_eq!(
        session.warnings,
        ["Speaker labels are unavailable for some audio. Its transcript text was kept."]
    );
    let session = save_chunk_transcript(
        session,
        0,
        0,
        "First".into(),
        vec![TranscriptSegment {
            id: "s0".into(),
            speaker: "A".into(),
            start_us: 0,
            end_us: 1_000_000,
            text: "First".into(),
        }],
        true,
    );
    assert_eq!(session.warnings.len(), 1);
    assert_eq!(session.transcription[0].chunks[0].segments.len(), 1);
    assert!(session.transcript.unwrap().contains("System audio:\nFirst\n\n[00:05:00"));
}

#[test]
fn token_limit_splits_only_the_affected_chunk_without_saving_cutoff_text() {
    assert!(should_split(&error("transcription_too_long"), 30_000_001));
    assert!(!should_split(&error("transcription_too_long"), 30_000_000));
    assert!(!should_split(&error("invalid_audio"), 300_000_000));
    let mut session = meeting();
    let mut first = pending(0, 300_000_000);
    first.error = Some(error("transcription_too_long"));
    session.transcription = vec![track(
        AudioSource::Microphone,
        vec![first, pending(300_000_000, 61_000_001), done(400_000_000, 1, "kept")],
    )];
    let session = split_chunk(session, 0, 1);
    let chunks = &session.transcription[0].chunks;
    assert_eq!(chunks.len(), 4);
    assert_eq!((chunks[1].start_us, chunks[1].duration_us), (300_000_000, 30_500_000));
    assert_eq!((chunks[2].start_us, chunks[2].duration_us), (330_500_000, 30_500_001));
    assert!(chunks[1].transcript.is_none() && chunks[2].transcript.is_none());
    assert_eq!(chunks[3].transcript.as_deref(), Some("kept"));
    assert!(chunks[0].error.is_some());
}

#[test]
fn a_failed_section_keeps_its_audio_and_shows_one_notice() {
    let mut session = meeting();
    session.transcription = vec![
        track(AudioSource::System, vec![pending(0, 10)]),
        track(AudioSource::Microphone, vec![pending(0, 10), pending(10, 10)]),
    ];
    let session = checkpoint_chunk_error(session, 1, 1, error("invalid_audio"));
    let session = checkpoint_chunk_error(session, 1, 0, error("invalid_transcription"));
    assert_eq!(
        session.warnings,
        ["Microphone has a section that could not be transcribed. That audio was kept; other sections can still be transcribed."]
    );
    assert_eq!(
        session.transcription[1].chunks[1].error.as_ref().unwrap().code,
        "invalid_audio"
    );
    assert!(session.transcription[0].chunks[0].error.is_none());
    let first = first_chunk_error(&session).unwrap();
    assert_eq!(first.code, "invalid_transcription");
    assert_eq!(first_chunk_error(&meeting()).map(|e| e.code), None);
    assert!(is_checkpointed_chunk_error(&error("invalid_transcription")));
    assert!(!is_checkpointed_chunk_error(&error("openai_server")));
    assert!(is_recoverable_source_error(&error("no_speech")));
    assert!(!is_recoverable_source_error(&error("invalid_transcription")));
}

#[test]
fn chunks_are_found_by_the_audio_they_name() {
    let mut session = meeting();
    let mut numbered = pending(0, 10);
    numbered.segment_index = Some(3);
    session.transcription = vec![
        track(AudioSource::System, vec![pending(0, 10), numbered.clone()]),
        track(AudioSource::Microphone, vec![pending(0, 10)]),
    ];
    assert_eq!(locate_chunk(&session, AudioSource::System, &numbered), Some((0, 1)));
    assert_eq!(locate_chunk(&session, AudioSource::Microphone, &pending(0, 10)), Some((1, 0)));
    assert_eq!(locate_chunk(&session, AudioSource::Microphone, &pending(0, 11)), None);
}

#[test]
fn live_processing_uploads_the_earliest_waiting_section_first() {
    let mut session = meeting();
    let mut failed = pending(0, 10);
    failed.error = Some(error("invalid_audio"));
    session.transcription = vec![
        track(AudioSource::System, vec![failed, done(10, 10, "x"), pending(40, 10)]),
        track(AudioSource::Microphone, vec![pending(30, 10), pending(40, 10)]),
    ];
    assert_eq!(next_live_chunk(&session), Some((1, 0)));
    session.transcription[1].chunks[0].transcript = Some("y".into());
    assert_eq!(next_live_chunk(&session), Some((0, 2)));
    session.transcription[0].chunks[2].transcript = Some("z".into());
    assert_eq!(next_live_chunk(&session), Some((1, 1)));
    session.transcription[1].chunks[1].transcript = Some("w".into());
    assert_eq!(next_live_chunk(&session), None);
}

#[test]
fn empty_system_and_valid_microphone_complete_with_source_warning() {
    let session = prepare_source(meeting(), AudioSource::System, Vec::new());
    let session = prepare_source(session, AudioSource::Microphone, plan_chunks(5_000_000));
    assert_eq!(session.transcription.len(), 2);
    assert_eq!(
        session.warnings,
        ["System audio contained no audio frames. Notes use only the available sources."]
    );
    let again = prepare_source(session.clone(), AudioSource::System, plan_chunks(9));
    assert_eq!(again.transcription.len(), 2);
    assert!(again.transcription[0].chunks.is_empty());
}

#[test]
fn valid_system_and_silent_microphone_complete_without_inventing_speech() {
    let mut session = meeting();
    session.transcription = vec![
        track(AudioSource::System, vec![done(0, 10, "Hello")]),
        track(AudioSource::Microphone, vec![done(0, 10, "  ")]),
    ];
    session.warnings = vec![
        "Microphone could not be fully transcribed. Remaining audio was kept.".into(),
    ];
    let (session, speech) = finish_source(session, 1);
    assert!(!speech);
    assert_eq!(
        session.warnings,
        ["Microphone had no transcribed speech. Notes use only the available sources."]
    );
    let (session, speech) = finish_source(session, 0);
    assert!(speech);
    assert_eq!(session.warnings.len(), 1);
}

#[test]
fn silent_source_is_reported_once_after_reopening() {
    let mut session = meeting();
    session.transcription = vec![
        track(AudioSource::System, vec![done(0, 10, "")]),
        track(AudioSource::Microphone, vec![done(0, 10, "words")]),
    ];
    session.warnings = vec![
        "Microphone had no transcribed speech. Notes use only the available sources.".into(),
    ];
    let session = report_silent_sources(session);
    assert_eq!(
        session.warnings,
        ["System audio had no transcribed speech. Notes use only the available sources."]
    );
}

#[test]
fn silent_meetings_do_not_get_notes() {
    let mut session = meeting();
    assert_eq!(require_speech(&session).unwrap_err().code, "no_speech");
    session.transcript = Some(" \n".into());
    assert_eq!(
        require_speech(&session).unwrap_err().message,
        "No speech was detected. Your typed notes and source audio were kept."
    );
    session.transcript = Some("words".into());
    assert!(require_speech(&session).is_ok());
}

#[test]
fn completion_keeps_edits_made_while_notes_were_generated() {
    let mut session = meeting();
    session.original_notes = "typed".into();
    session.live_transcription_error = Some(error("openai_server"));
    let done = complete_with_notes(
        session.clone(),
        "## Summary\n\n- x\n".into(),
        "typed",
        AiSuggestions::empty(),
        false,
    );
    assert_eq!(done.status, SessionStatus::Complete);
    assert!(done.error.is_none() && done.live_transcription_error.is_none());
    assert_eq!(done.enriched_notes.as_deref(), Some("## Summary\n\n- x\n"));
    assert_eq!(done.notes.as_deref(), Some("## Summary\n\n- x\n"));

    let edited = complete_with_notes(
        session.clone(),
        "## Summary\n\n- x\n".into(),
        "older text",
        AiSuggestions::empty(),
        true,
    );
    assert_eq!(edited.notes.as_deref(), Some("typed"));
    assert!(edited.warnings.iter().any(|w| w.starts_with("Some AI suggestions lacked")));

    let blank = complete_with_notes(session, "  ".into(), "typed", AiSuggestions::empty(), false);
    assert_eq!(blank.enriched_notes, None);
    assert_eq!(blank.status, SessionStatus::Complete);
}

#[test]
fn chunk_lengths_are_bounded_to_five_minutes() {
    assert!(check_chunk_range(1).is_ok());
    assert!(check_chunk_range(300_000_000).is_ok());
    for bad in [0, 300_000_001] {
        let error = check_chunk_range(bad).unwrap_err();
        assert_eq!(error.code, "audio_chunk");
        assert_eq!(error.message, "Invalid audio chunk time range");
    }
}

#[test]
fn a_waiting_chunk_is_cut_from_its_numbered_section() {
    let mut session = meeting();
    let mut numbered = pending(40, 10);
    numbered.segment_index = Some(3);
    let mut early = pending(5, 10);
    early.segment_index = Some(3);
    let mut unlisted = pending(60, 10);
    unlisted.segment_index = Some(9);
    session.transcription = vec![
        track(AudioSource::System, vec![pending(0, 10), numbered.clone(), unlisted]),
        track(AudioSource::Microphone, vec![early]),
    ];
    session.capture_segments = vec![
        CaptureSegment { source: AudioSource::Microphone, index: 3, start_us: 0, duration_us: 90 },
        CaptureSegment { source: AudioSource::System, index: 3, start_us: 30, duration_us: 30 },
        CaptureSegment { source: AudioSource::System, index: 3, start_us: 35, duration_us: 30 },
    ];
    assert_eq!(chunk_source(&session, 0, 1).unwrap(), (3, 10));
    assert_eq!(chunk_source(&session, 1, 0).unwrap(), (3, 5));
    let missing = chunk_source(&session, 0, 0).unwrap_err();
    assert_eq!(missing.code, "invalid_transcription");
    assert_eq!(missing.message, "Captured section reference is missing");
    let unknown = chunk_source(&session, 0, 2).unwrap_err();
    assert_eq!(unknown.message, "Captured section metadata is missing");
    session.capture_segments[1].start_us = 50;
    assert_eq!(chunk_source(&session, 0, 1).unwrap(), (3, 0));
}

#[test]
fn a_section_failure_surfaces_only_after_recording_stops() {
    assert!(live_pass_result(SessionStatus::Recording, Some(error("invalid_audio"))).is_ok());
    assert!(live_pass_result(SessionStatus::Processing, None).is_ok());
    let failed = live_pass_result(SessionStatus::Processing, Some(error("invalid_audio")));
    assert_eq!(failed.unwrap_err().code, "invalid_audio");
}

#[test]
fn frame_counts_become_whole_microseconds() {
    assert_eq!(duration_us(48_000, 48_000), 1_000_000);
    assert_eq!(duration_us(1, 48_000), 20);
    assert_eq!(duration_us(7, 0), 0);
    assert_eq!(duration_us(u64::MAX, 1), u64::MAX);
}

#[test]
fn notes_generation_gives_up_the_source_audio() {
    let mut session = meeting();
    assert!(release_retained_audio(session.clone()).is_none());
    session.microphone_audio_path = Some("/tmp/x-mic.m4a".into());
    let released = release_retained_audio(session.clone()).unwrap();
    assert!(released.audio_path.is_none() && released.microphone_audio_path.is_none());
    assert_eq!(released.id, session.id);
}
