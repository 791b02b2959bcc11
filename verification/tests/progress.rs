use meeting_notes::error::AppError;
use meeting_notes::processing::{
    checkpoint_chunk_error, plan_chunks, prepare_source, save_chunk_transcript, split_chunk,
};
use meeting_notes::progress::validate_transcription;
use meeting_notes::session::{
    AudioSource, CaptureSegment, CreateSessionInput, Session, SourceTranscript, TranscriptChunk,
    TranscriptSegment,
};
use meeting_notes::settings::TranscriptionSettings;

fn meeting() -> Session {
    Session::new(CreateSessionInput {
        title: "Synthetic".into(),
        context: String::new(),
        attendees: vec![],
    })
}

fn chunk(start_us: u64, duration_us: u64, segment_index: Option<u64>) -> TranscriptChunk {
    TranscriptChunk {
        start_us,
        duration_us,
        transcript: Some("saved".into()),
        segment_index,
        segments: Vec::new(),
        error: None,
    }
}

#[test]
fn malformed_chunk_progress_is_rejected_before_it_can_drive_cleanup_or_retry() {
    for (start, duration, duplicate) in [
        (0, 0, false),
        (0, 301_000_000, false),
        (1_000_000, 1_000_000, false),
        (0, 1_000_000, true),
    ] {
        let mut session = meeting();
        let track = SourceTranscript {
            source: AudioSource::System,
            chunks: vec![chunk(start, duration, None)],
        };
        session.transcription = vec![track.clone()];
        if duplicate {
            session.transcription.push(track);
        }
        let error = validate_transcription(&session).unwrap_err();
        assert_eq!(error.code, "invalid_transcription");
    }
}

#[test]
fn whole_file_progress_must_be_contiguous() {
    let mut session = meeting();
    session.transcription = vec![
        SourceTranscript {
            source: AudioSource::System,
            chunks: vec![chunk(0, 300_000_000, None), chunk(300_000_001, 10, None)],
        },
        SourceTranscript {
            source: AudioSource::Microphone,
            chunks: Vec::new(),
        },
    ];
    assert!(validate_transcription(&session).is_ok());
    session.transcription[0].chunks[1].start_us = 300_000_002;
    assert!(validate_transcription(&session).is_err());
}

#[test]
fn sectioned_progress_must_cover_each_section() {
    let mut session = meeting();
    session.segmented_capture = true;
    session.capture_segments = vec![CaptureSegment {
        source: AudioSource::System,
        index: 1,
        start_us: 10_000_000,
        duration_us: 400_000_000,
    }];
    session.transcription = vec![SourceTranscript {
        source: AudioSource::System,
        chunks: vec![
            chunk(10_000_000, 300_000_000, Some(1)),
            chunk(310_000_000, 100_000_000, Some(1)),
        ],
    }];
    assert!(validate_transcription(&session).is_ok());
    session.transcription[0].chunks.pop();
    assert_eq!(validate_transcription(&session).unwrap_err().code, "invalid_transcription");

    let mut clash = meeting();
    clash.segmented_capture = true;
    let section = CaptureSegment {
        source: AudioSource::Microphone,
        index: 1,
        start_us: 0,
        duration_us: 5,
    };
    clash.capture_segments = vec![section, section];
    assert!(validate_transcription(&clash).is_err());

    let mut unnumbered = meeting();
    unnumbered.segmented_capture = true;
    unnumbered.transcription = vec![SourceTranscript {
        source: AudioSource::System,
        chunks: vec![chunk(0, 5, None)],
    }];
    assert!(validate_transcription(&unnumbered).is_err());
}

#[test]
fn saved_speaker_turns_must_fit_their_chunk() {
    let mut session = meeting();
    let mut c = chunk(0, 4_000_000, None);
    c.segments = vec![TranscriptSegment {
        id: "s0".into(),
        speaker: "A".into(),
        start_us: 0,
        end_us: 6_000_000,
        text: "saved".into(),
    }];
    session.transcription = vec![SourceTranscript {
        source: AudioSource::System,
        chunks: vec![c],
    }];
    assert!(validate_transcription(&session).is_err());
    session.transcription[0].chunks[0].segments[0].end_us = 5_000_000;
    assert!(validate_transcription(&session).is_ok());
    session.transcription[0].chunks[0].transcript = None;
    assert!(validate_transcription(&session).is_err());
}

#[test]
fn product_settings_roundtrip_validation_and_old_session_default() {
    let settings = TranscriptionSettings {
        language: "en".into(),
        vocabulary: "界".repeat(2000),
        model: "gpt-4o-transcribe".into(),
    };
    assert!(settings.validate().is_ok());
    for invalid in [
        TranscriptionSettings {
            vocabulary: "界".repeat(2001),
            ..settings.clone()
        },
        TranscriptionSettings {
            model: "anything".into(),
            ..settings.clone()
        },
        TranscriptionSettings {
            language: "english".into(),
            ..settings.clone()
        },
    ] {
        assert_eq!(invalid.validate().unwrap_err().code, "invalid_transcription_settings");
        let mut session = meeting();
        session.transcription_settings = invalid;
        assert_eq!(
            validate_transcription(&session).unwrap_err().code,
            "invalid_transcription_settings"
        );
    }
    let legacy = TranscriptionSettings::legacy_default();
    assert_eq!(legacy.model, "gpt-4o-mini-transcribe");
    assert!(!legacy.diarizes());
    assert!(TranscriptionSettings::new_recording_default().diarizes());
    assert_eq!(settings.duplicate().vocabulary, settings.vocabulary);
}

#[test]
fn each_processing_step_keeps_saved_progress_valid() {
    let session = prepare_source(meeting(), AudioSource::System, plan_chunks(700_000_000));
    assert!(validate_transcription(&session).is_ok());
    let session = split_chunk(session, 0, 1);
    assert!(validate_transcription(&session).is_ok());
    let session = save_chunk_transcript(
        session,
        0,
        0,
        "Opening".into(),
        vec![TranscriptSegment {
            id: "s0".into(),
            speaker: "A".into(),
            start_us: 0,
            end_us: 2_000_000,
            text: "Opening".into(),
        }],
        false,
    );
    assert!(validate_transcription(&session).is_ok());
    let session = checkpoint_chunk_error(
        session,
        0,
        2,
        AppError {
            code: "invalid_audio".into(),
            message: "unreadable".into(),
        },
    );
    assert!(validate_transcription(&session).is_ok());
    assert_eq!(session.transcription[0].chunks.len(), 4);
}
