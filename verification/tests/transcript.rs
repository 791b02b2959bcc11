use meeting_notes::session::{
    AudioSource, CreateSessionInput, Session, SessionStatus, SourceTranscript, TranscriptChunk,
    TranscriptSegment,
};
use meeting_notes::settings::TranscriptionSettings;
use meeting_notes::sources::{meeting_sources, transcript_turns};
use meeting_notes::transcript::{
    assembled_transcript, audio_time, chunk_key, validate_transcript_segments, TranscriptionResult,
};

fn segment(id: &str, speaker: &str, start_us: u64, end_us: u64, text: &str) -> TranscriptSegment {
    TranscriptSegment {
        id: id.into(),
        speaker: speaker.into(),
        start_us,
        end_us,
        text: text.into(),
    }
}

fn chunk(
    segment_index: Option<u64>,
    start_us: u64,
    duration_us: u64,
    transcript: Option<&str>,
    segments: Vec<TranscriptSegment>,
) -> TranscriptChunk {
    TranscriptChunk {
        start_us,
        duration_us,
        transcript: transcript.map(|t| t.to_string()),
        segment_index,
        segments,
        error: None,
    }
}

fn meeting() -> Session {
    let mut session = Session::new(CreateSessionInput {
        title: "Weekly review".into(),
        context: String::new(),
        attendees: Vec::new(),
    });
    session.status = SessionStatus::Complete;
    session
}

#[test]
fn speaker_turn_keys_separate_uploads_sources_and_adaptive_splits() {
    assert_eq!(
        TranscriptionSettings::new_recording_default().model,
        "gpt-4o-transcribe-diarize"
    );
    let mut meeting = meeting();
    meeting.transcription = vec![
        SourceTranscript {
            source: AudioSource::System,
            chunks: vec![
                chunk(
                    Some(1),
                    60_000_000,
                    30_000_000,
                    Some("First words"),
                    vec![segment("0", "A", 100_000, 2_000_000, "First words")],
                ),
                chunk(
                    Some(1),
                    90_000_000,
                    30_000_000,
                    Some("Later words EXTRA"),
                    vec![segment("0", "A", 100_000, 2_000_000, "Later words")],
                ),
            ],
        },
        SourceTranscript {
            source: AudioSource::Microphone,
            chunks: vec![chunk(
                Some(1),
                60_000_000,
                60_000_000,
                Some("Microphone words"),
                vec![segment("0", "A", 100_000, 2_000_000, "Microphone words")],
            )],
        },
    ];
    let turns = transcript_turns(&meeting);
    assert_eq!(turns.len(), 3);
    assert_eq!(turns[0].id, "microphone:segment-1:offset-60000:0");
    assert_eq!(turns[1].id, "system:segment-1:offset-60000:0");
    assert_eq!(turns[2].id, "system:segment-1:offset-90000:text");
    assert_ne!(turns[1].speaker_key, turns[2].speaker_key);
    assert_eq!(turns[2].start_us, 90_000_000);
    assert_eq!(turns[2].speaker_key, None);
    assert_eq!(turns[2].text, "Later words EXTRA");
    assert!(!meeting_sources(&meeting)
        .iter()
        .any(|source| source.text == "Later words"));
    assert!(meeting_sources(&meeting)
        .iter()
        .any(|source| source.id == "system:segment-1:offset-90000:text"
            && source.text.ends_with("EXTRA")));
}

#[test]
fn speaker_turns_carry_absolute_times_and_keys() {
    let mut meeting = meeting();
    meeting.transcription = vec![SourceTranscript {
        source: AudioSource::System,
        chunks: vec![chunk(
            None,
            1_000_000,
            10_000_000,
            Some("Hello there"),
            vec![
                segment("s0", "A", 0, 1_000_000, "Hello"),
                segment("s1", "B", 1_000_000, 2_000_000, "there"),
            ],
        )],
    }];
    let turns = transcript_turns(&meeting);
    assert_eq!(turns.len(), 2);
    assert_eq!(turns[0].id, "system:offset-1000:s0");
    assert_eq!(turns[0].speaker_key.as_deref(), Some("system:offset-1000:A"));
    assert_eq!(turns[0].start_us, 1_000_000);
    assert_eq!(turns[1].end_us, 3_000_000);
    let sources = meeting_sources(&meeting);
    assert!(sources.iter().any(|s| s.id == "manual-title" && s.text == "Weekly review"));
    assert!(sources.iter().any(|s| s.id == "system:offset-1000:s1" && s.text == "there"));
}

#[test]
fn chunk_keys_round_offsets_to_milliseconds() {
    let c = chunk(None, 1_499, 1, None, Vec::new());
    assert_eq!(chunk_key(AudioSource::Microphone, &c), "microphone:offset-1");
    let c = chunk(Some(7), 1_500, 1, None, Vec::new());
    assert_eq!(chunk_key(AudioSource::System, &c), "system:segment-7:offset-2");
}

#[test]
fn audio_times_round_to_whole_seconds() {
    assert_eq!(audio_time(0), "00:00:00");
    assert_eq!(audio_time(499_999), "00:00:00");
    assert_eq!(audio_time(500_000), "00:00:01");
    assert_eq!(audio_time(3_723_000_000), "01:02:03");
    assert_eq!(audio_time(360_000_000_000), "100:00:00");
}

#[test]
fn assembled_transcript_orders_chunks_by_start_across_sources() {
    let tracks = vec![
        SourceTranscript {
            source: AudioSource::System,
            chunks: vec![
                chunk(None, 0, 5_000_000, Some(" Remote words "), Vec::new()),
                chunk(None, 5_000_000, 5_000_000, Some("  "), Vec::new()),
                chunk(None, 10_000_000, 5_000_000, Some("Later remote"), Vec::new()),
            ],
        },
        SourceTranscript {
            source: AudioSource::Microphone,
            chunks: vec![chunk(None, 2_000_000, 4_000_000, Some("My words"), Vec::new())],
        },
    ];
    let transcript = assembled_transcript(&tracks).unwrap();
    assert_eq!(
        transcript,
        "Source tracks overlap in time. Offsets below refer to each source's recorded audio, not verified wall-clock alignment; capture gaps can shift these offsets.\n\n\
[00:00:00 – 00:00:05] System audio:\nRemote words\n\n\
[00:00:02 – 00:00:06] Microphone:\nMy words\n\n\
[00:00:10 – 00:00:15] System audio:\nLater remote"
    );
    let silent = vec![SourceTranscript {
        source: AudioSource::System,
        chunks: vec![chunk(None, 0, 1, Some(" "), Vec::new()), chunk(None, 1, 1, None, Vec::new())],
    }];
    assert_eq!(assembled_transcript(&silent), None);
}

#[test]
fn speaker_segments_must_fit_the_upload() {
    let ok = vec![
        segment("a", "A", 0, 1_000_000, "One"),
        segment("b", "B", 1_000_000, 4_900_000, "Two"),
    ];
    assert!(validate_transcript_segments(&ok, 4_000_000).is_ok());
    for bad in [
        vec![segment("a", "A", 0, 5_100_000, "One")],
        vec![segment("a", "A", 2_000_000, 2_000_000, "One")],
        vec![segment("a", " ", 0, 1_000_000, "One")],
        vec![segment("a", "A", 0, 1_000_000, "")],
        vec![segment("a", "A", 0, 1_000_000, "One"), segment("a", "B", 1_000_000, 2_000_000, "Two")],
        vec![segment("a", "A", 2_000_000, 3_000_000, "One"), segment("b", "B", 1_000_000, 2_000_000, "Two")],
    ] {
        let error = validate_transcript_segments(&bad, 4_000_000).unwrap_err();
        assert_eq!(error.code, "invalid_transcription");
    }
}

#[test]
fn invalid_speakers_are_dropped_only_when_words_remain() {
    let mut result = TranscriptionResult {
        omitted_speakers: false,
        text: "Words".into(),
        segments: vec![segment("a", "A", 0, 9_000_000, "Words")],
    };
    assert!(result.retain_valid_speakers(4_000_000).is_ok());
    assert!(result.segments.is_empty());
    assert!(result.omitted_speakers);
    let mut empty = TranscriptionResult {
        omitted_speakers: false,
        text: " ".into(),
        segments: vec![segment("a", "A", 0, 9_000_000, "Words")],
    };
    assert_eq!(
        empty.retain_valid_speakers(4_000_000).unwrap_err().code,
        "invalid_transcription"
    );
    assert_eq!(empty.segments.len(), 1);
}
