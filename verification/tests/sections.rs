use meeting_notes::recorder::CapturedSegment;
use meeting_notes::sections::{
    append_segments, empty_section_warning, recover_section, recovered_section_warning,
    recovered_start, removable_sections, section_windows, unfinished_section_error, SectionProbe,
};
use meeting_notes::session::{AudioSource, CaptureSegment, CreateSessionInput, Session};

fn meeting() -> Session {
    Session::new(CreateSessionInput {
        title: "Long call".into(),
        context: String::new(),
        attendees: Vec::new(),
    })
}

fn captured(source: AudioSource, index: u64, start_us: u64, duration_us: u64) -> CapturedSegment {
    CapturedSegment {
        source,
        index,
        start_us,
        duration_us,
        path: format!("/audio/{index}.m4a"),
    }
}

#[test]
fn a_section_is_cut_into_five_minute_windows() {
    let windows = section_windows(&captured(AudioSource::System, 4, 1_000_000, 660_000_000));
    let spans: Vec<(u64, u64)> = windows.iter().map(|c| (c.start_us, c.duration_us)).collect();
    assert_eq!(
        spans,
        [(1_000_000, 300_000_000), (301_000_000, 300_000_000), (601_000_000, 60_000_000)]
    );
    assert!(windows.iter().all(|c| c.segment_index == Some(4) && c.transcript.is_none()));
    assert!(section_windows(&captured(AudioSource::System, 1, 0, 1)).is_empty());
    assert_eq!(section_windows(&captured(AudioSource::System, 1, 0, 300_000_001)).len(), 1);
    assert_eq!(section_windows(&captured(AudioSource::System, 1, 0, 300_000_002)).len(), 2);
}

#[test]
fn sections_join_their_source_tracks_once_and_in_order() {
    let batch = vec![
        captured(AudioSource::System, 2, 300_000_000, 300_000_000),
        captured(AudioSource::Microphone, 1, 0, 300_000_000),
        captured(AudioSource::System, 1, 0, 300_000_000),
        captured(AudioSource::System, 2, 300_000_000, 300_000_000),
    ];
    let session = append_segments(meeting(), &batch);
    let saved: Vec<(AudioSource, u64)> = session
        .capture_segments
        .iter()
        .map(|g| (g.source, g.index))
        .collect();
    assert_eq!(
        saved,
        [(AudioSource::Microphone, 1), (AudioSource::System, 1), (AudioSource::System, 2)]
    );
    assert_eq!(session.transcription.len(), 2);
    assert_eq!(session.transcription[0].source, AudioSource::System);
    let starts: Vec<u64> = session.transcription[0].chunks.iter().map(|c| c.start_us).collect();
    assert_eq!(starts, [0, 300_000_000]);
    assert_eq!(session.transcription[1].source, AudioSource::Microphone);

    let again = append_segments(session.clone(), &batch);
    assert_eq!(again.capture_segments.len(), 3);
    assert_eq!(again.transcription[0].chunks.len(), 2);

    let later = append_segments(
        session,
        &vec![captured(AudioSource::System, 3, 600_000_000, 10_000_000)],
    );
    assert_eq!(later.transcription[0].chunks.len(), 3);
    assert_eq!(later.transcription[0].chunks[2].segment_index, Some(3));
    assert_eq!(later.transcription[1].chunks.len(), 1);
}

#[test]
fn only_fully_transcribed_sections_with_words_may_be_removed() {
    let batch = vec![
        captured(AudioSource::System, 1, 0, 300_000_000),
        captured(AudioSource::System, 2, 300_000_000, 400_000_000),
        captured(AudioSource::Microphone, 1, 0, 100),
    ];
    let mut session = append_segments(meeting(), &batch);
    assert!(removable_sections(&session).is_empty());
    session.transcription[0].chunks[0].transcript = Some("words".into());
    session.transcription[0].chunks[1].transcript = Some("more".into());
    session.transcription[1].chunks[0].transcript = Some(" ".into());
    assert_eq!(removable_sections(&session), [(AudioSource::System, 1)]);
    session.transcription[0].chunks[2].transcript = Some(String::new());
    assert_eq!(
        removable_sections(&session),
        [(AudioSource::System, 1), (AudioSource::System, 2)]
    );
}

#[test]
fn recovered_sections_start_after_earlier_sections_of_their_source() {
    let mut session = meeting();
    session.capture_segments = vec![
        CaptureSegment {
            source: AudioSource::System,
            index: 1,
            start_us: 0,
            duration_us: 300_000_000,
        },
        CaptureSegment {
            source: AudioSource::System,
            index: 2,
            start_us: 300_000_000,
            duration_us: 200_000_000,
        },
        CaptureSegment {
            source: AudioSource::Microphone,
            index: 1,
            start_us: 0,
            duration_us: 900_000_000,
        },
    ];
    assert_eq!(recovered_start(&session, AudioSource::System, 3), 500_000_000);
    assert_eq!(recovered_start(&session, AudioSource::System, 2), 300_000_000);
    assert_eq!(recovered_start(&session, AudioSource::System, 1), 0);
    assert_eq!(recovered_start(&session, AudioSource::Microphone, 2), 900_000_000);
}

#[test]
fn section_warnings_name_the_source() {
    assert!(recovered_section_warning().starts_with("Recovered a finalized audio section"));
    assert_eq!(
        empty_section_warning(AudioSource::Microphone),
        "Microphone contained an empty audio section. Notes use available speech."
    );
    let error = unfinished_section_error(AudioSource::System);
    assert_eq!(error.code, "audio_chunk");
    assert!(error.message.starts_with("System audio has an unfinished audio section"));
}

#[test]
fn stopped_capture_recovers_unregistered_final_tail_once_and_keeps_audio() {
    let session = append_segments(
        meeting(),
        &vec![captured(AudioSource::System, 1, 0, 60_000_000)],
    );
    let (session, error) = recover_section(
        session,
        AudioSource::System,
        2,
        "/audio/2.m4a".into(),
        SectionProbe::Frames(30_000_000),
    );
    assert!(error.is_none());
    let tail = session.capture_segments.iter().find(|g| g.index == 2).unwrap();
    assert_eq!((tail.start_us, tail.duration_us), (60_000_000, 30_000_000));
    assert_eq!(session.transcription[0].chunks.len(), 2);
    assert_eq!(session.warnings, [recovered_section_warning()]);

    let (again, error) = recover_section(
        session.clone(),
        AudioSource::System,
        2,
        "/audio/2.m4a".into(),
        SectionProbe::Frames(30_000_000),
    );
    assert!(error.is_none());
    assert_eq!(again.capture_segments.len(), 2);
    assert_eq!(again.warnings.len(), 1);
}

#[test]
fn empty_and_unreadable_sections_are_reported_and_kept() {
    let (empty, error) = recover_section(
        meeting(),
        AudioSource::Microphone,
        1,
        "/audio/1.m4a".into(),
        SectionProbe::Empty,
    );
    assert!(error.is_none());
    assert!(empty.capture_segments.is_empty());
    assert_eq!(empty.warnings, [empty_section_warning(AudioSource::Microphone)]);
    let (broken, error) = recover_section(
        meeting(),
        AudioSource::System,
        3,
        "/audio/3.m4a".into(),
        SectionProbe::Unreadable,
    );
    let error = error.unwrap();
    assert_eq!(error.code, "audio_chunk");
    assert_eq!(broken.warnings, [error.message]);
    assert!(broken.transcription.is_empty());
}
