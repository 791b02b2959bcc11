use meeting_notes::error::AppError;
use meeting_notes::recorder::{
    combine_errors, microphone_error, ContinuousClock, MachTimebase, segment_path, status_error, CallbackGate, CaptureStatus,
    ExecutableIdentity, Fingerprint, Recorder, RecordingHealth, RecordingSlot, SourceCounters,
};
use meeting_notes::session::AudioSource;

#[test]
fn a_second_session_cannot_steal_the_recorder() {
    let mut slot = RecordingSlot::default();
    slot.reserve("first").unwrap();
    let error = slot.reserve("second").unwrap_err();
    assert_eq!(error.code, "already_recording");
}

#[test]
fn a_different_session_cannot_release_the_recorder() {
    let mut slot = RecordingSlot::default();
    slot.reserve("first").unwrap();
    let error = slot.release("second").unwrap_err();
    assert_eq!(error.code, "recording_session_mismatch");
    assert_eq!(slot.session_id.as_deref(), Some("first"));
}

#[test]
fn a_failed_stop_releases_the_recorder_slot() {
    let mut recorder = Recorder::new(None);
    recorder.slot.reserve("first").unwrap();

    let error = recorder.stop("first").unwrap_err();

    assert_eq!(error.code, "recorder_state");
    assert!(!recorder.is_recording());
}

#[test]
fn disabled_callback_gate_rejects_new_work() {
    let mut gate = CallbackGate::default();

    gate.disable();

    assert!(!gate.try_enter());
}

#[test]
fn callback_gate_tracks_work_that_entered_before_disable() {
    let mut gate = CallbackGate::default();
    assert!(gate.try_enter());

    gate.disable();

    assert!(!gate.is_idle());
    gate.leave();
    assert!(gate.is_idle());
}

#[test]
fn microphone_start_failure_keeps_its_error_code() {
    let error = combine_errors(vec![AppError::new(
        "microphone_capture",
        "Microphone permission was denied",
    )]);

    assert_eq!(error.code, "microphone_capture");
}

#[test]
fn microphone_errors_only_use_permission_guidance_for_permission_denials() {
    assert_eq!(
        microphone_error(AppError::new("audio_permission", "denied")).code,
        "microphone_permission"
    );
    assert_eq!(
        microphone_error(AppError::new("audio_capture", "codec failed")).code,
        "microphone_capture"
    );
}

#[test]
fn only_the_core_audio_permission_status_is_labeled_as_permission_failure() {
    assert_eq!(status_error("capture", -66748).code, "audio_permission");
    assert_eq!(status_error("capture", 560226676).code, "audio_capture");
}

#[test]
fn segment_names_are_derived_from_session_and_source() {
    let base = "/tmp/session-123.m4a";
    assert_eq!(
        segment_path(base, AudioSource::System, 0).unwrap(),
        "/tmp/session-123-system-segment-00000000.m4a"
    );
    assert_eq!(
        segment_path(base, AudioSource::Microphone, 42).unwrap(),
        "/tmp/session-123-mic-segment-00000042.m4a"
    );
    assert!(segment_path("/tmp/../bad name.m4a", AudioSource::System, 0).is_err());
}

#[test]
fn capture_health_counts_only_successfully_written_frames() {
    let mut counters = SourceCounters::new();
    counters.callback(1_000);
    counters.accept_frames(48_000);
    counters.complete_write(48_000, 0);
    counters.accept_frames(24_000);
    counters.complete_write(24_000, -50);
    counters.complete_write(0, -51);
    let health = counters.snapshot(48_000, 2_000, false);
    assert_eq!(health.admitted_frames, 72_000);
    assert_eq!(health.written_frames, 48_000);
    assert_eq!(health.written_frames / u64::from(health.sample_rate), 1);
    assert_eq!(health.last_callback_age_ms, Some(1_000));
    assert_eq!(health.write_error, Some(-50));
    assert_eq!(health.status, CaptureStatus::WriteError);
}

#[test]
fn capture_health_warns_for_no_frames_and_stalls_then_recovers() {
    let mut counters = SourceCounters::new();
    assert_eq!(counters.snapshot(48_000, 2_000, false).status, CaptureStatus::Starting);
    assert_eq!(counters.snapshot(48_000, 11_000, false).status, CaptureStatus::NoFrames);
    counters.callback(12_000);
    counters.accept_frames(48_000);
    counters.complete_write(48_000, 0);
    assert_eq!(counters.snapshot(48_000, 12_000, false).status, CaptureStatus::Healthy);
    assert_eq!(counters.snapshot(48_000, 23_000, false).status, CaptureStatus::Stalled);
    counters.callback(24_000);
    counters.accept_frames(48_000);
    counters.complete_write(48_000, 0);
    assert_eq!(counters.snapshot(48_000, 24_000, false).status, CaptureStatus::Healthy);
}

#[test]
fn capture_health_empty_callbacks_do_not_hide_a_stalled_source() {
    let mut counters = SourceCounters::new();
    counters.callback(1_000);
    counters.accept_frames(48_000);
    counters.complete_write(48_000, 0);
    counters.callback(12_000);
    counters.complete_write(0, 0);
    let health = counters.snapshot(48_000, 12_000, false);
    assert_eq!(health.last_callback_age_ms, Some(0));
    assert_eq!(health.status, CaptureStatus::Stalled);
}

#[test]
fn capture_health_keeps_sources_independent_and_warns_about_short_capture() {
    let system = SourceCounters::new();
    let mut microphone = SourceCounters::new();
    microphone.callback(120_000);
    microphone.accept_frames(60 * 48_000);
    microphone.complete_write(60 * 48_000, 0);
    let health = RecordingHealth::from_sources(
        120_000,
        system.snapshot(48_000, 120_000, true),
        microphone.snapshot(48_000, 120_000, true),
    );
    assert_eq!(health.system.status, CaptureStatus::NoFrames);
    assert_eq!(health.microphone.status, CaptureStatus::ShortCapture);
    assert_eq!(health.microphone.written_frames / u64::from(health.microphone.sample_rate), 60);
    assert!(health.warnings.iter().any(|warning| warning.contains("System audio")));
    assert!(health.warnings.iter().any(|warning| warning.contains("Microphone")));
}

#[test]
fn capture_health_does_not_confuse_silent_frames_with_missing_capture() {
    let mut counters = SourceCounters::new();
    counters.callback(60_000);
    counters.accept_frames(60 * 48_000);
    counters.complete_write(60 * 48_000, 0);
    assert_eq!(counters.snapshot(48_000, 60_000, true).status, CaptureStatus::Healthy);
    assert_eq!(SourceCounters::new().snapshot(48_000, 100, true).status, CaptureStatus::NoFrames);
}

#[test]
fn capture_health_checks_real_duration_without_rounding_away_loss() {
    let mut counters = SourceCounters::new();
    counters.callback(4_000);
    counters.accept_frames(48_000);
    counters.complete_write(48_000, 0);
    assert_eq!(counters.snapshot(48_000, 4_000, true).status, CaptureStatus::ShortCapture);
    assert_eq!(counters.snapshot(48_000, 1_010, true).status, CaptureStatus::Healthy);
}

fn fingerprint(length: u64, inode: u64) -> Option<Fingerprint> {
    Some(Fingerprint { length, modified_ns: Some(7), device: 1, inode })
}

#[test]
fn executable_identity_detects_replacement_and_disappearance() {
    let identity = ExecutableIdentity::read(fingerprint(3, 10));
    assert!(!identity.changed(&fingerprint(3, 10)));
    assert!(identity.changed(&fingerprint(3, 11)));
    assert!(identity.changed(&None));
}

#[test]
fn recorder_start_claims_the_slot_and_a_failed_start_gives_it_back() {
    let mut recorder = Recorder::new(None);
    let failed = recorder.start("first", |_| Err(AppError::new("audio_capture", "no device")), "t0".to_owned());
    assert_eq!(failed.unwrap_err().code, "audio_capture");
    assert!(!recorder.is_recording());
    let info = recorder
        .start_segmented("first", |segmented| {
            assert!(segmented);
            Ok(())
        }, "t1".to_owned())
        .unwrap();
    assert_eq!(info.session_id, "first");
    assert!(recorder.is_recording());
    assert_eq!(recorder.start("second", |_| Ok(()), "t2".to_owned()).unwrap_err().code, "already_recording");
    recorder.stop("first").unwrap();
    assert!(!recorder.is_recording());
}

#[test]
fn continuous_capture_clock_counts_sleep_in_wall_duration() {
    let clock = ContinuousClock {
        started_ticks: 120,
        timebase: MachTimebase { numer: 125, denom: 3 },
    };
    let wall_ns = clock.elapsed_at(2_880_000_120);
    assert_eq!(wall_ns, 120_000_000_000);
    assert_eq!(clock.elapsed_at(123), 125);
    assert_eq!(clock.elapsed_at(119), 0);
    let wall_ms = wall_ns / 1_000_000;
    let mut counters = SourceCounters::new();
    counters.callback(60_000);
    counters.accept_frames(60 * 48_000);
    counters.complete_write(60 * 48_000, 0);
    let live = counters.snapshot(48_000, wall_ms, false);
    assert_eq!(live.status, CaptureStatus::Stalled);
    assert_eq!(live.last_callback_age_ms, Some(60_000));
    assert_eq!(counters.snapshot(48_000, wall_ms, true).status, CaptureStatus::ShortCapture);
}

#[test]
fn a_clock_needs_a_usable_timebase_and_saturates() {
    let error = ContinuousClock::from_timebase(5, MachTimebase { numer: 0, denom: 1 }).unwrap_err();
    assert_eq!(error.code, "audio_capture");
    assert!(ContinuousClock::from_timebase(5, MachTimebase { numer: 1, denom: 0 }).is_err());
    let clock = ContinuousClock::from_timebase(0, MachTimebase { numer: u32::MAX, denom: 1 }).unwrap();
    assert_eq!(clock.started_ticks, 0);
    assert_eq!(clock.elapsed_at(u64::MAX), u64::MAX);
    assert_eq!(clock.elapsed_at(2), 2 * u32::MAX as u64);
}
