use meeting_notes::error::AppError;
use meeting_notes::session::{CreateSessionInput, Session, SessionStatus};
use meeting_notes::worker::{
    backoff_delay_ms, clear_live_failure, is_retryable, show_live_failure, Step, WorkerState,
};

fn error(code: &str) -> AppError {
    AppError {
        code: code.into(),
        message: format!("{code} happened"),
    }
}

#[test]
fn only_transient_failures_are_retried() {
    for code in ["rate_limited", "openai_server", "openai_timeout", "openai_network"] {
        assert!(is_retryable(code));
    }
    for code in ["invalid_api_key", "audio_too_large", "openai", ""] {
        assert!(!is_retryable(code));
    }
}

#[test]
fn backoff_doubles_then_waits_longer_only_while_recording() {
    assert_eq!(backoff_delay_ms("openai_server", 0, false), Some(2_000));
    assert_eq!(backoff_delay_ms("openai_server", 1, false), Some(4_000));
    assert_eq!(backoff_delay_ms("openai_server", 2, false), Some(8_000));
    assert_eq!(backoff_delay_ms("openai_server", 3, false), None);
    assert_eq!(backoff_delay_ms("openai_server", 3, true), Some(30_000));
    assert_eq!(backoff_delay_ms("openai_server", 9, true), Some(60_000));
    assert_eq!(backoff_delay_ms("invalid_api_key", 0, true), None);
}

#[test]
fn worker_caps_final_retries_and_never_retries_permanent_errors() {
    let mut worker = WorkerState::new();
    for expected in [2_000, 4_000, 8_000] {
        worker.on_failure(SessionStatus::Processing, error("openai_timeout"));
        assert_eq!(worker.retry_after_ms, Some(expected));
    }
    worker.on_failure(SessionStatus::Processing, error("openai_timeout"));
    assert_eq!(worker.retry_after_ms, None);
    match worker.on_loaded(SessionStatus::Processing) {
        Step::Fail(e) => assert_eq!(e.code, "openai_timeout"),
        other => panic!("expected failure, got {other:?}"),
    }

    let mut worker = WorkerState::new();
    worker.on_failure(SessionStatus::Processing, error("invalid_api_key"));
    assert_eq!(worker.retry_after_ms, None);
    assert_eq!(worker.retries, 0);
    assert!(matches!(worker.on_loaded(SessionStatus::Processing), Step::Fail(_)));
}

#[test]
fn worker_waits_out_the_backoff_in_polls_then_retries() {
    let mut worker = WorkerState::new();
    assert!(matches!(
        worker.on_loaded(SessionStatus::Processing),
        Step::Process { clear_live_error: false }
    ));
    worker.on_failure(SessionStatus::Processing, error("rate_limited"));
    let mut waited = 0;
    loop {
        match worker.on_loaded(SessionStatus::Processing) {
            Step::Wait(ms) => {
                assert!(ms <= 500);
                waited += ms;
            }
            Step::Process { clear_live_error } => {
                assert!(clear_live_error);
                break;
            }
            other => panic!("unexpected {other:?}"),
        }
    }
    assert_eq!(waited, 2_000);
    assert!(matches!(worker.on_success(SessionStatus::Complete), Step::Finish));
    assert_eq!(worker.retries, 0);
    assert!(worker.paused.is_none());
}

#[test]
fn worker_stop_during_backoff_finishes_processing_instead_of_replaying_failure() {
    let mut worker = WorkerState::new();
    assert!(matches!(worker.on_loaded(SessionStatus::Recording), Step::Process { .. }));
    worker.on_failure(SessionStatus::Recording, error("openai_network"));
    assert!(matches!(worker.on_loaded(SessionStatus::Recording), Step::Wait(500)));
    assert!(matches!(
        worker.on_loaded(SessionStatus::Processing),
        Step::Process { clear_live_error: true }
    ));
    assert_eq!(worker.retries, 0);
}

#[test]
fn worker_keeps_polling_a_recording_after_a_permanent_failure() {
    let mut worker = WorkerState::new();
    worker.on_loaded(SessionStatus::Recording);
    worker.on_failure(SessionStatus::Recording, error("invalid_audio"));
    assert!(matches!(worker.on_loaded(SessionStatus::Recording), Step::Wait(500)));
    assert!(matches!(worker.on_loaded(SessionStatus::Complete), Step::Finish));
    assert!(matches!(worker.on_success(SessionStatus::Recording), Step::Wait(500)));
}

#[test]
fn worker_recovers_transient_errors_without_losing_saved_checkpoints() {
    for code in ["rate_limited", "openai_server", "openai_timeout", "openai_network"] {
        let mut worker = WorkerState::new();
        let mut status = SessionStatus::Recording;
        let mut live_error: Option<AppError> = None;
        let mut attempts = 0;
        let mut waits: Vec<u64> = Vec::new();
        loop {
            match worker.on_loaded(status) {
                Step::Finish => break,
                Step::Fail(e) => panic!("unexpected failure {e:?}"),
                Step::Wait(ms) => {
                    assert!(ms <= 500);
                    waits.push(ms);
                    if attempts == 2 {
                        assert!(live_error.is_none());
                        status = SessionStatus::Processing;
                    }
                }
                Step::Process { clear_live_error } => {
                    if clear_live_error {
                        live_error = None;
                    }
                    attempts += 1;
                    match attempts {
                        1 => {
                            let failure = AppError {
                                code: code.into(),
                                message: "Temporary failure".into(),
                            };
                            worker.on_failure(status, failure.duplicate());
                            live_error = Some(failure);
                            assert_eq!(status, SessionStatus::Recording);
                        }
                        2 => {
                            assert_eq!(status, SessionStatus::Recording);
                            assert!(live_error.is_none());
                            match worker.on_success(status) {
                                Step::Wait(ms) => {
                                    waits.push(ms);
                                    status = SessionStatus::Processing;
                                }
                                other => panic!("unexpected {other:?}"),
                            }
                        }
                        3 => {
                            status = SessionStatus::Complete;
                            assert!(matches!(worker.on_success(status), Step::Finish));
                            break;
                        }
                        _ => panic!("unexpected extra processing attempt"),
                    }
                }
            }
        }
        assert_eq!(attempts, 3);
        assert!(live_error.is_none());
        assert_eq!(waits.iter().sum::<u64>(), 2_500);
    }
}

#[test]
fn a_transient_failure_is_shown_without_failing_the_meeting() {
    let mut session = Session::new(CreateSessionInput {
        title: "Standup".into(),
        context: String::new(),
        attendees: Vec::new(),
    });
    session.status = SessionStatus::Recording;
    assert!(clear_live_failure(session.clone()).is_none());
    let shown = show_live_failure(session, error("openai_network"));
    assert_eq!(shown.status, SessionStatus::Recording);
    assert!(shown.error.is_none());
    assert_eq!(shown.live_transcription_error.as_ref().unwrap().code, "openai_network");
    let cleared = clear_live_failure(shown).unwrap();
    assert!(cleared.live_transcription_error.is_none());
    assert_eq!(cleared.status, SessionStatus::Recording);
}
