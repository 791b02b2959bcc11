//! The decisions of the background processing worker: when to process, how
//! long to back off after a transient failure, and when to give up. The
//! worker's loop (loading the meeting, uploading, sleeping) runs outside and
//! hands each observation to these functions.
use vstd::prelude::*;

use crate::error::AppError;
use crate::session::{Session, SessionStatus};
use crate::text::same_text;

verus! {

/// Milliseconds between checks of a meeting that is still recording.
pub const POLL_MS: u64 = 500;

/// Failures that a later attempt can overcome without the person's help.
pub open spec fn retryable(code: Seq<char>) -> bool {
    code == "rate_limited"@ || code == "openai_server"@ || code == "openai_timeout"@ || code
        == "openai_network"@
}

/// Seconds to wait before the next attempt after a failure: 2, 4 and 8 for
/// the first three, then 30 and 60 while capture continues; none after a
/// permanent failure, or once a stopped meeting has had its three retries.
pub open spec fn backoff_seconds(code: Seq<char>, retries: int, recording: bool) -> Option<int> {
    if !retryable(code) {
        None
    } else if retries == 0 {
        Some(2)
    } else if retries == 1 {
        Some(4)
    } else if retries == 2 {
        Some(8)
    } else if recording {
        Some(if retries == 3 {
            30
        } else {
            60
        })
    } else {
        None
    }
}

pub fn is_retryable(code: &str) -> (b: bool)
    ensures
        b == retryable(code@),
{
    same_text(code, "rate_limited") || same_text(code, "openai_server") || same_text(
        code,
        "openai_timeout",
    ) || same_text(code, "openai_network")
}

pub fn backoff_delay_ms(code: &str, retries: u64, recording: bool) -> (r: Option<u64>)
    ensures
        r == match backoff_seconds(code@, retries as int, recording) {
            Some(s) => Some((s * 1000) as u64),
            None => None::<u64>,
        },
{
    if !is_retryable(code) {
        None
    } else if retries == 0 {
        Some(2000)
    } else if retries == 1 {
        Some(4000)
    } else if retries == 2 {
        Some(8000)
    } else if recording {
        Some(
            if retries == 3 {
                30000
            } else {
                60000
            },
        )
    } else {
        None
    }
}

/// Law: a retry is never scheduled more than a minute out, and a meeting that
/// is no longer recording gets at most three automatic retries.
pub proof fn lemma_backoff_bounded(code: Seq<char>, retries: int, recording: bool)
    requires
        retries >= 0,
    ensures
        backoff_seconds(code, retries, recording) matches Some(s) ==> 2 <= s <= 60,
        !recording && retries >= 3 ==> backoff_seconds(code, retries, recording) is None,
        !retryable(code) ==> backoff_seconds(code, retries, recording) is None,
{
}

/// The worker's memory between observations.
#[derive(Debug)]
pub struct WorkerState {
    /// The failure of the last attempt, while it waits to be retried.
    pub paused: Option<AppError>,
    /// Time left before the next attempt; `None` means no retry is scheduled.
    pub retry_after_ms: Option<u64>,
    pub retries: u64,
    pub was_recording: bool,
}

/// What the worker does after loading the meeting.
#[derive(Debug)]
pub enum Step {
    /// The meeting is neither recording nor processing: stop, returning it.
    Finish,
    /// Sleep this many milliseconds, then load again.
    Wait(u64),
    /// Give up with this failure.
    Fail(AppError),
    /// Process now; first clear the live failure shown to the person if asked.
    Process { clear_live_error: bool },
}

impl WorkerState {
    pub fn new() -> (s: WorkerState)
        ensures
            s.paused is None,
            s.retry_after_ms is None,
            s.retries == 0,
            !s.was_recording,
    {
        WorkerState { paused: None, retry_after_ms: None, retries: 0, was_recording: false }
    }

    /// Decides what follows loading a meeting in `status`.
    pub fn on_loaded(&mut self, status: SessionStatus) -> (step: Step)
        ensures
            !(status == SessionStatus::Recording || status == SessionStatus::Processing) ==> (
            step is Finish && *final(self) == *old(self)),
            status == SessionStatus::Recording || status == SessionStatus::Processing ==> {
                // Stop during a backoff makes a fresh, immediate final attempt.
                let fresh = old(self).was_recording && status == SessionStatus::Processing && old(self).retry_after_ms is Some;
                let retry_after = if fresh {
                    Some(0u64)
                } else {
                    old(self).retry_after_ms
                };
                let retries = if fresh {
                    0
                } else {
                    old(self).retries
                };
                &&& final(self).was_recording == (status == SessionStatus::Recording)
                &&& final(self).retries == retries
                &&& final(self).paused == old(self).paused
                &&& match old(self).paused {
                    None => step == (Step::Process { clear_live_error: false }) && final(self).retry_after_ms == retry_after,
                    Some(error) => match retry_after {
                        Some(ms) => if ms > 0 {
                            let delay = if ms < POLL_MS {
                                ms
                            } else {
                                POLL_MS
                            };
                            step == Step::Wait(delay) && final(self).retry_after_ms == Some(
                                (ms - delay) as u64,
                            )
                        } else {
                            step == (Step::Process { clear_live_error: true }) && final(self).retry_after_ms == retry_after
                        },
                        None => final(self).retry_after_ms is None && if status
                            == SessionStatus::Recording {
                            step == Step::Wait(POLL_MS)
                        } else {
                            step matches Step::Fail(e) && e.code@ == error.code@ && e.message@
                                == error.message@
                        },
                    },
                }
            },
    {
        if !(status == SessionStatus::Recording || status == SessionStatus::Processing) {
            return Step::Finish;
        }
        if self.was_recording && status == SessionStatus::Processing && self.retry_after_ms.is_some() {
            self.retries = 0;
            self.retry_after_ms = Some(0);
        }
        self.was_recording = status == SessionStatus::Recording;
        match &self.paused {
            None => Step::Process { clear_live_error: false },
            Some(error) => match self.retry_after_ms {
                Some(ms) => {
                    if ms > 0 {
                        let delay: u64 = if ms < POLL_MS {
                            ms
                        } else {
                            POLL_MS
                        };
                        self.retry_after_ms = Some(ms - delay);
                        Step::Wait(delay)
                    } else {
                        Step::Process { clear_live_error: true }
                    }
                },
                None => {
                    if status == SessionStatus::Recording {
                        Step::Wait(POLL_MS)
                    } else {
                        Step::Fail(error.duplicate())
                    }
                },
            },
        }
    }

    /// After a successful attempt: failures are forgotten. A meeting that left
    /// recording is done; one still recording is checked again after one poll.
    pub fn on_success(&mut self, finished_status: SessionStatus) -> (next: Step)
        ensures
            final(self).paused is None,
            final(self).retry_after_ms is None,
            final(self).retries == 0,
            final(self).was_recording == old(self).was_recording,
            finished_status != SessionStatus::Recording ==> next is Finish,
            finished_status == SessionStatus::Recording ==> next == Step::Wait(POLL_MS),
    {
        self.retries = 0;
        self.paused = None;
        self.retry_after_ms = None;
        if finished_status != SessionStatus::Recording {
            Step::Finish
        } else {
            Step::Wait(POLL_MS)
        }
    }

    /// After a failed attempt on a meeting loaded in `status`: schedules the
    /// next attempt by the backoff rule and keeps the failure to show it.
    pub fn on_failure(&mut self, status: SessionStatus, error: AppError)
        ensures
            final(self).retry_after_ms == match backoff_seconds(
                error.code@,
                old(self).retries as int,
                status == SessionStatus::Recording,
            ) {
                Some(s) => Some((s * 1000) as u64),
                None => None::<u64>,
            },
            final(self).retries == if final(self).retry_after_ms is Some {
                if old(self).retries + 1 < 4 {
                    old(self).retries + 1
                } else {
                    4
                }
            } else {
                old(self).retries as int
            },
            final(self).paused == Some(error),
            final(self).was_recording == old(self).was_recording,
    {
        let delay = backoff_delay_ms(error.code.as_str(), self.retries, status
            == SessionStatus::Recording);
        self.retry_after_ms = delay;
        if delay.is_some() {
            self.retries = if self.retries < 3 {
                self.retries + 1
            } else {
                4
            };
        }
        self.paused = Some(error);
    }
}

/// A failed attempt is shown on the meeting while the worker waits to retry.
/// The meeting does not fail here: a stop that wins the race still gets its
/// final attempt.
pub fn show_live_failure(session: Session, error: AppError) -> (s: Session)
    ensures
        s == (Session { live_transcription_error: Some(error), ..session }),
{
    let mut session = session;
    session.live_transcription_error = Some(error);
    session
}

/// Clears the failure shown on the meeting once an attempt is made again or
/// has succeeded; `None` when no failure is shown and nothing changes.
pub fn clear_live_failure(session: Session) -> (r: Option<Session>)
    ensures
        session.live_transcription_error is None ==> r is None,
        session.live_transcription_error is Some ==> r == Some(
            Session { live_transcription_error: None, ..session },
        ),
{
    if session.live_transcription_error.is_none() {
        None
    } else {
        let mut session = session;
        session.live_transcription_error = None;
        Some(session)
    }
}

} // verus!
