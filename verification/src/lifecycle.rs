//! The meeting transitions around a recording: starting it, stopping it
//! (also at exit and after a crash), retrying and deleting, as decisions on
//! a saved meeting. Storage and the recorder are the caller's.
use vstd::prelude::*;

use crate::error::{invalid_status, AppError, AppResult};
use crate::recorder::RecordingFiles;
use crate::sections::{append_segments, sections_fit, segments_appended};
use crate::session::{
    chunk_failure_notice_spec, tracks_cleared, AudioSource, interrupted_from, recover_interrupted_at, retry_start_at, transition_to_failed, transition_to_processing_at,
    views, Session, SessionStatus, SourceTranscript, TranscriptChunk,
};
use crate::settings::TranscriptionSettings;
use crate::store::{m4a_name, valid_id, SessionStore};
use crate::text::{is_blank, trim};

verus! {

/// `s` is `session` stopped at `now` with the recorder's `files` (see
/// `stopped_session_at`).
pub open spec fn stopped_from(s: Session, session: Session, files: RecordingFiles, now: String) -> bool {
    &&& s.status == SessionStatus::Processing
    &&& s.ended_at == Some(now)
    &&& s.audio_path == Some(files.system)
    &&& s.microphone_audio_path == Some(files.microphone)
    &&& s.segmented_capture == files.segmented
    &&& s.error is None
    &&& match files.health {
        Some(h) => s.capture_health == Some(h) && views(s.warnings@) == views(session.warnings@)
            + views(h.warnings@),
        None => s.capture_health == session.capture_health && s.warnings == session.warnings,
    }
    &&& segments_appended(
        Session { warnings: session.warnings, capture_health: session.capture_health, ..s },
        Session {
            status: SessionStatus::Processing,
            ended_at: Some(now),
            audio_path: Some(files.system),
            microphone_audio_path: Some(files.microphone),
            error: None,
            segmented_capture: files.segmented,
            ..session
        },
        files.segments@,
    )
}

/// A stopped recording becomes a processing meeting: it keeps both source
/// files, takes the finalized sections, and adds the capture health with
/// its warnings.
pub fn stopped_session_at(session: Session, files: RecordingFiles, now: String) -> (r: AppResult<
    Session,
>)
    requires
        sections_fit(files.segments@),
    ensures
        r is Ok <==> session.status == SessionStatus::Recording,
        r matches Err(e) ==> e.code@ == "invalid_session_status"@,
        r matches Ok(s) ==> stopped_from(s, session, files, now),
{
    let RecordingFiles { system, microphone, health, segments, segmented } = files;
    let mut s = transition_to_processing_at(session, system, Some(microphone), now)?;
    s.segmented_capture = segmented;
    let ghost m = s;
    let mut s = append_segments(s, &segments);
    let ghost appended = s;
    if let Some(h) = health {
        let ghost before = views(s.warnings@);
        let ghost s_before = s;
        let n: usize = h.warnings.len();
        let mut i: usize = 0;
        while i < n
            invariant
                n == h.warnings@.len(),
                i <= n,
                views(s.warnings@) == before + views(h.warnings@.take(i as int)),
                s == (Session { warnings: s.warnings, ..s_before }),
            decreases n - i,
        {
            let ghost mid = views(s.warnings@);
            s.warnings.push(h.warnings[i].clone());
            proof {
                assert(h.warnings@.take(i + 1) =~= h.warnings@.take(i as int).push(h.warnings@[i as int]));
                assert(views(s.warnings@) =~= mid.push(h.warnings@[i as int]@));
                assert(views(h.warnings@.take(i + 1)) =~= views(h.warnings@.take(i as int)).push(
                    h.warnings@[i as int]@,
                ));
            }
            i = i + 1;
        }
        proof {
            assert(h.warnings@.take(n as int) =~= h.warnings@);
        }
        s.capture_health = Some(h);
    }
    proof {
        assert(Session { warnings: m.warnings, capture_health: m.capture_health, ..s } == appended);
    }
    Ok(s)
}

/// A recording stopped because the app is closing or crashed: stopped as
/// usual, then failed as interrupted with the coverage warning, at the time
/// the clock gives.
pub fn interrupted_recording(session: Session, files: RecordingFiles) -> (r: AppResult<Session>)
    requires
        sections_fit(files.segments@),
    ensures
        r is Ok <==> session.status == SessionStatus::Recording,
        r matches Err(e) ==> e.code@ == "invalid_session_status"@,
        r matches Ok(s) ==> exists|now: String, mid: Session|
            stopped_from(mid, session, files, now) && interrupted_from(s, mid, now),
{
    let now = crate::session::now_rfc3339();
    let stopped = stopped_session_at(session, files, now.clone())?;
    Ok(recover_interrupted_at(stopped, now))
}

/// Stopping a recording: a recording that the recorder stopped starts
/// processing; one it could not stop fails with the recorder's error. Either
/// way the meeting gets an end time if it had none.
pub fn stop_outcome(original: Session, stopped: AppResult<RecordingFiles>, now: String) -> (r:
    AppResult<Session>)
    requires
        stopped matches Ok(f) ==> sections_fit(f.segments@),
    ensures
        original.status != SessionStatus::Recording ==> (r matches Err(e) && e.code@
            == "invalid_session_status"@ && e.message@
            == "Only a recording session can be stopped"@),
        r is Ok <==> original.status == SessionStatus::Recording,
        r matches Ok(s) ==> match stopped {
            Ok(f) => stopped_from(s, original, f, now),
            Err(e) => s == (Session {
                status: SessionStatus::Failed,
                error: Some(e),
                ended_at: if original.ended_at is Some {
                    original.ended_at
                } else {
                    Some(now)
                },
                ..original
            }),
        },
{
    if original.status != SessionStatus::Recording {
        return Err(invalid_status("Only a recording session can be stopped"));
    }
    let mut s = match stopped {
        Ok(files) => stopped_session_at(original, files, now)?,
        Err(error) => {
            let mut failed = transition_to_failed(original, error);
            if failed.ended_at.is_none() {
                failed.ended_at = Some(now);
            }
            failed
        },
    };
    Ok(s)
}

/// The meeting saved when a stopped meeting could not be saved: failed
/// with the storage error, with an end time.
pub fn unsaved_stop(session: Session, error: AppError, now: String) -> (s: Session)
    ensures
        s.status == SessionStatus::Failed,
        s.error == Some(error),
        s.ended_at == if session.ended_at is Some {
            session.ended_at
        } else {
            Some(now)
        },
        s == (Session { status: s.status, error: s.error, ended_at: s.ended_at, ..session }),
{
    let mut s = transition_to_failed(session, error);
    if s.ended_at.is_none() {
        s.ended_at = Some(now);
    }
    s
}

/// The first recording meeting, if any.
pub fn find_recording(sessions: &Vec<Session>) -> (r: Option<usize>)
    ensures
        r matches Some(i) ==> i < sessions@.len() && sessions@[i as int].status == SessionStatus::Recording
            && forall|j: int| 0 <= j < i ==> (#[trigger] sessions@[j]).status != SessionStatus::Recording,
        r is None ==> forall|j: int|
            0 <= j < sessions@.len() ==> (#[trigger] sessions@[j]).status != SessionStatus::Recording,
{
    let n: usize = sessions.len();
    let mut i: usize = 0;
    while i < n
        invariant
            n == sessions@.len(),
            i <= n,
            forall|j: int| 0 <= j < i ==> (#[trigger] sessions@[j]).status != SessionStatus::Recording,
        decreases n - i,
    {
        if sessions[i].status == SessionStatus::Recording {
            return Some(i);
        }
        i = i + 1;
    }
    None
}

/// A recording that the app stops on exit: stopped and marked interrupted
/// when the recorder stopped it; otherwise marked interrupted and the
/// recorder's error is returned beside it. The meeting is saved either way.
pub fn exit_outcome(session: Session, stopped: AppResult<RecordingFiles>, now: String) -> (r: AppResult<
    (Session, Option<AppError>),
>)
    requires
        stopped matches Ok(f) ==> sections_fit(f.segments@),
    ensures
        stopped is Ok ==> (r is Ok <==> session.status == SessionStatus::Recording),
        stopped is Err ==> r is Ok,
        r matches Ok(p) ==> exit_saved(p.0, session, stopped, now) && p.1 == match stopped {
            Ok(_) => None::<AppError>,
            Err(e) => Some(e),
        },
        r matches Err(e) ==> e.code@ == "invalid_session_status"@,
{
    match stopped {
        Ok(files) => {
            let s = interrupted_recording(session, files)?;
            Ok((s, None))
        },
        Err(error) => Ok((recover_interrupted_at(session, now), Some(error))),
    }
}

/// `s` is the meeting saved when the app stops `session` on exit with the
/// recorder's outcome `stopped` (see `exit_outcome`).
pub open spec fn exit_saved(
    s: Session,
    session: Session,
    stopped: AppResult<RecordingFiles>,
    now: String,
) -> bool {
    match stopped {
        Ok(f) => exists|t: String, mid: Session|
            #![trigger interrupted_from(s, mid, t)]
            stopped_from(mid, session, f, t) && interrupted_from(s, mid, t),
        Err(_) => interrupted_from(s, session, now),
    }
}

/// Law: stopping on exit is done once. The meeting it saves is failed as
/// interrupted and keeps the files the recorder handed over, so once it is
/// saved back in place of the one recording meeting, no meeting is
/// recording and a second stop on exit finds nothing to stop.
pub proof fn lemma_exit_stops_once(
    ss: Seq<Session>,
    i: int,
    s: Session,
    stopped: AppResult<RecordingFiles>,
    now: String,
)
    requires
        0 <= i < ss.len(),
        forall|j: int| 0 <= j < ss.len() && j != i ==> (#[trigger] ss[j]).status != SessionStatus::Recording,
        exit_saved(s, ss[i], stopped, now),
    ensures
        s.status == SessionStatus::Failed,
        s.error matches Some(e) && e.code@ == "interrupted"@,
        stopped matches Ok(f) ==> s.audio_path == Some(f.system) && s.microphone_audio_path == Some(
            f.microphone,
        ),
        s.original_notes == ss[i].original_notes,
        s.transcript == ss[i].transcript,
        forall|j: int| 0 <= j < ss.len() ==> (#[trigger] ss.update(i, s)[j]).status != SessionStatus::Recording,
{
    if let Ok(f) = stopped {
        let (t, mid) = choose|t: String, mid: Session|
            #![trigger interrupted_from(s, mid, t)]
            stopped_from(mid, ss[i], f, t) && interrupted_from(s, mid, t);
        assert(s.audio_path == mid.audio_path);
        assert(s.original_notes == mid.original_notes);
    }
    assert forall|j: int| 0 <= j < ss.len() implies (#[trigger] ss.update(i, s)[j]).status
        != SessionStatus::Recording by {
        if j != i {
            assert(ss.update(i, s)[j] == ss[j]);
        }
    }
}

/// Starting capture: a draft meeting records into the two source files,
/// with the transcription settings current at the start.
pub fn persist_recording_at(
    session: Session,
    audio_path: String,
    microphone_audio_path: String,
    settings: TranscriptionSettings,
    now: String,
) -> (r: AppResult<Session>)
    ensures
        r is Ok <==> session.status == SessionStatus::Draft,
        r matches Err(e) ==> e.code@ == "invalid_session_status"@ && e.message@
            == "Only a draft session can start recording"@,
        r matches Ok(s) ==> s == (Session {
            audio_path: Some(audio_path),
            microphone_audio_path: Some(microphone_audio_path),
            status: SessionStatus::Recording,
            transcription_settings: settings,
            started_at: now,
            error: None,
            ..session
        }),
{
    if session.status != SessionStatus::Draft {
        return Err(invalid_status("Only a draft session can start recording"));
    }
    let mut s = session;
    s.audio_path = Some(audio_path);
    s.microphone_audio_path = Some(microphone_audio_path);
    s.status = SessionStatus::Recording;
    s.transcription_settings = settings;
    s.started_at = now;
    s.error = None;
    Ok(s)
}

/// Capture that failed to start after section files were already written:
/// the meeting fails with the start error, points at its system audio file
/// (the marker of its retained sections) and gets an end time if it had
/// none, so that the sections can be recovered and transcribed on retry.
pub fn failed_start_at(session: Session, error: AppError, system_path: String, now: String) -> (r:
    Session)
    ensures
        r == (Session {
            status: SessionStatus::Failed,
            error: Some(error),
            audio_path: Some(system_path),
            ended_at: if session.ended_at is Some {
                session.ended_at
            } else {
                Some(now)
            },
            ..session
        }),
{
    let mut s = session;
    s.status = SessionStatus::Failed;
    s.error = Some(error);
    s.audio_path = Some(system_path);
    if s.ended_at.is_none() {
        s.ended_at = Some(now);
    }
    s
}

fn still_finishing() -> (e: AppError)
    ensures
        e.code@ == "invalid_session_status"@,
        e.message@ == "The last request is still finishing. Try again in a moment."@,
{
    invalid_status("The last request is still finishing. Try again in a moment.")
}

/// A blank result of a silent upload, cleared so that it is tried again.
pub open spec fn blank_cleared(a: TranscriptChunk, b: TranscriptChunk) -> bool {
    match b.transcript {
        Some(t) => if trim(t@).len() == 0 {
            a == (TranscriptChunk { transcript: None, segments: a.segments, ..b }) && a.segments@.len() == 0
        } else {
            a == b
        },
        None => a == b,
    }
}

pub open spec fn tracks_blank_cleared(a: Seq<SourceTranscript>, b: Seq<SourceTranscript>) -> bool {
    &&& a.len() == b.len()
    &&& forall|t: int|
        0 <= t < a.len() ==> {
            &&& (#[trigger] a[t]).source == b[t].source
            &&& a[t].chunks@.len() == b[t].chunks@.len()
            &&& forall|c: int|
                0 <= c < a[t].chunks@.len() ==> blank_cleared(#[trigger] a[t].chunks@[c], b[t].chunks@[c])
        }
}

fn clear_blank_chunks(tracks: Vec<SourceTranscript>) -> (r: Vec<SourceTranscript>)
    ensures
        tracks_blank_cleared(r@, tracks@),
{
    let ghost orig = tracks@;
    let mut out: Vec<SourceTranscript> = Vec::new();
    for track in it: tracks.into_iter()
        invariant
            it.seq() == orig,
            out@.len() == it.index(),
            forall|t: int|
                0 <= t < out@.len() ==> {
                    &&& (#[trigger] out@[t]).source == orig[t].source
                    &&& out@[t].chunks@.len() == orig[t].chunks@.len()
                    &&& forall|c: int|
                        0 <= c < out@[t].chunks@.len() ==> blank_cleared(
                            #[trigger] out@[t].chunks@[c],
                            orig[t].chunks@[c],
                        )
                },
    {
        let source = track.source;
        let ghost cs = track.chunks@;
        let mut chunks: Vec<TranscriptChunk> = Vec::new();
        for chunk in jt: track.chunks.into_iter()
            invariant
                jt.seq() == cs,
                chunks@.len() == jt.index(),
                forall|c: int| 0 <= c < chunks@.len() ==> blank_cleared(#[trigger] chunks@[c], cs[c]),
        {
            let mut chunk = chunk;
            let blank = match &chunk.transcript {
                Some(t) => is_blank(t.as_str()),
                None => false,
            };
            if blank {
                chunk.transcript = None;
                chunk.segments = Vec::new();
            }
            chunks.push(chunk);
        }
        out.push(SourceTranscript { source, chunks });
    }
    out
}

/// Retrying a meeting: refused while a request for it is still finishing.
/// A meeting that failed for want of speech is retried with the current
/// settings and its blank results cleared; then it goes back to processing
/// (see `retry_start_at`).
pub fn prepare_retry_with(session: Session, busy: bool, settings: TranscriptionSettings, now: String) -> (r:
    AppResult<Session>)
    ensures
        busy ==> (r matches Err(e) && e.code@ == "invalid_session_status"@ && e.message@
            == "The last request is still finishing. Try again in a moment."@),
        r is Ok <==> !busy && session.status == SessionStatus::Failed,
        r matches Ok(s) ==> {
            let silent = session.error matches Some(e) && e.code@ == "no_speech"@;
            &&& s.status == SessionStatus::Processing
            &&& s.error is None
            &&& s.live_transcription_error is None
            &&& s.ended_at == if session.ended_at is Some {
                session.ended_at
            } else {
                Some(now)
            }
            &&& views(s.warnings@) == views(session.warnings@).filter(
                |w: Seq<char>| w != chunk_failure_notice_spec(AudioSource::System),
            ).filter(|w: Seq<char>| w != chunk_failure_notice_spec(AudioSource::Microphone))
            &&& silent ==> s.transcription_settings == settings && exists|m: Seq<SourceTranscript>|
                #[trigger] tracks_blank_cleared(m, session.transcription@) && tracks_cleared(
                    s.transcription@,
                    m,
                )
            &&& !silent ==> s.transcription_settings == session.transcription_settings
                && tracks_cleared(s.transcription@, session.transcription@)
            &&& s == (Session {
                status: s.status,
                error: s.error,
                live_transcription_error: s.live_transcription_error,
                ended_at: s.ended_at,
                warnings: s.warnings,
                transcription: s.transcription,
                transcription_settings: s.transcription_settings,
                ..session
            })
        },
{
    if busy {
        return Err(still_finishing());
    }
    let silent = session.status == SessionStatus::Failed && match &session.error {
        Some(e) => crate::text::same_text(e.code.as_str(), "no_speech"),
        None => false,
    };
    let mut session = session;
    if silent {
        session.transcription_settings = settings;
        let mut tracks: Vec<SourceTranscript> = Vec::new();
        std::mem::swap(&mut tracks, &mut session.transcription);
        session.transcription = clear_blank_chunks(tracks);
    }
    retry_start_at(session, now)
}

/// Whether a meeting found at startup was cut off: it was recording or
/// processing, or it is a sectioned draft that already has section files.
pub open spec fn needs_recovery(s: Session, has_sections: bool) -> bool {
    s.status == SessionStatus::Recording || s.status == SessionStatus::Processing || (s.status
        == SessionStatus::Draft && s.segmented_capture && has_sections)
}

/// `r` is the cut-off meeting `s` marked interrupted at `now`; a sectioned
/// one first points at its system audio file in `store`, the marker of its
/// retained sections.
pub open spec fn recovered_from(r: Session, s: Session, store: SessionStore, now: String) -> bool {
    if s.segmented_capture {
        exists|m: Session|
            #![trigger interrupted_from(r, m, now)]
            m == (Session { audio_path: m.audio_path, ..s }) && (m.audio_path matches Some(p) && p@
                == crate::store::join(store.audio_dir(), m4a_name(s.id@))) && interrupted_from(r, m, now)
    } else {
        interrupted_from(r, s, now)
    }
}

/// `v` holds, in order, the recovered form of each cut-off meeting of `ss`.
pub open spec fn recovered_list(
    v: Seq<Session>,
    ss: Seq<Session>,
    hs: Seq<bool>,
    store: SessionStore,
    now: String,
) -> bool
    decreases ss.len(),
{
    if ss.len() == 0 {
        v.len() == 0
    } else if needs_recovery(ss.last(), hs[ss.len() - 1]) {
        &&& v.len() > 0
        &&& recovered_from(v.last(), ss.last(), store, now)
        &&& recovered_list(v.drop_last(), ss.drop_last(), hs, store, now)
    } else {
        recovered_list(v, ss.drop_last(), hs, store, now)
    }
}

/// A cut-off sectioned meeting whose ID cannot name a file.
pub open spec fn unrecoverable(s: Session, has_sections: bool) -> bool {
    needs_recovery(s, has_sections) && s.segmented_capture && !valid_id(s.id@)
}

/// The meetings to save again at startup: each cut-off meeting marked
/// interrupted (see `recover_interrupted_at`); a sectioned one first points
/// at its system audio file, the marker of its retained sections.
/// `has_sections[i]` says whether meeting `i` has section files. A sectioned
/// meeting whose ID cannot name a file refuses the whole list.
pub fn recover_interrupted_sessions(
    store: &SessionStore,
    sessions: Vec<Session>,
    has_sections: &Vec<bool>,
    now: String,
) -> (r: AppResult<Vec<Session>>)
    requires
        has_sections@.len() == sessions@.len(),
    ensures
        r is Err <==> exists|i: int|
            0 <= i < sessions@.len() && unrecoverable(#[trigger] sessions@[i], has_sections@[i]),
        r matches Err(e) ==> e.code@ == "invalid_session_id"@,
        r matches Ok(v) ==> recovered_list(v@, sessions@, has_sections@, *store, now),
{
    let mut out: Vec<Session> = Vec::new();
    let ghost orig = sessions@;
    let ghost hs = has_sections@;
    let count: usize = sessions.len();
    let mut i: usize = 0;
    for session in it: sessions.into_iter()
        invariant
            it.seq() == orig,
            hs == has_sections@,
            hs.len() == orig.len(),
            orig.len() == count,
            i == it.index(),
            forall|k: int| 0 <= k < i ==> !unrecoverable(#[trigger] orig[k], hs[k]),
            recovered_list(out@, orig.take(i as int), hs, *store, now),
    {
        proof {
            assert(session == orig[i as int]);
            assert(orig.take(i + 1).drop_last() =~= orig.take(i as int));
            assert(orig.take(i + 1).last() == orig[i as int]);
        }
        let cut_off = session.status == SessionStatus::Recording || session.status
            == SessionStatus::Processing || (session.status == SessionStatus::Draft
            && session.segmented_capture && has_sections[i]);
        if cut_off {
            let ghost before = out@;
            let mut session = session;
            if session.segmented_capture {
                let path = match store.audio_path(session.id.as_str()) {
                    Ok(path) => path,
                    Err(e) => {
                        return Err(e);
                    },
                };
                session.audio_path = Some(path);
            }
            let ghost m = session;
            let recovered = recover_interrupted_at(session, now.clone());
            out.push(recovered);
            proof {
                assert(out@.drop_last() =~= before);
                if orig[i as int].segmented_capture {
                    assert(recovered_from(out@.last(), orig[i as int], *store, now));
                }
            }
        }
        i = i + 1;
    }
    proof {
        assert(orig.take(orig.len() as int) =~= orig);
    }
    Ok(out)
}

/// The meetings as saved after startup recovery: each cut-off meeting of
/// `ss` replaced, in its place, by the next recovered meeting of `v`.
pub open spec fn saved_back(v: Seq<Session>, ss: Seq<Session>, hs: Seq<bool>) -> Seq<Session>
    decreases ss.len(),
{
    if ss.len() == 0 {
        Seq::empty()
    } else if needs_recovery(ss.last(), hs[ss.len() - 1]) {
        saved_back(v.drop_last(), ss.drop_last(), hs).push(v.last())
    } else {
        saved_back(v, ss.drop_last(), hs).push(ss.last())
    }
}

/// `a` is what startup recovery leaves of meeting `s`.
pub open spec fn left_after_recovery(a: Session, s: Session, has_sections: bool) -> bool {
    &&& a.id == s.id
    &&& a.status != SessionStatus::Recording
    &&& a.status != SessionStatus::Processing
    &&& needs_recovery(s, has_sections) ==> {
        &&& a.status == SessionStatus::Failed
        &&& a.error matches Some(e) && e.code@ == "interrupted"@
        &&& a.original_notes == s.original_notes
        &&& a.transcript == s.transcript
        &&& a.transcription == s.transcription
        &&& !s.segmented_capture ==> a.audio_path == s.audio_path
    }
    &&& !needs_recovery(s, has_sections) ==> a == s
}

/// Law: startup recovery leaves no meeting recording or processing. With the
/// recovered meetings saved back in place, every cut-off meeting has failed
/// as interrupted and kept its notes, transcript and saved progress (and,
/// unless sectioned, its audio); every other meeting is unchanged.
pub proof fn lemma_recovery_leaves_nothing_running(
    v: Seq<Session>,
    ss: Seq<Session>,
    hs: Seq<bool>,
    store: SessionStore,
    now: String,
)
    requires
        ss.len() <= hs.len(),
        recovered_list(v, ss, hs, store, now),
    ensures
        saved_back(v, ss, hs).len() == ss.len(),
        forall|i: int|
            0 <= i < ss.len() ==> left_after_recovery(
                #[trigger] saved_back(v, ss, hs)[i],
                ss[i],
                hs[i],
            ),
    decreases ss.len(),
{
    if ss.len() > 0 {
        let last = ss.len() - 1;
        let front = ss.drop_last();
        let after = saved_back(v, ss, hs);
        if needs_recovery(ss.last(), hs[last]) {
            lemma_recovery_leaves_nothing_running(v.drop_last(), front, hs, store, now);
            let r = v.last();
            let s = ss.last();
            if s.segmented_capture {
                let m = choose|m: Session|
                    #![trigger interrupted_from(r, m, now)]
                    m == (Session { audio_path: m.audio_path, ..s }) && (m.audio_path matches Some(p)
                        && p@ == crate::store::join(store.audio_dir(), m4a_name(s.id@)))
                        && interrupted_from(r, m, now);
                assert(r.id == m.id);
            }
            assert(left_after_recovery(after[last], ss[last], hs[last]));
            assert forall|i: int| 0 <= i < ss.len() implies left_after_recovery(
                #[trigger] after[i],
                ss[i],
                hs[i],
            ) by {
                if i < last {
                    assert(after[i] == saved_back(v.drop_last(), front, hs)[i]);
                    assert(ss[i] == front[i]);
                }
            }
        } else {
            lemma_recovery_leaves_nothing_running(v, front, hs, store, now);
            assert forall|i: int| 0 <= i < ss.len() implies left_after_recovery(
                #[trigger] after[i],
                ss[i],
                hs[i],
            ) by {
                if i < last {
                    assert(after[i] == saved_back(v, front, hs)[i]);
                    assert(ss[i] == front[i]);
                }
            }
        }
    }
}

/// A meeting may be deleted only when nothing is working on it.
pub fn check_deletable(session: &Session, busy: bool) -> (r: AppResult<()>)
    ensures
        r is Ok <==> !busy && session.status != SessionStatus::Recording && session.status
            != SessionStatus::Processing,
        busy ==> (r matches Err(e) && e.message@
            == "The last request is still finishing. Try again in a moment."@),
        !busy && !(r is Ok) ==> (r matches Err(e) && e.code@ == "invalid_session_status"@
            && e.message@ == "Stop recording or processing before deleting the session"@),
{
    if busy {
        return Err(still_finishing());
    }
    if session.status == SessionStatus::Recording || session.status == SessionStatus::Processing {
        return Err(invalid_status("Stop recording or processing before deleting the session"));
    }
    Ok(())
}

} // verus!
