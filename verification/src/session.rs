//! A meeting and its lifecycle: draft, recording, processing, complete or
//! failed. Times are whole microseconds of recorded audio; calendar
//! timestamps are RFC 3339 text taken from the clock at the call.
use vstd::prelude::*;

use crate::error::{invalid_status, AppError, AppResult};
use crate::recorder::RecordingHealth;
use crate::settings::TranscriptionSettings;
use crate::text::{
    blank, byte_len, concat2, concat3, contains, contains_str, is_blank, lemma_contains_suffix,
    lemma_trim_contained, occurs_at, owned, same_text, trim, trim_str, utf8_len,
};

verus! {

#[derive(Clone, Copy, Debug, PartialEq, Eq, Structural)]
pub enum AudioSource {
    System,
    Microphone,
}

impl AudioSource {
    pub open spec fn label_spec(self) -> Seq<char> {
        match self {
            AudioSource::System => "System audio"@,
            AudioSource::Microphone => "Microphone"@,
        }
    }

    pub open spec fn filename_spec(self) -> Seq<char> {
        match self {
            AudioSource::System => "system"@,
            AudioSource::Microphone => "mic"@,
        }
    }

    /// The name shown to people.
    pub fn label(self) -> (s: &'static str)
        ensures
            s@ == self.label_spec(),
    {
        match self {
            AudioSource::System => "System audio",
            AudioSource::Microphone => "Microphone",
        }
    }

    /// The name used in audio file names.
    pub fn filename(self) -> (s: &'static str)
        ensures
            s@ == self.filename_spec(),
    {
        match self {
            AudioSource::System => "system",
            AudioSource::Microphone => "mic",
        }
    }
}

#[derive(Clone, Copy, Debug, PartialEq, Eq, Structural)]
pub enum SessionStatus {
    Draft,
    Recording,
    Processing,
    Complete,
    Failed,
}

/// A timed speaker turn inside one uploaded chunk, relative to the chunk's start.
#[derive(Clone, Debug)]
pub struct TranscriptSegment {
    pub id: String,
    pub speaker: String,
    pub start_us: u64,
    pub end_us: u64,
    pub text: String,
}

/// One uploaded piece of a source's audio and what came back for it.
#[derive(Clone, Debug)]
pub struct TranscriptChunk {
    pub start_us: u64,
    pub duration_us: u64,
    pub transcript: Option<String>,
    pub segment_index: Option<u64>,
    pub segments: Vec<TranscriptSegment>,
    pub error: Option<AppError>,
}

/// The chunks of one audio source.
#[derive(Clone, Debug)]
pub struct SourceTranscript {
    pub source: AudioSource,
    pub chunks: Vec<TranscriptChunk>,
}

/// A finalized capture section: one numbered audio file of one source.
#[derive(Clone, Copy, Debug)]
pub struct CaptureSegment {
    pub source: AudioSource,
    pub index: u64,
    pub start_us: u64,
    pub duration_us: u64,
}

/// An exact excerpt of one saved source.
#[derive(Clone, Debug)]
pub struct Evidence {
    pub source_id: String,
    pub excerpt: String,
}

#[derive(Clone, Debug)]
pub struct Suggestion {
    pub value: String,
    pub evidence: Vec<Evidence>,
}

#[derive(Clone, Debug)]
pub struct ParticipantSuggestion {
    pub name: String,
    pub speaker_key: Option<String>,
    pub evidence: Vec<Evidence>,
}

#[derive(Clone, Debug)]
pub struct TopicSuggestion {
    pub title: String,
    pub starts_at_turn_id: String,
    pub evidence: Vec<Evidence>,
}

/// Proposals for the person to review; they never replace manual fields by themselves.
#[derive(Clone, Debug)]
pub struct AiSuggestions {
    pub title: Option<Suggestion>,
    pub context: Option<Suggestion>,
    pub category: Option<Suggestion>,
    pub participants: Vec<ParticipantSuggestion>,
    pub topics: Vec<TopicSuggestion>,
}

impl AiSuggestions {
    pub fn empty() -> (s: AiSuggestions)
        ensures
            s.title is None,
            s.context is None,
            s.category is None,
            s.participants@.len() == 0,
            s.topics@.len() == 0,
    {
        AiSuggestions {
            title: None,
            context: None,
            category: None,
            participants: Vec::new(),
            topics: Vec::new(),
        }
    }
}

#[derive(Clone, Debug)]
pub struct CreateSessionInput {
    pub title: String,
    pub context: String,
    pub attendees: Vec<String>,
}

#[derive(Clone, Debug)]
pub struct UpdateSessionInput {
    pub id: String,
    pub title: String,
    pub context: String,
    pub attendees: Vec<String>,
    pub folder: String,
    pub original_notes: String,
    pub notes: Option<String>,
}

#[derive(Clone, Debug)]
pub struct Session {
    pub id: String,
    pub title: String,
    pub started_at: String,
    pub ended_at: Option<String>,
    pub context: String,
    pub attendees: Vec<String>,
    pub folder: String,
    pub notes: Option<String>,
    pub original_notes: String,
    pub transcript: Option<String>,
    pub enriched_notes: Option<String>,
    pub status: SessionStatus,
    pub error: Option<AppError>,
    pub audio_path: Option<String>,
    pub microphone_audio_path: Option<String>,
    pub transcription: Vec<SourceTranscript>,
    pub transcription_settings: TranscriptionSettings,
    pub warnings: Vec<String>,
    pub capture_health: Option<RecordingHealth>,
    pub capture_segments: Vec<CaptureSegment>,
    pub segmented_capture: bool,
    pub live_transcription_error: Option<AppError>,
    pub ai_suggestions: Option<AiSuggestions>,
    pub edited_enriched_notes: Option<String>,
    pub dismissed_suggestions: Vec<String>,
    pub previous_notes: Option<String>,
}

/// The text of an optional string, empty when absent.
pub open spec fn text_or_empty(o: Option<String>) -> Seq<char> {
    match o {
        Some(s) => s@,
        None => Seq::empty(),
    }
}

/// The generated notes shown when none were edited into the document:
/// the person's edit of the AI notes, else the AI notes.
pub open spec fn summary_text(s: Session) -> Seq<char> {
    match s.edited_enriched_notes {
        Some(e) => e@,
        None => text_or_empty(s.enriched_notes),
    }
}

/// The one Notes document a meeting shows. Older meetings kept typed notes
/// apart from the AI summary; their typed text is never hidden.
pub open spec fn visible_notes(s: Session) -> Seq<char> {
    match s.notes {
        Some(n) => n@,
        None => {
            let summary = summary_text(s);
            let original = trim(s.original_notes@);
            if trim(summary).len() == 0 {
                s.original_notes@
            } else if original.len() != 0 && !contains(summary, original) {
                summary + "\n\n"@ + s.original_notes@
            } else {
                summary
            }
        },
    }
}

pub open spec fn interruption_warning() -> Seq<char> {
    "Recording was interrupted. Capture may be incomplete; full meeting coverage could not be verified."@
}

/// The notice saved when one section of a source could not be transcribed.
pub open spec fn chunk_failure_notice_spec(source: AudioSource) -> Seq<char> {
    source.label_spec()
        + " has a section that could not be transcribed. That audio was kept; other sections can still be transcribed."@
}

pub fn chunk_failure_notice(source: AudioSource) -> (s: String)
    ensures
        s@ == chunk_failure_notice_spec(source),
{
    concat2(
        source.label(),
        " has a section that could not be transcribed. That audio was kept; other sections can still be transcribed.",
    )
}

/// The warnings of `s` with `w` added once.
pub open spec fn with_warning(ws: Seq<String>, w: Seq<char>) -> Seq<Seq<char>> {
    let v = ws.map_values(|x: String| x@);
    if v.contains(w) {
        v
    } else {
        v.push(w)
    }
}

pub open spec fn views(ws: Seq<String>) -> Seq<Seq<char>> {
    ws.map_values(|x: String| x@)
}

/// Adds a warning unless an identical one is already saved.
pub fn add_warning(session: &mut Session, warning: String)
    ensures
        views(final(session).warnings@) == with_warning(old(session).warnings@, warning@),
        *final(session) == (Session { warnings: final(session).warnings, ..*old(session) }),
{
    let ghost before = views(session.warnings@);
    let n: usize = session.warnings.len();
    let mut i: usize = 0;
    while i < n
        invariant
            n == session.warnings@.len(),
            before == views(session.warnings@),
            0 <= i <= n,
            forall|k: int| 0 <= k < i ==> session.warnings@[k]@ != warning@,
        decreases n - i,
    {
        if same_text(session.warnings[i].as_str(), warning.as_str()) {
            proof {
                assert(before[i as int] == warning@);
            }
            return;
        }
        i = i + 1;
    }
    proof {
        assert forall|k: int| 0 <= k < before.len() implies before[k] != warning@ by {
            assert(before[k] == session.warnings@[k]@);
        }
    }
    session.warnings.push(warning);
    proof {
        assert(views(session.warnings@) =~= before.push(warning@));
    }
}

/// Removes every saved copy of a warning.
pub fn remove_warning(session: &mut Session, warning: &str)
    ensures
        views(final(session).warnings@) == views(old(session).warnings@).filter(
            |w: Seq<char>| w != warning@,
        ),
        *final(session) == (Session { warnings: final(session).warnings, ..*old(session) }),
{
    let ghost before = views(session.warnings@);
    let mut old_warnings: Vec<String> = Vec::new();
    std::mem::swap(&mut old_warnings, &mut session.warnings);
    let n: usize = old_warnings.len();
    let mut kept: Vec<String> = Vec::new();
    let mut i: usize = 0;
    while i < n
        invariant
            n == old_warnings@.len(),
            before == views(old_warnings@),
            0 <= i <= n,
            views(kept@) == before.take(i as int).filter(|w: Seq<char>| w != warning@),
        decreases n - i,
    {
        let ghost prefix = before.take(i as int);
        let ghost pred = |w: Seq<char>| w != warning@;
        proof {
            assert(before.take(i + 1) =~= prefix.push(before[i as int]));
            prefix.lemma_filter_push(before[i as int], pred);
            assert(before[i as int] == old_warnings@[i as int]@);
        }
        if !same_text(old_warnings[i].as_str(), warning) {
            let ghost kept_before = views(kept@);
            kept.push(old_warnings[i].clone());
            proof {
                assert(views(kept@) =~= kept_before.push(before[i as int]));
            }
        }
        i = i + 1;
    }
    proof {
        assert(before.take(n as int) =~= before);
    }
    session.warnings = kept;
}

/// `uuid::Uuid::new_v4().to_string()`: a random identifier in the crate's
/// hyphenated lowercase form (36 characters of hexadecimal digits and dashes).
/// Which identifier comes out is left open.
#[verifier::external_body]
pub(crate) fn new_session_id() -> (id: String)
    ensures
        id@.len() == 36,
        forall|i: int| 0 <= i < 36 ==> {
            let c = #[trigger] id@[i];
            c == '-' || ('0' <= c && c <= '9') || ('a' <= c && c <= 'f')
        },
{
    uuid::Uuid::new_v4().to_string()
}

/// `chrono::Utc::now().to_rfc3339_opts(SecondsFormat::AutoSi, true)`: the
/// current UTC time as RFC 3339 text. Nothing is stated of it: it is the clock.
#[verifier::external_body]
pub(crate) fn now_rfc3339() -> String {
    chrono::Utc::now().to_rfc3339_opts(chrono::SecondsFormat::AutoSi, true)
}

pub open spec fn untitled() -> Seq<char> {
    "Untitled meeting"@
}

impl Session {
    /// The title a new meeting gets: the one typed, unless it is blank.
    pub open spec fn title_for(input: Seq<char>) -> Seq<char> {
        if trim(input).len() == 0 {
            untitled()
        } else {
            input
        }
    }

    /// `s` is a new draft meeting made from `input`: no notes, transcript,
    /// audio or progress yet, and the settings of a plain transcription.
    pub open spec fn fresh_from(s: Session, input: CreateSessionInput) -> bool {
        &&& s.title@ == Session::title_for(input.title@)
        &&& s.context == input.context
        &&& s.attendees == input.attendees
        &&& s.status == SessionStatus::Draft
        &&& s.ended_at is None
        &&& s.folder@.len() == 0
        &&& s.original_notes@.len() == 0
        &&& s.notes is None
        &&& s.transcript is None
        &&& s.enriched_notes is None
        &&& s.error is None
        &&& s.audio_path is None
        &&& s.microphone_audio_path is None
        &&& s.transcription@.len() == 0
        &&& s.transcription_settings.model@ == "gpt-4o-mini-transcribe"@
        &&& s.transcription_settings.language@.len() == 0
        &&& s.transcription_settings.vocabulary@.len() == 0
        &&& s.warnings@.len() == 0
        &&& s.capture_health is None
        &&& s.capture_segments@.len() == 0
        &&& !s.segmented_capture
        &&& s.live_transcription_error is None
        &&& s.ai_suggestions is None
        &&& s.edited_enriched_notes is None
        &&& s.dismissed_suggestions@.len() == 0
        &&& s.previous_notes is None
    }

    /// A new draft meeting with the given identity and start time.
    pub fn create(input: CreateSessionInput, id: String, started_at: String) -> (s: Session)
        ensures
            s.id == id,
            s.started_at == started_at,
            Session::fresh_from(s, input),
    {
        let title = if is_blank(input.title.as_str()) {
            owned("Untitled meeting")
        } else {
            input.title
        };
        Session {
            id,
            title,
            started_at,
            ended_at: None,
            context: input.context,
            attendees: input.attendees,
            folder: String::new(),
            notes: None,
            original_notes: String::new(),
            transcript: None,
            enriched_notes: None,
            status: SessionStatus::Draft,
            error: None,
            audio_path: None,
            microphone_audio_path: None,
            transcription: Vec::new(),
            transcription_settings: TranscriptionSettings::legacy_default(),
            warnings: Vec::new(),
            capture_health: None,
            capture_segments: Vec::new(),
            segmented_capture: false,
            live_transcription_error: None,
            ai_suggestions: None,
            edited_enriched_notes: None,
            dismissed_suggestions: Vec::new(),
            previous_notes: None,
        }
    }

    /// A new draft meeting, identified by a fresh random ID and started now.
    pub fn new(input: CreateSessionInput) -> (s: Session)
        ensures
            Session::fresh_from(s, input),
            s.id@.len() == 36,
    {
        let id = new_session_id();
        let started_at = now_rfc3339();
        Session::create(input, id, started_at)
    }

    /// The meeting's Notes document (see `visible_notes`).
    pub fn notes_text(&self) -> (n: String)
        ensures
            n@ == visible_notes(*self),
    {
        if let Some(notes) = &self.notes {
            return notes.clone();
        }
        let summary: &str = match &self.edited_enriched_notes {
            Some(e) => e.as_str(),
            None => match &self.enriched_notes {
                Some(e) => e.as_str(),
                None => "",
            },
        };
        proof {
            if self.edited_enriched_notes is None && self.enriched_notes is None {
                reveal_strlit("");
            }
        }
        let original = trim_str(self.original_notes.as_str());
        if is_blank(summary) {
            return self.original_notes.clone();
        }
        if original.unicode_len() != 0 && !contains_str(summary, original) {
            concat3(summary, "\n\n", self.original_notes.as_str())
        } else {
            owned(summary)
        }
    }

    /// Stores freshly generated notes. A blank result changes nothing; the
    /// document takes the new notes only if it still reads as it did when
    /// they were requested (`source_notes`), so edits made meanwhile win.
    pub fn update_enriched_notes(&mut self, notes: String, source_notes: &str)
        ensures
            trim(notes@).len() == 0 ==> *final(self) == *old(self),
            trim(notes@).len() != 0 ==> {
                &&& final(self).enriched_notes matches Some(e) && e@ == notes@
                &&& final(self).notes matches Some(n) && n@ == if visible_notes(*old(self))
                    == source_notes@ {
                    notes@
                } else {
                    visible_notes(*old(self))
                }
            },
            *final(self) == (Session {
                notes: final(self).notes,
                enriched_notes: final(self).enriched_notes,
                ..*old(self)
            }),
    {
        if is_blank(notes.as_str()) {
            return;
        }
        let current = self.notes_text();
        if same_text(current.as_str(), source_notes) {
            self.notes = Some(notes.clone());
        } else {
            self.notes = Some(current);
        }
        self.enriched_notes = Some(notes);
    }

    /// Applies the person's edits to a meeting's details and notes.
    pub fn apply(&mut self, input: UpdateSessionInput) -> (r: AppResult<()>)
        ensures
            input.id@ != old(self).id@ ==> (r matches Err(e) && e.code@ == "session_id_mismatch"@)
                && *final(self) == *old(self),
            input.id@ == old(self).id@ && (input.notes matches Some(n) && byte_len(n@) > 4 * 1024
                * 1024) ==> (r matches Err(e) && e.code@ == "invalid_notes"@) && *final(self)
                == *old(self),
            r is Ok <==> input.id@ == old(self).id@ && !(input.notes matches Some(n) && byte_len(n@) > 4
                * 1024 * 1024),
            r is Ok ==> {
                &&& final(self).title == input.title
                &&& final(self).context == input.context
                &&& final(self).attendees == input.attendees
                &&& final(self).folder@ == trim(input.folder@)
                &&& final(self).original_notes == input.original_notes
                &&& final(self).notes == if input.notes is Some {
                    input.notes
                } else {
                    old(self).notes
                }
                &&& *final(self) == (Session {
                    title: final(self).title,
                    context: final(self).context,
                    attendees: final(self).attendees,
                    folder: final(self).folder,
                    original_notes: final(self).original_notes,
                    notes: final(self).notes,
                    ..*old(self)
                })
            },
    {
        if !same_text(input.id.as_str(), self.id.as_str()) {
            return Err(AppError::new("session_id_mismatch", "Session ID does not match"));
        }
        let too_long = match &input.notes {
            Some(n) => utf8_len(n.as_str()) > 4 * 1024 * 1024,
            None => false,
        };
        if too_long {
            return Err(AppError::new("invalid_notes", "Notes must be at most 4 MiB"));
        }
        let folder = owned(trim_str(input.folder.as_str()));
        if let Some(notes) = input.notes {
            self.notes = Some(notes);
        }
        self.title = input.title;
        self.context = input.context;
        self.attendees = input.attendees;
        self.folder = folder;
        self.original_notes = input.original_notes;
        Ok(())
    }
}

/// Stop: a recording becomes a processing meeting that keeps its audio paths.
pub fn transition_to_processing_at(
    session: Session,
    audio_path: String,
    microphone_audio_path: Option<String>,
    now: String,
) -> (r: AppResult<Session>)
    ensures
        r is Ok <==> session.status == SessionStatus::Recording,
        r matches Err(e) ==> e.code@ == "invalid_session_status"@ && e.message@
            == "Only a recording session can be processed"@,
        r matches Ok(s) ==> s == (Session {
            status: SessionStatus::Processing,
            ended_at: Some(now),
            audio_path: Some(audio_path),
            microphone_audio_path: microphone_audio_path,
            error: None,
            ..session
        }),
{
    if session.status != SessionStatus::Recording {
        return Err(invalid_status("Only a recording session can be processed"));
    }
    let mut session = session;
    session.ended_at = Some(now);
    session.audio_path = Some(audio_path);
    session.microphone_audio_path = microphone_audio_path;
    session.status = SessionStatus::Processing;
    session.error = None;
    Ok(session)
}

/// `transition_to_processing_at` with the end time taken from the clock.
pub fn transition_to_processing(
    session: Session,
    audio_path: String,
    microphone_audio_path: Option<String>,
) -> (r: AppResult<Session>)
    ensures
        r is Ok <==> session.status == SessionStatus::Recording,
        r matches Ok(s) ==> s.status == SessionStatus::Processing && s.ended_at is Some
            && s.audio_path == Some(audio_path) && s.microphone_audio_path == microphone_audio_path
            && s.error is None && s.original_notes == session.original_notes,
{
    transition_to_processing_at(session, audio_path, microphone_audio_path, now_rfc3339())
}

/// A meeting that failed: everything but its status and error is kept.
pub fn transition_to_failed(session: Session, error: AppError) -> (s: Session)
    ensures
        s == (Session { status: SessionStatus::Failed, error: Some(error), ..session }),
{
    let mut session = session;
    session.status = SessionStatus::Failed;
    session.error = Some(error);
    session
}

/// Law: a failure never loses the meeting's notes, transcript, audio or progress.
pub proof fn lemma_failure_keeps_material(before: Session, error: AppError, after: Session)
    requires
        after == (Session { status: SessionStatus::Failed, error: Some(error), ..before }),
    ensures
        after.original_notes == before.original_notes,
        after.notes == before.notes,
        visible_notes(after) == visible_notes(before),
        after.transcript == before.transcript,
        after.transcription == before.transcription,
        after.audio_path == before.audio_path,
        after.microphone_audio_path == before.microphone_audio_path,
        after.warnings == before.warnings,
{
}

pub open spec fn interruption_message(status: SessionStatus) -> Seq<char> {
    if status == SessionStatus::Processing {
        "Processing was interrupted"@
    } else {
        "Recording was interrupted"@
    }
}

/// `s` is `session` failed as interrupted at `now` (see `recover_interrupted_at`).
pub open spec fn interrupted_from(s: Session, session: Session, now: String) -> bool {
    &&& s.status == SessionStatus::Failed
    &&& s.error matches Some(e) && e.code@ == "interrupted"@ && e.message@ == interruption_message(
        session.status,
    )
    &&& views(s.warnings@) == if session.status == SessionStatus::Recording {
        with_warning(session.warnings@, interruption_warning())
    } else {
        views(session.warnings@)
    }
    &&& s.ended_at == if session.ended_at is Some {
        session.ended_at
    } else {
        Some(now)
    }
    &&& s == (Session { status: s.status, error: s.error, warnings: s.warnings, ended_at: s.ended_at, ..session })
}

/// A meeting found recording or processing at startup: it failed as
/// interrupted; an interrupted recording also warns that coverage is unverified.
pub fn recover_interrupted_at(session: Session, now: String) -> (s: Session)
    ensures
        interrupted_from(s, session, now),
{
    let mut session = session;
    let status = session.status;
    if status == SessionStatus::Recording {
        add_warning(
            &mut session,
            owned(
                "Recording was interrupted. Capture may be incomplete; full meeting coverage could not be verified.",
            ),
        );
    }
    let message = if status == SessionStatus::Processing {
        "Processing was interrupted"
    } else {
        "Recording was interrupted"
    };
    if session.ended_at.is_none() {
        session.ended_at = Some(now);
    }
    transition_to_failed(session, AppError::new("interrupted", message))
}

/// `recover_interrupted_at`, ending now if no end time was saved.
pub fn recover_interrupted(session: Session) -> (s: Session)
    ensures
        s.status == SessionStatus::Failed,
        s.error matches Some(e) && e.code@ == "interrupted"@ && e.message@ == interruption_message(
            session.status,
        ),
        views(s.warnings@) == if session.status == SessionStatus::Recording {
            with_warning(session.warnings@, interruption_warning())
        } else {
            views(session.warnings@)
        },
        session.status == SessionStatus::Recording ==> views(s.warnings@).contains(
            interruption_warning(),
        ),
        s.ended_at is Some,
        session.ended_at is Some ==> s.ended_at == session.ended_at,
        s == (Session {
            status: s.status,
            error: s.error,
            warnings: s.warnings,
            ended_at: s.ended_at,
            ..session
        }),
{
    let now = now_rfc3339();
    let s = recover_interrupted_at(session, now);
    proof {
        if session.status == SessionStatus::Recording {
            let v = views(session.warnings@);
            if !v.contains(interruption_warning()) {
                assert(v.push(interruption_warning())[v.len() as int] == interruption_warning());
            }
        }
    }
    s
}

/// `a` is `b` with its error cleared.
pub open spec fn chunk_cleared(a: TranscriptChunk, b: TranscriptChunk) -> bool {
    a == (TranscriptChunk { error: None, ..b })
}

/// Every chunk of `a` is the chunk of `b` at the same place with its error cleared.
pub open spec fn tracks_cleared(a: Seq<SourceTranscript>, b: Seq<SourceTranscript>) -> bool {
    &&& a.len() == b.len()
    &&& forall|t: int|
        0 <= t < a.len() ==> {
            &&& (#[trigger] a[t]).source == b[t].source
            &&& a[t].chunks@.len() == b[t].chunks@.len()
            &&& forall|c: int|
                0 <= c < a[t].chunks@.len() ==> chunk_cleared(
                    #[trigger] a[t].chunks@[c],
                    b[t].chunks@[c],
                )
        }
}

fn clear_chunk_errors(chunks: Vec<TranscriptChunk>) -> (r: Vec<TranscriptChunk>)
    ensures
        r@.len() == chunks@.len(),
        forall|c: int| 0 <= c < r@.len() ==> chunk_cleared(#[trigger] r@[c], chunks@[c]),
{
    let ghost orig = chunks@;
    let mut out: Vec<TranscriptChunk> = Vec::new();
    for chunk in it: chunks.into_iter()
        invariant
            it.seq() == orig,
            out@.len() == it.index(),
            forall|c: int| 0 <= c < out@.len() ==> chunk_cleared(#[trigger] out@[c], orig[c]),
    {
        let mut chunk = chunk;
        chunk.error = None;
        out.push(chunk);
    }
    out
}

fn clear_track_errors(tracks: Vec<SourceTranscript>) -> (r: Vec<SourceTranscript>)
    ensures
        tracks_cleared(r@, tracks@),
{
    let ghost orig = tracks@;
    let mut out: Vec<SourceTranscript> = Vec::new();
    for track in it: tracks.into_iter()
        invariant
            it.seq() == orig,
            out@.len() == it.index(),
            forall|t: int|
                0 <= t < out@.len() ==> {
                    &&& (#[trigger] out@[t]).source == orig[t].source
                    &&& out@[t].chunks@.len() == orig[t].chunks@.len()
                    &&& forall|c: int|
                        0 <= c < out@[t].chunks@.len() ==> chunk_cleared(
                            #[trigger] out@[t].chunks@[c],
                            orig[t].chunks@[c],
                        )
                },
    {
        let source = track.source;
        let chunks = clear_chunk_errors(track.chunks);
        out.push(SourceTranscript { source, chunks });
    }
    out
}

/// Retry: a failed meeting goes back to processing with section errors and
/// their notices cleared; every other saved result and warning is kept.
pub fn retry_start_at(session: Session, now: String) -> (r: AppResult<Session>)
    ensures
        r is Ok <==> session.status == SessionStatus::Failed,
        r matches Err(e) ==> e.code@ == "invalid_session_status"@ && e.message@
            == "Only a failed session can be retried"@,
        r matches Ok(s) ==> {
            &&& s.status == SessionStatus::Processing
            &&& s.error is None
            &&& s.live_transcription_error is None
            &&& s.ended_at == if session.ended_at is Some {
                session.ended_at
            } else {
                Some(now)
            }
            &&& views(s.warnings@) == views(session.warnings@).filter(
                |w: Seq<char>| w != chunk_failure_notice_spec(AudioSource::System),
            ).filter(|w: Seq<char>| w != chunk_failure_notice_spec(AudioSource::Microphone))
            &&& tracks_cleared(s.transcription@, session.transcription@)
            &&& s == (Session {
                status: s.status,
                error: s.error,
                live_transcription_error: s.live_transcription_error,
                ended_at: s.ended_at,
                warnings: s.warnings,
                transcription: s.transcription,
                ..session
            })
        },
{
    if session.status != SessionStatus::Failed {
        return Err(invalid_status("Only a failed session can be retried"));
    }
    let mut session = session;
    let mut tracks: Vec<SourceTranscript> = Vec::new();
    std::mem::swap(&mut tracks, &mut session.transcription);
    let cleared = clear_track_errors(tracks);
    session.transcription = cleared;
    let ghost w0 = views(session.warnings@);
    let system_notice = chunk_failure_notice(AudioSource::System);
    remove_warning(&mut session, system_notice.as_str());
    let microphone_notice = chunk_failure_notice(AudioSource::Microphone);
    remove_warning(&mut session, microphone_notice.as_str());
    proof {
        assert((|w: Seq<char>| w != system_notice@) =~= (|w: Seq<char>|
            w != chunk_failure_notice_spec(AudioSource::System)));
        assert((|w: Seq<char>| w != microphone_notice@) =~= (|w: Seq<char>|
            w != chunk_failure_notice_spec(AudioSource::Microphone)));
    }
    session.status = SessionStatus::Processing;
    session.error = None;
    session.live_transcription_error = None;
    if session.ended_at.is_none() {
        session.ended_at = Some(now);
    }
    Ok(session)
}

/// `retry_start_at`, ending now if no end time was saved.
pub fn retry_start(session: Session) -> (r: AppResult<Session>)
    ensures
        r is Ok <==> session.status == SessionStatus::Failed,
        r matches Err(e) ==> e.code@ == "invalid_session_status"@ && e.message@
            == "Only a failed session can be retried"@,
        r matches Ok(s) ==> {
            &&& s.status == SessionStatus::Processing
            &&& s.error is None
            &&& s.live_transcription_error is None
            &&& s.ended_at is Some
            &&& session.ended_at is Some ==> s.ended_at == session.ended_at
            &&& views(s.warnings@) == views(session.warnings@).filter(
                |w: Seq<char>| w != chunk_failure_notice_spec(AudioSource::System),
            ).filter(|w: Seq<char>| w != chunk_failure_notice_spec(AudioSource::Microphone))
            &&& tracks_cleared(s.transcription@, session.transcription@)
            &&& s == (Session {
                status: s.status,
                error: s.error,
                live_transcription_error: s.live_transcription_error,
                ended_at: s.ended_at,
                warnings: s.warnings,
                transcription: s.transcription,
                ..session
            })
        },
{
    retry_start_at(session, now_rfc3339())
}

/// Law: the coverage warning of an interrupted recording survives a retry,
/// whatever other warnings the meeting holds.
pub proof fn lemma_interruption_warning_survives_retry(ws: Seq<String>)
    ensures
        with_warning(ws, interruption_warning()).filter(
            |w: Seq<char>| w != chunk_failure_notice_spec(AudioSource::System),
        ).filter(|w: Seq<char>| w != chunk_failure_notice_spec(AudioSource::Microphone)).contains(
            interruption_warning(),
        ),
{
    let v = with_warning(ws, interruption_warning());
    let iw = interruption_warning();
    let p1 = |w: Seq<char>| w != chunk_failure_notice_spec(AudioSource::System);
    let p2 = |w: Seq<char>| w != chunk_failure_notice_spec(AudioSource::Microphone);
    let k = choose|k: int| 0 <= k < v.len() && v[k] == iw;
    if views(ws).contains(iw) {
        assert(v.contains(iw));
    } else {
        assert(v[views(ws).len() as int] == iw);
        assert(v.contains(iw));
    }
    reveal_strlit(
        "Recording was interrupted. Capture may be incomplete; full meeting coverage could not be verified.",
    );
    reveal_strlit("System audio");
    reveal_strlit("Microphone");
    assert(iw[0] == 'R');
    assert(chunk_failure_notice_spec(AudioSource::System)[0] == 'S');
    assert(chunk_failure_notice_spec(AudioSource::Microphone)[0] == 'M');
    assert(p1(iw));
    assert(p2(iw));
    broadcast use vstd::seq_lib::group_filter_ensures;
    assert(v.filter(p1).contains(iw));
    assert(v.filter(p1).filter(p2).contains(iw));
}

/// Deleting a meeting's transcript: the visible notes become the document,
/// generated material goes, and retained audio makes the meeting retryable.
pub fn transcript_deleted(session: Session) -> (r: AppResult<Session>)
    ensures
        r is Ok <==> !(session.status == SessionStatus::Recording || session.status
            == SessionStatus::Processing),
        r matches Err(e) ==> e.code@ == "invalid_session_status"@ && e.message@
            == "Stop recording or processing before deleting the transcript"@,
        r matches Ok(s) ==> {
            &&& visible_notes(s) == visible_notes(session)
            &&& s.original_notes == session.original_notes
            &&& s.transcript is None
            &&& s.transcription@.len() == 0
            &&& s.enriched_notes is None
            &&& s.edited_enriched_notes is None
            &&& s.ai_suggestions is None
            &&& s.dismissed_suggestions@.len() == 0
            &&& s.capture_segments@.len() == 0
            &&& s.live_transcription_error is None
            &&& s.audio_path == session.audio_path
            &&& s.microphone_audio_path == session.microphone_audio_path
            &&& if session.audio_path is Some || session.microphone_audio_path is Some {
                &&& s.status == SessionStatus::Failed
                &&& s.error matches Some(e) && e.code@ == "transcript_deleted"@
                &&& s.warnings == session.warnings
            } else {
                &&& s.status == SessionStatus::Draft
                &&& s.error is None
                &&& s.capture_health is None
                &&& !s.segmented_capture
                &&& s.warnings@.len() == 0
            }
        },
{
    if session.status == SessionStatus::Recording || session.status == SessionStatus::Processing {
        return Err(invalid_status("Stop recording or processing before deleting the transcript"));
    }
    let notes = session.notes_text();
    let mut session = session;
    session.transcript = None;
    session.transcription = Vec::new();
    session.notes = Some(notes);
    session.edited_enriched_notes = None;
    session.enriched_notes = None;
    session.ai_suggestions = None;
    session.dismissed_suggestions = Vec::new();
    session.capture_segments = Vec::new();
    session.live_transcription_error = None;
    if session.audio_path.is_some() || session.microphone_audio_path.is_some() {
        session.status = SessionStatus::Failed;
        session.error = Some(
            AppError::new(
                "transcript_deleted",
                "Transcript deleted. Your notes and retained audio were kept. Retry will transcribe the remaining audio again.",
            ),
        );
    } else {
        session.capture_health = None;
        session.segmented_capture = false;
        session.warnings = Vec::new();
        session.status = SessionStatus::Draft;
        session.error = None;
    }
    Ok(session)
}

pub open spec fn has_track(s: Session, source: AudioSource) -> bool {
    exists|t: int| 0 <= t < s.transcription@.len() && (#[trigger] s.transcription@[t]).source
        == source
}

pub open spec fn has_pending_chunk(s: Session) -> bool {
    exists|t: int, c: int|
        0 <= t < s.transcription@.len() && 0 <= c < s.transcription@[t].chunks@.len() && (
        #[trigger] s.transcription@[t].chunks@[c]).transcript is None
}

/// Whether audio still has to be transcribed: for per-chunk progress, a
/// pending chunk or an untracked retained source; otherwise a missing or
/// blank legacy transcript.
pub open spec fn needs_transcription_spec(s: Session) -> bool {
    if s.transcription@.len() != 0 {
        has_pending_chunk(s) || (s.audio_path is Some && !has_track(s, AudioSource::System)) || (
        s.microphone_audio_path is Some && !has_track(s, AudioSource::Microphone))
    } else {
        match s.transcript {
            Some(t) => trim(t@).len() == 0,
            None => true,
        }
    }
}

/// The position of the first track of `source`, if the meeting has one.
pub fn find_track(session: &Session, source: AudioSource) -> (r: Option<usize>)
    ensures
        r matches Some(i) ==> i < session.transcription@.len() && session.transcription@[i as int].source
            == source && forall|t: int| 0 <= t < i ==> (#[trigger] session.transcription@[t]).source
            != source,
        r is None ==> !has_track(*session, source),
{
    let n: usize = session.transcription.len();
    let mut i: usize = 0;
    while i < n
        invariant
            n == session.transcription@.len(),
            0 <= i <= n,
            forall|t: int| 0 <= t < i ==> (#[trigger] session.transcription@[t]).source != source,
        decreases n - i,
    {
        if session.transcription[i].source == source {
            return Some(i);
        }
        i = i + 1;
    }
    None
}

fn any_pending(session: &Session) -> (b: bool)
    ensures
        b == has_pending_chunk(*session),
{
    let n: usize = session.transcription.len();
    let mut t: usize = 0;
    while t < n
        invariant
            n == session.transcription@.len(),
            0 <= t <= n,
            forall|a: int, c: int|
                0 <= a < t && 0 <= c < session.transcription@[a].chunks@.len() ==> (
                #[trigger] session.transcription@[a].chunks@[c]).transcript is Some,
        decreases n - t,
    {
        let chunks = &session.transcription[t].chunks;
        let m: usize = chunks.len();
        let mut c: usize = 0;
        while c < m
            invariant
                n == session.transcription@.len(),
                t < n,
                chunks == &session.transcription@[t as int].chunks,
                m == chunks@.len(),
                0 <= c <= m,
                forall|k: int| 0 <= k < c ==> (#[trigger] chunks@[k]).transcript is Some,
            decreases m - c,
        {
            if chunks[c].transcript.is_none() {
                proof {
                    assert(session.transcription@[t as int].chunks@[c as int].transcript is None);
                }
                return true;
            }
            c = c + 1;
        }
        t = t + 1;
    }
    false
}

pub fn needs_transcription(session: &Session) -> (b: bool)
    ensures
        b == needs_transcription_spec(*session),
{
    if session.transcription.len() != 0 {
        return any_pending(session) || (session.audio_path.is_some() && find_track(
            session,
            AudioSource::System,
        ).is_none()) || (session.microphone_audio_path.is_some() && find_track(
            session,
            AudioSource::Microphone,
        ).is_none());
    }
    match &session.transcript {
        Some(t) => is_blank(t.as_str()),
        None => true,
    }
}

/// The two sources' transcripts under their speakers' labels.
pub open spec fn combined_transcript(system: Seq<char>, microphone: Seq<char>) -> Seq<char> {
    let a = "Meeting audio:\n"@ + trim(system);
    let b = "You:\n"@ + trim(microphone);
    if trim(system).len() != 0 && trim(microphone).len() != 0 {
        a + "\n\n"@ + b
    } else if trim(system).len() != 0 {
        a
    } else {
        b
    }
}

pub fn combine_transcripts(system: &str, microphone: &str) -> (r: AppResult<String>)
    ensures
        r is Ok <==> trim(system@).len() != 0 || trim(microphone@).len() != 0,
        r matches Ok(t) ==> t@ == combined_transcript(system@, microphone@),
        r matches Err(e) ==> e.code@ == "no_speech"@ && e.message@
            == "No speech was detected. Your audio was kept so you can retry."@,
{
    let s = trim_str(system);
    let m = trim_str(microphone);
    let has_system = s.unicode_len() != 0;
    let has_microphone = m.unicode_len() != 0;
    if !has_system && !has_microphone {
        return Err(
            AppError::new("no_speech", "No speech was detected. Your audio was kept so you can retry."),
        );
    }
    let a = concat2("Meeting audio:\n", s);
    let b = concat2("You:\n", m);
    if has_system && has_microphone {
        Ok(concat3(a.as_str(), "\n\n", b.as_str()))
    } else if has_system {
        Ok(a)
    } else {
        Ok(b)
    }
}

/// What a failure does to a meeting: during recording it is shown as a live
/// transcription problem and capture continues; otherwise the meeting fails.
pub fn record_failure(session: Session, error: AppError) -> (s: Session)
    ensures
        session.status == SessionStatus::Recording ==> s == (Session {
            live_transcription_error: Some(error),
            ..session
        }),
        session.status != SessionStatus::Recording ==> s == (Session {
            status: SessionStatus::Failed,
            error: Some(error),
            ..session
        }),
{
    if session.status == SessionStatus::Recording {
        let mut session = session;
        session.live_transcription_error = Some(error);
        session
    } else {
        transition_to_failed(session, error)
    }
}

/// Law: the Notes document of an older meeting never hides the person's
/// typed text: whatever the generated summary holds, the trimmed typed
/// notes occur in the document.
pub proof fn lemma_typed_notes_visible(s: Session)
    requires
        s.notes is None,
    ensures
        contains(visible_notes(s), trim(s.original_notes@)),
{
    let summary = summary_text(s);
    let original = trim(s.original_notes@);
    lemma_trim_contained(s.original_notes@);
    if trim(summary).len() == 0 {
    } else if original.len() != 0 && !contains(summary, original) {
        lemma_contains_suffix(summary + "\n\n"@, s.original_notes@, original);
        assert(visible_notes(s) == summary + "\n\n"@ + s.original_notes@);
    } else if original.len() == 0 {
        assert(visible_notes(s).subrange(0, 0) =~= original);
        assert(occurs_at(visible_notes(s), original, 0));
    }
}

} // verus!
