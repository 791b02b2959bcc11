//! The decisions of transcription processing, as functions from a saved
//! meeting and an outcome to the meeting to save next. The caller reads
//! audio, calls the service and writes files; these functions decide which
//! chunk comes next, how a result or failure is recorded, and which
//! warnings a person sees.
use vstd::prelude::*;

use crate::error::{AppError, AppResult};
use crate::session::{
    add_warning, chunk_failure_notice, chunk_failure_notice_spec, find_track, has_track,
    remove_warning, views, with_warning, AudioSource, Session, SessionStatus, SourceTranscript,
    TranscriptChunk, TranscriptSegment, visible_notes, AiSuggestions,
};
use crate::openai::failure_code;
use crate::text::{concat2, contains, is_blank, owned, same_text, trim};
use crate::progress::{
    chunk_ok, chunks_walk, content_ok, lemma_chunks_walk_append, lemma_relayout_keeps_progress,
    lemma_tracks_walk_same_walks, previous_end, progress_valid, same_layout, same_place,
    section_covered, section_ok,
};
use crate::transcript::{assembled, assembled_transcript, segments_valid};

verus! {

/// The chunks of track `t`.
pub open spec fn chunks_at(s: Session, t: int) -> Seq<TranscriptChunk> {
    s.transcription@[t].chunks@
}

/// `a` is `b` with only the chunks of track `t` replaced by `chunks`.
pub open spec fn chunks_replaced(
    a: Session,
    b: Session,
    t: int,
    chunks: Seq<TranscriptChunk>,
) -> bool {
    &&& a == (Session { transcription: a.transcription, ..b })
    &&& a.transcription@.len() == b.transcription@.len()
    &&& a.transcription@[t].source == b.transcription@[t].source
    &&& a.transcription@[t].chunks@ == chunks
    &&& forall|i: int|
        0 <= i < a.transcription@.len() && i != t ==> #[trigger] a.transcription@[i]
            == b.transcription@[i]
}

/// Puts `chunks` in place of track `t`'s chunks and hands back the old ones.
pub(crate) fn swap_chunks(session: &mut Session, t: usize, chunks: Vec<TranscriptChunk>) -> (prev: Vec<
    TranscriptChunk,
>)
    requires
        t < old(session).transcription@.len(),
    ensures
        prev == old(session).transcription@[t as int].chunks,
        chunks_replaced(*final(session), *old(session), t as int, chunks@),
{
    let mut tracks: Vec<SourceTranscript> = Vec::new();
    std::mem::swap(&mut tracks, &mut session.transcription);
    let ghost before = tracks@;
    let mut track = tracks.remove(t);
    let mut chunks = chunks;
    std::mem::swap(&mut chunks, &mut track.chunks);
    tracks.insert(t, track);
    proof {
        assert forall|i: int| 0 <= i < tracks@.len() && i != t implies #[trigger] tracks@[i]
            == before[i] by {
            if i < t {
            } else {
            }
        }
    }
    session.transcription = tracks;
    chunks
}

pub open spec fn speaker_timing_notice() -> Seq<char> {
    "Speaker labels are unavailable for some audio. Its transcript text was kept."@
}

/// The transcript field that goes with a meeting's chunk results.
pub open spec fn transcript_matches(s: Session) -> bool {
    match assembled(s.transcription@) {
        Some(t) => s.transcript matches Some(x) && x@ == t,
        None => s.transcript is None,
    }
}

/// A transcription result saved for chunk `c` of track `t`: the chunk takes
/// the words and speaker turns, the readable transcript is rebuilt from every
/// chunk, and a notice is added when speaker turns had to be dropped.
pub fn save_chunk_transcript(
    session: Session,
    t: usize,
    c: usize,
    text: String,
    segments: Vec<TranscriptSegment>,
    omitted_speakers: bool,
) -> (r: Session)
    requires
        t < session.transcription@.len(),
        c < chunks_at(session, t as int).len(),
    ensures
        r.transcription@.len() == session.transcription@.len(),
        r.transcription@[t as int].source == session.transcription@[t as int].source,
        chunks_at(r, t as int) == chunks_at(session, t as int).update(
            c as int,
            TranscriptChunk {
                transcript: Some(text),
                segments,
                ..chunks_at(session, t as int)[c as int]
            },
        ),
        forall|i: int|
            0 <= i < r.transcription@.len() && i != t ==> #[trigger] r.transcription@[i]
                == session.transcription@[i],
        transcript_matches(r),
        views(r.warnings@) == if omitted_speakers {
            with_warning(session.warnings@, speaker_timing_notice())
        } else {
            views(session.warnings@)
        },
        r == (Session {
            transcription: r.transcription,
            transcript: r.transcript,
            warnings: r.warnings,
            ..session
        }),
{
    let mut session = session;
    if omitted_speakers {
        add_warning(
            &mut session,
            owned("Speaker labels are unavailable for some audio. Its transcript text was kept."),
        );
    }
    let ghost mid = session;
    let mut chunks = swap_chunks(&mut session, t, Vec::new());
    let mut chunk = chunks.remove(c);
    chunk.transcript = Some(text);
    chunk.segments = segments;
    chunks.insert(c, chunk);
    proof {
        assert(chunks@ =~= chunks_at(mid, t as int).update(c as int, chunk));
    }
    let _ = swap_chunks(&mut session, t, chunks);
    let transcript = assembled_transcript(&session.transcription);
    session.transcript = transcript;
    session
}

/// Whether a failed upload is split into halves rather than recorded:
/// the service found it too long and it is longer than 30 seconds.
pub open spec fn should_split_spec(code: Seq<char>, duration_us: u64) -> bool {
    code == "transcription_too_long"@ && duration_us > 30_000_000
}

pub fn should_split(error: &AppError, duration_us: u64) -> (b: bool)
    ensures
        b == should_split_spec(error.code@, duration_us),
{
    same_text(error.code.as_str(), "transcription_too_long") && duration_us > 30_000_000
}

/// A copy of a speaker turn.
pub fn copy_segment(s: &TranscriptSegment) -> (r: TranscriptSegment)
    ensures
        r.id@ == s.id@,
        r.speaker@ == s.speaker@,
        r.start_us == s.start_us,
        r.end_us == s.end_us,
        r.text@ == s.text@,
{
    TranscriptSegment {
        id: s.id.clone(),
        speaker: s.speaker.clone(),
        start_us: s.start_us,
        end_us: s.end_us,
        text: s.text.clone(),
    }
}

pub open spec fn same_segment(a: TranscriptSegment, b: TranscriptSegment) -> bool {
    &&& a.id@ == b.id@
    &&& a.speaker@ == b.speaker@
    &&& a.start_us == b.start_us
    &&& a.end_us == b.end_us
    &&& a.text@ == b.text@
}

/// A copy of a list of speaker turns.
pub fn copy_segments(v: &Vec<TranscriptSegment>) -> (r: Vec<TranscriptSegment>)
    ensures
        r@.len() == v@.len(),
        forall|i: int| 0 <= i < v@.len() ==> same_segment(#[trigger] r@[i], v@[i]),
{
    let mut r: Vec<TranscriptSegment> = Vec::new();
    let n: usize = v.len();
    let mut i: usize = 0;
    while i < n
        invariant
            n == v@.len(),
            i <= n,
            r@.len() == i,
            forall|k: int| 0 <= k < i ==> same_segment(#[trigger] r@[k], v@[k]),
        decreases n - i,
    {
        r.push(copy_segment(&v[i]));
        i = i + 1;
    }
    r
}

/// The second half of a split chunk: it starts where the first half ends
/// and takes the rest of the duration.
pub open spec fn second_half(b: TranscriptChunk, orig: TranscriptChunk) -> bool {
    &&& b.start_us == orig.start_us + orig.duration_us / 2
    &&& b.duration_us == orig.duration_us - orig.duration_us / 2
    &&& b.transcript is None
    &&& b.error is None
    &&& b.segment_index == orig.segment_index
    &&& b.segments@.len() == orig.segments@.len()
    &&& forall|i: int| 0 <= i < b.segments@.len() ==> same_segment(#[trigger] b.segments@[i], orig.segments@[i])
}

/// A pending chunk that the service found too long becomes two pending
/// halves in its place, each to be uploaded on its own.
pub fn split_chunk(session: Session, t: usize, c: usize) -> (r: Session)
    requires
        t < session.transcription@.len(),
        c < chunks_at(session, t as int).len(),
        chunks_at(session, t as int)[c as int].transcript is None,
        chunks_at(session, t as int)[c as int].start_us + chunks_at(session, t as int)[c as int].duration_us
            <= u64::MAX,
    ensures
        ({
            let orig = chunks_at(session, t as int)[c as int];
            let rc = chunks_at(r, t as int);
            &&& rc.len() == chunks_at(session, t as int).len() + 1
            &&& rc.take(c as int) == chunks_at(session, t as int).take(c as int)
            &&& rc.skip(c + 2) == chunks_at(session, t as int).skip(c + 1)
            &&& rc[c as int] == (TranscriptChunk {
                error: None,
                duration_us: (orig.duration_us / 2) as u64,
                ..orig
            })
            &&& second_half(rc[c + 1], orig)
        }),
        r == (Session { transcription: r.transcription, ..session }),
        r.transcription@.len() == session.transcription@.len(),
        r.transcription@[t as int].source == session.transcription@[t as int].source,
        forall|i: int|
            0 <= i < r.transcription@.len() && i != t ==> #[trigger] r.transcription@[i]
                == session.transcription@[i],
{
    let mut session = session;
    let ghost before = chunks_at(session, t as int);
    let mut chunks = swap_chunks(&mut session, t, Vec::new());
    let chunk = chunks.remove(c);
    let half = chunk.duration_us / 2;
    let second = TranscriptChunk {
        start_us: chunk.start_us + half,
        duration_us: chunk.duration_us - half,
        transcript: None,
        segment_index: chunk.segment_index,
        segments: copy_segments(&chunk.segments),
        error: None,
    };
    let first = TranscriptChunk { error: None, duration_us: half, ..chunk };
    chunks.insert(c, second);
    chunks.insert(c, first);
    proof {
        assert(chunks@.take(c as int) =~= before.take(c as int));
        assert(chunks@.skip(c + 2) =~= before.skip(c + 1));
    }
    let _ = swap_chunks(&mut session, t, chunks);
    session
}

/// A failed upload recorded on chunk `c` of track `t`: the chunk keeps its
/// audio and takes the error, and the source's section notice is shown.
pub fn checkpoint_chunk_error(session: Session, t: usize, c: usize, error: AppError) -> (r: Session)
    requires
        t < session.transcription@.len(),
        c < chunks_at(session, t as int).len(),
    ensures
        chunks_replaced(
            Session { warnings: session.warnings, ..r },
            session,
            t as int,
            chunks_at(session, t as int).update(
                c as int,
                TranscriptChunk { error: Some(error), ..chunks_at(session, t as int)[c as int] },
            ),
        ),
        views(r.warnings@) == with_warning(
            session.warnings@,
            chunk_failure_notice_spec(session.transcription@[t as int].source),
        ),
{
    let mut session = session;
    let source = session.transcription[t].source;
    let ghost before = session;
    let mut chunks = swap_chunks(&mut session, t, Vec::new());
    let mut chunk = chunks.remove(c);
    chunk.error = Some(error);
    chunks.insert(c, chunk);
    proof {
        assert(chunks@ =~= chunks_at(before, t as int).update(c as int, chunk));
    }
    let _ = swap_chunks(&mut session, t, chunks);
    let ghost mid = session;
    add_warning(&mut session, chunk_failure_notice(source));
    proof {
        assert(Session { warnings: before.warnings, ..session } == mid);
    }
    session
}

/// Two chunk records name the same piece of audio.
pub open spec fn same_chunk_spec(a: TranscriptChunk, b: TranscriptChunk) -> bool {
    a.segment_index == b.segment_index && a.start_us == b.start_us && a.duration_us == b.duration_us
}

pub fn same_chunk(a: &TranscriptChunk, b: &TranscriptChunk) -> (r: bool)
    ensures
        r == same_chunk_spec(*a, *b),
{
    a.segment_index == b.segment_index && a.start_us == b.start_us && a.duration_us == b.duration_us
}

/// Where a chunk is saved: the first track of its source and, in it, the
/// first chunk naming the same audio.
pub fn locate_chunk(session: &Session, source: AudioSource, chunk: &TranscriptChunk) -> (r: Option<
    (usize, usize),
>)
    ensures
        r matches Some((t, c)) ==> {
            &&& t < session.transcription@.len()
            &&& session.transcription@[t as int].source == source
            &&& forall|i: int| 0 <= i < t ==> (#[trigger] session.transcription@[i]).source != source
            &&& c < chunks_at(*session, t as int).len()
            &&& same_chunk_spec(chunks_at(*session, t as int)[c as int], *chunk)
            &&& forall|k: int|
                0 <= k < c ==> !same_chunk_spec(#[trigger] chunks_at(*session, t as int)[k], *chunk)
        },
        r is None ==> !has_track(*session, source) || ({
            let t = choose|t: int|
                0 <= t < session.transcription@.len() && (#[trigger] session.transcription@[t]).source
                    == source && forall|i: int|
                    0 <= i < t ==> (#[trigger] session.transcription@[i]).source != source;
            forall|k: int|
                0 <= k < chunks_at(*session, t).len() ==> !same_chunk_spec(
                    #[trigger] chunks_at(*session, t)[k],
                    *chunk,
                )
        }),
{
    let t = match find_track(session, source) {
        Some(t) => t,
        None => return None,
    };
    let chunks = &session.transcription[t].chunks;
    let n: usize = chunks.len();
    let mut c: usize = 0;
    while c < n
        invariant
            t < session.transcription@.len(),
            session.transcription@[t as int].source == source,
            forall|i: int| 0 <= i < t ==> (#[trigger] session.transcription@[i]).source != source,
            chunks == &session.transcription@[t as int].chunks,
            n == chunks@.len(),
            c <= n,
            forall|k: int| 0 <= k < c ==> !same_chunk_spec(#[trigger] chunks@[k], *chunk),
        decreases n - c,
    {
        if same_chunk(&chunks[c], chunk) {
            return Some((t, c));
        }
        c = c + 1;
    }
    proof {
        let w = choose|w: int|
            0 <= w < session.transcription@.len() && (#[trigger] session.transcription@[w]).source
                == source && forall|i: int|
                0 <= i < w ==> (#[trigger] session.transcription@[i]).source != source;
        assert(session.transcription@[t as int].source == source);
        if w < t {
        } else if w > t {
            assert(session.transcription@[t as int].source != source);
        }
    }
    None
}

/// Every chunk of every track, in saved order.
pub open spec fn flat_chunks(tracks: Seq<SourceTranscript>) -> Seq<TranscriptChunk>
    decreases tracks.len(),
{
    if tracks.len() == 0 {
        Seq::empty()
    } else {
        flat_chunks(tracks.drop_last()) + tracks.last().chunks@
    }
}

proof fn lemma_flat_step(tracks: Seq<SourceTranscript>, i: int)
    requires
        0 <= i < tracks.len(),
    ensures
        flat_chunks(tracks.take(i + 1)) == flat_chunks(tracks.take(i)) + tracks[i].chunks@,
{
    assert(tracks.take(i + 1).drop_last() =~= tracks.take(i));
}

/// The first error saved on any chunk, in saved order.
pub fn first_chunk_error(session: &Session) -> (r: Option<AppError>)
    ensures
        r is None <==> forall|k: int|
            0 <= k < flat_chunks(session.transcription@).len() ==> (#[trigger] flat_chunks(
                session.transcription@,
            )[k]).error is None,
        r matches Some(e) ==> exists|k: int|
            {
                &&& 0 <= k < flat_chunks(session.transcription@).len()
                &&& (#[trigger] flat_chunks(session.transcription@)[k]).error matches Some(x)
                    && x.code@ == e.code@ && x.message@ == e.message@
                &&& forall|j: int|
                    0 <= j < k ==> (#[trigger] flat_chunks(session.transcription@)[j]).error is None
            },
{
    let ghost all = flat_chunks(session.transcription@);
    let n: usize = session.transcription.len();
    let mut i: usize = 0;
    while i < n
        invariant
            n == session.transcription@.len(),
            i <= n,
            all == flat_chunks(session.transcription@),
            forall|k: int|
                0 <= k < flat_chunks(session.transcription@.take(i as int)).len() ==> (
                #[trigger] flat_chunks(session.transcription@.take(i as int))[k]).error is None,
            flat_chunks(session.transcription@.take(i as int)).len() <= all.len(),
            all.take(flat_chunks(session.transcription@.take(i as int)).len() as int) == flat_chunks(
                session.transcription@.take(i as int),
            ),
        decreases n - i,
    {
        let chunks = &session.transcription[i].chunks;
        let ghost prefix = flat_chunks(session.transcription@.take(i as int));
        proof {
            lemma_flat_step(session.transcription@, i as int);
            lemma_flat_prefix(session.transcription@, i as int + 1);
        }
        let m: usize = chunks.len();
        let mut c: usize = 0;
        while c < m
            invariant
                n == session.transcription@.len(),
                i < n,
                chunks == &session.transcription@[i as int].chunks,
                m == chunks@.len(),
                c <= m,
                all == flat_chunks(session.transcription@),
                prefix == flat_chunks(session.transcription@.take(i as int)),
                forall|k: int| 0 <= k < prefix.len() ==> (#[trigger] prefix[k]).error is None,
                forall|k: int| 0 <= k < c ==> (#[trigger] chunks@[k]).error is None,
                prefix.len() + m <= all.len(),
                all.take(prefix.len() + m) == prefix + chunks@,
            decreases m - c,
        {
            if let Some(e) = &chunks[c].error {
                proof {
                    let k = prefix.len() + c;
                    assert(all[k] == (prefix + chunks@)[k]);
                    assert forall|j: int| 0 <= j < k implies (#[trigger] all[j]).error is None by {
                        assert(all[j] == (prefix + chunks@)[j]);
                    }
                }
                return Some(e.duplicate());
            }
            c = c + 1;
        }
        proof {
            let next = flat_chunks(session.transcription@.take(i as int + 1));
            assert(next == prefix + chunks@);
            assert forall|k: int| 0 <= k < next.len() implies (#[trigger] next[k]).error is None by {
                if k < prefix.len() {
                    assert(next[k] == prefix[k]);
                } else {
                    assert(next[k] == chunks@[k - prefix.len()]);
                }
            }
        }
        i = i + 1;
    }
    proof {
        assert(session.transcription@.take(n as int) =~= session.transcription@);
    }
    None
}

/// The flattened chunks of the first `i` tracks begin the flattened chunks of all.
proof fn lemma_flat_prefix(tracks: Seq<SourceTranscript>, i: int)
    requires
        0 <= i <= tracks.len(),
    ensures
        flat_chunks(tracks.take(i)).len() <= flat_chunks(tracks).len(),
        flat_chunks(tracks).take(flat_chunks(tracks.take(i)).len() as int) == flat_chunks(
            tracks.take(i),
        ),
    decreases tracks.len() - i,
{
    if i == tracks.len() {
        assert(tracks.take(i) =~= tracks);
        assert(flat_chunks(tracks).take(flat_chunks(tracks).len() as int) =~= flat_chunks(tracks));
    } else {
        lemma_flat_prefix(tracks, i + 1);
        lemma_flat_step(tracks, i);
        let a = flat_chunks(tracks.take(i));
        let b = flat_chunks(tracks.take(i + 1));
        assert(b.take(a.len() as int) =~= a);
        assert(flat_chunks(tracks).take(a.len() as int) =~= flat_chunks(tracks).take(
            b.len() as int,
        ).take(a.len() as int));
    }
}

/// A chunk that still waits for an upload: no words and no saved error.
pub open spec fn live_pending(s: Session, t: int, c: int) -> bool {
    &&& 0 <= t < s.transcription@.len()
    &&& 0 <= c < chunks_at(s, t).len()
    &&& chunks_at(s, t)[c].transcript is None
    &&& chunks_at(s, t)[c].error is None
}

pub open spec fn chunk_start(s: Session, t: int, c: int) -> int {
    chunks_at(s, t)[c].start_us as int
}

/// Chunk `(t2, c2)` comes before `(t, c)` in saved order.
pub open spec fn saved_before(t2: int, c2: int, t: int, c: int) -> bool {
    t2 < t || (t2 == t && c2 < c)
}

/// The next chunk to upload while sections arrive: the waiting chunk that
/// starts earliest, the first in saved order among those that start together.
pub fn next_live_chunk(session: &Session) -> (r: Option<(usize, usize)>)
    ensures
        r is None <==> forall|t: int, c: int| !#[trigger] live_pending(*session, t, c),
        r matches Some((t, c)) ==> {
            &&& live_pending(*session, t as int, c as int)
            &&& forall|t2: int, c2: int|
                #[trigger] live_pending(*session, t2, c2) ==> chunk_start(*session, t as int, c as int)
                    <= chunk_start(*session, t2, c2) && (saved_before(t2, c2, t as int, c as int)
                    ==> chunk_start(*session, t as int, c as int) < chunk_start(*session, t2, c2))
        },
{
    let mut best: Option<(usize, usize)> = None;
    let n: usize = session.transcription.len();
    let mut i: usize = 0;
    while i < n
        invariant
            n == session.transcription@.len(),
            i <= n,
            best is None ==> forall|t: int, c: int| t < i ==> !#[trigger] live_pending(*session, t, c),
            best matches Some((bt, bc)) ==> {
                &&& bt < i
                &&& live_pending(*session, bt as int, bc as int)
                &&& forall|t2: int, c2: int|
                    t2 < i && #[trigger] live_pending(*session, t2, c2) ==> chunk_start(
                        *session,
                        bt as int,
                        bc as int,
                    ) <= chunk_start(*session, t2, c2) && (saved_before(t2, c2, bt as int, bc as int)
                        ==> chunk_start(*session, bt as int, bc as int) < chunk_start(
                        *session,
                        t2,
                        c2,
                    ))
            },
        decreases n - i,
    {
        let chunks = &session.transcription[i].chunks;
        let m: usize = chunks.len();
        let mut c: usize = 0;
        while c < m
            invariant
                n == session.transcription@.len(),
                i < n,
                chunks == &session.transcription@[i as int].chunks,
                m == chunks@.len(),
                c <= m,
                best is None ==> forall|t: int, c2: int|
                    (t < i || (t == i && c2 < c)) ==> !#[trigger] live_pending(*session, t, c2),
                best matches Some((bt, bc)) ==> {
                    &&& saved_before(bt as int, bc as int, i as int, c as int)
                    &&& live_pending(*session, bt as int, bc as int)
                    &&& forall|t2: int, c2: int|
                        (t2 < i || (t2 == i && c2 < c)) && #[trigger] live_pending(*session, t2, c2)
                            ==> chunk_start(*session, bt as int, bc as int) <= chunk_start(
                            *session,
                            t2,
                            c2,
                        ) && (saved_before(t2, c2, bt as int, bc as int) ==> chunk_start(
                            *session,
                            bt as int,
                            bc as int,
                        ) < chunk_start(*session, t2, c2))
                },
            decreases m - c,
        {
            let chunk = &chunks[c];
            if chunk.transcript.is_none() && chunk.error.is_none() {
                let better = match best {
                    None => true,
                    Some((bt, bc)) => chunk.start_us < session.transcription[bt].chunks[bc].start_us,
                };
                if better {
                    best = Some((i, c));
                }
            }
            c = c + 1;
        }
        i = i + 1;
    }
    best
}

/// The first chunk of a track that has no words yet.
pub fn next_pending_chunk(track: &SourceTranscript) -> (r: Option<usize>)
    ensures
        r matches Some(c) ==> c < track.chunks@.len() && track.chunks@[c as int].transcript is None
            && forall|k: int| 0 <= k < c ==> (#[trigger] track.chunks@[k]).transcript is Some,
        r is None ==> forall|k: int|
            0 <= k < track.chunks@.len() ==> (#[trigger] track.chunks@[k]).transcript is Some,
{
    let n: usize = track.chunks.len();
    let mut c: usize = 0;
    while c < n
        invariant
            n == track.chunks@.len(),
            c <= n,
            forall|k: int| 0 <= k < c ==> (#[trigger] track.chunks@[k]).transcript is Some,
        decreases n - c,
    {
        if track.chunks[c].transcript.is_none() {
            return Some(c);
        }
        c = c + 1;
    }
    None
}

/// The longest piece of audio sent in one upload: five minutes.
pub const CHUNK_US: u64 = 300_000_000;

/// A chunk of audio may be cut for upload only when it lasts more than
/// nothing and at most five minutes.
pub fn check_chunk_range(duration_us: u64) -> (r: AppResult<()>)
    ensures
        r is Ok <==> 0 < duration_us <= CHUNK_US,
        r matches Err(e) ==> e.code@ == "audio_chunk"@ && e.message@
            == "Invalid audio chunk time range"@,
{
    if duration_us == 0 || duration_us > CHUNK_US {
        return Err(AppError::new("audio_chunk", "Invalid audio chunk time range"));
    }
    Ok(())
}

/// A pending chunk of a whole-file source.
pub open spec fn planned_chunk(c: TranscriptChunk, start: int, duration: int) -> bool {
    &&& c.start_us == start
    &&& c.duration_us == duration
    &&& c.transcript is None
    &&& c.segment_index is None
    &&& c.segments@.len() == 0
    &&& c.error is None
}

/// A source of `duration_us` cut into consecutive five-minute chunks, the
/// last one shorter when the audio does not divide evenly; none when empty.
pub fn plan_chunks(duration_us: u64) -> (r: Vec<TranscriptChunk>)
    ensures
        r@.len() * CHUNK_US >= duration_us,
        r@.len() == 0 || (r@.len() - 1) * CHUNK_US < duration_us,
        forall|k: int|
            0 <= k < r@.len() ==> planned_chunk(
                #[trigger] r@[k],
                k * CHUNK_US,
                if duration_us - k * CHUNK_US < CHUNK_US {
                    duration_us - k * CHUNK_US
                } else {
                    CHUNK_US as int
                },
            ),
{
    let mut r: Vec<TranscriptChunk> = Vec::new();
    let mut start: u64 = 0;
    while start < duration_us
        invariant
            start <= duration_us,
            start == r@.len() * CHUNK_US || start == duration_us,
            r@.len() == 0 || (r@.len() - 1) * CHUNK_US < duration_us,
            start < duration_us ==> start == r@.len() * CHUNK_US,
            r@.len() * CHUNK_US >= start,
            forall|k: int|
                0 <= k < r@.len() ==> planned_chunk(
                    #[trigger] r@[k],
                    k * CHUNK_US,
                    if duration_us - k * CHUNK_US < CHUNK_US {
                        duration_us - k * CHUNK_US
                    } else {
                        CHUNK_US as int
                    },
                ),
        decreases duration_us - start,
    {
        let length = if duration_us - start < CHUNK_US {
            duration_us - start
        } else {
            CHUNK_US
        };
        r.push(
            TranscriptChunk {
                start_us: start,
                duration_us: length,
                transcript: None,
                segment_index: None,
                segments: Vec::new(),
                error: None,
            },
        );
        start = start + length;
    }
    r
}

pub open spec fn no_frames_warning(source: AudioSource) -> Seq<char> {
    source.label_spec() + " contained no audio frames. Notes use only the available sources."@
}

pub open spec fn no_speech_warning(source: AudioSource) -> Seq<char> {
    source.label_spec() + " had no transcribed speech. Notes use only the available sources."@
}

pub open spec fn incomplete_warning(source: AudioSource) -> Seq<char> {
    source.label_spec() + " could not be fully transcribed. Remaining audio was kept."@
}

/// The warning shown when part of a source could not be transcribed.
pub fn incomplete_source_warning(source: AudioSource) -> (w: String)
    ensures
        w@ == incomplete_warning(source),
{
    concat2(source.label(), " could not be fully transcribed. Remaining audio was kept.")
}

fn no_speech_source_warning(source: AudioSource) -> (w: String)
    ensures
        w@ == no_speech_warning(source),
{
    concat2(source.label(), " had no transcribed speech. Notes use only the available sources.")
}

/// A whole-file source gets its track of planned chunks; a source without
/// frames gets an empty track and a warning. A source already tracked is
/// left as it is.
pub fn prepare_source(session: Session, source: AudioSource, chunks: Vec<TranscriptChunk>) -> (r:
    Session)
    ensures
        has_track(session, source) ==> r == session,
        !has_track(session, source) ==> {
            &&& r.transcription@.len() == session.transcription@.len() + 1
            &&& r.transcription@.take(session.transcription@.len() as int)
                == session.transcription@
            &&& r.transcription@.last().source == source
            &&& r.transcription@.last().chunks == chunks
            &&& views(r.warnings@) == if chunks@.len() == 0 {
                with_warning(session.warnings@, no_frames_warning(source))
            } else {
                views(session.warnings@)
            }
            &&& r == (Session { transcription: r.transcription, warnings: r.warnings, ..session })
        },
{
    if find_track(&session, source).is_some() {
        return session;
    }
    let mut session = session;
    if chunks.len() == 0 {
        add_warning(
            &mut session,
            concat2(
                source.label(),
                " contained no audio frames. Notes use only the available sources.",
            ),
        );
    }
    let ghost before = session.transcription@;
    session.transcription.push(SourceTranscript { source, chunks });
    proof {
        assert(session.transcription@.take(before.len() as int) =~= before);
    }
    session
}

/// The chunk has non-blank words.
pub open spec fn spoken(c: TranscriptChunk) -> bool {
    match c.transcript {
        Some(x) => trim(x@).len() != 0,
        None => false,
    }
}

/// Some chunk of the list has non-blank words.
pub open spec fn has_speech(chunks: Seq<TranscriptChunk>) -> bool {
    exists|k: int| 0 <= k < chunks.len() && spoken(#[trigger] chunks[k])
}

fn any_speech(chunks: &Vec<TranscriptChunk>) -> (b: bool)
    ensures
        b == has_speech(chunks@),
{
    let n: usize = chunks.len();
    let mut k: usize = 0;
    while k < n
        invariant
            n == chunks@.len(),
            k <= n,
            forall|j: int| 0 <= j < k ==> !spoken(#[trigger] chunks@[j]),
        decreases n - k,
    {
        if let Some(x) = &chunks[k].transcript {
            if !is_blank(x.as_str()) {
                return true;
            }
        }
        k = k + 1;
    }
    false
}

/// `v` with `w` added once.
pub open spec fn add_once(v: Seq<Seq<char>>, w: Seq<char>) -> Seq<Seq<char>> {
    if v.contains(w) {
        v
    } else {
        v.push(w)
    }
}

/// A whole-file source with every chunk transcribed: its incomplete notice
/// goes; a silent source is reported, a source with speech drops that report.
/// Returns the meeting and whether the source had speech, in which case its
/// audio may be deleted.
pub fn finish_source(session: Session, t: usize) -> (r: (Session, bool))
    requires
        t < session.transcription@.len(),
        forall|k: int|
            0 <= k < chunks_at(session, t as int).len() ==> (#[trigger] chunks_at(session, t as int)[k]).transcript is Some,
    ensures
        ({
            let source = session.transcription@[t as int].source;
            let speech = has_speech(chunks_at(session, t as int));
            let first = views(session.warnings@).filter(
                |w: Seq<char>| w != incomplete_warning(source),
            );
            let second = if speech {
                first.filter(|w: Seq<char>| w != no_speech_warning(source))
            } else {
                first
            };
            &&& r.1 == speech
            &&& views(r.0.warnings@) == if !speech && chunks_at(session, t as int).len() != 0 {
                add_once(second, no_speech_warning(source))
            } else {
                second
            }
            &&& r.0 == (Session { warnings: r.0.warnings, ..session })
        }),
{
    let source = session.transcription[t].source;
    let speech = any_speech(&session.transcription[t].chunks);
    let nonempty = session.transcription[t].chunks.len() != 0;
    let mut session = session;
    let resolved = incomplete_source_warning(source);
    remove_warning(&mut session, resolved.as_str());
    proof {
        assert((|w: Seq<char>| w != resolved@) =~= (|w: Seq<char>| w != incomplete_warning(source)));
    }
    let empty = no_speech_source_warning(source);
    if speech {
        remove_warning(&mut session, empty.as_str());
        proof {
            assert((|w: Seq<char>| w != empty@) =~= (|w: Seq<char>| w != no_speech_warning(source)));
        }
    }
    if !speech && nonempty {
        add_warning(&mut session, empty);
    }
    (session, speech)
}

/// The silence report for one source of a sectioned recording: a source
/// with chunks but no words is reported, one with words drops the report.
pub open spec fn silence_step(ws: Seq<Seq<char>>, s: Session, source: AudioSource) -> Seq<
    Seq<char>,
> {
    if !has_track(s, source) {
        ws
    } else {
        let t = choose|t: int|
            0 <= t < s.transcription@.len() && (#[trigger] s.transcription@[t]).source == source
                && forall|i: int| 0 <= i < t ==> (#[trigger] s.transcription@[i]).source != source;
        if chunks_at(s, t).len() == 0 {
            ws
        } else if has_speech(chunks_at(s, t)) {
            ws.filter(|w: Seq<char>| w != no_speech_warning(source))
        } else {
            add_once(ws, no_speech_warning(source))
        }
    }
}

fn report_silence(session: &mut Session, source: AudioSource)
    ensures
        views(final(session).warnings@) == silence_step(
            views(old(session).warnings@),
            *old(session),
            source,
        ),
        *final(session) == (Session { warnings: final(session).warnings, ..*old(session) }),
{
    let t = match find_track(session, source) {
        Some(t) => t,
        None => return ,
    };
    proof {
        let w = choose|w: int|
            0 <= w < session.transcription@.len() && (#[trigger] session.transcription@[w]).source
                == source && forall|i: int|
                0 <= i < w ==> (#[trigger] session.transcription@[i]).source != source;
        assert(session.transcription@[t as int].source == source);
        if w < t {
        } else if w > t {
            assert(session.transcription@[t as int].source != source);
        }
        assert(w == t);
    }
    if session.transcription[t].chunks.len() == 0 {
        return ;
    }
    let warning = no_speech_source_warning(source);
    if any_speech(&session.transcription[t].chunks) {
        remove_warning(session, warning.as_str());
        proof {
            assert((|w: Seq<char>| w != warning@) =~= (|w: Seq<char>| w != no_speech_warning(source)));
        }
    } else {
        add_warning(session, warning);
    }
}

/// After a sectioned recording is transcribed, each source's silence report
/// is brought up to date, the system audio first.
pub fn report_silent_sources(session: Session) -> (r: Session)
    ensures
        views(r.warnings@) == silence_step(
            silence_step(views(session.warnings@), session, AudioSource::System),
            session,
            AudioSource::Microphone,
        ),
        r == (Session { warnings: r.warnings, ..session }),
{
    let mut session = session;
    let ghost orig = session;
    report_silence(&mut session, AudioSource::System);
    proof {
        assert(Session { warnings: orig.warnings, ..session } == orig);
    }
    let ghost mid = session;
    report_silence(&mut session, AudioSource::Microphone);
    proof {
        assert(mid.transcription == orig.transcription);
    }
    session
}

pub open spec fn transcript_blank(s: Session) -> bool {
    match s.transcript {
        Some(t) => trim(t@).len() == 0,
        None => true,
    }
}

/// Notes are generated only from a transcript with words.
pub fn require_speech(session: &Session) -> (r: AppResult<()>)
    ensures
        r is Ok <==> !transcript_blank(*session),
        r matches Err(e) ==> e.code@ == "no_speech"@ && e.message@
            == "No speech was detected. Your typed notes and source audio were kept."@,
{
    let blank = match &session.transcript {
        Some(t) => is_blank(t.as_str()),
        None => true,
    };
    if blank {
        return Err(
            AppError::new(
                "no_speech",
                "No speech was detected. Your typed notes and source audio were kept.",
            ),
        );
    }
    Ok(())
}

pub open spec fn omitted_notice() -> Seq<char> {
    "Some AI suggestions lacked matching source evidence and were omitted. Your notes and verified suggestions were kept."@
}

/// The end of processing: the generated notes are stored (edits made since
/// they were requested win), the suggestions replace the previous ones, the
/// omitted-evidence notice is shown only for this result, and the meeting
/// is complete with no error.
pub fn complete_with_notes(
    session: Session,
    notes: String,
    requested_notes: &str,
    suggestions: AiSuggestions,
    omitted_suggestions: bool,
) -> (r: Session)
    ensures
        ({
            &&& r.status == SessionStatus::Complete
            &&& r.error is None
            &&& r.live_transcription_error is None
            &&& r.ai_suggestions == Some(suggestions)
            &&& trim(notes@).len() == 0 ==> r.notes == session.notes && r.enriched_notes
                == session.enriched_notes
            &&& trim(notes@).len() != 0 ==> {
                &&& r.enriched_notes matches Some(e) && e@ == notes@
                &&& r.notes matches Some(n) && n@ == if visible_notes(session) == requested_notes@ {
                    notes@
                } else {
                    visible_notes(session)
                }
            }
            &&& views(r.warnings@) == if omitted_suggestions {
                add_once(
                    views(session.warnings@).filter(|w: Seq<char>| w != omitted_notice()),
                    omitted_notice(),
                )
            } else {
                views(session.warnings@).filter(|w: Seq<char>| w != omitted_notice())
            }
            &&& r == (Session {
                status: r.status,
                error: r.error,
                live_transcription_error: r.live_transcription_error,
                ai_suggestions: r.ai_suggestions,
                notes: r.notes,
                enriched_notes: r.enriched_notes,
                warnings: r.warnings,
                ..session
            })
        }),
{
    let mut session = session;
    session.update_enriched_notes(notes, requested_notes);
    session.ai_suggestions = Some(suggestions);
    let notice = "Some AI suggestions lacked matching source evidence and were omitted. Your notes and verified suggestions were kept.";
    remove_warning(&mut session, notice);
    proof {
        assert((|w: Seq<char>| w != notice@) =~= (|w: Seq<char>| w != omitted_notice()));
    }
    if omitted_suggestions {
        add_warning(&mut session, owned(notice));
    }
    session.status = SessionStatus::Complete;
    session.error = None;
    session.live_transcription_error = None;
    session
}

/// Failures of one whole-file source that leave the other source to be
/// transcribed; any other failure stops processing.
pub open spec fn recoverable_source_error(code: Seq<char>) -> bool {
    code == "audio_file"@ || code == "audio_chunk"@ || code == "audio_chunk_size"@ || code
        == "invalid_audio"@ || code == "no_speech"@ || code == "transcription_too_long"@
}

pub fn is_recoverable_source_error(error: &AppError) -> (b: bool)
    ensures
        b == recoverable_source_error(error.code@),
{
    let c = error.code.as_str();
    same_text(c, "audio_file") || same_text(c, "audio_chunk") || same_text(c, "audio_chunk_size")
        || same_text(c, "invalid_audio") || same_text(c, "no_speech") || same_text(
        c,
        "transcription_too_long",
    )
}

/// Upload failures of one section that are saved on its chunk so the other
/// sections go on; any other failure stops processing.
pub open spec fn checkpointed_chunk_error(code: Seq<char>) -> bool {
    code == "invalid_audio"@ || code == "transcription_too_long"@ || code
        == "invalid_transcription"@
}

pub fn is_checkpointed_chunk_error(error: &AppError) -> (b: bool)
    ensures
        b == checkpointed_chunk_error(error.code@),
{
    let c = error.code.as_str();
    same_text(c, "invalid_audio") || same_text(c, "transcription_too_long") || same_text(
        c,
        "invalid_transcription",
    )
}

/// Law: splitting a chunk loses no audio: the halves start where the chunk
/// started, follow each other without a gap, end where it ended, and a
/// chunk longer than thirty seconds gets two strictly shorter halves.
pub proof fn lemma_split_covers(first: TranscriptChunk, second: TranscriptChunk, orig: TranscriptChunk)
    requires
        first == (TranscriptChunk { error: None, duration_us: (orig.duration_us / 2) as u64, ..orig }),
        second_half(second, orig),
    ensures
        first.start_us == orig.start_us,
        second.start_us == first.start_us + first.duration_us,
        second.start_us + second.duration_us == orig.start_us + orig.duration_us,
        orig.duration_us > 30_000_000 ==> first.duration_us < orig.duration_us && second.duration_us
            < orig.duration_us && first.duration_us > 0,
        first.transcript == orig.transcript && second.transcript is None,
        first.error is None && second.error is None,
{
}

/// Law: saving the words of an upload keeps a meeting's progress valid.
/// When the chunk was waiting without a saved error and its speaker turns
/// fit it, the meeting `save_chunk_transcript` returns is trusted whenever
/// the meeting it was given was.
pub proof fn lemma_save_keeps_progress_valid(
    s: Session,
    t: int,
    c: int,
    text: String,
    segments: Vec<TranscriptSegment>,
    r: Session,
)
    requires
        progress_valid(s),
        0 <= t < s.transcription@.len(),
        0 <= c < chunks_at(s, t).len(),
        chunks_at(s, t)[c].error is None,
        segments_valid(segments@, chunks_at(s, t)[c].duration_us as int),
        r.transcription@.len() == s.transcription@.len(),
        r.transcription@[t].source == s.transcription@[t].source,
        chunks_at(r, t) == chunks_at(s, t).update(
            c,
            TranscriptChunk { transcript: Some(text), segments, ..chunks_at(s, t)[c] },
        ),
        forall|i: int|
            0 <= i < r.transcription@.len() && i != t ==> #[trigger] r.transcription@[i]
                == s.transcription@[i],
        r == (Session {
            transcription: r.transcription,
            transcript: r.transcript,
            warnings: r.warnings,
            ..s
        }),
    ensures
        progress_valid(r),
{
    let (rt, st) = (r.transcription@, s.transcription@);
    assert forall|i: int| 0 <= i < rt.len() implies (#[trigger] rt[i]).source == st[i].source
        && rt[i].chunks@.len() == st[i].chunks@.len() by {
        if i != t {
            assert(rt[i] == st[i]);
        }
    }
    assert forall|i: int, k: int| 0 <= i < rt.len() && 0 <= k < rt[i].chunks@.len() implies same_place(
        #[trigger] rt[i].chunks@[k],
        st[i].chunks@[k],
    ) && content_ok(rt[i].chunks@[k]) by {
        assert(crate::progress::chunk_ok(s, i, k));
        if i != t {
            assert(rt[i] == st[i]);
        }
    }
    assert(same_layout(rt, st));
    lemma_relayout_keeps_progress(s, r);
}

/// Law: recording a failed upload on a chunk that has no words keeps a
/// meeting's progress valid: the chunk keeps its place and its audio.
pub proof fn lemma_checkpoint_keeps_progress_valid(s: Session, t: int, c: int, error: AppError, r: Session)
    requires
        progress_valid(s),
        0 <= t < s.transcription@.len(),
        0 <= c < chunks_at(s, t).len(),
        chunks_at(s, t)[c].transcript is None,
        chunks_replaced(
            Session { warnings: s.warnings, ..r },
            s,
            t,
            chunks_at(s, t).update(c, TranscriptChunk { error: Some(error), ..chunks_at(s, t)[c] }),
        ),
    ensures
        progress_valid(r),
{
    let (rt, st) = (r.transcription@, s.transcription@);
    assert forall|i: int| 0 <= i < rt.len() implies (#[trigger] rt[i]).source == st[i].source
        && rt[i].chunks@.len() == st[i].chunks@.len() by {
        if i != t {
            assert(rt[i] == st[i]);
        }
    }
    assert forall|i: int, k: int| 0 <= i < rt.len() && 0 <= k < rt[i].chunks@.len() implies same_place(
        #[trigger] rt[i].chunks@[k],
        st[i].chunks@[k],
    ) && content_ok(rt[i].chunks@[k]) by {
        assert(crate::progress::chunk_ok(s, i, k));
        if i != t {
            assert(rt[i] == st[i]);
        }
    }
    assert(same_layout(rt, st));
    lemma_relayout_keeps_progress(s, r);
}

/// Two halves that cover a chunk walk as the chunk does.
proof fn lemma_halves_walk(
    orig: TranscriptChunk,
    first: TranscriptChunk,
    second: TranscriptChunk,
    index: u64,
    e: int,
)
    requires
        first.start_us == orig.start_us,
        first.segment_index == orig.segment_index,
        second.segment_index == orig.segment_index,
        second.start_us == first.start_us + first.duration_us,
        second.start_us + second.duration_us == orig.start_us + orig.duration_us,
    ensures
        chunks_walk(seq![first, second], index, e) == chunks_walk(seq![orig], index, e),
{
    let none = Seq::<TranscriptChunk>::empty();
    assert(seq![first, second].drop_last() =~= seq![first]);
    assert(seq![first].drop_last() =~= none);
    assert(seq![orig].drop_last() =~= none);
    assert(chunks_walk(none, index, e) == Some(e));
    reveal_with_fuel(chunks_walk, 3);
}

/// Law: splitting a waiting chunk into halves keeps a meeting's progress
/// valid: the halves lie where the chunk lay and walk its section alike.
pub proof fn lemma_split_keeps_progress_valid(s: Session, t: int, c: int, r: Session)
    requires
        progress_valid(s),
        0 <= t < s.transcription@.len(),
        0 <= c < chunks_at(s, t).len(),
        chunks_at(s, t)[c].transcript is None,
        chunks_at(s, t)[c].duration_us >= 2,
        ({
            let orig = chunks_at(s, t)[c];
            let rc = chunks_at(r, t);
            &&& rc.len() == chunks_at(s, t).len() + 1
            &&& rc.take(c) == chunks_at(s, t).take(c)
            &&& rc.skip(c + 2) == chunks_at(s, t).skip(c + 1)
            &&& rc[c] == (TranscriptChunk {
                error: None,
                duration_us: (orig.duration_us / 2) as u64,
                ..orig
            })
            &&& second_half(rc[c + 1], orig)
        }),
        r == (Session { transcription: r.transcription, ..s }),
        r.transcription@.len() == s.transcription@.len(),
        r.transcription@[t].source == s.transcription@[t].source,
        forall|i: int|
            0 <= i < r.transcription@.len() && i != t ==> #[trigger] r.transcription@[i]
                == s.transcription@[i],
    ensures
        progress_valid(r),
{
    let (rt, st) = (r.transcription@, s.transcription@);
    let old = chunks_at(s, t);
    let new = chunks_at(r, t);
    let orig = old[c];
    let first = new[c];
    let second = new[c + 1];
    assert(chunk_ok(s, t, c));
    assert forall|k: int| 0 <= k < r.capture_segments@.len() implies section_ok(r, k) by {
        assert(section_ok(s, k));
    }
    assert forall|i: int| 0 <= i < rt.len() implies (#[trigger] rt[i]).source == st[i].source by {
        if i != t {
            assert(rt[i] == st[i]);
        }
    }
    assert forall|a: int, b: int| 0 <= b < a < rt.len() implies (#[trigger] rt[b]).source
        != (#[trigger] rt[a]).source by {
        assert(st[b].source != st[a].source);
    }
    // Where each chunk of the new track was in the old one.
    assert forall|k: int| 0 <= k < c implies #[trigger] new[k] == old[k] by {
        assert(new[k] == new.take(c)[k]);
        assert(old[k] == old.take(c)[k]);
    }
    assert forall|k: int| c + 2 <= k < new.len() implies #[trigger] new[k] == old[k - 1] by {
        assert(new[k] == new.skip(c + 2)[k - c - 2]);
        assert(old[k - 1] == old.skip(c + 1)[k - c - 2]);
    }
    assert forall|i: int, k: int| 0 <= i < rt.len() && 0 <= k < rt[i].chunks@.len() implies #[trigger] chunk_ok(
        r,
        i,
        k,
    ) by {
        if i != t {
            assert(rt[i] == st[i]);
            assert(chunk_ok(s, i, k));
            let chunk = rt[i].chunks@[k];
            if let Some(x) = chunk.segment_index {
                assert(crate::progress::inside_section(s, st[i].source, chunk, x));
            }
        } else if k < c {
            assert(chunk_ok(s, t, k));
            if k > 0 {
                assert(new[k - 1] == old[k - 1]);
            }
            assert(previous_end(new, k) == previous_end(old, k));
            if let Some(x) = new[k].segment_index {
                assert(crate::progress::inside_section(s, st[t].source, old[k], x));
            }
        } else if k == c {
            if c > 0 {
                assert(new[c - 1] == old[c - 1]);
            }
            assert(previous_end(new, c) == previous_end(old, c));
            if let Some(x) = orig.segment_index {
                assert(crate::progress::inside_section(s, st[t].source, orig, x));
                let g = choose|g: int|
                    0 <= g < s.capture_segments@.len() && (#[trigger] s.capture_segments@[g]).source
                        == st[t].source && s.capture_segments@[g].index == x && orig.start_us + 1
                        >= s.capture_segments@[g].start_us && orig.start_us + orig.duration_us
                        <= s.capture_segments@[g].start_us + s.capture_segments@[g].duration_us + 1;
                assert(r.capture_segments@[g] == s.capture_segments@[g]);
                assert(crate::progress::inside_section(r, rt[t].source, first, x));
            }
        } else if k == c + 1 {
            assert(previous_end(new, c + 1) == second.start_us);
            assert(second.segments@.len() == 0);
            if let Some(x) = orig.segment_index {
                assert(crate::progress::inside_section(s, st[t].source, orig, x));
                let g = choose|g: int|
                    0 <= g < s.capture_segments@.len() && (#[trigger] s.capture_segments@[g]).source
                        == st[t].source && s.capture_segments@[g].index == x && orig.start_us + 1
                        >= s.capture_segments@[g].start_us && orig.start_us + orig.duration_us
                        <= s.capture_segments@[g].start_us + s.capture_segments@[g].duration_us + 1;
                assert(r.capture_segments@[g] == s.capture_segments@[g]);
                assert(crate::progress::inside_section(r, rt[t].source, second, x));
            }
        } else {
            assert(chunk_ok(s, t, k - 1));
            assert(new[k] == old[k - 1]);
            if k == c + 2 {
                assert(previous_end(new, k) == previous_end(old, k - 1));
            } else {
                assert(new[k - 1] == old[k - 2]);
                assert(previous_end(new, k) == previous_end(old, k - 1));
            }
            if let Some(x) = new[k].segment_index {
                assert(crate::progress::inside_section(s, st[t].source, old[k - 1], x));
            }
        }
    }
    // The track walks every section as before.
    assert(old =~= old.take(c) + seq![orig] + old.skip(c + 1));
    assert(new =~= new.take(c) + seq![first, second] + new.skip(c + 2));
    assert forall|i: int, index: u64, e: int| 0 <= i < rt.len() implies #[trigger] chunks_walk(
        rt[i].chunks@,
        index,
        e,
    ) == chunks_walk(st[i].chunks@, index, e) by {
        if i != t {
            assert(rt[i] == st[i]);
        } else {
            let pre = old.take(c);
            let post = old.skip(c + 1);
            lemma_chunks_walk_append(pre + seq![orig], post, index, e);
            lemma_chunks_walk_append(pre, seq![orig], index, e);
            lemma_chunks_walk_append(pre + seq![first, second], post, index, e);
            lemma_chunks_walk_append(pre, seq![first, second], index, e);
            match chunks_walk(pre, index, e) {
                Some(w) => lemma_halves_walk(orig, first, second, index, w),
                None => {},
            }
        }
    }
    assert forall|k: int| 0 <= k < r.capture_segments@.len() implies #[trigger] section_covered(r, k) by {
        assert(section_covered(s, k));
        let g = s.capture_segments@[k];
        lemma_tracks_walk_same_walks(rt, st, g.source, g.index, g.start_us as int);
    }
}

/// Law: giving a whole-file source the chunks planned for its duration keeps
/// a meeting's progress valid: the chunks follow one another from the start
/// of the audio, none longer than five minutes.
pub proof fn lemma_prepare_keeps_progress_valid(
    s: Session,
    source: AudioSource,
    duration_us: u64,
    chunks: Seq<TranscriptChunk>,
    r: Session,
)
    requires
        progress_valid(s),
        !s.segmented_capture,
        !has_track(s, source),
        chunks.len() * CHUNK_US >= duration_us,
        chunks.len() == 0 || (chunks.len() - 1) * CHUNK_US < duration_us,
        forall|k: int|
            0 <= k < chunks.len() ==> planned_chunk(
                #[trigger] chunks[k],
                k * CHUNK_US,
                if duration_us - k * CHUNK_US < CHUNK_US {
                    duration_us - k * CHUNK_US
                } else {
                    CHUNK_US as int
                },
            ),
        r.transcription@.len() == s.transcription@.len() + 1,
        r.transcription@.take(s.transcription@.len() as int) == s.transcription@,
        r.transcription@.last().source == source,
        r.transcription@.last().chunks@ == chunks,
        r == (Session { transcription: r.transcription, warnings: r.warnings, ..s }),
    ensures
        progress_valid(r),
{
    let (rt, st) = (r.transcription@, s.transcription@);
    let n = st.len() as int;
    assert forall|i: int| 0 <= i < n implies #[trigger] rt[i] == st[i] by {
        assert(rt.take(n)[i] == rt[i]);
    }
    assert(s.capture_segments@.len() == 0) by {
        if s.capture_segments@.len() > 0 {
            assert(section_ok(s, 0));
        }
    }
    assert forall|a: int, b: int| 0 <= b < a < rt.len() implies (#[trigger] rt[b]).source
        != (#[trigger] rt[a]).source by {
        if a == n {
            assert(rt[b] == st[b]);
            if st[b].source == source {
                assert(has_track(s, source));
            }
        } else {
            assert(rt[a] == st[a] && rt[b] == st[b]);
        }
    }
    assert forall|i: int, k: int| 0 <= i < rt.len() && 0 <= k < rt[i].chunks@.len() implies #[trigger] chunk_ok(
        r,
        i,
        k,
    ) by {
        if i < n {
            assert(rt[i] == st[i]);
            assert(chunk_ok(s, i, k));
        } else {
            assert(planned_chunk(chunks[k], k * CHUNK_US, if duration_us - k * CHUNK_US < CHUNK_US {
                duration_us - k * CHUNK_US
            } else {
                CHUNK_US as int
            }));
            if k > 0 {
                assert(planned_chunk(chunks[k - 1], (k - 1) * CHUNK_US, if duration_us - (k - 1)
                    * CHUNK_US < CHUNK_US {
                    duration_us - (k - 1) * CHUNK_US
                } else {
                    CHUNK_US as int
                }));
                assert(previous_end(chunks, k) == k * CHUNK_US);
            }
        }
    }
}

/// Law: a retry keeps a meeting's progress valid. Clearing the saved errors
/// of its chunks, as `retry_start_at` does, moves no chunk and drops no word.
pub proof fn lemma_retry_keeps_progress_valid(s: Session, r: Session)
    requires
        progress_valid(s),
        crate::session::tracks_cleared(r.transcription@, s.transcription@),
        r == (Session {
            status: r.status,
            error: r.error,
            live_transcription_error: r.live_transcription_error,
            ended_at: r.ended_at,
            warnings: r.warnings,
            transcription: r.transcription,
            ..s
        }),
    ensures
        progress_valid(r),
{
    let (rt, st) = (r.transcription@, s.transcription@);
    assert forall|i: int, k: int| 0 <= i < rt.len() && 0 <= k < rt[i].chunks@.len() implies same_place(
        #[trigger] rt[i].chunks@[k],
        st[i].chunks@[k],
    ) && content_ok(rt[i].chunks@[k]) by {
        assert(crate::session::chunk_cleared(rt[i].chunks@[k], st[i].chunks@[k]));
        assert(chunk_ok(s, i, k));
    }
    assert(same_layout(rt, st));
    lemma_relayout_keeps_progress(s, r);
}

/// Section `k` is the capture section numbered `index` of `source`.
pub open spec fn section_is(s: Session, k: int, source: AudioSource, index: u64) -> bool {
    &&& 0 <= k < s.capture_segments@.len()
    &&& s.capture_segments@[k].source == source
    &&& s.capture_segments@[k].index == index
}

pub open spec fn offset_from(start: u64, section_start: u64) -> u64 {
    if start >= section_start {
        (start - section_start) as u64
    } else {
        0
    }
}

/// Where chunk `c` of track `t` lies in the captured audio: the number of its
/// capture section and its offset from the start of the first section listed
/// under that number for the track's source.
pub fn chunk_source(session: &Session, t: usize, c: usize) -> (r: AppResult<(u64, u64)>)
    requires
        t < session.transcription@.len(),
        c < chunks_at(*session, t as int).len(),
    ensures
        ({
            let chunk = chunks_at(*session, t as int)[c as int];
            let source = session.transcription@[t as int].source;
            match chunk.segment_index {
                None => r matches Err(e) && e.code@ == "invalid_transcription"@ && e.message@
                    == "Captured section reference is missing"@,
                Some(index) => if exists|k: int| #[trigger] section_is(*session, k, source, index) {
                    r matches Ok((i, offset)) && i == index && exists|k: int|
                        #[trigger] section_is(*session, k, source, index) && (forall|j: int|
                            0 <= j < k ==> !section_is(*session, j, source, index)) && offset
                            == offset_from(chunk.start_us, session.capture_segments@[k].start_us)
                } else {
                    r matches Err(e) && e.code@ == "invalid_transcription"@ && e.message@
                        == "Captured section metadata is missing"@
                },
            }
        }),
{
    let chunk = &session.transcription[t].chunks[c];
    let source = session.transcription[t].source;
    let index = match chunk.segment_index {
        Some(index) => index,
        None => {
            return Err(
                AppError::new("invalid_transcription", "Captured section reference is missing"),
            );
        },
    };
    let n: usize = session.capture_segments.len();
    let mut k: usize = 0;
    while k < n
        invariant
            n == session.capture_segments@.len(),
            k <= n,
            forall|j: int| 0 <= j < k ==> !section_is(*session, j, source, index),
            t < session.transcription@.len(),
            c < chunks_at(*session, t as int).len(),
            *chunk == chunks_at(*session, t as int)[c as int],
            source == session.transcription@[t as int].source,
            chunk.segment_index == Some(index),
        decreases n - k,
    {
        let section = &session.capture_segments[k];
        if section.source == source && section.index == index {
            let offset: u64 = if chunk.start_us >= section.start_us {
                chunk.start_us - section.start_us
            } else {
                0
            };
            proof {
                assert(section_is(*session, k as int, source, index));
                assert(offset == offset_from(
                    chunk.start_us,
                    session.capture_segments@[k as int].start_us,
                ));
            }
            return Ok((index, offset));
        }
        k = k + 1;
    }
    Err(AppError::new("invalid_transcription", "Captured section metadata is missing"))
}

/// How a pass over the waiting sections ends once none is left: while the
/// meeting records, more sections may come and the pass succeeds; after
/// that, the first failure seen fails it.
pub fn live_pass_result(status: SessionStatus, first_error: Option<AppError>) -> (r: AppResult<()>)
    ensures
        status == SessionStatus::Recording ==> r is Ok,
        status != SessionStatus::Recording ==> match first_error {
            None => r is Ok,
            Some(e) => r == Err::<(), AppError>(e),
        },
{
    if status == SessionStatus::Recording {
        Ok(())
    } else {
        match first_error {
            None => Ok(()),
            Some(e) => Err(e),
        }
    }
}

/// Microseconds that `frames` frames last at `sample_rate` frames a second,
/// rounded down and saturating; zero at a rate of zero.
pub open spec fn frames_duration_us(frames: u64, sample_rate: u32) -> int {
    if sample_rate == 0 {
        0
    } else {
        let d = frames * 1_000_000 / (sample_rate as int);
        if d > u64::MAX {
            u64::MAX as int
        } else {
            d
        }
    }
}

pub fn duration_us(frames: u64, sample_rate: u32) -> (d: u64)
    ensures
        d == frames_duration_us(frames, sample_rate),
{
    if sample_rate == 0 {
        return 0;
    }
    proof {
        assert((frames as int) * 1_000_000 <= 0xffff_ffff_ffff_ffffint * 1_000_000)
            by (nonlinear_arith)
            requires
                frames <= 0xffff_ffff_ffff_ffffu64,
        ;
    }
    let product: u128 = (frames as u128) * 1_000_000;
    let scaled: u128 = product / (sample_rate as u128);
    if scaled > 0xffff_ffff_ffff_ffffu128 {
        0xffff_ffff_ffff_ffffu64
    } else {
        scaled as u64
    }
}

/// Before notes are generated the meeting gives up its source audio: it no
/// longer points at either file. `None` when it pointed at neither and
/// nothing changes.
pub fn release_retained_audio(session: Session) -> (r: Option<Session>)
    ensures
        session.audio_path is None && session.microphone_audio_path is None ==> r is None,
        session.audio_path is Some || session.microphone_audio_path is Some ==> r == Some(
            Session { audio_path: None, microphone_audio_path: None, ..session },
        ),
{
    if session.audio_path.is_none() && session.microphone_audio_path.is_none() {
        return None;
    }
    let mut session = session;
    session.audio_path = None;
    session.microphone_audio_path = None;
    Some(session)
}

/// Law: when the service refuses an upload because it cannot read the audio
/// (HTTP 400 naming the file, or a reason that speaks of the audio file or
/// invalid audio, with no key, access, quota or size problem), the failure
/// stays with that audio: while sections are uploaded it is saved on the
/// section's chunk and the other sections go on, and for a whole recorded
/// source the other source is still transcribed.
pub proof fn lemma_unreadable_upload_is_contained(
    status: int,
    api_code: Seq<char>,
    param: Seq<char>,
    reason: Seq<char>,
)
    requires
        status == 400,
        param == "file"@ || contains(reason, "audio file"@) || contains(reason, "invalid audio"@),
        api_code != "invalid_api_key"@,
        api_code != "model_not_found"@,
        api_code != "permission_denied"@,
        api_code != "insufficient_quota"@,
        api_code != "context_length_exceeded"@,
        !contains(reason, "maximum content size"@),
    ensures
        failure_code(status, api_code, param, reason) == "invalid_audio"@,
        checkpointed_chunk_error(failure_code(status, api_code, param, reason)),
        recoverable_source_error(failure_code(status, api_code, param, reason)),
{
}

/// Law: a transcription that reached the service's output limit is saved as
/// that chunk's failure while sections are uploaded, and leaves the other
/// source to be transcribed for a whole recorded source; so does any failure
/// classified as unreadable audio, whatever its message.
pub proof fn lemma_audio_failures_stay_local(e: AppError)
    requires
        e.code@ == "invalid_audio"@ || e.code@ == "transcription_too_long"@,
    ensures
        checkpointed_chunk_error(e.code@),
        recoverable_source_error(e.code@),
{
}

} // verus!
