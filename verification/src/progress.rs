//! The shape a saved meeting's transcription progress must have before it
//! is trusted: capture sections that do not clash, chunks that follow one
//! another inside their section, and speaker turns that fit their chunk.
//! Times are microseconds; neighbouring times may differ by one microsecond.
use vstd::prelude::*;

use crate::error::{AppError, AppResult};
use crate::session::{AudioSource, CaptureSegment, Session, SourceTranscript, TranscriptChunk};
use crate::settings::TranscriptionSettings;
use crate::transcript::{segments_valid, validate_transcript_segments};

verus! {

/// Two sections of one source share an index or overlap by more than a microsecond.
pub open spec fn sections_clash(a: CaptureSegment, b: CaptureSegment) -> bool {
    a.source == b.source && (a.index == b.index || (a.start_us + 1 < b.start_us + b.duration_us
        && b.start_us + 1 < a.start_us + a.duration_us))
}

/// Section `k` is well formed and clashes with no earlier section.
pub open spec fn section_ok(s: Session, k: int) -> bool {
    let g = s.capture_segments@[k];
    &&& s.segmented_capture
    &&& g.index <= 99_999_999
    &&& g.duration_us > 0
    &&& g.start_us + g.duration_us <= u64::MAX
    &&& forall|j: int| 0 <= j < k ==> !sections_clash(#[trigger] s.capture_segments@[j], g)
}

/// The end of the chunk before chunk `c` of a track; zero for the first.
pub open spec fn previous_end(chunks: Seq<TranscriptChunk>, c: int) -> int {
    if c == 0 {
        0
    } else {
        chunks[c - 1].start_us + chunks[c - 1].duration_us
    }
}

pub open spec fn abs_diff(a: int, b: int) -> int {
    if a >= b {
        a - b
    } else {
        b - a
    }
}

/// The chunk lies inside a saved section of its source and index.
pub open spec fn inside_section(s: Session, source: AudioSource, chunk: TranscriptChunk, i: u64) -> bool {
    exists|k: int|
        0 <= k < s.capture_segments@.len() && (#[trigger] s.capture_segments@[k]).source == source
            && s.capture_segments@[k].index == i && chunk.start_us + 1 >= s.capture_segments@[k].start_us
            && chunk.start_us + chunk.duration_us <= s.capture_segments@[k].start_us
            + s.capture_segments@[k].duration_us + 1
}

/// Chunk `c` of track `t` is well formed.
pub open spec fn chunk_ok(s: Session, t: int, c: int) -> bool {
    let track = s.transcription@[t];
    let chunks = track.chunks@;
    let chunk = chunks[c];
    &&& chunk.duration_us > 0
    &&& chunk.duration_us <= 300_000_000
    &&& if s.segmented_capture {
        chunk.start_us + 1 >= previous_end(chunks, c)
    } else {
        abs_diff(chunk.start_us as int, previous_end(chunks, c)) <= 1
    }
    &&& match chunk.segment_index {
        Some(i) => inside_section(s, track.source, chunk, i),
        None => !s.segmented_capture,
    }
    &&& !(chunk.error is Some && chunk.transcript is Some)
    &&& chunk.segments@.len() != 0 ==> chunk.transcript is Some && segments_valid(
        chunk.segments@,
        chunk.duration_us as int,
    )
}

/// Walks the chunks of section `index` in order from `end`, each starting
/// within a microsecond of where the previous one ended; `None` on a gap.
pub open spec fn chunks_walk(cs: Seq<TranscriptChunk>, index: u64, end: int) -> Option<int>
    decreases cs.len(),
{
    if cs.len() == 0 {
        Some(end)
    } else {
        match chunks_walk(cs.drop_last(), index, end) {
            None => None,
            Some(e) => {
                let c = cs.last();
                if c.segment_index == Some(index) {
                    if abs_diff(c.start_us as int, e) > 1 {
                        None
                    } else {
                        Some(c.start_us + c.duration_us)
                    }
                } else {
                    Some(e)
                }
            },
        }
    }
}

/// `chunks_walk` over every track of `source`, in saved order.
pub open spec fn tracks_walk(ts: Seq<SourceTranscript>, source: AudioSource, index: u64, end: int) -> Option<
    int,
>
    decreases ts.len(),
{
    if ts.len() == 0 {
        Some(end)
    } else {
        match tracks_walk(ts.drop_last(), source, index, end) {
            None => None,
            Some(e) => if ts.last().source == source {
                chunks_walk(ts.last().chunks@, index, e)
            } else {
                Some(e)
            },
        }
    }
}

/// The chunks of section `k` cover it from start to end without gaps.
pub open spec fn section_covered(s: Session, k: int) -> bool {
    let g = s.capture_segments@[k];
    match tracks_walk(s.transcription@, g.source, g.index, g.start_us as int) {
        Some(e) => abs_diff(e, g.start_us + g.duration_us) <= 1,
        None => false,
    }
}

/// The saved transcription progress of a meeting may be trusted.
pub open spec fn progress_valid(s: Session) -> bool {
    &&& forall|k: int| 0 <= k < s.capture_segments@.len() ==> section_ok(s, k)
    &&& forall|t: int, u: int|
        0 <= u < t < s.transcription@.len() ==> (#[trigger] s.transcription@[u]).source
            != (#[trigger] s.transcription@[t]).source
    &&& forall|t: int, c: int|
        0 <= t < s.transcription@.len() && 0 <= c < s.transcription@[t].chunks@.len() ==> #[trigger] chunk_ok(
            s,
            t,
            c,
        )
    &&& forall|k: int| 0 <= k < s.capture_segments@.len() ==> #[trigger] section_covered(s, k)
}

fn invalid_progress() -> (e: AppError)
    ensures
        e.code@ == "invalid_transcription"@,
        e.message@ == "Saved transcription progress is invalid. Your meeting files were kept."@,
{
    AppError::new(
        "invalid_transcription",
        "Saved transcription progress is invalid. Your meeting files were kept.",
    )
}

fn check_sections(s: &Session) -> (r: AppResult<()>)
    ensures
        r is Ok <==> forall|k: int| 0 <= k < s.capture_segments@.len() ==> section_ok(*s, k),
        r matches Err(e) ==> e.code@ == "invalid_transcription"@ && e.message@
            == "Saved transcription progress is invalid. Your meeting files were kept."@,
{
    let segs = &s.capture_segments;
    let n: usize = segs.len();
    let mut k: usize = 0;
    while k < n
        invariant
            segs == &s.capture_segments,
            n == segs@.len(),
            k <= n,
            forall|q: int| 0 <= q < k ==> section_ok(*s, q),
        decreases n - k,
    {
        let g = &segs[k];
        if !s.segmented_capture || g.index > 99_999_999 || g.duration_us == 0 || g.start_us
            > u64::MAX - g.duration_us {
            proof {
                assert(!section_ok(*s, k as int));
            }
            return Err(invalid_progress());
        }
        let mut j: usize = 0;
        while j < k
            invariant
                segs == &s.capture_segments,
                n == segs@.len(),
                j <= k,
                k < n,
                g == &segs@[k as int],
                forall|q: int| 0 <= q < j ==> !sections_clash(#[trigger] segs@[q], *g),
            decreases k - j,
        {
            let o = &segs[j];
            if o.source == g.source && (o.index == g.index || ((o.start_us as u128) + 1
                < (g.start_us as u128) + (g.duration_us as u128) && (g.start_us as u128) + 1 < (
            o.start_us as u128) + (o.duration_us as u128))) {
                proof {
                    assert(sections_clash(segs@[j as int], *g));
                    assert(!section_ok(*s, k as int));
                }
                return Err(invalid_progress());
            }
            j = j + 1;
        }
        k = k + 1;
    }
    Ok(())
}

/// The position of the saved section of `source` and `index`, if any.
fn find_section(s: &Session, source: AudioSource, index: u64) -> (r: Option<usize>)
    ensures
        r matches Some(k) ==> k < s.capture_segments@.len() && s.capture_segments@[k as int].source
            == source && s.capture_segments@[k as int].index == index,
        r is None ==> forall|k: int|
            0 <= k < s.capture_segments@.len() ==> !((#[trigger] s.capture_segments@[k]).source
                == source && s.capture_segments@[k].index == index),
{
    let n: usize = s.capture_segments.len();
    let mut k: usize = 0;
    while k < n
        invariant
            n == s.capture_segments@.len(),
            k <= n,
            forall|q: int|
                0 <= q < k ==> !((#[trigger] s.capture_segments@[q]).source == source
                    && s.capture_segments@[q].index == index),
        decreases n - k,
    {
        if s.capture_segments[k].source == source && s.capture_segments[k].index == index {
            return Some(k);
        }
        k = k + 1;
    }
    None
}

pub open spec fn progress_error(e: AppError) -> bool {
    e.code@ == "invalid_transcription"@ && (e.message@
        == "Saved transcription progress is invalid. Your meeting files were kept."@ || e.message@
        == "Speaker timestamps are invalid. Your audio and saved progress were kept."@)
}

fn check_chunk(s: &Session, t: usize, c: usize) -> (r: AppResult<()>)
    requires
        t < s.transcription@.len(),
        c < s.transcription@[t as int].chunks@.len(),
        forall|k: int| 0 <= k < s.capture_segments@.len() ==> section_ok(*s, k),
    ensures
        r is Ok <==> chunk_ok(*s, t as int, c as int),
        r matches Err(e) ==> progress_error(e),
{
    let track = &s.transcription[t];
    let chunks = &track.chunks;
    let chunk = &chunks[c];
    let prev: u128 = if c == 0 {
        0
    } else {
        chunks[c - 1].start_us as u128 + chunks[c - 1].duration_us as u128
    };
    let start = chunk.start_us as u128;
    if chunk.duration_us == 0 || chunk.duration_us > 300_000_000 {
        return Err(invalid_progress());
    }
    let placed = if s.segmented_capture {
        start + 1 >= prev
    } else if start >= prev {
        start - prev <= 1
    } else {
        prev - start <= 1
    };
    if !placed {
        return Err(invalid_progress());
    }
    match chunk.segment_index {
        Some(i) => {
            match find_section(s, track.source, i) {
                None => {
                    return Err(invalid_progress());
                },
                Some(k) => {
                    let g = &s.capture_segments[k];
                    proof {
                        assert forall|q: int|
                            0 <= q < s.capture_segments@.len() && (#[trigger] s.capture_segments@[q]).source
                                == track.source && s.capture_segments@[q].index == i implies q
                            == k by {
                            if q < k {
                                assert(section_ok(*s, k as int));
                                assert(sections_clash(s.capture_segments@[q], s.capture_segments@[k as int]));
                            } else if q > k {
                                assert(section_ok(*s, q));
                                assert(sections_clash(s.capture_segments@[k as int], s.capture_segments@[q]));
                            }
                        }
                    }
                    if start + 1 < g.start_us as u128 || start + chunk.duration_us as u128
                        > g.start_us as u128 + g.duration_us as u128 + 1 {
                        return Err(invalid_progress());
                    }
                },
            }
        },
        None => {
            if s.segmented_capture {
                return Err(invalid_progress());
            }
        },
    }
    if chunk.error.is_some() && chunk.transcript.is_some() {
        return Err(invalid_progress());
    }
    if chunk.segments.len() != 0 {
        if chunk.transcript.is_none() {
            return Err(invalid_progress());
        }
        validate_transcript_segments(&chunk.segments, chunk.duration_us)?;
    }
    Ok(())
}

fn check_tracks(s: &Session) -> (r: AppResult<()>)
    requires
        forall|k: int| 0 <= k < s.capture_segments@.len() ==> section_ok(*s, k),
    ensures
        r is Ok <==> {
            &&& forall|t: int, u: int|
                0 <= u < t < s.transcription@.len() ==> (#[trigger] s.transcription@[u]).source
                    != (#[trigger] s.transcription@[t]).source
            &&& forall|t: int, c: int|
                0 <= t < s.transcription@.len() && 0 <= c < s.transcription@[t].chunks@.len()
                    ==> #[trigger] chunk_ok(*s, t, c)
        },
        r matches Err(e) ==> progress_error(e),
{
    let n: usize = s.transcription.len();
    let mut t: usize = 0;
    while t < n
        invariant
            n == s.transcription@.len(),
            t <= n,
            forall|k: int| 0 <= k < s.capture_segments@.len() ==> section_ok(*s, k),
            forall|a: int, u: int|
                0 <= u < a < t ==> (#[trigger] s.transcription@[u]).source
                    != (#[trigger] s.transcription@[a]).source,
            forall|a: int, c: int|
                0 <= a < t && 0 <= c < s.transcription@[a].chunks@.len() ==> #[trigger] chunk_ok(
                    *s,
                    a,
                    c,
                ),
        decreases n - t,
    {
        let mut u: usize = 0;
        while u < t
            invariant
                n == s.transcription@.len(),
                u <= t,
                t < n,
                forall|q: int|
                    0 <= q < u ==> (#[trigger] s.transcription@[q]).source != s.transcription@[t as int].source,
            decreases t - u,
        {
            if s.transcription[u].source == s.transcription[t].source {
                return Err(invalid_progress());
            }
            u = u + 1;
        }
        let m: usize = s.transcription[t].chunks.len();
        let mut c: usize = 0;
        while c < m
            invariant
                n == s.transcription@.len(),
                t < n,
                m == s.transcription@[t as int].chunks@.len(),
                c <= m,
                forall|k: int| 0 <= k < s.capture_segments@.len() ==> section_ok(*s, k),
                forall|q: int| 0 <= q < c ==> #[trigger] chunk_ok(*s, t as int, q),
            decreases m - c,
        {
            check_chunk(s, t, c)?;
            c = c + 1;
        }
        t = t + 1;
    }
    Ok(())
}

proof fn lemma_chunks_walk_step(cs: Seq<TranscriptChunk>, index: u64, end: int, j: int)
    requires
        0 <= j < cs.len(),
    ensures
        chunks_walk(cs.take(j + 1), index, end) == match chunks_walk(cs.take(j), index, end) {
            None => None,
            Some(e) => if cs[j].segment_index == Some(index) {
                if abs_diff(cs[j].start_us as int, e) > 1 {
                    None
                } else {
                    Some(cs[j].start_us + cs[j].duration_us)
                }
            } else {
                Some(e)
            },
        },
{
    assert(cs.take(j + 1).drop_last() =~= cs.take(j));
}

proof fn lemma_chunks_walk_none(cs: Seq<TranscriptChunk>, index: u64, end: int, j: int)
    requires
        0 <= j <= cs.len(),
        chunks_walk(cs.take(j), index, end) is None,
    ensures
        chunks_walk(cs, index, end) is None,
    decreases cs.len() - j,
{
    if j < cs.len() {
        lemma_chunks_walk_step(cs, index, end, j);
        lemma_chunks_walk_none(cs, index, end, j + 1);
    } else {
        assert(cs.take(j) =~= cs);
    }
}

proof fn lemma_tracks_walk_step(ts: Seq<SourceTranscript>, source: AudioSource, index: u64, end: int, j: int)
    requires
        0 <= j < ts.len(),
    ensures
        tracks_walk(ts.take(j + 1), source, index, end) == match tracks_walk(
            ts.take(j),
            source,
            index,
            end,
        ) {
            None => None,
            Some(e) => if ts[j].source == source {
                chunks_walk(ts[j].chunks@, index, e)
            } else {
                Some(e)
            },
        },
{
    assert(ts.take(j + 1).drop_last() =~= ts.take(j));
}

proof fn lemma_tracks_walk_none(ts: Seq<SourceTranscript>, source: AudioSource, index: u64, end: int, j: int)
    requires
        0 <= j <= ts.len(),
        tracks_walk(ts.take(j), source, index, end) is None,
    ensures
        tracks_walk(ts, source, index, end) is None,
    decreases ts.len() - j,
{
    if j < ts.len() {
        lemma_tracks_walk_step(ts, source, index, end, j);
        lemma_tracks_walk_none(ts, source, index, end, j + 1);
    } else {
        assert(ts.take(j) =~= ts);
    }
}

/// Where the chunks of section `index` end when walked from `end` through
/// one track's chunks; `None` on a gap.
fn walk_chunks(chunks: &Vec<TranscriptChunk>, index: u64, end: u128) -> (r: Option<u128>)
    requires
        end <= 2 * (u64::MAX as int),
    ensures
        match r {
            Some(e) => chunks_walk(chunks@, index, end as int) == Some(e as int) && e <= 2 * (
            u64::MAX as int),
            None => chunks_walk(chunks@, index, end as int) is None,
        },
{
    let n: usize = chunks.len();
    let mut e: u128 = end;
    let mut j: usize = 0;
    proof {
        assert(chunks@.take(0) =~= Seq::<TranscriptChunk>::empty());
    }
    while j < n
        invariant
            n == chunks@.len(),
            j <= n,
            e <= 2 * (u64::MAX as int),
            chunks_walk(chunks@.take(j as int), index, end as int) == Some(e as int),
        decreases n - j,
    {
        let c = &chunks[j];
        proof {
            lemma_chunks_walk_step(chunks@, index, end as int, j as int);
        }
        if c.segment_index == Some(index) {
            let start = c.start_us as u128;
            let gap = if start >= e {
                start - e > 1
            } else {
                e - start > 1
            };
            if gap {
                proof {
                    lemma_chunks_walk_none(chunks@, index, end as int, j as int + 1);
                }
                return None;
            }
            e = start + c.duration_us as u128;
        }
        j = j + 1;
    }
    proof {
        assert(chunks@.take(n as int) =~= chunks@);
    }
    Some(e)
}

fn check_coverage(s: &Session) -> (r: AppResult<()>)
    ensures
        r is Ok <==> forall|k: int| 0 <= k < s.capture_segments@.len() ==> #[trigger] section_covered(*s, k),
        r matches Err(e) ==> progress_error(e),
{
    let n: usize = s.capture_segments.len();
    let mut k: usize = 0;
    while k < n
        invariant
            n == s.capture_segments@.len(),
            k <= n,
            forall|q: int| 0 <= q < k ==> #[trigger] section_covered(*s, q),
        decreases n - k,
    {
        let g = &s.capture_segments[k];
        let ts = &s.transcription;
        let m: usize = ts.len();
        let mut e: u128 = g.start_us as u128;
        let mut j: usize = 0;
        proof {
            assert(ts@.take(0) =~= Seq::<SourceTranscript>::empty());
        }
        while j < m
            invariant
                n == s.capture_segments@.len(),
                k < n,
                g == &s.capture_segments@[k as int],
                ts == &s.transcription,
                m == ts@.len(),
                j <= m,
                e <= 2 * (u64::MAX as int),
                tracks_walk(ts@.take(j as int), g.source, g.index, g.start_us as int) == Some(e as int),
            decreases m - j,
        {
            proof {
                lemma_tracks_walk_step(ts@, g.source, g.index, g.start_us as int, j as int);
            }
            if ts[j].source == g.source {
                match walk_chunks(&ts[j].chunks, g.index, e) {
                    Some(next) => {
                        e = next;
                    },
                    None => {
                        proof {
                            lemma_tracks_walk_none(ts@, g.source, g.index, g.start_us as int, j as int + 1);
                            assert(!section_covered(*s, k as int));
                        }
                        return Err(invalid_progress());
                    },
                }
            }
            j = j + 1;
        }
        proof {
            assert(ts@.take(m as int) =~= ts@);
        }
        let target = g.start_us as u128 + g.duration_us as u128;
        let off = if e >= target {
            e - target > 1
        } else {
            target - e > 1
        };
        if off {
            proof {
                assert(!section_covered(*s, k as int));
            }
            return Err(invalid_progress());
        }
        k = k + 1;
    }
    Ok(())
}

/// Checks a meeting read from storage: its transcription settings, then
/// its saved transcription progress.
pub fn validate_transcription(session: &Session) -> (r: AppResult<()>)
    ensures
        r is Ok <==> session.transcription_settings.valid() && progress_valid(*session),
        !session.transcription_settings.valid() ==> (r matches Err(e) && e.code@
            == "invalid_transcription_settings"@ && e.message@
            == session.transcription_settings.first_problem()),
        session.transcription_settings.valid() && !progress_valid(*session) ==> (r matches Err(e)
            && progress_error(e)),
{
    session.transcription_settings.validate()?;
    check_sections(session)?;
    check_tracks(session)?;
    check_coverage(session)?;
    Ok(())
}

/// Two chunks stand for the same piece of audio: same start, duration and section.
pub open spec fn same_place(x: TranscriptChunk, y: TranscriptChunk) -> bool {
    &&& x.start_us == y.start_us
    &&& x.duration_us == y.duration_us
    &&& x.segment_index == y.segment_index
}

/// Two lists of tracks cut the same audio the same way: same sources, and
/// chunk by chunk the same places.
pub open spec fn same_layout(a: Seq<SourceTranscript>, b: Seq<SourceTranscript>) -> bool {
    &&& a.len() == b.len()
    &&& forall|t: int|
        0 <= t < a.len() ==> (#[trigger] a[t]).source == b[t].source && a[t].chunks@.len()
            == b[t].chunks@.len()
    &&& forall|t: int, c: int|
        0 <= t < a.len() && 0 <= c < a[t].chunks@.len() ==> same_place(
            #[trigger] a[t].chunks@[c],
            b[t].chunks@[c],
        )
}

/// What a chunk holds is consistent: no saved error beside saved words, and
/// speaker turns only with words and fitting the chunk.
pub open spec fn content_ok(chunk: TranscriptChunk) -> bool {
    &&& !(chunk.error is Some && chunk.transcript is Some)
    &&& chunk.segments@.len() != 0 ==> chunk.transcript is Some && segments_valid(
        chunk.segments@,
        chunk.duration_us as int,
    )
}

proof fn lemma_chunks_walk_same(a: Seq<TranscriptChunk>, b: Seq<TranscriptChunk>, index: u64, end: int)
    requires
        a.len() == b.len(),
        forall|c: int| 0 <= c < a.len() ==> same_place(#[trigger] a[c], b[c]),
    ensures
        chunks_walk(a, index, end) == chunks_walk(b, index, end),
    decreases a.len(),
{
    if a.len() > 0 {
        assert forall|c: int| 0 <= c < a.drop_last().len() implies same_place(
            #[trigger] a.drop_last()[c],
            b.drop_last()[c],
        ) by {
            assert(same_place(a[c], b[c]));
        }
        lemma_chunks_walk_same(a.drop_last(), b.drop_last(), index, end);
        assert(same_place(a[a.len() - 1], b[b.len() - 1]));
    }
}

proof fn lemma_tracks_walk_same(
    a: Seq<SourceTranscript>,
    b: Seq<SourceTranscript>,
    source: AudioSource,
    index: u64,
    end: int,
)
    requires
        same_layout(a, b),
    ensures
        tracks_walk(a, source, index, end) == tracks_walk(b, source, index, end),
    decreases a.len(),
{
    if a.len() > 0 {
        let (ad, bd) = (a.drop_last(), b.drop_last());
        assert forall|t: int| 0 <= t < ad.len() implies (#[trigger] ad[t]).source == bd[t].source
            && ad[t].chunks@.len() == bd[t].chunks@.len() by {
            assert(a[t].source == b[t].source);
        }
        assert forall|t: int, c: int| 0 <= t < ad.len() && 0 <= c < ad[t].chunks@.len() implies same_place(
            #[trigger] ad[t].chunks@[c],
            bd[t].chunks@[c],
        ) by {
            assert(same_place(a[t].chunks@[c], b[t].chunks@[c]));
        }
        lemma_tracks_walk_same(ad, bd, source, index, end);
        let last = a.len() - 1;
        assert(a[last].source == b[last].source);
        assert forall|c: int| 0 <= c < a[last].chunks@.len() implies same_place(
            #[trigger] a[last].chunks@[c],
            b[last].chunks@[c],
        ) by {
            assert(same_place(a[last].chunks@[c], b[last].chunks@[c]));
        }
        match tracks_walk(ad, source, index, end) {
            Some(e) => {
                lemma_chunks_walk_same(a[last].chunks@, b[last].chunks@, index, e);
            },
            None => {},
        }
    }
}

/// Law: whether saved progress may be trusted depends only on where its
/// chunks lie and on what each chunk holds. A meeting with valid progress
/// whose chunks keep their places, whose sections stay as they were, and
/// whose every chunk holds consistent content, has valid progress.
pub proof fn lemma_relayout_keeps_progress(s: Session, r: Session)
    requires
        progress_valid(s),
        r.capture_segments == s.capture_segments,
        r.segmented_capture == s.segmented_capture,
        same_layout(r.transcription@, s.transcription@),
        forall|t: int, c: int|
            0 <= t < r.transcription@.len() && 0 <= c < r.transcription@[t].chunks@.len()
                ==> content_ok(#[trigger] r.transcription@[t].chunks@[c]),
    ensures
        progress_valid(r),
{
    let (rt, st) = (r.transcription@, s.transcription@);
    assert forall|k: int| 0 <= k < r.capture_segments@.len() implies section_ok(r, k) by {
        assert(section_ok(s, k));
    }
    assert forall|t: int, u: int| 0 <= u < t < rt.len() implies (#[trigger] rt[u]).source
        != (#[trigger] rt[t]).source by {
        assert(st[u].source != st[t].source);
    }
    assert forall|t: int, c: int| 0 <= t < rt.len() && 0 <= c < rt[t].chunks@.len() implies #[trigger] chunk_ok(
        r,
        t,
        c,
    ) by {
        assert(chunk_ok(s, t, c));
        assert(same_place(rt[t].chunks@[c], st[t].chunks@[c]));
        assert(content_ok(rt[t].chunks@[c]));
        if c > 0 {
            assert(same_place(rt[t].chunks@[c - 1], st[t].chunks@[c - 1]));
        }
        let chunk = rt[t].chunks@[c];
        match chunk.segment_index {
            Some(i) => {
                let k = choose|k: int|
                    0 <= k < s.capture_segments@.len() && (#[trigger] s.capture_segments@[k]).source
                        == st[t].source && s.capture_segments@[k].index == i && st[t].chunks@[c].start_us
                        + 1 >= s.capture_segments@[k].start_us && st[t].chunks@[c].start_us
                        + st[t].chunks@[c].duration_us <= s.capture_segments@[k].start_us
                        + s.capture_segments@[k].duration_us + 1;
                assert(r.capture_segments@[k] == s.capture_segments@[k]);
                assert(inside_section(r, rt[t].source, chunk, i));
            },
            None => {},
        }
    }
    assert forall|k: int| 0 <= k < r.capture_segments@.len() implies #[trigger] section_covered(r, k) by {
        assert(section_covered(s, k));
        let g = s.capture_segments@[k];
        lemma_tracks_walk_same(rt, st, g.source, g.index, g.start_us as int);
    }
}

/// Walking two lists of chunks one after the other is walking the first,
/// then the second from where the first ended.
pub proof fn lemma_chunks_walk_append(a: Seq<TranscriptChunk>, b: Seq<TranscriptChunk>, index: u64, end: int)
    ensures
        chunks_walk(a + b, index, end) == match chunks_walk(a, index, end) {
            Some(e) => chunks_walk(b, index, e),
            None => None::<int>,
        },
    decreases b.len(),
{
    if b.len() == 0 {
        assert(a + b =~= a);
    } else {
        lemma_chunks_walk_append(a, b.drop_last(), index, end);
        assert((a + b).drop_last() =~= a + b.drop_last());
        assert((a + b).last() == b.last());
    }
}

/// Tracks whose chunk walks agree, from every start and for every section,
/// walk alike.
pub proof fn lemma_tracks_walk_same_walks(
    a: Seq<SourceTranscript>,
    b: Seq<SourceTranscript>,
    source: AudioSource,
    index: u64,
    end: int,
)
    requires
        a.len() == b.len(),
        forall|t: int| 0 <= t < a.len() ==> (#[trigger] a[t]).source == b[t].source,
        forall|t: int, e: int|
            0 <= t < a.len() ==> #[trigger] chunks_walk(a[t].chunks@, index, e) == chunks_walk(
                b[t].chunks@,
                index,
                e,
            ),
    ensures
        tracks_walk(a, source, index, end) == tracks_walk(b, source, index, end),
    decreases a.len(),
{
    if a.len() > 0 {
        let (ad, bd) = (a.drop_last(), b.drop_last());
        assert forall|t: int| 0 <= t < ad.len() implies (#[trigger] ad[t]).source == bd[t].source by {
            assert(a[t].source == b[t].source);
        }
        assert forall|t: int, e: int| 0 <= t < ad.len() implies #[trigger] chunks_walk(
            ad[t].chunks@,
            index,
            e,
        ) == chunks_walk(bd[t].chunks@, index, e) by {
            assert(chunks_walk(a[t].chunks@, index, e) == chunks_walk(b[t].chunks@, index, e));
        }
        lemma_tracks_walk_same_walks(ad, bd, source, index, end);
        let last = a.len() - 1;
        assert(a[last].source == b[last].source);
        match tracks_walk(ad, source, index, end) {
            Some(e) => {
                assert(chunks_walk(a[last].chunks@, index, e) == chunks_walk(b[last].chunks@, index, e));
            },
            None => {},
        }
    }
}

/// Law: trusted progress has the shape that processing relies on. No two
/// tracks share a source; every chunk lasts more than nothing and at most
/// five minutes; sections exist only for sectioned capture and no two of
/// one source share a number. Sectioned, every chunk names a saved section
/// and lies inside it (within a microsecond); otherwise no chunk names a
/// section and each track's chunks follow one another from the start.
pub proof fn lemma_valid_progress_shape(s: Session)
    requires
        progress_valid(s),
    ensures
        forall|t: int, u: int|
            0 <= u < s.transcription@.len() && 0 <= t < s.transcription@.len() && u != t
                ==> (#[trigger] s.transcription@[u]).source != (#[trigger] s.transcription@[t]).source,
        forall|t: int, c: int|
            0 <= t < s.transcription@.len() && 0 <= c < s.transcription@[t].chunks@.len() ==> {
                let chunk = #[trigger] s.transcription@[t].chunks@[c];
                &&& 0 < chunk.duration_us <= 300_000_000
                &&& s.segmented_capture ==> (chunk.segment_index matches Some(i) && inside_section(
                    s,
                    s.transcription@[t].source,
                    chunk,
                    i,
                ))
                &&& !s.segmented_capture ==> chunk.segment_index is None && abs_diff(
                    chunk.start_us as int,
                    previous_end(s.transcription@[t].chunks@, c),
                ) <= 1
            },
        s.capture_segments@.len() > 0 ==> s.segmented_capture,
        forall|j: int, k: int|
            0 <= j < s.capture_segments@.len() && 0 <= k < s.capture_segments@.len() && j != k
                ==> !((#[trigger] s.capture_segments@[j]).source == (#[trigger] s.capture_segments@[k]).source
                && s.capture_segments@[j].index == s.capture_segments@[k].index),
        forall|k: int| 0 <= k < s.capture_segments@.len() ==> #[trigger] section_covered(s, k),
{
    assert forall|t: int, u: int|
        0 <= u < s.transcription@.len() && 0 <= t < s.transcription@.len() && u != t
            implies (#[trigger] s.transcription@[u]).source != (#[trigger] s.transcription@[t]).source by {
        if u > t {
            assert(s.transcription@[t].source != s.transcription@[u].source);
        }
    }
    if s.capture_segments@.len() > 0 {
        assert(section_ok(s, 0));
    }
    assert forall|t: int, c: int|
        0 <= t < s.transcription@.len() && 0 <= c < s.transcription@[t].chunks@.len() implies {
            let chunk = #[trigger] s.transcription@[t].chunks@[c];
            &&& 0 < chunk.duration_us <= 300_000_000
            &&& s.segmented_capture ==> (chunk.segment_index matches Some(i) && inside_section(
                s,
                s.transcription@[t].source,
                chunk,
                i,
            ))
            &&& !s.segmented_capture ==> chunk.segment_index is None && abs_diff(
                chunk.start_us as int,
                previous_end(s.transcription@[t].chunks@, c),
            ) <= 1
        } by {
        assert(chunk_ok(s, t, c));
        let chunk = s.transcription@[t].chunks@[c];
        if !s.segmented_capture {
            if let Some(i) = chunk.segment_index {
                assert(inside_section(s, s.transcription@[t].source, chunk, i));
                let k = choose|k: int|
                    0 <= k < s.capture_segments@.len() && (#[trigger] s.capture_segments@[k]).source
                        == s.transcription@[t].source && s.capture_segments@[k].index == i
                        && chunk.start_us + 1 >= s.capture_segments@[k].start_us && chunk.start_us
                        + chunk.duration_us <= s.capture_segments@[k].start_us
                        + s.capture_segments@[k].duration_us + 1;
                assert(section_ok(s, k));
            }
        }
    }
    assert forall|j: int, k: int|
        0 <= j < s.capture_segments@.len() && 0 <= k < s.capture_segments@.len() && j != k
            implies !((#[trigger] s.capture_segments@[j]).source == (#[trigger] s.capture_segments@[k]).source
            && s.capture_segments@[j].index == s.capture_segments@[k].index) by {
        if j < k {
            assert(section_ok(s, k));
            assert(!sections_clash(s.capture_segments@[j], s.capture_segments@[k]));
        } else {
            assert(section_ok(s, j));
            assert(!sections_clash(s.capture_segments@[k], s.capture_segments@[j]));
        }
    }
}

} // verus!
