//! Finalized capture sections become saved sections and pending chunks:
//! each new section is recorded once, cut into five-minute windows, and the
//! windows join its source's chunks in start order.
use vstd::prelude::*;

use crate::order::{insert_by, lemma_insert_by_at, lemma_sort_by_step, sort_by};
use crate::processing::{chunks_at, CHUNK_US};
use crate::recorder::CapturedSegment;
use crate::session::{
    add_warning, find_track, has_track, views, with_warning, AudioSource, CaptureSegment, Session,
    SourceTranscript, TranscriptChunk,
};

verus! {

/// A saved section has the source and index of `g`.
pub open spec fn saved_section(saved: Seq<CaptureSegment>, g: CapturedSegment) -> bool {
    exists|k: int| 0 <= k < saved.len() && (#[trigger] saved[k]).source == g.source && saved[k].index == g.index
}

pub open spec fn listed_section(prev: Seq<CapturedSegment>, g: CapturedSegment) -> bool {
    exists|k: int| 0 <= k < prev.len() && (#[trigger] prev[k]).source == g.source && prev[k].index == g.index
}

/// The sections of a batch not saved before, each source and index once,
/// in batch order.
pub open spec fn added_sections(saved: Seq<CaptureSegment>, batch: Seq<CapturedSegment>) -> Seq<
    CapturedSegment,
>
    decreases batch.len(),
{
    if batch.len() == 0 {
        Seq::empty()
    } else {
        let prev = added_sections(saved, batch.drop_last());
        let g = batch.last();
        if saved_section(saved, g) || listed_section(prev, g) {
            prev
        } else {
            prev.push(g)
        }
    }
}

/// The saved form of a captured section.
pub open spec fn section_of(g: CapturedSegment) -> CaptureSegment {
    CaptureSegment { source: g.source, index: g.index, start_us: g.start_us, duration_us: g.duration_us }
}

/// Saved sections are ordered by source file name (`mic` before
/// `system`), then by index.
pub open spec fn section_rank() -> spec_fn(CaptureSegment) -> int {
    |c: CaptureSegment| (if c.source == AudioSource::Microphone { 0int } else { 1int }) * 0x1_0000_0000_0000_0000
        + c.index
}

/// Chunks are ordered by start offset.
pub open spec fn chunk_start() -> spec_fn(TranscriptChunk) -> int {
    |c: TranscriptChunk| c.start_us as int
}

/// How many windows a section of `d` microseconds is cut into: a window
/// starts at every multiple of five minutes that lies more than a
/// microsecond before the end.
pub open spec fn window_count(d: int) -> int {
    if d <= 1 {
        0
    } else {
        (d - 2) / (CHUNK_US as int) + 1
    }
}

/// Window `k` of section `g` as a pending chunk.
pub open spec fn pending_window(c: TranscriptChunk, g: CapturedSegment, k: int) -> bool {
    let offset = k * CHUNK_US;
    &&& c.start_us == g.start_us + offset
    &&& c.duration_us == if g.duration_us - offset < CHUNK_US {
        g.duration_us - offset
    } else {
        CHUNK_US as int
    }
    &&& c.segment_index == Some(g.index)
    &&& c.transcript is None
    &&& c.segments@.len() == 0
    &&& c.error is None
}

/// Every window of every section, in order, as (section, window number).
pub open spec fn window_pairs(segs: Seq<CapturedSegment>) -> Seq<(CapturedSegment, int)>
    decreases segs.len(),
{
    if segs.len() == 0 {
        Seq::empty()
    } else {
        let g = segs.last();
        window_pairs(segs.drop_last()) + Seq::new(
            window_count(g.duration_us as int) as nat,
            |k: int| (g, k),
        )
    }
}

pub open spec fn windows_match(w: Seq<TranscriptChunk>, segs: Seq<CapturedSegment>) -> bool {
    let pairs = window_pairs(segs);
    &&& w.len() == pairs.len()
    &&& forall|j: int| 0 <= j < w.len() ==> pending_window(#[trigger] w[j], pairs[j].0, pairs[j].1)
}

/// The sections ends fit in a microsecond count.
pub open spec fn sections_fit(batch: Seq<CapturedSegment>) -> bool {
    forall|k: int| 0 <= k < batch.len() ==> (#[trigger] batch[k]).start_us + batch[k].duration_us <= u64::MAX
}

fn section_saved(saved: &Vec<CaptureSegment>, g: &CapturedSegment) -> (r: bool)
    ensures
        r == saved_section(saved@, *g),
{
    let n: usize = saved.len();
    let mut k: usize = 0;
    while k < n
        invariant
            n == saved@.len(),
            k <= n,
            forall|q: int| 0 <= q < k ==> !((#[trigger] saved@[q]).source == g.source && saved@[q].index == g.index),
        decreases n - k,
    {
        if saved[k].source == g.source && saved[k].index == g.index {
            return true;
        }
        k = k + 1;
    }
    false
}

/// The positions in `batch` of the sections to add (see `added_sections`).
fn fresh_sections(saved: &Vec<CaptureSegment>, batch: &Vec<CapturedSegment>) -> (picks: Vec<usize>)
    ensures
        picks@.map_values(|p: usize| batch@[p as int]) == added_sections(saved@, batch@),
        forall|j: int| 0 <= j < picks@.len() ==> (#[trigger] picks@[j]) < batch@.len(),
{
    let mut picks: Vec<usize> = Vec::new();
    let n: usize = batch.len();
    let mut i: usize = 0;
    proof {
        assert(batch@.take(0) =~= Seq::<CapturedSegment>::empty());
        assert(picks@.map_values(|p: usize| batch@[p as int]) =~= Seq::<CapturedSegment>::empty());
    }
    while i < n
        invariant
            n == batch@.len(),
            i <= n,
            picks@.map_values(|p: usize| batch@[p as int]) == added_sections(saved@, batch@.take(i as int)),
            forall|j: int| 0 <= j < picks@.len() ==> (#[trigger] picks@[j]) < i,
        decreases n - i,
    {
        let g = &batch[i];
        let ghost prev = picks@.map_values(|p: usize| batch@[p as int]);
        proof {
            assert(batch@.take(i + 1).drop_last() =~= batch@.take(i as int));
            assert(batch@.take(i + 1).last() == *g);
        }
        let mut listed = false;
        let m: usize = picks.len();
        let mut q: usize = 0;
        while q < m
            invariant
                n == batch@.len(),
                i < n,
                g == &batch@[i as int],
                m == picks@.len(),
                forall|j: int| 0 <= j < picks@.len() ==> (#[trigger] picks@[j]) < i,
                prev == picks@.map_values(|p: usize| batch@[p as int]),
                q <= m,
                listed == exists|a: int|
                    0 <= a < q && (#[trigger] prev[a]).source == g.source && prev[a].index == g.index,
            decreases m - q,
        {
            let o = &batch[picks[q]];
            proof {
                assert(prev[q as int] == batch@[picks@[q as int] as int]);
            }
            if o.source == g.source && o.index == g.index {
                listed = true;
            }
            q = q + 1;
        }
        if !section_saved(saved, g) && !listed {
            picks.push(i);
            proof {
                assert(picks@.map_values(|p: usize| batch@[p as int]) =~= prev.push(*g));
            }
        }
        i = i + 1;
    }
    proof {
        assert(batch@.take(n as int) =~= batch@);
    }
    picks
}

/// The pending chunks of one section (see `pending_window`).
pub fn section_windows(g: &CapturedSegment) -> (w: Vec<TranscriptChunk>)
    requires
        g.start_us + g.duration_us <= u64::MAX,
    ensures
        w@.len() == window_count(g.duration_us as int),
        forall|k: int| 0 <= k < w@.len() ==> pending_window(#[trigger] w@[k], *g, k),
{
    let mut w: Vec<TranscriptChunk> = Vec::new();
    let d = g.duration_us as u128;
    let mut offset: u128 = 0;
    while offset + 1 < d
        invariant
            d == g.duration_us,
            g.start_us + g.duration_us <= u64::MAX,
            offset == w@.len() * CHUNK_US,
            w@.len() > 0 ==> (w@.len() - 1) * CHUNK_US + 1 < d,
            forall|k: int| 0 <= k < w@.len() ==> pending_window(#[trigger] w@[k], *g, k),
            offset <= d + CHUNK_US,
        decreases d + CHUNK_US - offset,
    {
        let length = if d - offset < CHUNK_US as u128 {
            d - offset
        } else {
            CHUNK_US as u128
        };
        w.push(
            TranscriptChunk {
                start_us: (g.start_us as u128 + offset) as u64,
                duration_us: length as u64,
                transcript: None,
                segment_index: Some(g.index),
                segments: Vec::new(),
                error: None,
            },
        );
        offset = offset + CHUNK_US as u128;
    }
    proof {
        let n = w@.len() as int;
        let dd = d as int;
        if dd >= 2 {
            assert(n * 300_000_000 + 1 >= dd);
            if n > 0 {
                assert((n - 1) * 300_000_000 + 1 < dd);
            }
            assert(n == (dd - 2) / 300_000_000 + 1) by (nonlinear_arith)
                requires
                    n * 300_000_000 + 1 >= dd,
                    n > 0 ==> (n - 1) * 300_000_000 + 1 < dd,
                    dd >= 2,
                    n >= 0,
            ;
        } else {
            assert(n == 0);
        }
    }
    w
}

fn rank_of(c: &CaptureSegment) -> (k: u128)
    ensures
        k == (section_rank())(*c),
{
    let file_rank: u128 = if c.source == AudioSource::Microphone {
        0
    } else {
        1
    };
    file_rank * 0x1_0000_0000_0000_0000u128 + c.index as u128
}

fn sort_sections(v: Vec<CaptureSegment>) -> (r: Vec<CaptureSegment>)
    ensures
        r@ == sort_by(v@, section_rank()),
{
    let ghost all = v@;
    let mut out: Vec<CaptureSegment> = Vec::new();
    proof {
        assert(all.take(0) =~= Seq::<CaptureSegment>::empty());
    }
    for item in it: v.into_iter()
        invariant
            it.seq() == all,
            out@ == sort_by(all.take(it.index() as int), section_rank()),
    {
        let ghost k = it.index() as int;
        let ghost before = out@;
        proof {
            assert(item == all[k]);
        }
        let key = rank_of(&item);
        let mut p: usize = out.len();
        while p > 0 && rank_of(&out[p - 1]) > key
            invariant
                p <= out@.len(),
                before == out@,
                key == (section_rank())(item),
                forall|j: int| p <= j < out@.len() ==> (section_rank())(#[trigger] out@[j]) > (section_rank())(item),
            decreases p,
        {
            p = p - 1;
        }
        proof {
            lemma_insert_by_at(before, item, section_rank(), p as int);
            lemma_sort_by_step(all, k, section_rank());
        }
        out.insert(p, item);
    }
    proof {
        assert(all.take(all.len() as int) =~= all);
    }
    out
}

fn sort_chunks(v: Vec<TranscriptChunk>) -> (r: Vec<TranscriptChunk>)
    ensures
        r@ == sort_by(v@, chunk_start()),
{
    let ghost all = v@;
    let mut out: Vec<TranscriptChunk> = Vec::new();
    proof {
        assert(all.take(0) =~= Seq::<TranscriptChunk>::empty());
    }
    for item in it: v.into_iter()
        invariant
            it.seq() == all,
            out@ == sort_by(all.take(it.index() as int), chunk_start()),
    {
        let ghost k = it.index() as int;
        let ghost before = out@;
        proof {
            assert(item == all[k]);
        }
        let mut p: usize = out.len();
        while p > 0 && out[p - 1].start_us > item.start_us
            invariant
                p <= out@.len(),
                before == out@,
                forall|j: int| p <= j < out@.len() ==> (chunk_start())(#[trigger] out@[j]) > (chunk_start())(item),
            decreases p,
        {
            p = p - 1;
        }
        proof {
            lemma_insert_by_at(before, item, chunk_start(), p as int);
            lemma_sort_by_step(all, k, chunk_start());
        }
        out.insert(p, item);
    }
    proof {
        assert(all.take(all.len() as int) =~= all);
    }
    out
}

/// The position of the first track of `source`.
pub open spec fn first_pos(ts: Seq<SourceTranscript>, source: AudioSource) -> Option<int>
    decreases ts.len(),
{
    if ts.len() == 0 {
        None
    } else {
        match first_pos(ts.drop_last(), source) {
            Some(p) => Some(p),
            None => if ts.last().source == source {
                Some(ts.len() - 1)
            } else {
                None
            },
        }
    }
}

pub proof fn lemma_first_pos(ts: Seq<SourceTranscript>, source: AudioSource, i: int)
    requires
        0 <= i < ts.len(),
        ts[i].source == source,
        forall|j: int| 0 <= j < i ==> (#[trigger] ts[j]).source != source,
    ensures
        first_pos(ts, source) == Some(i),
    decreases ts.len(),
{
    if i < ts.len() - 1 {
        lemma_first_pos(ts.drop_last(), source, i);
    } else {
        lemma_first_pos_none(ts.drop_last(), source);
    }
}

pub proof fn lemma_first_pos_none(ts: Seq<SourceTranscript>, source: AudioSource)
    requires
        forall|j: int| 0 <= j < ts.len() ==> (#[trigger] ts[j]).source != source,
    ensures
        first_pos(ts, source) is None,
    decreases ts.len(),
{
    if ts.len() != 0 {
        lemma_first_pos_none(ts.drop_last(), source);
    }
}

/// The chunks of the first track of `source`; none without such a track.
pub open spec fn old_chunks(s: Session, source: AudioSource) -> Seq<TranscriptChunk> {
    match first_pos(s.transcription@, source) {
        Some(t) => chunks_at(s, t),
        None => Seq::empty(),
    }
}

pub open spec fn of_source(source: AudioSource) -> spec_fn(CapturedSegment) -> bool {
    |g: CapturedSegment| g.source == source
}

/// The first track of `source` holds its old chunks and the windows of the
/// source's new sections, in start order.
pub open spec fn track_updated(r: Session, s: Session, source: AudioSource, segs: Seq<CapturedSegment>) -> bool {
    &&& first_pos(r.transcription@, source) is Some
    &&& exists|w: Seq<TranscriptChunk>|
        windows_match(w, segs) && chunks_at(r, first_pos(r.transcription@, source)->0) == sort_by(
            #[trigger] (old_chunks(s, source) + w),
            chunk_start(),
        )
}

proof fn lemma_window_pairs_push(segs: Seq<CapturedSegment>, g: CapturedSegment)
    ensures
        window_pairs(segs.push(g)) == window_pairs(segs) + Seq::new(
            window_count(g.duration_us as int) as nat,
            |k: int| (g, k),
        ),
{
    assert(segs.push(g).drop_last() =~= segs);
}

/// The windows of the new sections of one source join its first track
/// (added at the end when there is none); other tracks are left alone.
fn add_windows(session: Session, batch: &Vec<CapturedSegment>, picks: &Vec<usize>, source: AudioSource) -> (r:
    Session)
    requires
        forall|j: int| 0 <= j < picks@.len() ==> (#[trigger] picks@[j]) < batch@.len(),
        sections_fit(batch@),
    ensures
        ({
            let segs = picks@.map_values(|p: usize| batch@[p as int]).filter(of_source(source));
            &&& segs.len() == 0 ==> r == session
            &&& segs.len() != 0 ==> {
                &&& track_updated(r, session, source, segs)
                &&& r == (Session { transcription: r.transcription, ..session })
                &&& match first_pos(session.transcription@, source) {
                    Some(t) => {
                        &&& r.transcription@.len() == session.transcription@.len()
                        &&& first_pos(r.transcription@, source) == Some(t)
                        &&& r.transcription@[t].source == source
                        &&& forall|i: int|
                            0 <= i < r.transcription@.len() && i != t ==> #[trigger] r.transcription@[i]
                                == session.transcription@[i]
                    },
                    None => {
                        &&& r.transcription@.len() == session.transcription@.len() + 1
                        &&& r.transcription@.take(session.transcription@.len() as int)
                            == session.transcription@
                        &&& r.transcription@.last().source == source
                        &&& first_pos(r.transcription@, source) == Some(
                            session.transcription@.len() as int,
                        )
                    },
                }
            }
        }),
{
    let ghost added = picks@.map_values(|p: usize| batch@[p as int]);
    let ghost pred = of_source(source);
    let mut w: Vec<TranscriptChunk> = Vec::new();
    let mut any = false;
    let n: usize = picks.len();
    let mut j: usize = 0;
    proof {
        assert(added.take(0).filter(pred) =~= Seq::<CapturedSegment>::empty());
    }
    while j < n
        invariant
            n == picks@.len(),
            added == picks@.map_values(|p: usize| batch@[p as int]),
            pred == of_source(source),
            forall|q: int| 0 <= q < picks@.len() ==> (#[trigger] picks@[q]) < batch@.len(),
            sections_fit(batch@),
            j <= n,
            windows_match(w@, added.take(j as int).filter(pred)),
            any == (added.take(j as int).filter(pred).len() != 0),
        decreases n - j,
    {
        let g = &batch[picks[j]];
        let ghost segs = added.take(j as int).filter(pred);
        proof {
            assert(added[j as int] == *g);
            assert(added.take(j + 1) =~= added.take(j as int).push(*g));
            added.take(j as int).lemma_filter_push(*g, pred);
        }
        if g.source == source {
            any = true;
            proof {
                assert(g.start_us + g.duration_us <= u64::MAX);
            }
            let wg = section_windows(g);
            let ghost before = w@;
            let ghost wgv = wg@;
            for c in it: wg.into_iter()
                invariant
                    it.seq() == wgv,
                    w@ == before + wgv.take(it.index() as int),
            {
                proof {
                    assert(c == wgv[it.index() as int]);
                    assert(wgv.take(it.index() + 1) =~= wgv.take(it.index() as int).push(c));
                }
                w.push(c);
            }
            proof {
                assert(wgv.take(wgv.len() as int) =~= wgv);
                lemma_window_pairs_push(segs, *g);
                let pairs = window_pairs(segs.push(*g));
                let old_pairs = window_pairs(segs);
                assert forall|k: int| 0 <= k < w@.len() implies pending_window(
                    #[trigger] w@[k],
                    pairs[k].0,
                    pairs[k].1,
                ) by {
                    if k < before.len() {
                        assert(w@[k] == before[k]);
                        assert(pairs[k] == old_pairs[k]);
                    } else {
                        assert(w@[k] == wgv[k - before.len()]);
                        assert(pairs[k] == (*g, k - before.len()));
                    }
                }
            }
        }
        j = j + 1;
    }
    proof {
        assert(added.take(n as int) =~= added);
    }
    let ghost segs = added.filter(pred);
    if !any {
        return session;
    }
    let mut session = session;
    let ghost orig = session;
    let t = match find_track(&session, source) {
        Some(t) => {
            proof {
                lemma_first_pos(session.transcription@, source, t as int);
            }
            t
        },
        None => {
            proof {
                lemma_first_pos_none(session.transcription@, source);
            }
            let ghost before = session.transcription@;
            let len = session.transcription.len();
            session.transcription.push(SourceTranscript { source, chunks: Vec::new() });
            proof {
                assert forall|q: int| 0 <= q < before.len() implies (#[trigger] session.transcription@[q]).source
                    != source by {
                    assert(session.transcription@[q] == before[q]);
                }
                lemma_first_pos(session.transcription@, source, before.len() as int);
                assert(session.transcription@.take(before.len() as int) =~= before);
            }
            len
        },
    };
    let ghost mid = session;
    let mut chunks = crate::processing::swap_chunks(&mut session, t, Vec::new());
    let ghost base = chunks@;
    proof {
        assert(base == old_chunks(orig, source));
    }
    let ghost wv = w@;
    for c in it: w.into_iter()
        invariant
            it.seq() == wv,
            chunks@ == base + wv.take(it.index() as int),
    {
        proof {
            assert(c == wv[it.index() as int]);
            assert(wv.take(it.index() + 1) =~= wv.take(it.index() as int).push(c));
        }
        chunks.push(c);
    }
    proof {
        assert(wv.take(wv.len() as int) =~= wv);
    }
    let sorted = sort_chunks(chunks);
    let _ = crate::processing::swap_chunks(&mut session, t, sorted);
    proof {
        assert(session.transcription@[t as int].source == source);
        assert forall|q: int| 0 <= q < t implies (#[trigger] session.transcription@[q]).source != source by {
            assert(session.transcription@[q] == mid.transcription@[q]);
        }
        lemma_first_pos(session.transcription@, source, t as int);
        assert(windows_match(wv, segs));
        assert(chunks_at(session, t as int) == sort_by(old_chunks(orig, source) + wv, chunk_start()));
        if first_pos(orig.transcription@, source) is None {
            assert(session.transcription@.take(orig.transcription@.len() as int) =~= orig.transcription@);
        }
    }
    session
}

proof fn lemma_first_pos_valid(ts: Seq<SourceTranscript>, source: AudioSource)
    requires
        first_pos(ts, source) is Some,
    ensures
        0 <= first_pos(ts, source)->0 < ts.len(),
        ts[first_pos(ts, source)->0].source == source,
    decreases ts.len(),
{
    if first_pos(ts.drop_last(), source) is Some {
        lemma_first_pos_valid(ts.drop_last(), source);
    }
}

proof fn lemma_first_pos_same_sources(a: Seq<SourceTranscript>, b: Seq<SourceTranscript>, source: AudioSource)
    requires
        a.len() == b.len(),
        forall|i: int| 0 <= i < a.len() ==> (#[trigger] a[i]).source == b[i].source,
    ensures
        first_pos(a, source) == first_pos(b, source),
    decreases a.len(),
{
    if a.len() != 0 {
        lemma_first_pos_same_sources(a.drop_last(), b.drop_last(), source);
    }
}

proof fn lemma_first_pos_push(a: Seq<SourceTranscript>, x: SourceTranscript, source: AudioSource)
    ensures
        first_pos(a, source) is Some ==> first_pos(a.push(x), source) == first_pos(a, source),
        first_pos(a, source) is None && x.source != source ==> first_pos(a.push(x), source) is None,
{
    assert(a.push(x).drop_last() =~= a);
}

/// What one `add_windows` step promises, for the source it handles.
pub open spec fn step_ok(r: Session, s: Session, source: AudioSource, segs: Seq<CapturedSegment>) -> bool {
    &&& segs.len() == 0 ==> r == s
    &&& segs.len() != 0 ==> {
        &&& track_updated(r, s, source, segs)
        &&& r == (Session { transcription: r.transcription, ..s })
        &&& match first_pos(s.transcription@, source) {
            Some(t) => {
                &&& r.transcription@.len() == s.transcription@.len()
                &&& first_pos(r.transcription@, source) == Some(t)
                &&& r.transcription@[t].source == source
                &&& forall|i: int|
                    0 <= i < r.transcription@.len() && i != t ==> #[trigger] r.transcription@[i]
                        == s.transcription@[i]
            },
            None => {
                &&& r.transcription@.len() == s.transcription@.len() + 1
                &&& r.transcription@.take(s.transcription@.len() as int) == s.transcription@
                &&& r.transcription@.last().source == source
                &&& first_pos(r.transcription@, source) == Some(s.transcription@.len() as int)
            },
        }
    }
}

/// A step for one source leaves the other source's first track alone.
proof fn lemma_step_keeps_other(r: Session, s: Session, source: AudioSource, segs: Seq<CapturedSegment>, other: AudioSource)
    requires
        step_ok(r, s, source, segs),
        other != source,
    ensures
        first_pos(r.transcription@, other) == first_pos(s.transcription@, other),
        old_chunks(r, other) == old_chunks(s, other),
        r.transcription@.len() >= s.transcription@.len(),
        forall|i: int|
            0 <= i < s.transcription@.len() ==> (#[trigger] r.transcription@[i]).source
                == s.transcription@[i].source,
        forall|i: int|
            0 <= i < s.transcription@.len() && first_pos(s.transcription@, source) != Some(i)
                ==> #[trigger] r.transcription@[i] == s.transcription@[i],
{
    if segs.len() != 0 {
        match first_pos(s.transcription@, source) {
            Some(t) => {
                lemma_first_pos_valid(s.transcription@, source);
                assert forall|i: int| 0 <= i < s.transcription@.len() implies (
                #[trigger] s.transcription@[i]).source == r.transcription@[i].source by {
                    if i != t {
                        assert(r.transcription@[i] == s.transcription@[i]);
                    }
                }
                lemma_first_pos_same_sources(s.transcription@, r.transcription@, other);
                if first_pos(s.transcription@, other) is Some {
                    lemma_first_pos_valid(s.transcription@, other);
                    let o = first_pos(s.transcription@, other)->0;
                    assert(o != t);
                    assert(r.transcription@[o] == s.transcription@[o]);
                }
            },
            None => {
                let x = r.transcription@.last();
                assert(r.transcription@ =~= s.transcription@.push(x));
                lemma_first_pos_push(s.transcription@, x, other);
                if first_pos(s.transcription@, other) is Some {
                    lemma_first_pos_valid(s.transcription@, other);
                    let o = first_pos(s.transcription@, other)->0;
                    assert(r.transcription@[o] == s.transcription@[o]);
                }
                assert forall|i: int| 0 <= i < s.transcription@.len() implies #[trigger] r.transcription@[i]
                    == s.transcription@[i] by {
                    assert(r.transcription@[i] == r.transcription@.take(s.transcription@.len() as int)[i]);
                }
            },
        }
    }
}

proof fn lemma_two_sources(
    orig: Session,
    s0: Session,
    s1: Session,
    s2: Session,
    first: AudioSource,
    second: AudioSource,
    segs1: Seq<CapturedSegment>,
    segs2: Seq<CapturedSegment>,
)
    requires
        s0 == (Session { capture_segments: s0.capture_segments, ..orig }),
        step_ok(s1, s0, first, segs1),
        step_ok(s2, s1, second, segs2),
        first != second,
    ensures
        source_merged(s2, orig, first, segs1),
        source_merged(s2, orig, second, segs2),
        s2.transcription@.len() >= orig.transcription@.len(),
        forall|i: int|
            0 <= i < orig.transcription@.len() ==> (#[trigger] s2.transcription@[i]).source
                == orig.transcription@[i].source,
        forall|i: int|
            0 <= i < orig.transcription@.len() && first_pos(orig.transcription@, orig.transcription@[i].source)
                != Some(i) ==> #[trigger] s2.transcription@[i] == orig.transcription@[i],
        s2 == (Session { transcription: s2.transcription, capture_segments: s0.capture_segments, ..orig }),
{
    assert(old_chunks(s0, first) == old_chunks(orig, first));
    assert(old_chunks(s0, second) == old_chunks(orig, second));
    lemma_step_keeps_other(s1, s0, first, segs1, second);
    lemma_step_keeps_other(s2, s1, second, segs2, first);
    if segs1.len() != 0 {
        let w = choose|w: Seq<TranscriptChunk>|
            windows_match(w, segs1) && chunks_at(s1, first_pos(s1.transcription@, first)->0) == sort_by(
                #[trigger] (old_chunks(s0, first) + w),
                chunk_start(),
            );
        assert(old_chunks(s2, first) == old_chunks(s1, first));
        lemma_first_pos_valid(s1.transcription@, first);
        assert(chunks_at(s2, first_pos(s2.transcription@, first)->0) == sort_by(
            old_chunks(orig, first) + w,
            chunk_start(),
        ));
    }
    if segs2.len() != 0 {
        let w = choose|w: Seq<TranscriptChunk>|
            windows_match(w, segs2) && chunks_at(s2, first_pos(s2.transcription@, second)->0) == sort_by(
                #[trigger] (old_chunks(s1, second) + w),
                chunk_start(),
            );
        assert(chunks_at(s2, first_pos(s2.transcription@, second)->0) == sort_by(
            old_chunks(orig, second) + w,
            chunk_start(),
        ));
    }
    assert forall|i: int|
        0 <= i < orig.transcription@.len() && first_pos(orig.transcription@, orig.transcription@[i].source)
            != Some(i) implies #[trigger] s2.transcription@[i] == orig.transcription@[i] by {
        let src = orig.transcription@[i].source;
        if src == first {
            assert(first_pos(s0.transcription@, second) != Some(i)) by {
                if first_pos(s0.transcription@, second) == Some(i) {
                    lemma_first_pos_valid(s0.transcription@, second);
                }
            }
            assert(first_pos(s1.transcription@, second) != Some(i)) by {
                if first_pos(s1.transcription@, second) == Some(i) {
                    lemma_first_pos_valid(s1.transcription@, second);
                }
            }
        } else {
            assert(first_pos(s0.transcription@, first) != Some(i)) by {
                if first_pos(s0.transcription@, first) == Some(i) {
                    lemma_first_pos_valid(s0.transcription@, first);
                }
            }
            assert(first_pos(s1.transcription@, second) != Some(i)) by {
                if first_pos(s1.transcription@, second) == Some(i) {
                    lemma_first_pos_valid(s1.transcription@, second);
                    assert(first_pos(s1.transcription@, second) == first_pos(s0.transcription@, second));
                }
            }
        }
    }
}

/// How one source's tracks relate before and after its sections are added.
pub open spec fn source_merged(r: Session, s: Session, source: AudioSource, segs: Seq<CapturedSegment>) -> bool {
    if segs.len() == 0 {
        first_pos(r.transcription@, source) == first_pos(s.transcription@, source)
            && old_chunks(r, source) == old_chunks(s, source)
    } else {
        track_updated(r, s, source, segs)
    }
}

/// `r` is `s` after a batch of finalized sections joined it (see
/// `append_segments`).
pub open spec fn segments_appended(r: Session, session: Session, batch: Seq<CapturedSegment>) -> bool {
    let added = added_sections(session.capture_segments@, batch);
    &&& r.capture_segments@ == sort_by(
        session.capture_segments@ + added.map_values(|g: CapturedSegment| section_of(g)),
        section_rank(),
    )
    &&& source_merged(r, session, AudioSource::System, added.filter(of_source(AudioSource::System)))
    &&& source_merged(
        r,
        session,
        AudioSource::Microphone,
        added.filter(of_source(AudioSource::Microphone)),
    )
    &&& r.transcription@.len() >= session.transcription@.len()
    &&& forall|i: int|
        0 <= i < session.transcription@.len() ==> (#[trigger] r.transcription@[i]).source
            == session.transcription@[i].source
    &&& forall|i: int|
        0 <= i < session.transcription@.len() && first_pos(
            session.transcription@,
            session.transcription@[i].source,
        ) != Some(i) ==> #[trigger] r.transcription@[i] == session.transcription@[i]
    &&& r == (Session {
        transcription: r.transcription,
        capture_segments: r.capture_segments,
        ..session
    })
}

/// A batch of finalized sections joins a meeting: sections not saved
/// before are recorded once each and kept ordered by source file name and
/// index; each one's five-minute windows join the first track of its
/// source (a new track is added, in the order the sources first appear,
/// when the source has none), and every such track is ordered by start.
pub fn append_segments(session: Session, batch: &Vec<CapturedSegment>) -> (r: Session)
    requires
        sections_fit(batch@),
    ensures
        segments_appended(r, session, batch@),
{
    let picks = fresh_sections(&session.capture_segments, batch);
    let ghost added = picks@.map_values(|p: usize| batch@[p as int]);
    let mut session = session;
    let ghost orig = session;
    let mut caps: Vec<CaptureSegment> = Vec::new();
    std::mem::swap(&mut caps, &mut session.capture_segments);
    let n: usize = picks.len();
    let mut j: usize = 0;
    let ghost base = caps@;
    proof {
        assert(added.take(0).map_values(|g: CapturedSegment| section_of(g)) =~= Seq::<CaptureSegment>::empty());
        assert(base + Seq::<CaptureSegment>::empty() =~= base);
    }
    while j < n
        invariant
            n == picks@.len(),
            added == picks@.map_values(|p: usize| batch@[p as int]),
            forall|q: int| 0 <= q < picks@.len() ==> (#[trigger] picks@[q]) < batch@.len(),
            j <= n,
            caps@ == base + added.take(j as int).map_values(|g: CapturedSegment| section_of(g)),
        decreases n - j,
    {
        let g = &batch[picks[j]];
        proof {
            assert(added[j as int] == *g);
            assert(added.take(j + 1).map_values(|g: CapturedSegment| section_of(g)) =~= added.take(
                j as int,
            ).map_values(|g: CapturedSegment| section_of(g)).push(section_of(*g)));
        }
        caps.push(
            CaptureSegment {
                source: g.source,
                index: g.index,
                start_us: g.start_us,
                duration_us: g.duration_us,
            },
        );
        j = j + 1;
    }
    proof {
        assert(added.take(n as int) =~= added);
    }
    session.capture_segments = sort_sections(caps);
    let ghost s0 = session;
    let first = if picks.len() > 0 {
        batch[picks[0]].source
    } else {
        AudioSource::System
    };
    let second = match first {
        AudioSource::System => AudioSource::Microphone,
        AudioSource::Microphone => AudioSource::System,
    };
    let s1 = add_windows(session, batch, &picks, first);
    let s2 = add_windows(s1, batch, &picks, second);
    proof {
        let segs1 = added.filter(of_source(first));
        let segs2 = added.filter(of_source(second));
        lemma_two_sources(orig, s0, s1, s2, first, second, segs1, segs2);
        assert(s2.capture_segments == s0.capture_segments);
    }
    s2
}

/// A chunk of section `g`: in a track of its source, with its index.
pub open spec fn in_section(s: Session, g: CaptureSegment, t: int, c: int) -> bool {
    &&& 0 <= t < s.transcription@.len()
    &&& 0 <= c < s.transcription@[t].chunks@.len()
    &&& s.transcription@[t].source == g.source
    &&& s.transcription@[t].chunks@[c].segment_index == Some(g.index)
}

/// A section whose audio may be deleted: it has chunks, all transcribed,
/// and at least one with words.
pub open spec fn section_done(s: Session, g: CaptureSegment) -> bool {
    &&& exists|t: int, c: int| #[trigger] in_section(s, g, t, c)
    &&& forall|t: int, c: int|
        #[trigger] in_section(s, g, t, c) ==> s.transcription@[t].chunks@[c].transcript is Some
    &&& exists|t: int, c: int|
        #[trigger] in_section(s, g, t, c) && crate::processing::spoken(s.transcription@[t].chunks@[c])
}

fn section_is_done(s: &Session, g: &CaptureSegment) -> (r: bool)
    ensures
        r == section_done(*s, *g),
{
    let mut any = false;
    let mut all = true;
    let mut spoken = false;
    let n: usize = s.transcription.len();
    let mut t: usize = 0;
    while t < n
        invariant
            n == s.transcription@.len(),
            t <= n,
            any == exists|a: int, c: int| a < t && #[trigger] in_section(*s, *g, a, c),
            all == forall|a: int, c: int|
                a < t && #[trigger] in_section(*s, *g, a, c) ==> s.transcription@[a].chunks@[c].transcript is Some,
            spoken == exists|a: int, c: int|
                a < t && #[trigger] in_section(*s, *g, a, c) && crate::processing::spoken(
                    s.transcription@[a].chunks@[c],
                ),
        decreases n - t,
    {
        if s.transcription[t].source == g.source {
            let chunks = &s.transcription[t].chunks;
            let m: usize = chunks.len();
            let mut c: usize = 0;
            while c < m
                invariant
                    n == s.transcription@.len(),
                    t < n,
                    s.transcription@[t as int].source == g.source,
                    chunks == &s.transcription@[t as int].chunks,
                    m == chunks@.len(),
                    c <= m,
                    any == exists|a: int, q: int|
                        (a < t || (a == t && q < c)) && #[trigger] in_section(*s, *g, a, q),
                    all == forall|a: int, q: int|
                        (a < t || (a == t && q < c)) && #[trigger] in_section(*s, *g, a, q)
                            ==> s.transcription@[a].chunks@[q].transcript is Some,
                    spoken == exists|a: int, q: int|
                        (a < t || (a == t && q < c)) && #[trigger] in_section(*s, *g, a, q)
                            && crate::processing::spoken(s.transcription@[a].chunks@[q]),
                decreases m - c,
            {
                let chunk = &chunks[c];
                if chunk.segment_index == Some(g.index) {
                    proof {
                        assert(in_section(*s, *g, t as int, c as int));
                    }
                    any = true;
                    match &chunk.transcript {
                        Some(x) => {
                            if !crate::text::is_blank(x.as_str()) {
                                spoken = true;
                            }
                        },
                        None => {
                            all = false;
                        },
                    }
                }
                c = c + 1;
            }
        }
        t = t + 1;
    }
    any && all && spoken
}

/// The saved sections that are done.
pub open spec fn done_sections(s: Session) -> Seq<CaptureSegment> {
    s.capture_segments@.filter(|g: CaptureSegment| section_done(s, g))
}

/// The sections whose audio may be deleted, in saved order, by source and index.
pub fn removable_sections(session: &Session) -> (r: Vec<(AudioSource, u64)>)
    ensures
        r@ == done_sections(*session).map_values(|g: CaptureSegment| (g.source, g.index)),
{
    let ghost segs = session.capture_segments@;
    let ghost pred = |g: CaptureSegment| section_done(*session, g);
    let mut out: Vec<(AudioSource, u64)> = Vec::new();
    let n: usize = session.capture_segments.len();
    let mut k: usize = 0;
    proof {
        assert(segs.take(0).filter(pred) =~= Seq::<CaptureSegment>::empty());
    }
    while k < n
        invariant
            n == segs.len(),
            segs == session.capture_segments@,
            pred == (|g: CaptureSegment| section_done(*session, g)),
            k <= n,
            out@ == segs.take(k as int).filter(pred).map_values(|g: CaptureSegment| (g.source, g.index)),
        decreases n - k,
    {
        let g = &session.capture_segments[k];
        proof {
            assert(segs.take(k + 1) =~= segs.take(k as int).push(*g));
            segs.take(k as int).lemma_filter_push(*g, pred);
        }
        let ghost before = out@;
        if section_is_done(session, g) {
            out.push((g.source, g.index));
            proof {
                assert(out@ =~= before.push((g.source, g.index)));
                assert(segs.take(k + 1).filter(pred).map_values(|g: CaptureSegment| (g.source, g.index))
                    =~= segs.take(k as int).filter(pred).map_values(|g: CaptureSegment| (g.source, g.index)).push(
                    (g.source, g.index),
                ));
            }
        }
        k = k + 1;
    }
    proof {
        assert(segs.take(n as int) =~= segs);
    }
    out
}

/// A recovered section starts where the saved sections of its source with
/// smaller indices end, at the latest of those ends; at zero when none.
pub fn recovered_start(session: &Session, source: AudioSource, index: u64) -> (r: u64)
    requires
        forall|k: int|
            0 <= k < session.capture_segments@.len() ==> (#[trigger] session.capture_segments@[k]).start_us
                + session.capture_segments@[k].duration_us <= u64::MAX,
    ensures
        forall|k: int|
            0 <= k < session.capture_segments@.len() && (#[trigger] session.capture_segments@[k]).source
                == source && session.capture_segments@[k].index < index ==> r
                >= session.capture_segments@[k].start_us + session.capture_segments@[k].duration_us,
        r == 0 || exists|k: int|
            0 <= k < session.capture_segments@.len() && (#[trigger] session.capture_segments@[k]).source
                == source && session.capture_segments@[k].index < index && r
                == session.capture_segments@[k].start_us + session.capture_segments@[k].duration_us,
{
    let segs = &session.capture_segments;
    let n: usize = segs.len();
    let mut best: u64 = 0;
    let mut k: usize = 0;
    while k < n
        invariant
            segs == &session.capture_segments,
            n == segs@.len(),
            k <= n,
            forall|q: int|
                0 <= q < segs@.len() ==> (#[trigger] segs@[q]).start_us + segs@[q].duration_us <= u64::MAX,
            forall|q: int|
                0 <= q < k && (#[trigger] segs@[q]).source == source && segs@[q].index < index ==> best
                    >= segs@[q].start_us + segs@[q].duration_us,
            best == 0 || exists|q: int|
                0 <= q < k && (#[trigger] segs@[q]).source == source && segs@[q].index < index && best
                    == segs@[q].start_us + segs@[q].duration_us,
        decreases n - k,
    {
        let g = &segs[k];
        if g.source == source && g.index < index {
            let end = g.start_us + g.duration_us;
            if end > best {
                best = end;
            }
        }
        k = k + 1;
    }
    best
}

pub open spec fn recovered_notice() -> Seq<char> {
    "Recovered a finalized audio section after interruption. Source timing may include a capture gap."@
}

/// The warning for a recovered section.
pub fn recovered_section_warning() -> (w: String)
    ensures
        w@ == recovered_notice(),
{
    crate::text::owned(
        "Recovered a finalized audio section after interruption. Source timing may include a capture gap.",
    )
}

/// The warning for a section file without frames.
pub fn empty_section_warning(source: AudioSource) -> (w: String)
    ensures
        w@ == source.label_spec() + " contained an empty audio section. Notes use available speech."@,
{
    crate::text::concat2(source.label(), " contained an empty audio section. Notes use available speech.")
}

/// The error for a section file that could not be read.
pub fn unfinished_section_error(source: AudioSource) -> (e: crate::error::AppError)
    ensures
        e.code@ == "audio_chunk"@,
        e.message@ == source.label_spec()
            + " has an unfinished audio section that could not be read. That file and your saved transcript were kept."@,
{
    crate::error::AppError::with_message(
        "audio_chunk",
        crate::text::concat2(
            source.label(),
            " has an unfinished audio section that could not be read. That file and your saved transcript were kept.",
        ),
    )
}

/// Where a recovered section of `source` numbered `index` starts: at the
/// latest end of the source's saved sections with smaller indices, or at zero.
pub open spec fn recovered_start_is(saved: Seq<CaptureSegment>, source: AudioSource, index: u64, start: int) -> bool {
    &&& forall|k: int|
        0 <= k < saved.len() && (#[trigger] saved[k]).source == source && saved[k].index < index
            ==> start >= saved[k].start_us + saved[k].duration_us
    &&& start == 0 || exists|k: int|
        0 <= k < saved.len() && (#[trigger] saved[k]).source == source && saved[k].index < index
            && start == saved[k].start_us + saved[k].duration_us
}

/// What reading a section file found: its duration in microseconds when it
/// holds frames, that it holds none, or that it could not be read.
#[derive(Clone, Copy, Debug)]
pub enum SectionProbe {
    Frames(u64),
    Empty,
    Unreadable,
}

fn is_listed(saved: &Vec<CaptureSegment>, source: AudioSource, index: u64) -> (r: bool)
    ensures
        r == exists|k: int|
            0 <= k < saved@.len() && (#[trigger] saved@[k]).source == source && saved@[k].index == index,
{
    let n: usize = saved.len();
    let mut k: usize = 0;
    while k < n
        invariant
            n == saved@.len(),
            k <= n,
            forall|j: int| 0 <= j < k ==> !((#[trigger] saved@[j]).source == source && saved@[j].index == index),
        decreases n - k,
    {
        if saved[k].source == source && saved[k].index == index {
            return true;
        }
        k = k + 1;
    }
    false
}

/// A section file found on disk after an interruption, with what reading it
/// found. A section the meeting already lists is left alone. One with frames
/// is listed, starting where the source's earlier sections end, and the
/// recovery notice is shown; an empty one gets the empty-section notice; an
/// unreadable one gets its notice, and its error is returned.
pub fn recover_section(
    session: Session,
    source: AudioSource,
    index: u64,
    path: String,
    probe: SectionProbe,
) -> (r: (Session, Option<crate::error::AppError>))
    requires
        forall|k: int|
            0 <= k < session.capture_segments@.len() ==> (#[trigger] session.capture_segments@[k]).start_us
                + session.capture_segments@[k].duration_us + match probe {
                SectionProbe::Frames(d) => d as int,
                _ => 0int,
            } <= u64::MAX,
    ensures
        ({
            let saved = session.capture_segments@;
            let listed = exists|k: int|
                0 <= k < saved.len() && (#[trigger] saved[k]).source == source && saved[k].index == index;
            &&& listed ==> r.0 == session && r.1 is None
            &&& !listed ==> match probe {
                SectionProbe::Frames(d) => {
                    &&& r.1 is None
                    &&& views(r.0.warnings@) == with_warning(session.warnings@, recovered_notice())
                    &&& exists|g: CapturedSegment|
                        g.source == source && g.index == index && g.duration_us == d && g.path == path
                            && recovered_start_is(saved, source, index, g.start_us as int)
                            && segments_appended(
                            Session { warnings: session.warnings, ..r.0 },
                            session,
                            seq![g],
                        )
                },
                SectionProbe::Empty => {
                    &&& r.1 is None
                    &&& views(r.0.warnings@) == with_warning(
                        session.warnings@,
                        source.label_spec() + " contained an empty audio section. Notes use available speech."@,
                    )
                    &&& r.0 == (Session { warnings: r.0.warnings, ..session })
                },
                SectionProbe::Unreadable => {
                    &&& r.1 matches Some(e) && e.code@ == "audio_chunk"@ && e.message@ == source.label_spec()
                        + " has an unfinished audio section that could not be read. That file and your saved transcript were kept."@
                    &&& views(r.0.warnings@) == with_warning(session.warnings@, r.1->0.message@)
                    &&& r.0 == (Session { warnings: r.0.warnings, ..session })
                },
            }
        }),
{
    if is_listed(&session.capture_segments, source, index) {
        return (session, None);
    }
    let mut session = session;
    match probe {
        SectionProbe::Frames(d) => {
            let start = recovered_start(&session, source, index);
            let g = CapturedSegment { source, index, start_us: start, duration_us: d, path };
            let ghost gg = g;
            let batch = vec![g];
            proof {
                assert(batch@ =~= seq![gg]);
            }
            let appended = append_segments(session, &batch);
            let ghost before = appended;
            let mut out = appended;
            add_warning(&mut out, recovered_section_warning());
            proof {
                assert(Session { warnings: session.warnings, ..out } == before);
            }
            (out, None)
        },
        SectionProbe::Empty => {
            add_warning(&mut session, empty_section_warning(source));
            (session, None)
        },
        SectionProbe::Unreadable => {
            let error = unfinished_section_error(source);
            add_warning(&mut session, error.message.clone());
            (session, Some(error))
        },
    }
}

/// Law: a section's audio is offered for deletion only after every chunk
/// of it was transcribed and saved, and at least one holds words; silent
/// or failed audio stays for recovery.
pub proof fn lemma_removable_sections_done(s: Session)
    ensures
        forall|k: int|
            0 <= k < done_sections(s).len() ==> {
                let g = #[trigger] done_sections(s)[k];
                &&& forall|t: int, c: int|
                    #[trigger] in_section(s, g, t, c) ==> s.transcription@[t].chunks@[c].transcript is Some
                &&& exists|t: int, c: int|
                    #[trigger] in_section(s, g, t, c) && crate::processing::spoken(s.transcription@[t].chunks@[c])
            },
{
    let pred = |g: CaptureSegment| section_done(s, g);
    assert forall|k: int| 0 <= k < s.capture_segments@.filter(pred).len() implies section_done(
        s,
        #[trigger] s.capture_segments@.filter(pred)[k],
    ) by {
        s.capture_segments@.lemma_filter_pred(pred, k);
    }
}

/// Law: after new sections join a source, its first track is ordered by
/// start and holds exactly its old chunks and the new windows.
pub proof fn lemma_updated_track_ordered(r: Session, s: Session, source: AudioSource, segs: Seq<CapturedSegment>)
    requires
        track_updated(r, s, source, segs),
    ensures
        crate::order::sorted_by(chunks_at(r, first_pos(r.transcription@, source)->0), chunk_start()),
        chunks_at(r, first_pos(r.transcription@, source)->0).len() == old_chunks(s, source).len()
            + window_pairs(segs).len(),
{
    let w = choose|w: Seq<TranscriptChunk>|
        windows_match(w, segs) && chunks_at(r, first_pos(r.transcription@, source)->0) == sort_by(
            #[trigger] (old_chunks(s, source) + w),
            chunk_start(),
        );
    crate::order::lemma_sort_by_sorted(old_chunks(s, source) + w, chunk_start());
}

/// Law: the saved sections stay ordered by source file name and index.
pub proof fn lemma_sections_ordered(saved: Seq<CaptureSegment>, added: Seq<CapturedSegment>)
    ensures
        crate::order::sorted_by(
            sort_by(saved + added.map_values(|g: CapturedSegment| section_of(g)), section_rank()),
            section_rank(),
        ),
        sort_by(saved + added.map_values(|g: CapturedSegment| section_of(g)), section_rank()).len()
            == saved.len() + added.len(),
{
    crate::order::lemma_sort_by_sorted(saved + added.map_values(|g: CapturedSegment| section_of(g)), section_rank());
}

} // verus!
