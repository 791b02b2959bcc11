//! The evidence a meeting offers to generated suggestions: timed speaker
//! turns, and the citable sources (manual fields, turns, and raw words
//! that the turns do not account for).
use vstd::prelude::*;

use crate::order::{insert_le, lemma_insert_le_at, lemma_sort_le_step, sort_le};
use crate::session::{AudioSource, Session, SourceTranscript, TranscriptChunk};
use crate::text::{chars_of, concat2, concat3, is_blank, is_whitespace, is_ws, owned, same_text, trim};
use crate::transcript::{chunk_key, chunk_key_spec};

verus! {

/// One speaker turn as offered to the service: offsets are microseconds of
/// the source's audio.
#[derive(Clone, Debug)]
pub struct TranscriptTurn {
    pub id: String,
    pub speaker_key: Option<String>,
    pub source: AudioSource,
    pub start_us: u128,
    pub end_us: u128,
    pub text: String,
}

/// A turn by value.
pub struct TurnView {
    pub id: Seq<char>,
    pub speaker_key: Option<Seq<char>>,
    pub source: AudioSource,
    pub start_us: int,
    pub end_us: int,
    pub text: Seq<char>,
}

impl TranscriptTurn {
    pub open spec fn view_of(&self) -> TurnView {
        TurnView {
            id: self.id@,
            speaker_key: match self.speaker_key {
                Some(k) => Some(k@),
                None => None,
            },
            source: self.source,
            start_us: self.start_us as int,
            end_us: self.end_us as int,
            text: self.text@,
        }
    }
}

pub open spec fn turn_views(v: Seq<TranscriptTurn>) -> Seq<TurnView> {
    v.map_values(|t: TranscriptTurn| t.view_of())
}

/// The turns of one chunk with words: one per speaker turn, keyed by the
/// chunk, when its speaker turns hold exactly its words; otherwise one turn
/// for the whole chunk.
pub open spec fn chunk_turns(source: AudioSource, c: TranscriptChunk) -> Seq<TurnView> {
    let key = chunk_key_spec(source, c);
    match c.transcript {
        Some(t) => if trim(t@).len() == 0 {
            Seq::empty()
        } else if c.segments@.len() == 0 || words(t@) != turn_words(c.segments@) {
            seq![
                TurnView {
                    id: key + ":text"@,
                    speaker_key: None,
                    source,
                    start_us: c.start_us as int,
                    end_us: c.start_us + c.duration_us,
                    text: t@,
                },
            ]
        } else {
            Seq::new(
                c.segments@.len(),
                |i: int|
                    TurnView {
                        id: key + ":"@ + c.segments@[i].id@,
                        speaker_key: Some(key + ":"@ + c.segments@[i].speaker@),
                        source,
                        start_us: c.start_us + c.segments@[i].start_us,
                        end_us: c.start_us + c.segments@[i].end_us,
                        text: c.segments@[i].text@,
                    },
            )
        },
        None => Seq::empty(),
    }
}

pub open spec fn track_turns(source: AudioSource, cs: Seq<TranscriptChunk>) -> Seq<TurnView>
    decreases cs.len(),
{
    if cs.len() == 0 {
        Seq::empty()
    } else {
        track_turns(source, cs.drop_last()) + chunk_turns(source, cs.last())
    }
}

/// Every turn in saved order: track by track, chunk by chunk.
pub open spec fn all_turns(ts: Seq<SourceTranscript>) -> Seq<TurnView>
    decreases ts.len(),
{
    if ts.len() == 0 {
        Seq::empty()
    } else {
        all_turns(ts.drop_last()) + track_turns(ts.last().source, ts.last().chunks@)
    }
}

/// Character-by-character order of two texts (which is the order of their
/// UTF-8 bytes).
pub open spec fn text_le(a: Seq<char>, b: Seq<char>) -> bool
    decreases a.len(),
{
    if a.len() == 0 {
        true
    } else if b.len() == 0 {
        false
    } else if a[0] != b[0] {
        (a[0] as u32) < (b[0] as u32)
    } else {
        text_le(a.drop_first(), b.drop_first())
    }
}

/// Turns are ordered by start, then by ID.
pub open spec fn turn_le() -> spec_fn(TurnView, TurnView) -> bool {
    |a: TurnView, b: TurnView| a.start_us < b.start_us || (a.start_us == b.start_us && text_le(a.id, b.id))
}

fn text_le_exec(a: &str, b: &str) -> (r: bool)
    ensures
        r == text_le(a@, b@),
{
    let x = chars_of(a);
    let y = chars_of(b);
    let mut i: usize = 0;
    proof {
        assert(x@.skip(0) =~= x@);
        assert(y@.skip(0) =~= y@);
    }
    while i < x.len()
        invariant
            i <= x@.len(),
            text_le(a@, b@) == text_le(x@.skip(i as int), y@.skip(i as int)),
            x@ == a@,
            y@ == b@,
            i <= y@.len(),
            x@.take(i as int) == y@.take(i as int),
        decreases x@.len() - i,
    {
        let ghost xs = x@.skip(i as int);
        let ghost ys = y@.skip(i as int);
        if i == y.len() {
            return false;
        }
        proof {
            assert(xs[0] == x@[i as int]);
            assert(ys[0] == y@[i as int]);
            assert(xs.drop_first() =~= x@.skip(i + 1));
            assert(ys.drop_first() =~= y@.skip(i + 1));
        }
        if x[i] != y[i] {
            return (x[i] as u32) < (y[i] as u32);
        }
        proof {
            assert(x@.take(i + 1) =~= x@.take(i as int).push(x@[i as int]));
            assert(y@.take(i + 1) =~= y@.take(i as int).push(y@[i as int]));
        }
        i = i + 1;
    }
    true
}

fn turn_before(a: &TranscriptTurn, b: &TranscriptTurn) -> (r: bool)
    ensures
        r == (turn_le())(a.view_of(), b.view_of()),
{
    a.start_us < b.start_us || (a.start_us == b.start_us && text_le_exec(a.id.as_str(), b.id.as_str()))
}

fn keyed(key: &str, part: &str) -> (r: String)
    ensures
        r@ == key@ + ":"@ + part@,
{
    concat3(key, ":", part)
}

fn push_chunk_turns(out: &mut Vec<TranscriptTurn>, source: AudioSource, c: &TranscriptChunk)
    ensures
        turn_views(final(out)@) == turn_views(old(out)@) + chunk_turns(source, *c),
{
    let ghost before = turn_views(out@);
    match &c.transcript {
        None => {
            proof {
                assert(before + chunk_turns(source, *c) =~= before);
            }
        },
        Some(t) => {
            if is_blank(t.as_str()) {
                proof {
                    assert(before + chunk_turns(source, *c) =~= before);
                }
                return ;
            }
            let key = chunk_key(source, c);
            let whole = c.segments.len() == 0 || !words_match(t.as_str(), &c.segments);
            if whole {
                let turn = TranscriptTurn {
                    id: concat2(key.as_str(), ":text"),
                    speaker_key: None,
                    source,
                    start_us: c.start_us as u128,
                    end_us: c.start_us as u128 + c.duration_us as u128,
                    text: t.clone(),
                };
                out.push(turn);
                proof {
                    assert(turn_views(out@) =~= before + chunk_turns(source, *c));
                }
            } else {
                let n: usize = c.segments.len();
                let mut i: usize = 0;
                while i < n
                    invariant
                        n == c.segments@.len(),
                        n > 0,
                        i <= n,
                        key@ == chunk_key_spec(source, *c),
                        c.transcript == Some(*t),
                        trim(t@).len() != 0,
                        words(t@) == turn_words(c.segments@),
                        turn_views(out@) == before + chunk_turns(source, *c).take(i as int),
                    decreases n - i,
                {
                    let s = &c.segments[i];
                    let turn = TranscriptTurn {
                        id: keyed(key.as_str(), s.id.as_str()),
                        speaker_key: Some(keyed(key.as_str(), s.speaker.as_str())),
                        source,
                        start_us: c.start_us as u128 + s.start_us as u128,
                        end_us: c.start_us as u128 + s.end_us as u128,
                        text: s.text.clone(),
                    };
                    let ghost mid = turn_views(out@);
                    out.push(turn);
                    proof {
                        assert(turn_views(out@) =~= mid.push(turn.view_of()));
                        assert(chunk_turns(source, *c).take(i + 1) =~= chunk_turns(source, *c).take(
                            i as int,
                        ).push(chunk_turns(source, *c)[i as int]));
                    }
                    i = i + 1;
                }
                proof {
                    assert(chunk_turns(source, *c).take(n as int) =~= chunk_turns(source, *c));
                }
            }
        },
    }
}

fn collect_turns(ts: &Vec<SourceTranscript>) -> (out: Vec<TranscriptTurn>)
    ensures
        turn_views(out@) == all_turns(ts@),
{
    let mut out: Vec<TranscriptTurn> = Vec::new();
    let n: usize = ts.len();
    let mut i: usize = 0;
    proof {
        assert(ts@.take(0) =~= Seq::<SourceTranscript>::empty());
        assert(turn_views(out@) =~= Seq::<TurnView>::empty());
    }
    while i < n
        invariant
            n == ts@.len(),
            i <= n,
            turn_views(out@) == all_turns(ts@.take(i as int)),
        decreases n - i,
    {
        let track = &ts[i];
        let m: usize = track.chunks.len();
        let mut j: usize = 0;
        proof {
            assert(ts@.take(i + 1).drop_last() =~= ts@.take(i as int));
            assert(track.chunks@.take(0) =~= Seq::<TranscriptChunk>::empty());
        }
        while j < m
            invariant
                n == ts@.len(),
                i < n,
                track == &ts@[i as int],
                m == track.chunks@.len(),
                j <= m,
                turn_views(out@) == all_turns(ts@.take(i as int)) + track_turns(
                    track.source,
                    track.chunks@.take(j as int),
                ),
            decreases m - j,
        {
            proof {
                assert(track.chunks@.take(j + 1).drop_last() =~= track.chunks@.take(j as int));
            }
            push_chunk_turns(&mut out, track.source, &track.chunks[j]);
            j = j + 1;
        }
        proof {
            assert(track.chunks@.take(m as int) =~= track.chunks@);
        }
        i = i + 1;
    }
    proof {
        assert(ts@.take(n as int) =~= ts@);
    }
    out
}

/// Every speaker turn of the meeting ordered by start offset, then by ID.
pub fn transcript_turns(session: &Session) -> (r: Vec<TranscriptTurn>)
    ensures
        turn_views(r@) == sort_le(all_turns(session.transcription@), turn_le()),
{
    let items = collect_turns(&session.transcription);
    let ghost orig = items@;
    let ghost all = turn_views(items@);
    let mut out: Vec<TranscriptTurn> = Vec::new();
    proof {
        assert(all.take(0) =~= Seq::<TurnView>::empty());
    }
    for item in it: items.into_iter()
        invariant
            it.seq() == orig,
            all == turn_views(orig),
            turn_views(out@) == sort_le(all.take(it.index() as int), turn_le()),
    {
        let ghost k = it.index() as int;
        let ghost before = turn_views(out@);
        proof {
            assert(item == orig[k]);
            assert(all[k] == item.view_of());
        }
        let mut p: usize = out.len();
        while p > 0 && !turn_before(&out[p - 1], &item)
            invariant
                p <= out@.len(),
                before == turn_views(out@),
                forall|j: int|
                    p <= j < out@.len() ==> !(turn_le())((#[trigger] out@[j]).view_of(), item.view_of()),
            decreases p,
        {
            p = p - 1;
        }
        proof {
            assert forall|j: int| p <= j < before.len() implies !(turn_le())(
                #[trigger] before[j],
                item.view_of(),
            ) by {
                assert(before[j] == out@[j].view_of());
            }
            if p > 0 {
                assert(before[p - 1] == out@[p - 1].view_of());
            }
            lemma_insert_le_at(before, item.view_of(), turn_le(), p as int);
            lemma_sort_le_step(all, k, turn_le());
        }
        out.insert(p, item);
        proof {
            assert(turn_views(out@) =~= before.insert(p as int, all[k]));
        }
    }
    proof {
        assert(all.take(all.len() as int) =~= all);
    }
    out
}

/// A citable source of a meeting.
#[derive(Clone, Debug)]
pub struct MeetingSource {
    pub id: String,
    pub text: String,
}

pub open spec fn source_views(v: Seq<MeetingSource>) -> Seq<(Seq<char>, Seq<char>)> {
    v.map_values(|m: MeetingSource| (m.id@, m.text@))
}

/// The words of a text: its maximal runs of non-white-space characters.
pub open spec fn words(s: Seq<char>) -> Seq<Seq<char>>
    decreases s.len(),
{
    if s.len() == 0 {
        Seq::empty()
    } else {
        let w = words(s.drop_last());
        let c = s.last();
        if is_ws(c) {
            w
        } else if s.len() >= 2 && !is_ws(s[s.len() - 2]) {
            w.update(w.len() - 1, w.last().push(c))
        } else {
            w.push(seq![c])
        }
    }
}

proof fn lemma_words_nonempty(s: Seq<char>)
    requires
        s.len() >= 1,
        !is_ws(s.last()),
    ensures
        words(s).len() >= 1,
    decreases s.len(),
{
    if s.len() >= 2 && !is_ws(s[s.len() - 2]) {
        assert(s.drop_last().last() == s[s.len() - 2]);
        lemma_words_nonempty(s.drop_last());
    }
}

/// The words of every speaker turn, in order.
pub open spec fn turn_words(segs: Seq<crate::session::TranscriptSegment>) -> Seq<Seq<char>>
    decreases segs.len(),
{
    if segs.len() == 0 {
        Seq::empty()
    } else {
        turn_words(segs.drop_last()) + words(segs.last().text@)
    }
}

pub open spec fn word_views(v: Seq<Vec<char>>) -> Seq<Seq<char>> {
    v.map_values(|w: Vec<char>| w@)
}

fn push_words(out: &mut Vec<Vec<char>>, s: &str)
    ensures
        word_views(final(out)@) == word_views(old(out)@) + words(s@),
{
    let v = chars_of(s);
    let n: usize = v.len();
    let ghost base = word_views(out@);
    let mut i: usize = 0;
    proof {
        assert(v@.take(0) =~= Seq::<char>::empty());
        assert(base + words(v@.take(0)) =~= base);
    }
    while i < n
        invariant
            n == v@.len(),
            i <= n,
            word_views(out@) == base + words(v@.take(i as int)),
        decreases n - i,
    {
        let c = v[i];
        let ghost pre = v@.take(i as int);
        let ghost cur = v@.take(i + 1);
        proof {
            assert(cur.drop_last() =~= pre);
            assert(cur.last() == c);
        }
        if !is_whitespace(c) {
            if i >= 1 && !is_whitespace(v[i - 1]) {
                proof {
                    assert(cur[cur.len() - 2] == v@[i - 1]);
                    assert(pre.last() == v@[i - 1]);
                    lemma_words_nonempty(pre);
                    assert(word_views(out@).len() == out@.len());
                }
                let ghost wv = word_views(out@);
                let mut last = out.pop().unwrap();
                last.push(c);
                out.push(last);
                proof {
                    assert(word_views(out@) =~= wv.update(wv.len() - 1, wv.last().push(c)));
                    assert(word_views(out@) =~= base + words(cur));
                }
            } else {
                let mut w: Vec<char> = Vec::new();
                w.push(c);
                let ghost wv = word_views(out@);
                out.push(w);
                proof {
                    if i >= 1 {
                        assert(cur[cur.len() - 2] == v@[i - 1]);
                    }
                    assert(w@ =~= seq![c]);
                    assert(word_views(out@) =~= wv.push(seq![c]));
                    assert(word_views(out@) =~= base + words(cur));
                }
            }
        }
        i = i + 1;
    }
    proof {
        assert(v@.take(n as int) =~= v@);
    }
}

fn same_words(a: &Vec<Vec<char>>, b: &Vec<Vec<char>>) -> (r: bool)
    ensures
        r == (word_views(a@) == word_views(b@)),
{
    if a.len() != b.len() {
        proof {
            assert(word_views(a@).len() != word_views(b@).len());
        }
        return false;
    }
    let n: usize = a.len();
    let mut i: usize = 0;
    while i < n
        invariant
            n == a@.len(),
            n == b@.len(),
            i <= n,
            forall|k: int| 0 <= k < i ==> a@[k]@ == b@[k]@,
        decreases n - i,
    {
        let x = &a[i];
        let y = &b[i];
        if x.len() != y.len() {
            proof {
                assert(word_views(a@)[i as int] != word_views(b@)[i as int]);
            }
            return false;
        }
        let mut j: usize = 0;
        while j < x.len()
            invariant
                n == a@.len(),
                n == b@.len(),
                i < n,
                x == &a@[i as int],
                y == &b@[i as int],
                x@.len() == y@.len(),
                j <= x@.len(),
                forall|q: int| 0 <= q < j ==> x@[q] == y@[q],
            decreases x@.len() - j,
        {
            if x[j] != y[j] {
                proof {
                    assert(x@ != y@);
                    assert(word_views(a@)[i as int] == x@);
                    assert(word_views(b@)[i as int] == y@);
                }
                return false;
            }
            j = j + 1;
        }
        proof {
            assert(x@ =~= y@);
        }
        i = i + 1;
    }
    proof {
        assert(word_views(a@) =~= word_views(b@));
    }
    true
}

/// Whether the speaker turns hold exactly the words of the text.
fn words_match(text: &str, segs: &Vec<crate::session::TranscriptSegment>) -> (r: bool)
    ensures
        r == (words(text@) == turn_words(segs@)),
{
    let mut own: Vec<Vec<char>> = Vec::new();
    push_words(&mut own, text);
    let mut theirs: Vec<Vec<char>> = Vec::new();
    let n: usize = segs.len();
    let mut i: usize = 0;
    proof {
        assert(word_views(own@) =~= words(text@));
        assert(segs@.take(0) =~= Seq::<crate::session::TranscriptSegment>::empty());
        assert(word_views(theirs@) =~= turn_words(segs@.take(0)));
    }
    while i < n
        invariant
            n == segs@.len(),
            i <= n,
            word_views(theirs@) == turn_words(segs@.take(i as int)),
        decreases n - i,
    {
        proof {
            assert(segs@.take(i + 1).drop_last() =~= segs@.take(i as int));
        }
        push_words(&mut theirs, segs[i].text.as_str());
        i = i + 1;
    }
    proof {
        assert(segs@.take(n as int) =~= segs@);
    }
    same_words(&own, &theirs)
}

/// Whether a chunk's words must be cited on their own: it has words and
/// speaker turns, and the turns' words differ from the chunk's words.
pub open spec fn raw_needed(c: TranscriptChunk) -> bool {
    match c.transcript {
        Some(x) => c.segments@.len() != 0 && words(x@) != turn_words(c.segments@),
        None => false,
    }
}

pub open spec fn track_raw(source: AudioSource, cs: Seq<TranscriptChunk>) -> Seq<(Seq<char>, Seq<char>)>
    decreases cs.len(),
{
    if cs.len() == 0 {
        Seq::empty()
    } else {
        let rest = track_raw(source, cs.drop_last());
        let c = cs.last();
        if raw_needed(c) {
            rest.push(("raw:"@ + chunk_key_spec(source, c), c.transcript->0@))
        } else {
            rest
        }
    }
}

/// The raw words of every chunk whose turns miss some of them, in saved order.
pub open spec fn raw_sources(ts: Seq<SourceTranscript>) -> Seq<(Seq<char>, Seq<char>)>
    decreases ts.len(),
{
    if ts.len() == 0 {
        Seq::empty()
    } else {
        raw_sources(ts.drop_last()) + track_raw(ts.last().source, ts.last().chunks@)
    }
}

/// Names joined by a comma and a space.
pub open spec fn joined_names(names: Seq<String>) -> Seq<char>
    decreases names.len(),
{
    if names.len() == 0 {
        Seq::empty()
    } else if names.len() == 1 {
        names[0]@
    } else {
        joined_names(names.drop_last()) + ", "@ + names.last()@
    }
}

pub open spec fn nonblank(p: (Seq<char>, Seq<char>)) -> bool {
    trim(p.1).len() != 0
}

/// The pairs whose text is not blank, in order.
pub open spec fn keep_text(v: Seq<(Seq<char>, Seq<char>)>) -> Seq<(Seq<char>, Seq<char>)>
    decreases v.len(),
{
    if v.len() == 0 {
        Seq::empty()
    } else if nonblank(v.last()) {
        keep_text(v.drop_last()).push(v.last())
    } else {
        keep_text(v.drop_last())
    }
}

/// The person's own fields that have text.
/// The notes a suggestion may cite: the Notes document when the person
/// wrote or edited it; the typed notes while the document is still the
/// generated one, or when no document was saved, so that generated text is
/// never taken as evidence for itself.
pub open spec fn evidence_notes(s: Session) -> Seq<char> {
    match s.notes {
        Some(n) => if (s.enriched_notes matches Some(e) && e@ == n@) {
            s.original_notes@
        } else {
            n@
        },
        None => s.original_notes@,
    }
}

fn evidence_notes_text(session: &Session) -> (n: String)
    ensures
        n@ == evidence_notes(*session),
{
    match &session.notes {
        Some(n) => {
            let generated = match &session.enriched_notes {
                Some(e) => same_text(e.as_str(), n.as_str()),
                None => false,
            };
            if generated {
                session.original_notes.clone()
            } else {
                n.clone()
            }
        },
        None => session.original_notes.clone(),
    }
}

pub open spec fn manual_sources(s: Session) -> Seq<(Seq<char>, Seq<char>)> {
    keep_text(
        seq![
            ("manual-title"@, s.title@),
            ("manual-context"@, s.context@),
            ("manual-notes"@, evidence_notes(s)),
            ("manual-attendees"@, joined_names(s.attendees@)),
        ],
    )
}

/// What suggestions may cite: the manual fields with text; then the speaker
/// turns in order, followed by the raw words of chunks whose turns miss
/// some of them; or, for a meeting without turns, its non-blank legacy
/// transcript.
pub open spec fn meeting_sources_spec(s: Session) -> Seq<(Seq<char>, Seq<char>)> {
    let turns = sort_le(all_turns(s.transcription@), turn_le());
    if turns.len() == 0 {
        manual_sources(s) + match s.transcript {
            Some(t) => if trim(t@).len() != 0 {
                seq![("legacy-transcript"@, t@)]
            } else {
                Seq::empty()
            },
            None => Seq::empty(),
        }
    } else {
        manual_sources(s) + turns.map_values(|t: TurnView| (t.id, t.text)) + raw_sources(
            s.transcription@,
        )
    }
}

fn join_names(names: &Vec<String>) -> (r: String)
    ensures
        r@ == joined_names(names@),
{
    let mut r = String::new();
    let n: usize = names.len();
    let mut i: usize = 0;
    while i < n
        invariant
            n == names@.len(),
            i <= n,
            r@ == joined_names(names@.take(i as int)),
        decreases n - i,
    {
        proof {
            assert(names@.take(i + 1).drop_last() =~= names@.take(i as int));
        }
        if i == 0 {
            r = names[i].clone();
            proof {
                assert(names@.take(1) =~= seq![names@[0]]);
            }
        } else {
            r.append(", ");
            r.append(names[i].as_str());
        }
        i = i + 1;
    }
    proof {
        assert(names@.take(n as int) =~= names@);
    }
    r
}

fn push_if_text(out: &mut Vec<MeetingSource>, id: &str, text: String)
    ensures
        source_views(final(out)@) == if trim(text@).len() != 0 {
            source_views(old(out)@).push((id@, text@))
        } else {
            source_views(old(out)@)
        },
{
    if !is_blank(text.as_str()) {
        let ghost before = source_views(out@);
        out.push(MeetingSource { id: owned(id), text });
        proof {
            assert(source_views(out@) =~= before.push((id@, text@)));
        }
    }
}

fn push_raw(out: &mut Vec<MeetingSource>, source: AudioSource, c: &TranscriptChunk)
    ensures
        source_views(final(out)@) == if raw_needed(*c) {
            source_views(old(out)@).push(("raw:"@ + chunk_key_spec(source, *c), c.transcript->0@))
        } else {
            source_views(old(out)@)
        },
{
    if let Some(x) = &c.transcript {
        if c.segments.len() != 0 {
            let mut own: Vec<Vec<char>> = Vec::new();
            push_words(&mut own, x.as_str());
            let mut theirs: Vec<Vec<char>> = Vec::new();
            let n: usize = c.segments.len();
            let mut i: usize = 0;
            proof {
                assert(word_views(own@) =~= words(x@));
                assert(c.segments@.take(0) =~= Seq::<crate::session::TranscriptSegment>::empty());
                assert(word_views(theirs@) =~= turn_words(c.segments@.take(0)));
            }
            while i < n
                invariant
                    n == c.segments@.len(),
                    i <= n,
                    word_views(theirs@) == turn_words(c.segments@.take(i as int)),
                decreases n - i,
            {
                proof {
                    assert(c.segments@.take(i + 1).drop_last() =~= c.segments@.take(i as int));
                }
                push_words(&mut theirs, c.segments[i].text.as_str());
                i = i + 1;
            }
            proof {
                assert(c.segments@.take(n as int) =~= c.segments@);
            }
            if !same_words(&own, &theirs) {
                let key = chunk_key(source, c);
                let ghost before = source_views(out@);
                out.push(MeetingSource { id: concat2("raw:", key.as_str()), text: x.clone() });
                proof {
                    assert(source_views(out@) =~= before.push(
                        ("raw:"@ + chunk_key_spec(source, *c), c.transcript->0@),
                    ));
                }
            }
        }
    }
}

/// Everything a generated suggestion may cite, with stable IDs.
pub fn meeting_sources(session: &Session) -> (r: Vec<MeetingSource>)
    ensures
        source_views(r@) == meeting_sources_spec(*session),
{
    let ghost p0 = ("manual-title"@, session.title@);
    let ghost p1 = ("manual-context"@, session.context@);
    let ghost p2 = ("manual-notes"@, evidence_notes(*session));
    let ghost p3 = ("manual-attendees"@, joined_names(session.attendees@));
    let mut out: Vec<MeetingSource> = Vec::new();
    proof {
        assert(seq![p0].drop_last() =~= Seq::<(Seq<char>, Seq<char>)>::empty());
        assert(keep_text(Seq::<(Seq<char>, Seq<char>)>::empty()) =~= Seq::<(Seq<char>, Seq<char>)>::empty());
        assert(source_views(out@) =~= Seq::<(Seq<char>, Seq<char>)>::empty());
    }
    push_if_text(&mut out, "manual-title", session.title.clone());
    proof {
        assert(source_views(out@) =~= keep_text(seq![p0]));
        assert(seq![p0, p1].drop_last() =~= seq![p0]);
    }
    push_if_text(&mut out, "manual-context", session.context.clone());
    proof {
        assert(source_views(out@) =~= keep_text(seq![p0, p1]));
        assert(seq![p0, p1, p2].drop_last() =~= seq![p0, p1]);
    }
    push_if_text(&mut out, "manual-notes", evidence_notes_text(session));
    proof {
        assert(source_views(out@) =~= keep_text(seq![p0, p1, p2]));
        assert(seq![p0, p1, p2, p3].drop_last() =~= seq![p0, p1, p2]);
    }
    push_if_text(&mut out, "manual-attendees", join_names(&session.attendees));
    proof {
        assert(source_views(out@) =~= keep_text(seq![p0, p1, p2, p3]));
        assert(source_views(out@) =~= manual_sources(*session));
    }
    let turns = transcript_turns(session);
    if turns.len() == 0 {
        match &session.transcript {
            Some(t) => push_if_text(&mut out, "legacy-transcript", t.clone()),
            None => {},
        }
        proof {
            assert(source_views(out@) =~= meeting_sources_spec(*session));
        }
        return out;
    }
    let ghost tv = turn_views(turns@);
    let ghost base = source_views(out@);
    for turn in it: turns.into_iter()
        invariant
            it.seq() == turns@,
            tv == turn_views(turns@),
            source_views(out@) == base + tv.take(it.index() as int).map_values(
                |t: TurnView| (t.id, t.text),
            ),
    {
        let ghost k = it.index() as int;
        let ghost before = source_views(out@);
        proof {
            assert(turn == turns@[k]);
            assert(tv[k] == turn.view_of());
        }
        out.push(MeetingSource { id: turn.id, text: turn.text });
        proof {
            assert(source_views(out@) =~= before.push((tv[k].id, tv[k].text)));
            assert(tv.take(k + 1) =~= tv.take(k).push(tv[k]));
            assert(tv.take(k + 1).map_values(|t: TurnView| (t.id, t.text)) =~= tv.take(k).map_values(
                |t: TurnView| (t.id, t.text),
            ).push((tv[k].id, tv[k].text)));
            assert(source_views(out@) =~= base + tv.take(k + 1).map_values(
                |t: TurnView| (t.id, t.text),
            ));
        }
    }
    proof {
        assert(tv.take(tv.len() as int) =~= tv);
    }
    let ghost with_turns = source_views(out@);
    let ts = &session.transcription;
    let n: usize = ts.len();
    let mut i: usize = 0;
    proof {
        assert(ts@.take(0) =~= Seq::<SourceTranscript>::empty());
        assert(with_turns + raw_sources(ts@.take(0)) =~= with_turns);
    }
    while i < n
        invariant
            n == ts@.len(),
            i <= n,
            source_views(out@) == with_turns + raw_sources(ts@.take(i as int)),
        decreases n - i,
    {
        let track = &ts[i];
        let m: usize = track.chunks.len();
        let mut j: usize = 0;
        proof {
            assert(ts@.take(i + 1).drop_last() =~= ts@.take(i as int));
            assert(track.chunks@.take(0) =~= Seq::<TranscriptChunk>::empty());
        }
        while j < m
            invariant
                n == ts@.len(),
                i < n,
                track == &ts@[i as int],
                m == track.chunks@.len(),
                j <= m,
                source_views(out@) == with_turns + raw_sources(ts@.take(i as int)) + track_raw(
                    track.source,
                    track.chunks@.take(j as int),
                ),
            decreases m - j,
        {
            proof {
                assert(track.chunks@.take(j + 1).drop_last() =~= track.chunks@.take(j as int));
            }
            push_raw(&mut out, track.source, &track.chunks[j]);
            j = j + 1;
        }
        proof {
            assert(track.chunks@.take(m as int) =~= track.chunks@);
        }
        i = i + 1;
    }
    proof {
        assert(ts@.take(n as int) =~= ts@);
    }
    out
}

} // verus!
