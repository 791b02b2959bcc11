//! Transcript text built from per-chunk results: stable chunk keys, the
//! combined readable transcript, and the checks that saved speaker timing
//! must pass.
use vstd::prelude::*;

use crate::error::{AppError, AppResult};
use crate::order::{insert_by, lemma_insert_by_at, lemma_sort_by_step, sort_by};
use crate::session::{AudioSource, SourceTranscript, TranscriptChunk, TranscriptSegment};
use crate::text::{
    blank, byte_len, concat2, concat3, decimal, decimal_string, is_blank, owned, padded_decimal,
    padded_decimal_string, push_char, same_text, trim, trim_str, utf8_len,
};

verus! {

pub open spec fn source_key(source: AudioSource) -> Seq<char> {
    match source {
        AudioSource::System => "system"@,
        AudioSource::Microphone => "microphone"@,
    }
}

/// Milliseconds, rounded, of a microsecond offset.
pub open spec fn rounded_ms(us: int) -> nat {
    ((us + 500) / 1000) as nat
}

/// A chunk's stable key: source, capture section if any, and start offset in
/// milliseconds. Speaker labels and turn IDs are scoped by it.
pub open spec fn chunk_key_spec(source: AudioSource, chunk: TranscriptChunk) -> Seq<char> {
    let offset = "offset-"@ + decimal(rounded_ms(chunk.start_us as int));
    match chunk.segment_index {
        Some(i) => source_key(source) + ":segment-"@ + decimal(i as nat) + ":"@ + offset,
        None => source_key(source) + ":"@ + offset,
    }
}

pub fn chunk_key(source: AudioSource, chunk: &TranscriptChunk) -> (k: String)
    ensures
        k@ == chunk_key_spec(source, *chunk),
{
    let name = match source {
        AudioSource::System => "system",
        AudioSource::Microphone => "microphone",
    };
    let ms: u128 = (chunk.start_us as u128 + 500) / 1000;
    let offset = concat2("offset-", decimal_string(ms).as_str());
    match chunk.segment_index {
        Some(i) => {
            let head = concat3(name, ":segment-", decimal_string(i as u128).as_str());
            concat3(head.as_str(), ":", offset.as_str())
        },
        None => concat3(name, ":", offset.as_str()),
    }
}

/// `hh:mm:ss` of a microsecond offset rounded to whole seconds.
pub open spec fn audio_time_spec(us: int) -> Seq<char> {
    let s = (us + 500_000) / 1_000_000;
    padded_decimal((s / 3600) as nat, 2) + ":"@ + padded_decimal((s / 60 % 60) as nat, 2) + ":"@
        + padded_decimal((s % 60) as nat, 2)
}

pub fn audio_time(us: u128) -> (t: String)
    requires
        us <= 2 * (u64::MAX as int),
    ensures
        t@ == audio_time_spec(us as int),
{
    let s: u64 = ((us + 500_000) / 1_000_000) as u64;
    let h = padded_decimal_string(s / 3600, 2);
    let m = padded_decimal_string(s / 60 % 60, 2);
    let sec = padded_decimal_string(s % 60, 2);
    concat3(concat3(h.as_str(), ":", m.as_str()).as_str(), ":", sec.as_str())
}

/// One piece of the combined transcript: where it starts and ends, its
/// source, and its words.
pub struct TranscriptEntry {
    pub start_us: int,
    pub end_us: int,
    pub source: AudioSource,
    pub text: Seq<char>,
}

/// The non-blank chunk transcripts, in saved order (source by source).
pub open spec fn entries_of(tracks: Seq<SourceTranscript>) -> Seq<TranscriptEntry>
    decreases tracks.len(),
{
    if tracks.len() == 0 {
        Seq::empty()
    } else {
        entries_of(tracks.drop_last()) + chunk_entries(
            tracks.last().source,
            tracks.last().chunks@,
        )
    }
}

pub open spec fn chunk_entries(source: AudioSource, chunks: Seq<TranscriptChunk>) -> Seq<TranscriptEntry>
    decreases chunks.len(),
{
    if chunks.len() == 0 {
        Seq::empty()
    } else {
        let c = chunks.last();
        let rest = chunk_entries(source, chunks.drop_last());
        match c.transcript {
            Some(t) => if trim(t@).len() != 0 {
                rest.push(
                    TranscriptEntry {
                        start_us: c.start_us as int,
                        end_us: c.start_us + c.duration_us,
                        source,
                        text: t@,
                    },
                )
            } else {
                rest
            },
            None => rest,
        }
    }
}

/// Entries are ordered by their start offset.
pub open spec fn by_start() -> spec_fn(TranscriptEntry) -> int {
    |e: TranscriptEntry| e.start_us
}

pub open spec fn transcript_header() -> Seq<char> {
    "Source tracks overlap in time. Offsets below refer to each source's recorded audio, not verified wall-clock alignment; capture gaps can shift these offsets.\n\n"@
}

pub open spec fn entry_text(e: TranscriptEntry) -> Seq<char> {
    "["@ + audio_time_spec(e.start_us) + " – "@ + audio_time_spec(e.end_us) + "] "@
        + e.source.label_spec() + ":\n"@ + trim(e.text)
}

/// Entries separated by blank lines.
pub open spec fn joined_entries(s: Seq<TranscriptEntry>) -> Seq<char>
    decreases s.len(),
{
    if s.len() == 0 {
        Seq::empty()
    } else if s.len() == 1 {
        entry_text(s[0])
    } else {
        joined_entries(s.drop_last()) + "\n\n"@ + entry_text(s.last())
    }
}

/// The readable transcript of every chunk with words, ordered by start
/// offset, each under its time range and source; `None` when no chunk has words.
pub open spec fn assembled(tracks: Seq<SourceTranscript>) -> Option<Seq<char>> {
    let e = sort_by(entries_of(tracks), by_start());
    if e.len() == 0 {
        None
    } else {
        Some(transcript_header() + joined_entries(e))
    }
}

/// A chunk transcript with its time range and source, as collected for the
/// combined transcript.
#[derive(Debug)]
pub struct TimedText {
    pub start_us: u64,
    pub duration_us: u64,
    pub source: AudioSource,
    pub text: String,
}

impl TimedText {
    pub open spec fn entry(&self) -> TranscriptEntry {
        TranscriptEntry {
            start_us: self.start_us as int,
            end_us: self.start_us + self.duration_us,
            source: self.source,
            text: self.text@,
        }
    }
}

pub open spec fn entries_view(v: Seq<TimedText>) -> Seq<TranscriptEntry> {
    v.map_values(|t: TimedText| t.entry())
}

proof fn lemma_chunk_entries_step(source: AudioSource, chunks: Seq<TranscriptChunk>, j: int)
    requires
        0 <= j < chunks.len(),
    ensures
        chunk_entries(source, chunks.take(j + 1)) == ({
            let c = chunks[j];
            let rest = chunk_entries(source, chunks.take(j));
            match c.transcript {
                Some(t) => if trim(t@).len() != 0 {
                    rest.push(
                        TranscriptEntry {
                            start_us: c.start_us as int,
                            end_us: c.start_us + c.duration_us,
                            source,
                            text: t@,
                        },
                    )
                } else {
                    rest
                },
                None => rest,
            }
        }),
{
    assert(chunks.take(j + 1).drop_last() =~= chunks.take(j));
}

proof fn lemma_entries_step(tracks: Seq<SourceTranscript>, i: int)
    requires
        0 <= i < tracks.len(),
    ensures
        entries_of(tracks.take(i + 1)) == entries_of(tracks.take(i)) + chunk_entries(
            tracks[i].source,
            tracks[i].chunks@,
        ),
{
    assert(tracks.take(i + 1).drop_last() =~= tracks.take(i));
}

/// Every non-blank chunk transcript with its time range, in saved order.
fn collect_entries(tracks: &Vec<SourceTranscript>) -> (out: Vec<TimedText>)
    ensures
        entries_view(out@) == entries_of(tracks@),
{
    let mut out: Vec<TimedText> = Vec::new();
    let n = tracks.len();
    let mut i: usize = 0;
    while i < n
        invariant
            n == tracks@.len(),
            i <= n,
            entries_view(out@) == entries_of(tracks@.take(i as int)),
        decreases n - i,
    {
        let track = &tracks[i];
        let m = track.chunks.len();
        let mut j: usize = 0;
        proof {
            lemma_entries_step(tracks@, i as int);
            assert(track.chunks@.take(0) =~= Seq::<TranscriptChunk>::empty());
        }
        while j < m
            invariant
                n == tracks@.len(),
                i < n,
                track == tracks@[i as int],
                m == track.chunks@.len(),
                j <= m,
                entries_view(out@) == entries_of(tracks@.take(i as int)) + chunk_entries(
                    track.source,
                    track.chunks@.take(j as int),
                ),
            decreases m - j,
        {
            let chunk = &track.chunks[j];
            proof {
                lemma_chunk_entries_step(track.source, track.chunks@, j as int);
            }
            match &chunk.transcript {
                Some(t) => {
                    if !is_blank(t.as_str()) {
                        let item = TimedText {
                            start_us: chunk.start_us,
                            duration_us: chunk.duration_us,
                            source: track.source,
                            text: owned(t.as_str()),
                        };
                        let ghost before = out@;
                        out.push(item);
                        proof {
                            assert(entries_view(out@) =~= entries_view(before).push(item.entry()));
                        }
                    }
                },
                None => {},
            }
            j = j + 1;
        }
        proof {
            assert(track.chunks@.take(m as int) =~= track.chunks@);
        }
        i = i + 1;
    }
    proof {
        assert(tracks@.take(n as int) =~= tracks@);
    }
    out
}

/// The entries stably sorted by start offset.
fn sorted_by_start(items: Vec<TimedText>) -> (out: Vec<TimedText>)
    ensures
        entries_view(out@) == sort_by(entries_view(items@), by_start()),
{
    let ghost orig = items@;
    let ghost all = entries_view(items@);
    let mut out: Vec<TimedText> = Vec::new();
    proof {
        assert(all.take(0) =~= Seq::<TranscriptEntry>::empty());
    }
    for item in it: items.into_iter()
        invariant
            it.seq() == orig,
            all == entries_view(orig),
            entries_view(out@) == sort_by(all.take(it.index() as int), by_start()),
    {
        let ghost k = it.index() as int;
        let ghost before = entries_view(out@);
        proof {
            assert(item == orig[k]);
            assert(all[k] == item.entry());
        }
        let mut p: usize = out.len();
        while p > 0 && out[p - 1].start_us > item.start_us
            invariant
                p <= out@.len(),
                before == entries_view(out@),
                forall|j: int| p <= j < out@.len() ==> (#[trigger] out@[j]).start_us > item.start_us,
            decreases p,
        {
            p = p - 1;
        }
        proof {
            assert forall|j: int| p <= j < before.len() implies (#[trigger] before[j]).start_us
                > item.entry().start_us by {
                assert(before[j] == out@[j].entry());
            }
            if p > 0 {
                assert(before[p - 1] == out@[p - 1].entry());
            }
            lemma_insert_by_at(before, item.entry(), by_start(), p as int);
            lemma_sort_by_step(all, k, by_start());
        }
        out.insert(p, item);
        proof {
            assert(entries_view(out@) =~= before.insert(p as int, all[k]));
        }
    }
    proof {
        assert(all.take(all.len() as int) =~= all);
    }
    out
}

fn entry_line(t: &TimedText) -> (line: String)
    ensures
        line@ == entry_text(t.entry()),
{
    let start = audio_time(t.start_us as u128);
    let end = audio_time(t.start_us as u128 + t.duration_us as u128);
    let head = concat3("[", start.as_str(), " – ");
    let head = concat3(head.as_str(), end.as_str(), "] ");
    let head = concat3(head.as_str(), t.source.label(), ":\n");
    concat2(head.as_str(), trim_str(t.text.as_str()))
}

/// The combined readable transcript of every chunk with words: a note that
/// source offsets are not wall-clock aligned, then each chunk's trimmed text
/// under its `[start – end] Source:` line, ordered by start offset (chunks
/// that start together keep their saved order), separated by blank lines.
/// `None` when no chunk has words.
pub fn assembled_transcript(tracks: &Vec<SourceTranscript>) -> (r: Option<String>)
    ensures
        r matches Some(t) ==> assembled(tracks@) == Some(t@),
        r is None ==> assembled(tracks@) is None,
{
    let items = collect_entries(tracks);
    let sorted = sorted_by_start(items);
    let ghost e = entries_view(sorted@);
    if sorted.len() == 0 {
        return None;
    }
    let mut text = owned(
        "Source tracks overlap in time. Offsets below refer to each source's recorded audio, not verified wall-clock alignment; capture gaps can shift these offsets.\n\n",
    );
    let n = sorted.len();
    let mut k: usize = 0;
    while k < n
        invariant
            n == sorted@.len(),
            e == entries_view(sorted@),
            k <= n,
            n > 0,
            text@ == transcript_header() + joined_entries(e.take(k as int)),
        decreases n - k,
    {
        let line = entry_line(&sorted[k]);
        let ghost prev = text@;
        if k > 0 {
            text.append("\n\n");
        }
        text.append(line.as_str());
        proof {
            assert(e.take(k as int + 1).drop_last() =~= e.take(k as int));
            assert(e[k as int] == sorted@[k as int].entry());
            if k == 0 {
                assert(e.take(0) =~= Seq::<TranscriptEntry>::empty());
                assert(joined_entries(e.take(0)) =~= Seq::<char>::empty());
                assert(text@ =~= transcript_header() + joined_entries(e.take(1)));
            } else {
                assert(text@ =~= transcript_header() + joined_entries(e.take(k as int + 1)));
            }
        }
        k = k + 1;
    }
    proof {
        assert(e.take(n as int) =~= e);
    }
    Some(text)
}

/// Whether saved or returned speaker turns are usable for a chunk of
/// `duration_us`: each has a non-blank ID (at most 256 bytes, unique in the
/// chunk), a non-blank speaker (at most 256 bytes) and non-blank words; turns
/// start in order, each ends after it starts and no later than a second past
/// the chunk's end.
pub open spec fn segments_valid(segments: Seq<TranscriptSegment>, duration_us: int) -> bool {
    &&& duration_us >= 0
    &&& forall|i: int| 0 <= i < segments.len() ==> segment_fields_valid(#[trigger] segments[i], duration_us)
    &&& forall|i: int, j: int|
        0 <= i < j < segments.len() ==> (#[trigger] segments[i]).id@ != (#[trigger] segments[j]).id@
    &&& forall|i: int|
        0 < i < segments.len() ==> (#[trigger] segments[i]).start_us >= segments[i - 1].start_us
}

pub open spec fn segment_fields_valid(s: TranscriptSegment, duration_us: int) -> bool {
    &&& trim(s.id@).len() != 0
    &&& byte_len(s.id@) <= 256
    &&& trim(s.speaker@).len() != 0
    &&& byte_len(s.speaker@) <= 256
    &&& trim(s.text@).len() != 0
    &&& s.end_us > s.start_us
    &&& s.end_us <= duration_us + 1_000_000
}

pub fn invalid_speaker_timing() -> (e: AppError)
    ensures
        e.code@ == "invalid_transcription"@,
        e.message@ == "Speaker timestamps are invalid. Your audio and saved progress were kept."@,
{
    AppError::new(
        "invalid_transcription",
        "Speaker timestamps are invalid. Your audio and saved progress were kept.",
    )
}

/// Checks speaker turns against the chunk they belong to.
pub fn validate_transcript_segments(segments: &Vec<TranscriptSegment>, duration_us: u64) -> (r:
    AppResult<()>)
    ensures
        r is Ok <==> segments_valid(segments@, duration_us as int),
        r matches Err(e) ==> e.code@ == "invalid_transcription"@ && e.message@
            == "Speaker timestamps are invalid. Your audio and saved progress were kept."@,
{
    let n: usize = segments.len();
    let mut i: usize = 0;
    while i < n
        invariant
            n == segments@.len(),
            i <= n,
            forall|k: int| 0 <= k < i ==> segment_fields_valid(#[trigger] segments@[k], duration_us as int),
            forall|a: int, b: int|
                0 <= a < b < i ==> (#[trigger] segments@[a]).id@ != (#[trigger] segments@[b]).id@,
            forall|k: int|
                0 < k < i ==> (#[trigger] segments@[k]).start_us >= segments@[k - 1].start_us,
        decreases n - i,
    {
        let s = &segments[i];
        let fields_ok = !is_blank(s.id.as_str()) && utf8_len(s.id.as_str()) <= 256 && !is_blank(
            s.speaker.as_str(),
        ) && utf8_len(s.speaker.as_str()) <= 256 && !is_blank(s.text.as_str()) && s.end_us
            > s.start_us && s.end_us as u128 <= duration_us as u128 + 1_000_000;
        if !fields_ok {
            return Err(invalid_speaker_timing());
        }
        if i > 0 && s.start_us < segments[i - 1].start_us {
            return Err(invalid_speaker_timing());
        }
        let mut j: usize = 0;
        while j < i
            invariant
                n == segments@.len(),
                i < n,
                j <= i,
                s == &segments@[i as int],
                forall|a: int| 0 <= a < j ==> (#[trigger] segments@[a]).id@ != s.id@,
            decreases i - j,
        {
            if same_text(segments[j].id.as_str(), s.id.as_str()) {
                return Err(invalid_speaker_timing());
            }
            j = j + 1;
        }
        i = i + 1;
    }
    Ok(())
}

/// What the service returned for one upload: its words, speaker turns
/// relative to the upload's start, and whether turns were dropped.
#[derive(Clone, Debug)]
pub struct TranscriptionResult {
    pub omitted_speakers: bool,
    pub text: String,
    pub segments: Vec<TranscriptSegment>,
}

impl TranscriptionResult {
    /// Keeps the words when speaker turns are unusable: the turns are
    /// dropped and marked as omitted. Without words, bad turns are an error.
    pub fn retain_valid_speakers(&mut self, duration_us: u64) -> (r: AppResult<()>)
        ensures
            segments_valid(old(self).segments@, duration_us as int) ==> r is Ok && *final(self)
                == *old(self),
            !segments_valid(old(self).segments@, duration_us as int) && trim(old(self).text@).len()
                == 0 ==> (r matches Err(e) && e.code@ == "invalid_transcription"@ && e.message@
                == "Speaker timestamps are invalid. Your audio and saved progress were kept."@)
                && *final(self) == *old(self),
            !segments_valid(old(self).segments@, duration_us as int) && trim(old(self).text@).len()
                != 0 ==> r is Ok && final(self).segments@.len() == 0 && final(self).omitted_speakers
                && final(self).text == old(self).text && *final(self) == (TranscriptionResult {
                segments: final(self).segments,
                omitted_speakers: true,
                ..*old(self)
            }),
    {
        if let Err(error) = validate_transcript_segments(&self.segments, duration_us) {
            if is_blank(self.text.as_str()) {
                return Err(error);
            }
            self.segments = Vec::new();
            self.omitted_speakers = true;
        }
        Ok(())
    }
}

/// Law: the combined transcript lists its entries in start order and
/// leaves none out.
pub proof fn lemma_assembled_in_start_order(tracks: Seq<SourceTranscript>)
    ensures
        crate::order::sorted_by(sort_by(entries_of(tracks), by_start()), by_start()),
        sort_by(entries_of(tracks), by_start()).to_multiset() == entries_of(tracks).to_multiset(),
{
    crate::order::lemma_sort_by_sorted(entries_of(tracks), by_start());
}

} // verus!
