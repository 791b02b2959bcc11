//! Metadata suggestions from the service are shown only when they can be
//! verified against what was saved: every claim quotes its source exactly,
//! participants were introduced or invited, and topics follow the turns.
use vstd::prelude::*;

use crate::error::{AppError, AppResult};
use crate::session::{
    AiSuggestions, Evidence, ParticipantSuggestion, Session, Suggestion, TopicSuggestion,
};
use crate::sources::{
    all_turns, meeting_sources, meeting_sources_spec, source_views, transcript_turns, turn_le,
    turn_views, MeetingSource, TranscriptTurn, TurnView,
};
use crate::order::sort_le;
use crate::text::{
    alphanumeric, chars_of, concat3, contains, contains_str, is_alphanumeric, is_blank, lowercase,
    same_text, string_of, to_lowercase, trim,
};

verus! {

pub struct EvidenceV {
    pub source_id: Seq<char>,
    pub excerpt: Seq<char>,
}

pub struct SuggestionV {
    pub value: Seq<char>,
    pub evidence: Seq<EvidenceV>,
}

pub struct ParticipantV {
    pub name: Seq<char>,
    pub speaker_key: Option<Seq<char>>,
    pub evidence: Seq<EvidenceV>,
}

pub struct TopicV {
    pub title: Seq<char>,
    pub starts_at: Seq<char>,
    pub evidence: Seq<EvidenceV>,
}

/// Suggestions by value.
pub struct SuggestionsV {
    pub title: Option<SuggestionV>,
    pub context: Option<SuggestionV>,
    pub category: Option<SuggestionV>,
    pub participants: Seq<ParticipantV>,
    pub topics: Seq<TopicV>,
}

pub open spec fn evidence_views(v: Seq<Evidence>) -> Seq<EvidenceV> {
    v.map_values(|e: Evidence| EvidenceV { source_id: e.source_id@, excerpt: e.excerpt@ })
}

pub open spec fn suggestion_view(o: Option<Suggestion>) -> Option<SuggestionV> {
    match o {
        Some(s) => Some(SuggestionV { value: s.value@, evidence: evidence_views(s.evidence@) }),
        None => None,
    }
}

pub open spec fn participant_view(p: ParticipantSuggestion) -> ParticipantV {
    ParticipantV {
        name: p.name@,
        speaker_key: match p.speaker_key {
            Some(k) => Some(k@),
            None => None,
        },
        evidence: evidence_views(p.evidence@),
    }
}

pub open spec fn topic_view(t: TopicSuggestion) -> TopicV {
    TopicV { title: t.title@, starts_at: t.starts_at_turn_id@, evidence: evidence_views(t.evidence@) }
}

pub open spec fn suggestions_view(s: AiSuggestions) -> SuggestionsV {
    SuggestionsV {
        title: suggestion_view(s.title),
        context: suggestion_view(s.context),
        category: suggestion_view(s.category),
        participants: s.participants@.map_values(|p: ParticipantSuggestion| participant_view(p)),
        topics: s.topics@.map_values(|t: TopicSuggestion| topic_view(t)),
    }
}

/// Non-blank and at most `max` characters.
pub open spec fn bounded(t: Seq<char>, max: int) -> bool {
    trim(t).len() != 0 && t.len() <= max
}

/// An excerpt that occurs, exactly, in the source it names.
pub open spec fn evidence_ok(e: EvidenceV, sources: Seq<(Seq<char>, Seq<char>)>) -> bool {
    &&& trim(e.excerpt).len() != 0
    &&& e.excerpt.len() <= 2000
    &&& exists|k: int|
        0 <= k < sources.len() && (#[trigger] sources[k]).0 == e.source_id && contains(
            sources[k].1,
            e.excerpt,
        )
}

/// One to eight verified excerpts.
pub open spec fn supported(ev: Seq<EvidenceV>, sources: Seq<(Seq<char>, Seq<char>)>) -> bool {
    &&& 1 <= ev.len() <= 8
    &&& forall|i: int| 0 <= i < ev.len() ==> evidence_ok(#[trigger] ev[i], sources)
}

pub open spec fn field_ok(o: Option<SuggestionV>, limit: int, sources: Seq<(Seq<char>, Seq<char>)>) -> bool {
    match o {
        Some(x) => bounded(x.value, limit) && supported(x.evidence, sources),
        None => true,
    }
}

/// The maximal runs of alphanumeric characters of a text.
pub open spec fn alnum_runs(s: Seq<char>) -> Seq<Seq<char>>
    decreases s.len(),
{
    if s.len() == 0 {
        Seq::empty()
    } else {
        let w = alnum_runs(s.drop_last());
        let c = s.last();
        if !alphanumeric(c) {
            w
        } else if s.len() >= 2 && alphanumeric(s[s.len() - 2]) {
            w.update(w.len() - 1, w.last().push(c))
        } else {
            w.push(seq![c])
        }
    }
}

/// Words joined by single spaces.
pub open spec fn spaced_join(ws: Seq<Seq<char>>) -> Seq<char>
    decreases ws.len(),
{
    if ws.len() == 0 {
        Seq::empty()
    } else if ws.len() == 1 {
        ws[0]
    } else {
        spaced_join(ws.drop_last()) + " "@ + ws.last()
    }
}

/// A name compared without case, punctuation or spacing differences.
pub open spec fn normalized(s: Seq<char>) -> Seq<char> {
    lowercase(spaced_join(alnum_runs(s)))
}

pub open spec fn padded(s: Seq<char>) -> Seq<char> {
    " "@ + s + " "@
}

/// A participant is an invited attendee or is named, as a whole word, in
/// its evidence; a speaker key needs evidence from a turn with that key.
pub open spec fn participant_ok(
    p: ParticipantV,
    sources: Seq<(Seq<char>, Seq<char>)>,
    turns: Seq<TurnView>,
    attendees: Seq<Seq<char>>,
) -> bool {
    let name = normalized(p.name);
    &&& bounded(p.name, 120)
    &&& supported(p.evidence, sources)
    &&& name.len() != 0
    &&& (exists|a: int| 0 <= a < attendees.len() && normalized(#[trigger] attendees[a]) == name) || (
    exists|e: int|
        0 <= e < p.evidence.len() && contains(
            padded(normalized(#[trigger] p.evidence[e].excerpt)),
            padded(name),
        ))
    &&& match p.speaker_key {
        Some(k) => exists|t: int, e: int|
            0 <= t < turns.len() && 0 <= e < p.evidence.len() && (#[trigger] turns[t]).speaker_key
                == Some(k) && (#[trigger] p.evidence[e]).source_id == turns[t].id,
        None => true,
    }
}

/// The position of the first turn with ID `id`.
pub open spec fn turn_position(turns: Seq<TurnView>, id: Seq<char>) -> Option<int>
    decreases turns.len(),
{
    if turns.len() == 0 {
        None
    } else {
        match turn_position(turns.drop_last(), id) {
            Some(p) => Some(p),
            None => if turns.last().id == id {
                Some(turns.len() - 1)
            } else {
                None
            },
        }
    }
}

/// A topic starts at a turn that exists, quotes that turn among its evidence.
pub open spec fn topic_ok(t: TopicV, sources: Seq<(Seq<char>, Seq<char>)>, turns: Seq<TurnView>) -> bool {
    &&& turn_position(turns, t.starts_at) is Some
    &&& bounded(t.title, 160)
    &&& supported(t.evidence, sources)
    &&& exists|e: int| 0 <= e < t.evidence.len() && (#[trigger] t.evidence[e]).source_id == t.starts_at
}

/// Topics follow the turns: each starts strictly after the previous one.
pub open spec fn topics_ok(ts: Seq<TopicV>, sources: Seq<(Seq<char>, Seq<char>)>, turns: Seq<TurnView>) -> bool {
    &&& forall|i: int| 0 <= i < ts.len() ==> topic_ok(#[trigger] ts[i], sources, turns)
    &&& forall|i: int|
        0 < i < ts.len() ==> turn_position(turns, (#[trigger] ts[i]).starts_at)->0 > turn_position(
            turns,
            ts[i - 1].starts_at,
        )->0
}

/// Suggestions that may be shown for a meeting with these sources, turns
/// and invited attendees.
pub open spec fn suggestions_valid(
    v: SuggestionsV,
    sources: Seq<(Seq<char>, Seq<char>)>,
    turns: Seq<TurnView>,
    attendees: Seq<Seq<char>>,
) -> bool {
    &&& field_ok(v.title, 160, sources)
    &&& field_ok(v.context, 2000, sources)
    &&& field_ok(v.category, 100, sources)
    &&& v.participants.len() <= 50
    &&& v.topics.len() <= 100
    &&& forall|i: int|
        0 <= i < v.participants.len() ==> participant_ok(
            #[trigger] v.participants[i],
            sources,
            turns,
            attendees,
        )
    &&& topics_ok(v.topics, sources, turns)
}

pub open spec fn string_views(v: Seq<String>) -> Seq<Seq<char>> {
    v.map_values(|x: String| x@)
}

pub open spec fn attendee_views(s: Session) -> Seq<Seq<char>> {
    string_views(s.attendees@)
}

pub open spec fn session_turns(s: Session) -> Seq<TurnView> {
    sort_le(all_turns(s.transcription@), turn_le())
}

fn evidence_found(e: &Evidence, sources: &Vec<MeetingSource>) -> (r: bool)
    ensures
        r == evidence_ok(
            EvidenceV { source_id: e.source_id@, excerpt: e.excerpt@ },
            source_views(sources@),
        ),
{
    if is_blank(e.excerpt.as_str()) || e.excerpt.as_str().unicode_len() > 2000 {
        return false;
    }
    let ghost sv = source_views(sources@);
    let n: usize = sources.len();
    let mut k: usize = 0;
    while k < n
        invariant
            n == sources@.len(),
            sv == source_views(sources@),
            k <= n,
            trim(e.excerpt@).len() != 0,
            e.excerpt@.len() <= 2000,
            forall|q: int|
                0 <= q < k ==> !((#[trigger] sv[q]).0 == e.source_id@ && contains(sv[q].1, e.excerpt@)),
        decreases n - k,
    {
        proof {
            assert(sv[k as int] == (sources@[k as int].id@, sources@[k as int].text@));
        }
        if same_text(sources[k].id.as_str(), e.source_id.as_str()) && contains_str(
            sources[k].text.as_str(),
            e.excerpt.as_str(),
        ) {
            proof {
                assert(sv.len() == n);
                assert(sv[k as int].0 == e.source_id@ && contains(sv[k as int].1, e.excerpt@));
                assert(trim(e.excerpt@).len() != 0);
                assert(e.excerpt@.len() <= 2000);
            }
            return true;
        }
        k = k + 1;
    }
    false
}

fn evidence_supported(ev: &Vec<Evidence>, sources: &Vec<MeetingSource>) -> (r: bool)
    ensures
        r == supported(evidence_views(ev@), source_views(sources@)),
{
    let ghost evv = evidence_views(ev@);
    if ev.len() == 0 || ev.len() > 8 {
        return false;
    }
    let n: usize = ev.len();
    let mut i: usize = 0;
    while i < n
        invariant
            n == ev@.len(),
            evv == evidence_views(ev@),
            i <= n,
            forall|q: int| 0 <= q < i ==> evidence_ok(#[trigger] evv[q], source_views(sources@)),
        decreases n - i,
    {
        proof {
            assert(evv[i as int] == EvidenceV {
                source_id: ev@[i as int].source_id@,
                excerpt: ev@[i as int].excerpt@,
            });
        }
        if !evidence_found(&ev[i], sources) {
            return false;
        }
        i = i + 1;
    }
    true
}

fn within(t: &str, max: usize) -> (r: bool)
    ensures
        r == bounded(t@, max as int),
{
    !is_blank(t) && t.unicode_len() <= max
}

fn field_check(o: &Option<Suggestion>, limit: usize, sources: &Vec<MeetingSource>) -> (r: bool)
    ensures
        r == field_ok(suggestion_view(*o), limit as int, source_views(sources@)),
{
    match o {
        Some(x) => within(x.value.as_str(), limit) && evidence_supported(&x.evidence, sources),
        None => true,
    }
}

proof fn lemma_runs_nonempty(s: Seq<char>)
    requires
        s.len() >= 1,
        alphanumeric(s.last()),
    ensures
        alnum_runs(s).len() >= 1,
    decreases s.len(),
{
    if s.len() >= 2 && alphanumeric(s[s.len() - 2]) {
        assert(s.drop_last().last() == s[s.len() - 2]);
        lemma_runs_nonempty(s.drop_last());
    }
}

pub open spec fn run_views(v: Seq<Vec<char>>) -> Seq<Seq<char>> {
    v.map_values(|w: Vec<char>| w@)
}

fn runs_of(s: &str) -> (out: Vec<Vec<char>>)
    ensures
        run_views(out@) == alnum_runs(s@),
{
    let v = chars_of(s);
    let n: usize = v.len();
    let mut out: Vec<Vec<char>> = Vec::new();
    let mut prev_alnum = false;
    let mut i: usize = 0;
    proof {
        assert(v@.take(0) =~= Seq::<char>::empty());
        assert(run_views(out@) =~= Seq::<Seq<char>>::empty());
    }
    while i < n
        invariant
            n == v@.len(),
            i <= n,
            run_views(out@) == alnum_runs(v@.take(i as int)),
            i > 0 ==> prev_alnum == alphanumeric(v@[i - 1]),
        decreases n - i,
    {
        let c = v[i];
        let a = is_alphanumeric(c);
        let ghost pre = v@.take(i as int);
        let ghost cur = v@.take(i + 1);
        proof {
            assert(cur.drop_last() =~= pre);
            assert(cur.last() == c);
            if i >= 1 {
                assert(cur[cur.len() - 2] == v@[i - 1]);
                assert(pre.last() == v@[i - 1]);
            }
        }
        if a {
            if i >= 1 && prev_alnum {
                proof {
                    lemma_runs_nonempty(pre);
                    assert(run_views(out@).len() == out@.len());
                }
                let ghost wv = run_views(out@);
                let mut last = out.pop().unwrap();
                last.push(c);
                out.push(last);
                proof {
                    assert(run_views(out@) =~= wv.update(wv.len() - 1, wv.last().push(c)));
                }
            } else {
                let mut w: Vec<char> = Vec::new();
                w.push(c);
                let ghost wv = run_views(out@);
                out.push(w);
                proof {
                    assert(w@ =~= seq![c]);
                    assert(run_views(out@) =~= wv.push(seq![c]));
                }
            }
        }
        prev_alnum = a;
        i = i + 1;
    }
    proof {
        assert(v@.take(n as int) =~= v@);
    }
    out
}

/// A name without case, punctuation or spacing differences: its runs of
/// letters and digits, joined by single spaces, in lowercase.
pub fn normalized_name(s: &str) -> (r: String)
    ensures
        r@ == normalized(s@),
{
    let runs = runs_of(s);
    let ghost rv = run_views(runs@);
    let mut joined: Vec<char> = Vec::new();
    let n: usize = runs.len();
    let mut i: usize = 0;
    while i < n
        invariant
            n == runs@.len(),
            rv == run_views(runs@),
            i <= n,
            joined@ == spaced_join(rv.take(i as int)),
        decreases n - i,
    {
        proof {
            assert(rv.take(i + 1).drop_last() =~= rv.take(i as int));
            assert(rv[i as int] == runs@[i as int]@);
        }
        let ghost before = joined@;
        if i > 0 {
            joined.push(' ');
        }
        let w = &runs[i];
        let m: usize = w.len();
        let mut j: usize = 0;
        let ghost mid = joined@;
        while j < m
            invariant
                m == w@.len(),
                j <= m,
                joined@ == mid + w@.take(j as int),
            decreases m - j,
        {
            joined.push(w[j]);
            proof {
                assert(w@.take(j + 1) =~= w@.take(j as int).push(w@[j as int]));
            }
            j = j + 1;
        }
        proof {
            assert(w@.take(m as int) =~= w@);
            if i == 0 {
                assert(rv.take(1) =~= seq![rv[0]]);
                assert(joined@ =~= spaced_join(rv.take(1)));
            } else {
                reveal_strlit(" ");
                assert(mid =~= before + " "@);
                assert(joined@ =~= spaced_join(rv.take(i + 1)));
            }
        }
        i = i + 1;
    }
    proof {
        assert(rv.take(n as int) =~= rv);
    }
    let text = string_of(&joined);
    to_lowercase(text.as_str())
}

fn attendee_named(attendees: &Vec<String>, name: &str) -> (r: bool)
    ensures
        r == exists|a: int|
            0 <= a < attendees@.len() && normalized(#[trigger] string_views(attendees@)[a])
                == name@,
{
    let ghost av = string_views(attendees@);
    let n: usize = attendees.len();
    let mut a: usize = 0;
    while a < n
        invariant
            n == attendees@.len(),
            av == string_views(attendees@),
            a <= n,
            forall|q: int| 0 <= q < a ==> normalized(#[trigger] av[q]) != name@,
        decreases n - a,
    {
        let norm = normalized_name(attendees[a].as_str());
        proof {
            assert(av[a as int] == attendees@[a as int]@);
        }
        if same_text(norm.as_str(), name) {
            return true;
        }
        a = a + 1;
    }
    false
}

fn named_in_evidence(ev: &Vec<Evidence>, name: &str) -> (r: bool)
    ensures
        r == exists|e: int|
            0 <= e < evidence_views(ev@).len() && contains(
                padded(normalized(#[trigger] evidence_views(ev@)[e].excerpt)),
                padded(name@),
            ),
{
    let ghost evv = evidence_views(ev@);
    let wanted = concat3(" ", name, " ");
    let n: usize = ev.len();
    let mut e: usize = 0;
    while e < n
        invariant
            n == ev@.len(),
            evv == evidence_views(ev@),
            wanted@ == padded(name@),
            e <= n,
            forall|q: int| 0 <= q < e ==> !contains(padded(normalized(#[trigger] evv[q].excerpt)), padded(name@)),
        decreases n - e,
    {
        let norm = normalized_name(ev[e].excerpt.as_str());
        let hay = concat3(" ", norm.as_str(), " ");
        proof {
            assert(evv[e as int].excerpt == ev@[e as int].excerpt@);
        }
        if contains_str(hay.as_str(), wanted.as_str()) {
            return true;
        }
        e = e + 1;
    }
    false
}

fn speaker_backed(key: &str, ev: &Vec<Evidence>, turns: &Vec<TranscriptTurn>) -> (r: bool)
    ensures
        r == exists|t: int, e: int|
            0 <= t < turn_views(turns@).len() && 0 <= e < evidence_views(ev@).len() && (
            #[trigger] turn_views(turns@)[t]).speaker_key == Some(key@) && (
            #[trigger] evidence_views(ev@)[e]).source_id == turn_views(turns@)[t].id,
{
    let ghost tv = turn_views(turns@);
    let ghost evv = evidence_views(ev@);
    let n: usize = turns.len();
    let mut t: usize = 0;
    while t < n
        invariant
            n == turns@.len(),
            tv == turn_views(turns@),
            evv == evidence_views(ev@),
            t <= n,
            forall|a: int, b: int|
                0 <= a < t && 0 <= b < evv.len() ==> !((#[trigger] tv[a]).speaker_key == Some(key@)
                    && (#[trigger] evv[b]).source_id == tv[a].id),
        decreases n - t,
    {
        let turn = &turns[t];
        proof {
            assert(tv[t as int] == turn.view_of());
        }
        let keyed = match &turn.speaker_key {
            Some(k) => same_text(k.as_str(), key),
            None => false,
        };
        if keyed {
            proof {
                assert(tv[t as int].speaker_key == Some(key@));
            }
            let m: usize = ev.len();
            let mut e: usize = 0;
            while e < m
                invariant
                    n == turns@.len(),
                    t < n,
                    m == ev@.len(),
                    tv == turn_views(turns@),
                    evv == evidence_views(ev@),
                    turn == &turns@[t as int],
                    tv[t as int].speaker_key == Some(key@),
                    e <= m,
                    forall|b: int| 0 <= b < e ==> (#[trigger] evv[b]).source_id != tv[t as int].id,
                decreases m - e,
            {
                proof {
                    assert(evv[e as int].source_id == ev@[e as int].source_id@);
                    assert(tv[t as int] == turn.view_of());
                }
                if same_text(ev[e].source_id.as_str(), turn.id.as_str()) {
                    proof {
                        assert(tv[t as int].speaker_key == Some(key@) && evv[e as int].source_id
                            == tv[t as int].id);
                    }
                    return true;
                }
                e = e + 1;
            }
        }
        t = t + 1;
    }
    false
}

fn participant_check(
    p: &ParticipantSuggestion,
    sources: &Vec<MeetingSource>,
    turns: &Vec<TranscriptTurn>,
    attendees: &Vec<String>,
) -> (r: bool)
    ensures
        r == participant_ok(
            participant_view(*p),
            source_views(sources@),
            turn_views(turns@),
            string_views(attendees@),
        ),
{
    if !within(p.name.as_str(), 120) || !evidence_supported(&p.evidence, sources) {
        return false;
    }
    let name = normalized_name(p.name.as_str());
    if name.as_str().unicode_len() == 0 {
        return false;
    }
    if !attendee_named(attendees, name.as_str()) && !named_in_evidence(&p.evidence, name.as_str()) {
        return false;
    }
    match &p.speaker_key {
        Some(k) => speaker_backed(k.as_str(), &p.evidence, turns),
        None => true,
    }
}

fn position_of(turns: &Vec<TranscriptTurn>, id: &str) -> (r: Option<usize>)
    ensures
        match r {
            Some(p) => turn_position(turn_views(turns@), id@) == Some(p as int),
            None => turn_position(turn_views(turns@), id@) is None,
        },
{
    let ghost tv = turn_views(turns@);
    let n: usize = turns.len();
    let mut t: usize = 0;
    proof {
        assert(tv.take(0) =~= Seq::<TurnView>::empty());
    }
    while t < n
        invariant
            n == turns@.len(),
            tv == turn_views(turns@),
            t <= n,
            turn_position(tv.take(t as int), id@) is None,
        decreases n - t,
    {
        proof {
            assert(tv.take(t + 1).drop_last() =~= tv.take(t as int));
            assert(tv[t as int] == turns@[t as int].view_of());
        }
        if same_text(turns[t].id.as_str(), id) {
            proof {
                lemma_position_prefix(tv, id@, t as int + 1);
            }
            return Some(t);
        }
        t = t + 1;
    }
    proof {
        assert(tv.take(n as int) =~= tv);
    }
    None
}

/// A position found in a prefix is the position in the whole.
proof fn lemma_position_prefix(turns: Seq<TurnView>, id: Seq<char>, j: int)
    requires
        0 <= j <= turns.len(),
        turn_position(turns.take(j), id) is Some,
    ensures
        turn_position(turns, id) == turn_position(turns.take(j), id),
    decreases turns.len() - j,
{
    if j < turns.len() {
        assert(turns.take(j + 1).drop_last() =~= turns.take(j));
        lemma_position_prefix(turns, id, j + 1);
    } else {
        assert(turns.take(j) =~= turns);
    }
}

fn anchored(ev: &Vec<Evidence>, id: &str) -> (r: bool)
    ensures
        r == exists|e: int|
            0 <= e < evidence_views(ev@).len() && (#[trigger] evidence_views(ev@)[e]).source_id == id@,
{
    let ghost evv = evidence_views(ev@);
    let n: usize = ev.len();
    let mut e: usize = 0;
    while e < n
        invariant
            n == ev@.len(),
            evv == evidence_views(ev@),
            e <= n,
            forall|b: int| 0 <= b < e ==> (#[trigger] evv[b]).source_id != id@,
        decreases n - e,
    {
        proof {
            assert(evv[e as int].source_id == ev@[e as int].source_id@);
        }
        if same_text(ev[e].source_id.as_str(), id) {
            return true;
        }
        e = e + 1;
    }
    false
}

fn topics_check(
    topics: &Vec<TopicSuggestion>,
    sources: &Vec<MeetingSource>,
    turns: &Vec<TranscriptTurn>,
) -> (r: bool)
    ensures
        r == topics_ok(
            topics@.map_values(|t: TopicSuggestion| topic_view(t)),
            source_views(sources@),
            turn_views(turns@),
        ),
{
    let ghost ts = topics@.map_values(|t: TopicSuggestion| topic_view(t));
    let ghost sv = source_views(sources@);
    let ghost tv = turn_views(turns@);
    let mut prior: Option<usize> = None;
    let n: usize = topics.len();
    let mut i: usize = 0;
    while i < n
        invariant
            n == topics@.len(),
            ts == topics@.map_values(|t: TopicSuggestion| topic_view(t)),
            sv == source_views(sources@),
            tv == turn_views(turns@),
            i <= n,
            forall|q: int| 0 <= q < i ==> topic_ok(#[trigger] ts[q], sv, tv),
            forall|q: int|
                0 < q < i ==> turn_position(tv, (#[trigger] ts[q]).starts_at)->0 > turn_position(
                    tv,
                    ts[q - 1].starts_at,
                )->0,
            match prior {
                Some(p) => i > 0 && turn_position(tv, ts[i - 1].starts_at) == Some(p as int),
                None => i == 0,
            },
        decreases n - i,
    {
        let topic = &topics[i];
        proof {
            assert(ts[i as int] == topic_view(*topic));
        }
        let index = match position_of(turns, topic.starts_at_turn_id.as_str()) {
            Some(p) => p,
            None => {
                return false;
            },
        };
        let later = match prior {
            Some(p) => index > p,
            None => true,
        };
        if !within(topic.title.as_str(), 160) || !evidence_supported(&topic.evidence, sources)
            || !later || !anchored(&topic.evidence, topic.starts_at_turn_id.as_str()) {
            return false;
        }
        prior = Some(index);
        i = i + 1;
    }
    true
}

fn suggestions_check(
    s: &AiSuggestions,
    sources: &Vec<MeetingSource>,
    turns: &Vec<TranscriptTurn>,
    attendees: &Vec<String>,
) -> (r: bool)
    ensures
        r == suggestions_valid(
            suggestions_view(*s),
            source_views(sources@),
            turn_views(turns@),
            string_views(attendees@),
        ),
{
    if !field_check(&s.title, 160, sources) || !field_check(&s.context, 2000, sources)
        || !field_check(&s.category, 100, sources) {
        return false;
    }
    if s.participants.len() > 50 || s.topics.len() > 100 {
        return false;
    }
    let ghost pv = s.participants@.map_values(|p: ParticipantSuggestion| participant_view(p));
    let n: usize = s.participants.len();
    let mut i: usize = 0;
    while i < n
        invariant
            n == s.participants@.len(),
            pv == s.participants@.map_values(|p: ParticipantSuggestion| participant_view(p)),
            i <= n,
            forall|q: int|
                0 <= q < i ==> participant_ok(
                    #[trigger] pv[q],
                    source_views(sources@),
                    turn_views(turns@),
                    string_views(attendees@),
                ),
        decreases n - i,
    {
        proof {
            assert(pv[i as int] == participant_view(s.participants@[i as int]));
        }
        if !participant_check(&s.participants[i], sources, turns, attendees) {
            return false;
        }
        i = i + 1;
    }
    topics_check(&s.topics, sources, turns)
}

pub fn unverified_suggestions() -> (e: AppError)
    ensures
        e.code@ == "unverified_suggestions"@,
        e.message@
            == "AI suggestions could not be verified against the saved sources. Your notes and transcript were kept."@,
{
    AppError::new(
        "unverified_suggestions",
        "AI suggestions could not be verified against the saved sources. Your notes and transcript were kept.",
    )
}

/// Accepts suggestions only when every one of them can be verified against
/// the meeting's saved sources, turns and attendees.
pub fn validate_suggestions(suggestions: &AiSuggestions, session: &Session) -> (r: AppResult<()>)
    ensures
        r is Ok <==> suggestions_valid(
            suggestions_view(*suggestions),
            meeting_sources_spec(*session),
            session_turns(*session),
            attendee_views(*session),
        ),
        r matches Err(e) ==> e.code@ == "unverified_suggestions"@,
{
    let sources = meeting_sources(session);
    let turns = transcript_turns(session);
    if suggestions_check(suggestions, &sources, &turns, &session.attendees) {
        Ok(())
    } else {
        Err(unverified_suggestions())
    }
}

pub open spec fn no_suggestions() -> SuggestionsV {
    SuggestionsV {
        title: None,
        context: None,
        category: None,
        participants: Seq::empty(),
        topics: Seq::empty(),
    }
}

/// The candidate replaces the accepted suggestions if it can be verified;
/// otherwise they stay and the omission is noted.
#[verifier::opaque]
pub open spec fn try_candidate(
    v: SuggestionsV,
    cand: SuggestionsV,
    omitted: bool,
    sources: Seq<(Seq<char>, Seq<char>)>,
    turns: Seq<TurnView>,
    attendees: Seq<Seq<char>>,
) -> (SuggestionsV, bool) {
    if suggestions_valid(cand, sources, turns, attendees) {
        (cand, omitted)
    } else {
        (v, true)
    }
}

pub open spec fn accept_participants(
    state: (SuggestionsV, bool),
    ps: Seq<ParticipantV>,
    sources: Seq<(Seq<char>, Seq<char>)>,
    turns: Seq<TurnView>,
    attendees: Seq<Seq<char>>,
) -> (SuggestionsV, bool)
    decreases ps.len(),
{
    if ps.len() == 0 {
        state
    } else {
        let (v, o) = accept_participants(state, ps.drop_last(), sources, turns, attendees);
        try_candidate(
            v,
            SuggestionsV { participants: v.participants.push(ps.last()), ..v },
            o,
            sources,
            turns,
            attendees,
        )
    }
}

pub open spec fn accept_topics(
    state: (SuggestionsV, bool),
    ts: Seq<TopicV>,
    sources: Seq<(Seq<char>, Seq<char>)>,
    turns: Seq<TurnView>,
    attendees: Seq<Seq<char>>,
) -> (SuggestionsV, bool)
    decreases ts.len(),
{
    if ts.len() == 0 {
        state
    } else {
        let (v, o) = accept_topics(state, ts.drop_last(), sources, turns, attendees);
        try_candidate(
            v,
            SuggestionsV { topics: v.topics.push(ts.last()), ..v },
            o,
            sources,
            turns,
            attendees,
        )
    }
}

/// The proposals accepted one at a time, in the order title, context,
/// category, each participant, each topic: each is kept only if, together
/// with what was kept before, every suggestion can still be verified.
pub open spec fn accepted(
    p: SuggestionsV,
    sources: Seq<(Seq<char>, Seq<char>)>,
    turns: Seq<TurnView>,
    attendees: Seq<Seq<char>>,
) -> (SuggestionsV, bool) {
    let e = no_suggestions();
    let (v1, o1) = try_candidate(e, SuggestionsV { title: p.title, ..e }, false, sources, turns, attendees);
    let (v2, o2) = try_candidate(v1, SuggestionsV { context: p.context, ..v1 }, o1, sources, turns, attendees);
    let (v3, o3) = try_candidate(v2, SuggestionsV { category: p.category, ..v2 }, o2, sources, turns, attendees);
    let s4 = accept_participants((v3, o3), p.participants, sources, turns, attendees);
    accept_topics(s4, p.topics, sources, turns, attendees)
}

fn copy_evidence(v: &Vec<Evidence>) -> (r: Vec<Evidence>)
    ensures
        evidence_views(r@) == evidence_views(v@),
{
    let mut r: Vec<Evidence> = Vec::new();
    let n: usize = v.len();
    let mut i: usize = 0;
    while i < n
        invariant
            n == v@.len(),
            i <= n,
            evidence_views(r@) == evidence_views(v@.take(i as int)),
        decreases n - i,
    {
        let ghost old_r = r@;
        let item = Evidence { source_id: v[i].source_id.clone(), excerpt: v[i].excerpt.clone() };
        r.push(item);
        proof {
            assert(v@.take(i + 1) =~= v@.take(i as int).push(v@[i as int]));
            assert(r@ =~= old_r.push(item));
            assert(evidence_views(r@) =~= evidence_views(old_r).push(
                EvidenceV { source_id: item.source_id@, excerpt: item.excerpt@ },
            ));
            assert(evidence_views(v@.take(i + 1)) =~= evidence_views(v@.take(i as int)).push(
                EvidenceV { source_id: v@[i as int].source_id@, excerpt: v@[i as int].excerpt@ },
            ));
        }
        i = i + 1;
    }
    proof {
        assert(v@.take(n as int) =~= v@);
    }
    r
}

fn copy_field(o: &Option<Suggestion>) -> (r: Option<Suggestion>)
    ensures
        suggestion_view(r) == suggestion_view(*o),
{
    match o {
        Some(x) => Some(Suggestion { value: x.value.clone(), evidence: copy_evidence(&x.evidence) }),
        None => None,
    }
}

fn copy_participants(v: &Vec<ParticipantSuggestion>) -> (r: Vec<ParticipantSuggestion>)
    ensures
        r@.map_values(|p: ParticipantSuggestion| participant_view(p)) == v@.map_values(
            |p: ParticipantSuggestion| participant_view(p),
        ),
{
    let mut r: Vec<ParticipantSuggestion> = Vec::new();
    let n: usize = v.len();
    let mut i: usize = 0;
    while i < n
        invariant
            n == v@.len(),
            i <= n,
            r@.map_values(|p: ParticipantSuggestion| participant_view(p)) == v@.take(
                i as int,
            ).map_values(|p: ParticipantSuggestion| participant_view(p)),
        decreases n - i,
    {
        let p = &v[i];
        let key = match &p.speaker_key {
            Some(k) => Some(k.clone()),
            None => None,
        };
        let item = ParticipantSuggestion {
            name: p.name.clone(),
            speaker_key: key,
            evidence: copy_evidence(&p.evidence),
        };
        let ghost before = r@;
        r.push(item);
        proof {
            assert(participant_view(item) == participant_view(v@[i as int]));
            assert(v@.take(i + 1) =~= v@.take(i as int).push(v@[i as int]));
            assert(r@ =~= before.push(item));
            assert(r@.map_values(|p: ParticipantSuggestion| participant_view(p)) =~= before.map_values(
                |p: ParticipantSuggestion| participant_view(p),
            ).push(participant_view(item)));
            assert(v@.take(i + 1).map_values(|p: ParticipantSuggestion| participant_view(p)) =~= v@.take(
                i as int,
            ).map_values(|p: ParticipantSuggestion| participant_view(p)).push(
                participant_view(v@[i as int]),
            ));
        }
        i = i + 1;
    }
    proof {
        assert(v@.take(n as int) =~= v@);
    }
    r
}

fn copy_topics(v: &Vec<TopicSuggestion>) -> (r: Vec<TopicSuggestion>)
    ensures
        r@.map_values(|t: TopicSuggestion| topic_view(t)) == v@.map_values(
            |t: TopicSuggestion| topic_view(t),
        ),
{
    let mut r: Vec<TopicSuggestion> = Vec::new();
    let n: usize = v.len();
    let mut i: usize = 0;
    while i < n
        invariant
            n == v@.len(),
            i <= n,
            r@.map_values(|t: TopicSuggestion| topic_view(t)) == v@.take(i as int).map_values(
                |t: TopicSuggestion| topic_view(t),
            ),
        decreases n - i,
    {
        let t = &v[i];
        let item = TopicSuggestion {
            title: t.title.clone(),
            starts_at_turn_id: t.starts_at_turn_id.clone(),
            evidence: copy_evidence(&t.evidence),
        };
        let ghost before = r@;
        r.push(item);
        proof {
            assert(topic_view(item) == topic_view(v@[i as int]));
            assert(v@.take(i + 1) =~= v@.take(i as int).push(v@[i as int]));
            assert(r@ =~= before.push(item));
            assert(r@.map_values(|t: TopicSuggestion| topic_view(t)) =~= before.map_values(
                |t: TopicSuggestion| topic_view(t),
            ).push(topic_view(item)));
            assert(v@.take(i + 1).map_values(|t: TopicSuggestion| topic_view(t)) =~= v@.take(
                i as int,
            ).map_values(|t: TopicSuggestion| topic_view(t)).push(topic_view(v@[i as int])));
        }
        i = i + 1;
    }
    proof {
        assert(v@.take(n as int) =~= v@);
    }
    r
}

/// A field-by-field copy.
pub fn copy_suggestions(s: &AiSuggestions) -> (r: AiSuggestions)
    ensures
        suggestions_view(r) == suggestions_view(*s),
{
    AiSuggestions {
        title: copy_field(&s.title),
        context: copy_field(&s.context),
        category: copy_field(&s.category),
        participants: copy_participants(&s.participants),
        topics: copy_topics(&s.topics),
    }
}

fn consider(
    verified: &mut AiSuggestions,
    omitted: &mut bool,
    candidate: AiSuggestions,
    sources: &Vec<MeetingSource>,
    turns: &Vec<TranscriptTurn>,
    attendees: &Vec<String>,
)
    ensures
        (suggestions_view(*final(verified)), *final(omitted)) == try_candidate(
            suggestions_view(*old(verified)),
            suggestions_view(candidate),
            *old(omitted),
            source_views(sources@),
            turn_views(turns@),
            string_views(attendees@),
        ),
{
    proof {
        reveal(try_candidate);
    }
    if suggestions_check(&candidate, sources, turns, attendees) {
        *verified = candidate;
    } else {
        *omitted = true;
    }
}

/// Keeps the proposals that can be verified, one at a time (see
/// `accepted`); also says whether any was dropped.
pub fn accept_suggestions(proposed: AiSuggestions, session: &Session) -> (r: (AiSuggestions, bool))
    ensures
        (suggestions_view(r.0), r.1) == accepted(
            suggestions_view(proposed),
            meeting_sources_spec(*session),
            session_turns(*session),
            attendee_views(*session),
        ),
{
    let sources = meeting_sources(session);
    let turns = transcript_turns(session);
    let ghost sv = source_views(sources@);
    let ghost tv = turn_views(turns@);
    let ghost av = string_views(session.attendees@);
    let ghost p = suggestions_view(proposed);
    let AiSuggestions { title, context, category, participants, topics } = proposed;
    let mut verified = AiSuggestions::empty();
    let mut omitted = false;
    proof {
        assert(verified.participants@.map_values(|x: ParticipantSuggestion| participant_view(x))
            =~= Seq::<ParticipantV>::empty());
        assert(verified.topics@.map_values(|x: TopicSuggestion| topic_view(x)) =~= Seq::<TopicV>::empty());
        assert(suggestions_view(verified) =~= no_suggestions());
    }
    let mut cand = copy_suggestions(&verified);
    cand.title = title;
    proof {
        assert(suggestions_view(cand) =~= SuggestionsV { title: p.title, ..no_suggestions() });
    }
    consider(&mut verified, &mut omitted, cand, &sources, &turns, &session.attendees);
    let ghost v1 = suggestions_view(verified);
    let mut cand = copy_suggestions(&verified);
    cand.context = context;
    proof {
        assert(suggestions_view(cand) =~= SuggestionsV { context: p.context, ..v1 });
    }
    consider(&mut verified, &mut omitted, cand, &sources, &turns, &session.attendees);
    let ghost v2 = suggestions_view(verified);
    let mut cand = copy_suggestions(&verified);
    cand.category = category;
    proof {
        assert(suggestions_view(cand) =~= SuggestionsV { category: p.category, ..v2 });
    }
    consider(&mut verified, &mut omitted, cand, &sources, &turns, &session.attendees);
    let ghost s3 = (suggestions_view(verified), omitted);
    let ghost pp = p.participants;
    proof {
        assert(pp.take(0) =~= Seq::<ParticipantV>::empty());
    }
    for item in it: participants.into_iter()
        invariant
            pp == it.seq().map_values(|x: ParticipantSuggestion| participant_view(x)),
            sv == source_views(sources@),
            tv == turn_views(turns@),
            av == string_views(session.attendees@),
            (suggestions_view(verified), omitted) == accept_participants(
                s3,
                pp.take(it.index() as int),
                sv,
                tv,
                av,
            ),
    {
        let ghost k = it.index() as int;
        proof {
            assert(pp[k] == participant_view(item));
            assert(pp.take(k + 1).drop_last() =~= pp.take(k));
        }
        let ghost v = suggestions_view(verified);
        let mut cand = copy_suggestions(&verified);
        let ghost cp = cand.participants@;
        cand.participants.push(item);
        proof {
            assert(cand.participants@ =~= cp.push(item));
            assert(cand.participants@.map_values(|x: ParticipantSuggestion| participant_view(x))
                =~= cp.map_values(|x: ParticipantSuggestion| participant_view(x)).push(
                participant_view(item),
            ));
            assert(suggestions_view(cand) =~= SuggestionsV {
                participants: v.participants.push(pp[k]),
                ..v
            });
        }
        consider(&mut verified, &mut omitted, cand, &sources, &turns, &session.attendees);
    }
    proof {
        assert(pp.take(pp.len() as int) =~= pp);
    }
    let ghost s4 = (suggestions_view(verified), omitted);
    let ghost pt = p.topics;
    proof {
        assert(pt.take(0) =~= Seq::<TopicV>::empty());
    }
    for item in it: topics.into_iter()
        invariant
            pt == it.seq().map_values(|x: TopicSuggestion| topic_view(x)),
            sv == source_views(sources@),
            tv == turn_views(turns@),
            av == string_views(session.attendees@),
            (suggestions_view(verified), omitted) == accept_topics(
                s4,
                pt.take(it.index() as int),
                sv,
                tv,
                av,
            ),
    {
        let ghost k = it.index() as int;
        proof {
            assert(pt[k] == topic_view(item));
            assert(pt.take(k + 1).drop_last() =~= pt.take(k));
        }
        let ghost v = suggestions_view(verified);
        let mut cand = copy_suggestions(&verified);
        let ghost ct = cand.topics@;
        cand.topics.push(item);
        proof {
            assert(cand.topics@ =~= ct.push(item));
            assert(cand.topics@.map_values(|x: TopicSuggestion| topic_view(x)) =~= ct.map_values(
                |x: TopicSuggestion| topic_view(x),
            ).push(topic_view(item)));
            assert(suggestions_view(cand) =~= SuggestionsV { topics: v.topics.push(pt[k]), ..v });
        }
        consider(&mut verified, &mut omitted, cand, &sources, &turns, &session.attendees);
    }
    proof {
        assert(pt.take(pt.len() as int) =~= pt);
    }
    (verified, omitted)
}

proof fn lemma_try_keeps_valid(
    v: SuggestionsV,
    cand: SuggestionsV,
    omitted: bool,
    sources: Seq<(Seq<char>, Seq<char>)>,
    turns: Seq<TurnView>,
    attendees: Seq<Seq<char>>,
)
    requires
        suggestions_valid(v, sources, turns, attendees),
    ensures
        suggestions_valid(try_candidate(v, cand, omitted, sources, turns, attendees).0, sources, turns, attendees),
{
    reveal(try_candidate);
}

proof fn lemma_participants_keep_valid(
    state: (SuggestionsV, bool),
    ps: Seq<ParticipantV>,
    sources: Seq<(Seq<char>, Seq<char>)>,
    turns: Seq<TurnView>,
    attendees: Seq<Seq<char>>,
)
    requires
        suggestions_valid(state.0, sources, turns, attendees),
    ensures
        suggestions_valid(accept_participants(state, ps, sources, turns, attendees).0, sources, turns, attendees),
    decreases ps.len(),
{
    if ps.len() != 0 {
        lemma_participants_keep_valid(state, ps.drop_last(), sources, turns, attendees);
        let (v, o) = accept_participants(state, ps.drop_last(), sources, turns, attendees);
        lemma_try_keeps_valid(
            v,
            SuggestionsV { participants: v.participants.push(ps.last()), ..v },
            o,
            sources,
            turns,
            attendees,
        );
    }
}

proof fn lemma_topics_keep_valid(
    state: (SuggestionsV, bool),
    ts: Seq<TopicV>,
    sources: Seq<(Seq<char>, Seq<char>)>,
    turns: Seq<TurnView>,
    attendees: Seq<Seq<char>>,
)
    requires
        suggestions_valid(state.0, sources, turns, attendees),
    ensures
        suggestions_valid(accept_topics(state, ts, sources, turns, attendees).0, sources, turns, attendees),
    decreases ts.len(),
{
    if ts.len() != 0 {
        lemma_topics_keep_valid(state, ts.drop_last(), sources, turns, attendees);
        let (v, o) = accept_topics(state, ts.drop_last(), sources, turns, attendees);
        lemma_try_keeps_valid(
            v,
            SuggestionsV { topics: v.topics.push(ts.last()), ..v },
            o,
            sources,
            turns,
            attendees,
        );
    }
}

/// Law: whatever the service proposes, the suggestions that are kept can
/// all be verified against the meeting's saved sources.
pub proof fn lemma_accepted_valid(
    p: SuggestionsV,
    sources: Seq<(Seq<char>, Seq<char>)>,
    turns: Seq<TurnView>,
    attendees: Seq<Seq<char>>,
)
    ensures
        suggestions_valid(accepted(p, sources, turns, attendees).0, sources, turns, attendees),
{
    let e = no_suggestions();
    assert(suggestions_valid(e, sources, turns, attendees));
    lemma_try_keeps_valid(e, SuggestionsV { title: p.title, ..e }, false, sources, turns, attendees);
    let (v1, o1) = try_candidate(e, SuggestionsV { title: p.title, ..e }, false, sources, turns, attendees);
    lemma_try_keeps_valid(v1, SuggestionsV { context: p.context, ..v1 }, o1, sources, turns, attendees);
    let (v2, o2) = try_candidate(v1, SuggestionsV { context: p.context, ..v1 }, o1, sources, turns, attendees);
    lemma_try_keeps_valid(v2, SuggestionsV { category: p.category, ..v2 }, o2, sources, turns, attendees);
    let (v3, o3) = try_candidate(v2, SuggestionsV { category: p.category, ..v2 }, o2, sources, turns, attendees);
    lemma_participants_keep_valid((v3, o3), p.participants, sources, turns, attendees);
    let s4 = accept_participants((v3, o3), p.participants, sources, turns, attendees);
    lemma_topics_keep_valid(s4, p.topics, sources, turns, attendees);
}

} // verus!
