//! Questions about saved meetings: which meetings may answer, the numbered
//! passages they are offered as, and how an answer is tied back to the
//! passages it cites.
use vstd::prelude::*;

use crate::error::{AppError, AppResult};
use crate::session::{visible_notes, Session, SessionStatus};
use crate::sources::joined_names;
use crate::text::{
    byte_len, chars_of, concat2, concat3, decimal, decimal_string, is_blank, is_whitespace, is_ws,
    owned, same_text, string_of, trim, trim_str, utf8_len,
};

verus! {

/// A question is trimmed and must hold 1 to 2000 characters.
pub fn validate_question(question: &str) -> (r: AppResult<&str>)
    ensures
        r is Ok <==> trim(question@).len() != 0 && trim(question@).len() <= 2000,
        r matches Ok(q) ==> q@ == trim(question@),
        r matches Err(e) ==> e.code@ == "invalid_question"@ && e.message@
            == "Enter a question of 1 to 2000 characters."@,
{
    let q = trim_str(question);
    let n = q.unicode_len();
    if n == 0 || n > 2000 {
        return Err(AppError::new("invalid_question", "Enter a question of 1 to 2000 characters."));
    }
    Ok(q)
}

pub open spec fn legacy_text(s: Session) -> Seq<char> {
    match s.transcript {
        Some(t) => t@,
        None => Seq::empty(),
    }
}

/// A meeting has something to answer from: context, notes or transcript.
pub open spec fn has_material(s: Session) -> bool {
    trim(s.context@).len() != 0 || trim(visible_notes(s)).len() != 0 || trim(legacy_text(s)).len()
        != 0
}

pub fn has_meeting_material(session: &Session) -> (b: bool)
    ensures
        b == has_material(*session),
{
    if !is_blank(session.context.as_str()) {
        return true;
    }
    let notes = session.notes_text();
    if !is_blank(notes.as_str()) {
        return true;
    }
    match &session.transcript {
        Some(t) => !is_blank(t.as_str()),
        None => false,
    }
}

/// At most this many meetings answer one question.
pub const QUESTION_SESSION_LIMIT: usize = 20;

/// A meeting may answer: it is complete, in the folder if one is given,
/// and has material.
pub open spec fn eligible(s: Session, folder: Option<Seq<char>>) -> bool {
    &&& s.status == SessionStatus::Complete
    &&& match folder {
        Some(f) => s.folder@ == f,
        None => true,
    }
    &&& has_material(s)
}

/// The eligible meetings, in the given order, at most twenty.
pub open spec fn eligible_spec(ss: Seq<Session>, folder: Option<Seq<char>>) -> Seq<Session> {
    let all = ss.filter(|s: Session| eligible(s, folder));
    if all.len() <= QUESTION_SESSION_LIMIT {
        all
    } else {
        all.take(QUESTION_SESSION_LIMIT as int)
    }
}

pub fn eligible_meetings(sessions: Vec<Session>, folder: Option<&str>) -> (r: Vec<Session>)
    ensures
        r@ == eligible_spec(
            sessions@,
            match folder {
                Some(f) => Some(f@),
                None => None,
            },
        ),
{
    let ghost f = match folder {
        Some(f) => Some(f@),
        None => None,
    };
    let ghost orig = sessions@;
    let ghost pred = |s: Session| eligible(s, f);
    let mut out: Vec<Session> = Vec::new();
    proof {
        assert(orig.take(0).filter(pred) =~= Seq::<Session>::empty());
    }
    for s in it: sessions.into_iter()
        invariant
            it.seq() == orig,
            pred == (|s: Session| eligible(s, f)),
            f == match folder {
                Some(f) => Some(f@),
                None => None::<Seq<char>>,
            },
            out@ == if orig.take(it.index() as int).filter(pred).len() <= QUESTION_SESSION_LIMIT {
                orig.take(it.index() as int).filter(pred)
            } else {
                orig.take(it.index() as int).filter(pred).take(QUESTION_SESSION_LIMIT as int)
            },
    {
        let ghost k = it.index() as int;
        proof {
            assert(s == orig[k]);
            assert(orig.take(k + 1) =~= orig.take(k).push(orig[k]));
            orig.take(k).lemma_filter_push(orig[k], pred);
        }
        let in_folder = match folder {
            Some(name) => same_text(s.folder.as_str(), name),
            None => true,
        };
        let ok = s.status == SessionStatus::Complete && in_folder && has_meeting_material(&s);
        proof {
            assert(ok == pred(s));
        }
        if ok && out.len() < QUESTION_SESSION_LIMIT {
            let ghost before = out@;
            out.push(s);
            proof {
                assert(out@ =~= orig.take(k + 1).filter(pred));
            }
        } else {
            proof {
                if ok {
                    let a = orig.take(k).filter(pred);
                    if a.len() <= QUESTION_SESSION_LIMIT {
                        assert(a.len() == QUESTION_SESSION_LIMIT);
                        assert(a.push(s).take(QUESTION_SESSION_LIMIT as int) =~= a);
                    } else {
                        assert(a.push(s).take(QUESTION_SESSION_LIMIT as int) =~= a.take(
                            QUESTION_SESSION_LIMIT as int,
                        ));
                    }
                }
            }
        }
    }
    proof {
        assert(orig.take(orig.len() as int) =~= orig);
    }
    out
}

/// Nothing may answer the question.
pub fn require_sources(sessions: Vec<Session>) -> (r: AppResult<Vec<Session>>)
    ensures
        r is Ok <==> sessions@.len() != 0,
        r matches Ok(v) ==> v == sessions,
        r matches Err(e) ==> e.code@ == "no_meeting_sources"@ && e.message@
            == "No completed meetings with source material are available here yet"@,
{
    if sessions.len() == 0 {
        return Err(
            AppError::new(
                "no_meeting_sources",
                "No completed meetings with source material are available here yet",
            ),
        );
    }
    Ok(sessions)
}

/// The error when the meetings hold more text than one question may carry.
pub fn question_context_error(count: usize) -> (e: AppError)
    ensures
        e.code@ == "question_sources_too_large"@,
        e.message@ == if count == 1 {
            "This meeting is too large to answer from in full. Use transcript search or export to review its complete content."@
        } else {
            "These meetings are too large to answer from in full. Choose a smaller folder or ask about one meeting."@
        },
{
    AppError::new(
        "question_sources_too_large",
        if count == 1 {
            "This meeting is too large to answer from in full. Use transcript search or export to review its complete content."
        } else {
            "These meetings are too large to answer from in full. Choose a smaller folder or ask about one meeting."
        },
    )
}

/// The request built around a question and its passages must fit the same
/// limit as the passages alone; `input_bytes` is its size, `count` the
/// number of meetings it draws on.
pub fn check_question_input(input_bytes: usize, count: usize) -> (r: AppResult<()>)
    ensures
        r is Ok <==> input_bytes <= QUESTION_BYTES,
        r matches Err(e) ==> e.code@ == "question_sources_too_large"@ && e.message@ == if count
            == 1 {
            "This meeting is too large to answer from in full. Use transcript search or export to review its complete content."@
        } else {
            "These meetings are too large to answer from in full. Choose a smaller folder or ask about one meeting."@
        },
{
    if input_bytes as u128 > QUESTION_BYTES {
        return Err(question_context_error(count));
    }
    Ok(())
}

/// A numbered piece of one meeting's text offered to answer a question.
#[derive(Clone, Debug)]
pub struct QuestionPassage {
    pub id: String,
    pub session_index: usize,
    pub text: String,
}

pub struct PassageV {
    pub id: Seq<char>,
    pub session_index: int,
    pub text: Seq<char>,
}

pub open spec fn passage_views(v: Seq<QuestionPassage>) -> Seq<PassageV> {
    v.map_values(
        |p: QuestionPassage| PassageV { id: p.id@, session_index: p.session_index as int, text: p.text@ },
    )
}

/// Lines joined by line breaks.
pub open spec fn joined_lines(v: Seq<String>) -> Seq<char>
    decreases v.len(),
{
    if v.len() == 0 {
        Seq::empty()
    } else if v.len() == 1 {
        v[0]@
    } else {
        joined_lines(v.drop_last()) + "\n"@ + v.last()@
    }
}

/// The fields of a meeting offered to a question, with their names.
pub open spec fn fields(s: Session) -> Seq<(Seq<char>, Seq<char>)> {
    seq![
        ("title"@, s.title@),
        ("date"@, s.started_at@),
        ("attendees"@, joined_names(s.attendees@)),
        ("context"@, s.context@),
        ("notes"@, visible_notes(s)),
        ("transcript"@, legacy_text(s)),
        ("warnings"@, joined_lines(s.warnings@)),
    ]
}

/// The position of the last white space among the first `n` characters.
pub open spec fn last_ws(t: Seq<char>, n: int) -> Option<int>
    decreases n,
{
    if n <= 0 {
        None
    } else if is_ws(t[n - 1]) {
        Some(n - 1)
    } else {
        last_ws(t, n - 1)
    }
}

/// How many characters the next passage takes: all when at most 1200
/// remain, else the first 1200 cut just after their last white space, if any.
pub open spec fn cut(t: Seq<char>) -> int {
    if t.len() <= 1200 {
        t.len() as int
    } else {
        match last_ws(t, 1200) {
            Some(p) => p + 1,
            None => 1200,
        }
    }
}

proof fn lemma_last_ws_range(t: Seq<char>, n: int)
    requires
        0 <= n,
    ensures
        last_ws(t, n) matches Some(p) ==> 0 <= p < n,
    decreases n,
{
    if n > 0 && !is_ws(t[n - 1]) {
        lemma_last_ws_range(t, n - 1);
    }
}

pub open spec fn passage_id(i: int, field: Seq<char>, part: int) -> Seq<char> {
    "m"@ + decimal(i as nat) + ":"@ + field + ":"@ + decimal(part as nat)
}

/// The passages of one field: every character kept, cut at white space
/// where possible; blank pieces are not offered but keep their number.
pub open spec fn field_passages(i: int, field: Seq<char>, t: Seq<char>, part: int) -> Seq<PassageV>
    decreases t.len(),
{
    if t.len() == 0 {
        Seq::empty()
    } else {
        let c = cut(t);
        if 0 < c <= t.len() {
            let piece = t.take(c);
            let rest = field_passages(i, field, t.skip(c), part + 1);
            if trim(piece).len() != 0 {
                seq![PassageV { id: passage_id(i, field, part), session_index: i, text: piece }] + rest
            } else {
                rest
            }
        } else {
            Seq::empty()
        }
    }
}

pub open spec fn fields_passages(i: int, fs: Seq<(Seq<char>, Seq<char>)>) -> Seq<PassageV>
    decreases fs.len(),
{
    if fs.len() == 0 {
        Seq::empty()
    } else {
        fields_passages(i, fs.drop_last()) + field_passages(i, fs.last().0, fs.last().1, 0)
    }
}

/// Every passage of every meeting, meeting by meeting, field by field.
pub open spec fn all_passages(ss: Seq<Session>) -> Seq<PassageV>
    decreases ss.len(),
{
    if ss.len() == 0 {
        Seq::empty()
    } else {
        all_passages(ss.drop_last()) + fields_passages(
            ss.len() - 1,
            fields(ss.last()),
        )
    }
}

pub open spec fn fields_bytes(fs: Seq<(Seq<char>, Seq<char>)>) -> int
    decreases fs.len(),
{
    if fs.len() == 0 {
        0
    } else {
        fields_bytes(fs.drop_last()) + byte_len(fs.last().1)
    }
}

/// The UTF-8 size of every offered field of every meeting.
pub open spec fn total_bytes(ss: Seq<Session>) -> int
    decreases ss.len(),
{
    if ss.len() == 0 {
        0
    } else {
        total_bytes(ss.drop_last()) + fields_bytes(fields(ss.last()))
    }
}

/// The most text, in UTF-8 bytes, that one question may carry.
pub const QUESTION_BYTES: u128 = 200_000;

proof fn lemma_fields_bytes_prefix(fs: Seq<(Seq<char>, Seq<char>)>, j: int)
    requires
        0 <= j <= fs.len(),
    ensures
        fields_bytes(fs.take(j)) <= fields_bytes(fs),
    decreases fs.len() - j,
{
    if j < fs.len() {
        assert(fs.take(j + 1).drop_last() =~= fs.take(j));
        lemma_fields_bytes_prefix(fs, j + 1);
    } else {
        assert(fs.take(j) =~= fs);
    }
}

proof fn lemma_total_bytes_prefix(ss: Seq<Session>, i: int)
    requires
        0 <= i <= ss.len(),
    ensures
        total_bytes(ss.take(i)) <= total_bytes(ss),
    decreases ss.len() - i,
{
    if i < ss.len() {
        assert(ss.take(i + 1).drop_last() =~= ss.take(i));
        assert(fields_bytes(fields(ss[i])) >= 0) by {
            lemma_fields_bytes_nonneg(fields(ss[i]));
        }
        lemma_total_bytes_prefix(ss, i + 1);
    } else {
        assert(ss.take(i) =~= ss);
    }
}

proof fn lemma_fields_bytes_nonneg(fs: Seq<(Seq<char>, Seq<char>)>)
    ensures
        fields_bytes(fs) >= 0,
    decreases fs.len(),
{
    if fs.len() != 0 {
        lemma_fields_bytes_nonneg(fs.drop_last());
    }
}

fn join_lines(v: &Vec<String>) -> (r: String)
    ensures
        r@ == joined_lines(v@),
{
    let mut r = String::new();
    let n: usize = v.len();
    let mut i: usize = 0;
    while i < n
        invariant
            n == v@.len(),
            i <= n,
            r@ == joined_lines(v@.take(i as int)),
        decreases n - i,
    {
        proof {
            assert(v@.take(i + 1).drop_last() =~= v@.take(i as int));
        }
        if i == 0 {
            r = v[i].clone();
            proof {
                assert(v@.take(1) =~= seq![v@[0]]);
            }
        } else {
            r.append("\n");
            r.append(v[i].as_str());
        }
        i = i + 1;
    }
    proof {
        assert(v@.take(n as int) =~= v@);
    }
    r
}

fn join_with_comma(v: &Vec<String>) -> (r: String)
    ensures
        r@ == joined_names(v@),
{
    let mut r = String::new();
    let n: usize = v.len();
    let mut i: usize = 0;
    while i < n
        invariant
            n == v@.len(),
            i <= n,
            r@ == joined_names(v@.take(i as int)),
        decreases n - i,
    {
        proof {
            assert(v@.take(i + 1).drop_last() =~= v@.take(i as int));
        }
        if i == 0 {
            r = v[i].clone();
            proof {
                assert(v@.take(1) =~= seq![v@[0]]);
            }
        } else {
            r.append(", ");
            r.append(v[i].as_str());
        }
        i = i + 1;
    }
    proof {
        assert(v@.take(n as int) =~= v@);
    }
    r
}

fn cut_at(t: &Vec<char>, pos: usize) -> (c: usize)
    requires
        pos < t@.len(),
    ensures
        c as int == cut(t@.skip(pos as int)),
        0 < c <= t@.len() - pos,
{
    let ghost rest = t@.skip(pos as int);
    let remaining = t.len() - pos;
    if remaining <= 1200 {
        return remaining;
    }
    let len: usize = t.len();
    let mut n: usize = 1200;
    while n > 0
        invariant
            len == t@.len(),
            n <= 1200,
            pos + 1200 < t@.len(),
            rest == t@.skip(pos as int),
            last_ws(rest, 1200) == last_ws(rest, n as int),
        decreases n,
    {
        proof {
            assert(rest[n - 1] == t@[pos + n - 1]);
        }
        if is_whitespace(t[pos + n - 1]) {
            return n;
        }
        n = n - 1;
    }
    1200
}

proof fn lemma_field_passages_step(i: int, field: Seq<char>, t: Seq<char>, pos: int, part: int, c: int)
    requires
        0 <= pos < t.len(),
        c == cut(t.skip(pos)),
        0 < c <= t.len() - pos,
    ensures
        field_passages(i, field, t.skip(pos), part) == (if trim(t.subrange(pos, pos + c)).len()
            != 0 {
            seq![
                PassageV {
                    id: passage_id(i, field, part),
                    session_index: i,
                    text: t.subrange(pos, pos + c),
                },
            ]
        } else {
            Seq::empty()
        }) + field_passages(i, field, t.skip(pos + c), part + 1),
{
    let r = t.skip(pos);
    assert(r.take(c) =~= t.subrange(pos, pos + c));
    assert(r.skip(c) =~= t.skip(pos + c));
}

fn push_field(
    out: &mut Vec<QuestionPassage>,
    i: usize,
    field: &str,
    text: &str,
)
    ensures
        passage_views(final(out)@) == passage_views(old(out)@) + field_passages(
            i as int,
            field@,
            text@,
            0,
        ),
{
    let t = chars_of(text);
    let n: usize = t.len();
    let mut pos: usize = 0;
    let mut part: usize = 0;
    let ghost base = passage_views(out@);
    let prefix = concat3("m", decimal_string(i as u128).as_str(), ":");
    let prefix = concat3(prefix.as_str(), field, ":");
    proof {
        assert(t@.skip(0) =~= t@);
    }
    while pos < n
        invariant
            n == t@.len(),
            t@ == text@,
            pos <= n,
            part <= pos,
            prefix@ == "m"@ + decimal(i as nat) + ":"@ + field@ + ":"@,
            passage_views(out@) + field_passages(i as int, field@, t@.skip(pos as int), part as int)
                == base + field_passages(i as int, field@, text@, 0),
        decreases n - pos,
    {
        let c = cut_at(&t, pos);
        proof {
            lemma_field_passages_step(i as int, field@, t@, pos as int, part as int, c as int);
        }
        let mut piece: Vec<char> = Vec::new();
        let mut k: usize = 0;
        while k < c
            invariant
                n == t@.len(),
                pos + c <= n,
                k <= c,
                piece@ == t@.subrange(pos as int, pos + k),
            decreases c - k,
        {
            piece.push(t[pos + k]);
            proof {
                assert(t@.subrange(pos as int, pos + k + 1) =~= t@.subrange(pos as int, pos + k).push(
                    t@[pos + k],
                ));
            }
            k = k + 1;
        }
        let excerpt = string_of(&piece);
        let ghost before = passage_views(out@);
        if !is_blank(excerpt.as_str()) {
            let id = concat2(prefix.as_str(), decimal_string(part as u128).as_str());
            let item = QuestionPassage { id, session_index: i, text: excerpt };
            out.push(item);
            proof {
                assert(passage_views(out@) =~= before.push(
                    PassageV { id: item.id@, session_index: i as int, text: item.text@ },
                ));
                assert(item.id@ =~= passage_id(i as int, field@, part as int));
            }
        }
        proof {
            assert(passage_views(out@) + field_passages(i as int, field@, t@.skip(pos + c), part + 1)
                =~= before + field_passages(i as int, field@, t@.skip(pos as int), part as int));
        }
        pos = pos + c;
        part = part + 1;
    }
    proof {
        assert(t@.skip(n as int) =~= Seq::<char>::empty());
        assert(passage_views(out@) =~= base + field_passages(i as int, field@, text@, 0));
    }
}

proof fn lemma_fields_passages_step(i: int, fs: Seq<(Seq<char>, Seq<char>)>, j: int)
    requires
        0 <= j < fs.len(),
    ensures
        fields_passages(i, fs.take(j + 1)) == fields_passages(i, fs.take(j)) + field_passages(
            i,
            fs[j].0,
            fs[j].1,
            0,
        ),
        fields_bytes(fs.take(j + 1)) == fields_bytes(fs.take(j)) + byte_len(fs[j].1),
{
    assert(fs.take(j + 1).drop_last() =~= fs.take(j));
}

/// Every meeting's fields as numbered passages of at most 1200 characters,
/// refused when all of them together exceed 200,000 UTF-8 bytes.
pub fn question_passages(sessions: &Vec<Session>) -> (r: AppResult<Vec<QuestionPassage>>)
    ensures
        r is Ok <==> total_bytes(sessions@) <= QUESTION_BYTES,
        r matches Ok(v) ==> passage_views(v@) == all_passages(sessions@),
        r matches Err(e) ==> e.code@ == "question_sources_too_large"@ && e.message@ == if sessions@.len()
            == 1 {
            "This meeting is too large to answer from in full. Use transcript search or export to review its complete content."@
        } else {
            "These meetings are too large to answer from in full. Choose a smaller folder or ask about one meeting."@
        },
{
    let mut out: Vec<QuestionPassage> = Vec::new();
    let mut bytes: u128 = 0;
    let n: usize = sessions.len();
    let mut i: usize = 0;
    proof {
        assert(sessions@.take(0) =~= Seq::<Session>::empty());
        assert(passage_views(out@) =~= Seq::<PassageV>::empty());
    }
    while i < n
        invariant
            n == sessions@.len(),
            i <= n,
            bytes == total_bytes(sessions@.take(i as int)),
            bytes <= QUESTION_BYTES,
            passage_views(out@) == all_passages(sessions@.take(i as int)),
        decreases n - i,
    {
        let s = &sessions[i];
        let attendees = join_with_comma(&s.attendees);
        let warnings = join_lines(&s.warnings);
        let notes = s.notes_text();
        let transcript: &str = match &s.transcript {
            Some(t) => t.as_str(),
            None => "",
        };
        proof {
            if s.transcript is None {
                reveal_strlit("");
            }
        }
        let ghost fs = fields(*s);
        let names: [&str; 7] = ["title", "date", "attendees", "context", "notes", "transcript", "warnings"];
        let texts: [&str; 7] = [
            s.title.as_str(),
            s.started_at.as_str(),
            attendees.as_str(),
            s.context.as_str(),
            notes.as_str(),
            transcript,
            warnings.as_str(),
        ];
        let ghost base = passage_views(out@);
        let ghost base_bytes = bytes as int;
        proof {
            assert(sessions@.take(i + 1).drop_last() =~= sessions@.take(i as int));
            assert(fs.take(0) =~= Seq::<(Seq<char>, Seq<char>)>::empty());
            reveal_strlit("title");
            reveal_strlit("date");
            reveal_strlit("attendees");
            reveal_strlit("context");
            reveal_strlit("notes");
            reveal_strlit("transcript");
            reveal_strlit("warnings");
        }
        let mut j: usize = 0;
        while j < 7
            invariant
                n == sessions@.len(),
                i < n,
                s == &sessions@[i as int],
                fs == fields(*s),
                j <= 7,
                forall|q: int| 0 <= q < 7 ==> names@[q]@ == (#[trigger] fs[q]).0 && texts@[q]@ == fs[q].1,
                base == all_passages(sessions@.take(i as int)),
                base_bytes == total_bytes(sessions@.take(i as int)),
                bytes == base_bytes + fields_bytes(fs.take(j as int)),
                bytes <= QUESTION_BYTES,
                passage_views(out@) == base + fields_passages(i as int, fs.take(j as int)),
            decreases 7 - j,
        {
            proof {
                lemma_fields_passages_step(i as int, fs, j as int);
            }
            let text = texts[j];
            bytes = bytes + utf8_len(text) as u128;
            if bytes > QUESTION_BYTES {
                proof {
                    lemma_fields_bytes_prefix(fs, j + 1);
                    lemma_total_bytes_prefix(sessions@, i + 1);
                    assert(sessions@.take(i + 1).drop_last() =~= sessions@.take(i as int));
                    assert(sessions@.take(i + 1).last() == *s);
                    assert(total_bytes(sessions@.take(i + 1)) == base_bytes + fields_bytes(fs));
                }
                return Err(question_context_error(n));
            }
            push_field(&mut out, i, names[j], text);
            j = j + 1;
        }
        proof {
            assert(fs.take(7) =~= fs);
        }
        i = i + 1;
    }
    proof {
        assert(sessions@.take(n as int) =~= sessions@);
    }
    Ok(out)
}

/// An answer the service says the passages support, as it came back.
#[derive(Clone, Debug)]
pub struct RawMeetingAnswer {
    pub answer: String,
    pub supported: bool,
    pub source_ids: Vec<String>,
}

/// A saved passage cited by an answer, with the meeting it came from.
#[derive(Clone, Debug)]
pub struct MeetingCitation {
    pub session_id: String,
    pub title: String,
    pub excerpt: String,
}

#[derive(Clone, Debug)]
pub struct MeetingAnswer {
    pub answer: String,
    pub citations: Vec<MeetingCitation>,
}

pub struct CitationV {
    pub session_id: Seq<char>,
    pub title: Seq<char>,
    pub excerpt: Seq<char>,
}

pub open spec fn citation_views(v: Seq<MeetingCitation>) -> Seq<CitationV> {
    v.map_values(
        |c: MeetingCitation| CitationV { session_id: c.session_id@, title: c.title@, excerpt: c.excerpt@ },
    )
}

/// The position of the first passage with ID `id`.
pub open spec fn passage_position(ps: Seq<PassageV>, id: Seq<char>) -> Option<int>
    decreases ps.len(),
{
    if ps.len() == 0 {
        None
    } else {
        match passage_position(ps.drop_last(), id) {
            Some(p) => Some(p),
            None => if ps.last().id == id {
                Some(ps.len() - 1)
            } else {
                None
            },
        }
    }
}

/// The citation of a known passage: its meeting's ID and title, and its text.
pub open spec fn citation_of(ps: Seq<PassageV>, ss: Seq<Session>, id: Seq<char>) -> CitationV {
    let p = ps[passage_position(ps, id)->0];
    CitationV { session_id: ss[p.session_index].id@, title: ss[p.session_index].title@, excerpt: p.text }
}

/// The citations of the cited IDs, each ID once, in first-cited order.
pub open spec fn citations_of(ps: Seq<PassageV>, ss: Seq<Session>, ids: Seq<Seq<char>>) -> Seq<CitationV>
    decreases ids.len(),
{
    if ids.len() == 0 {
        Seq::empty()
    } else {
        let prev = citations_of(ps, ss, ids.drop_last());
        if ids.drop_last().contains(ids.last()) {
            prev
        } else {
            prev.push(citation_of(ps, ss, ids.last()))
        }
    }
}

pub open spec fn unsupported_answer() -> Seq<char> {
    "The saved notes and transcript don’t contain enough information to answer that."@
}

fn unverified_answer() -> (e: AppError)
    ensures
        e.code@ == "unverified_answer"@,
        e.message@
            == "This answer couldn’t be linked to saved meeting text. Your question is still here; try again."@,
{
    AppError::new(
        "unverified_answer",
        "This answer couldn’t be linked to saved meeting text. Your question is still here; try again.",
    )
}

fn find_passage(ps: &Vec<QuestionPassage>, id: &str) -> (r: Option<usize>)
    ensures
        match r {
            Some(p) => passage_position(passage_views(ps@), id@) == Some(p as int),
            None => passage_position(passage_views(ps@), id@) is None,
        },
{
    let ghost pv = passage_views(ps@);
    let n: usize = ps.len();
    let mut k: usize = 0;
    proof {
        assert(pv.take(0) =~= Seq::<PassageV>::empty());
    }
    while k < n
        invariant
            n == ps@.len(),
            pv == passage_views(ps@),
            k <= n,
            passage_position(pv.take(k as int), id@) is None,
        decreases n - k,
    {
        proof {
            assert(pv.take(k + 1).drop_last() =~= pv.take(k as int));
            assert(pv[k as int].id == ps@[k as int].id@);
        }
        if same_text(ps[k].id.as_str(), id) {
            proof {
                lemma_passage_prefix(pv, id@, k + 1);
            }
            return Some(k);
        }
        k = k + 1;
    }
    proof {
        assert(pv.take(n as int) =~= pv);
    }
    None
}

proof fn lemma_passage_prefix(ps: Seq<PassageV>, id: Seq<char>, j: int)
    requires
        0 <= j <= ps.len(),
        passage_position(ps.take(j), id) is Some,
    ensures
        passage_position(ps, id) == passage_position(ps.take(j), id),
    decreases ps.len() - j,
{
    if j < ps.len() {
        assert(ps.take(j + 1).drop_last() =~= ps.take(j));
        lemma_passage_prefix(ps, id, j + 1);
    } else {
        assert(ps.take(j) =~= ps);
    }
}

proof fn lemma_position_valid(ps: Seq<PassageV>, id: Seq<char>)
    requires
        passage_position(ps, id) is Some,
    ensures
        0 <= passage_position(ps, id)->0 < ps.len(),
        ps[passage_position(ps, id)->0].id == id,
    decreases ps.len(),
{
    if passage_position(ps.drop_last(), id) is Some {
        lemma_position_valid(ps.drop_last(), id);
    }
}

/// Every passage names one of the meetings it came from.
proof fn lemma_passage_indices(ss: Seq<Session>)
    ensures
        forall|k: int|
            0 <= k < all_passages(ss).len() ==> 0 <= (#[trigger] all_passages(ss)[k]).session_index
                < ss.len(),
    decreases ss.len(),
{
    if ss.len() != 0 {
        lemma_passage_indices(ss.drop_last());
        lemma_fields_passages_index(ss.len() - 1, fields(ss.last()));
        let a = all_passages(ss.drop_last());
        let b = fields_passages(ss.len() - 1, fields(ss.last()));
        let all = all_passages(ss);
        assert forall|k: int| 0 <= k < all.len() implies 0 <= (#[trigger] all[k]).session_index
            < ss.len() by {
            if k < a.len() {
                assert(all[k] == a[k]);
            } else {
                assert(all[k] == b[k - a.len()]);
            }
        }
    }
}

proof fn lemma_fields_passages_index(i: int, fs: Seq<(Seq<char>, Seq<char>)>)
    ensures
        forall|k: int|
            0 <= k < fields_passages(i, fs).len() ==> (#[trigger] fields_passages(i, fs)[k]).session_index
                == i,
    decreases fs.len(),
{
    if fs.len() != 0 {
        lemma_fields_passages_index(i, fs.drop_last());
        lemma_field_passages_index(i, fs.last().0, fs.last().1, 0);
        let a = fields_passages(i, fs.drop_last());
        let b = field_passages(i, fs.last().0, fs.last().1, 0);
        let all = fields_passages(i, fs);
        assert forall|k: int| 0 <= k < all.len() implies (#[trigger] all[k]).session_index == i by {
            if k < a.len() {
                assert(all[k] == a[k]);
            } else {
                assert(all[k] == b[k - a.len()]);
            }
        }
    }
}

proof fn lemma_field_passages_index(i: int, field: Seq<char>, t: Seq<char>, part: int)
    ensures
        forall|k: int|
            0 <= k < field_passages(i, field, t, part).len() ==> (#[trigger] field_passages(
                i,
                field,
                t,
                part,
            )[k]).session_index == i,
    decreases t.len(),
{
    if t.len() != 0 {
        let c = cut(t);
        if 0 < c <= t.len() {
            lemma_field_passages_index(i, field, t.skip(c), part + 1);
            let rest = field_passages(i, field, t.skip(c), part + 1);
            let all = field_passages(i, field, t, part);
            assert forall|k: int| 0 <= k < all.len() implies (#[trigger] all[k]).session_index == i by {
                if trim(t.take(c)).len() != 0 {
                    if k > 0 {
                        assert(all[k] == rest[k - 1]);
                    }
                } else {
                    assert(all[k] == rest[k]);
                }
            }
        }
    }
}

/// The service's answer tied to the saved passages it cites. An answer the
/// passages do not support becomes a fixed reply without citations; a
/// supported answer needs text and at least one citation, every cited ID
/// must name a passage, and each passage is cited once.
pub fn validate_meeting_answer(raw: RawMeetingAnswer, sessions: &Vec<Session>) -> (r: AppResult<
    MeetingAnswer,
>)
    ensures
        !raw.supported ==> (r matches Ok(a) && a.answer@ == unsupported_answer()
            && a.citations@.len() == 0),
        raw.supported && (trim(raw.answer@).len() == 0 || raw.source_ids@.len() == 0) ==> (
        r matches Err(e) && e.code@ == "unverified_answer"@),
        raw.supported && trim(raw.answer@).len() != 0 && raw.source_ids@.len() != 0 ==> {
            let ps = all_passages(sessions@);
            let ids = raw.source_ids@.map_values(|x: String| x@);
            &&& total_bytes(sessions@) > QUESTION_BYTES ==> (r matches Err(e) && e.code@
                == "question_sources_too_large"@)
            &&& total_bytes(sessions@) <= QUESTION_BYTES && (exists|k: int|
                0 <= k < ids.len() && passage_position(ps, #[trigger] ids[k]) is None) ==> (
            r matches Err(e) && e.code@ == "unverified_answer"@)
            &&& total_bytes(sessions@) <= QUESTION_BYTES && (forall|k: int|
                0 <= k < ids.len() ==> passage_position(ps, #[trigger] ids[k]) is Some) ==> (
            r matches Ok(a) && a.answer@ == trim(raw.answer@) && citation_views(a.citations@)
                == citations_of(ps, sessions@, ids))
        },
{
    if !raw.supported {
        return Ok(
            MeetingAnswer {
                answer: owned(
                    "The saved notes and transcript don’t contain enough information to answer that.",
                ),
                citations: Vec::new(),
            },
        );
    }
    let answer = owned(trim_str(raw.answer.as_str()));
    if answer.as_str().unicode_len() == 0 || raw.source_ids.len() == 0 {
        return Err(unverified_answer());
    }
    let passages = question_passages(sessions)?;
    let ghost ps = passage_views(passages@);
    let ghost ids = raw.source_ids@.map_values(|x: String| x@);
    proof {
        lemma_passage_indices(sessions@);
    }
    let mut citations: Vec<MeetingCitation> = Vec::new();
    let mut seen: Vec<String> = Vec::new();
    let n: usize = raw.source_ids.len();
    let mut k: usize = 0;
    proof {
        assert(ids.take(0) =~= Seq::<Seq<char>>::empty());
    }
    while k < n
        invariant
            n == raw.source_ids@.len(),
            raw.supported,
            trim(raw.answer@).len() != 0,
            answer@ == trim(raw.answer@),
            total_bytes(sessions@) <= QUESTION_BYTES,
            ids == raw.source_ids@.map_values(|x: String| x@),
            ps == passage_views(passages@),
            ps == all_passages(sessions@),
            forall|q: int|
                0 <= q < all_passages(sessions@).len() ==> 0 <= (#[trigger] all_passages(
                    sessions@,
                )[q]).session_index < sessions@.len(),
            k <= n,
            forall|q: int| 0 <= q < k ==> passage_position(ps, #[trigger] ids[q]) is Some,
            citation_views(citations@) == citations_of(ps, sessions@, ids.take(k as int)),
            forall|x: Seq<char>|
                ids.take(k as int).contains(x) <==> exists|q: int|
                    0 <= q < seen@.len() && (#[trigger] seen@[q])@ == x,
        decreases n - k,
    {
        let id = &raw.source_ids[k];
        proof {
            assert(ids[k as int] == id@);
            assert(ids.take(k + 1).drop_last() =~= ids.take(k as int));
            assert(ids.take(k + 1).last() == id@);
        }
        let index = match find_passage(&passages, id.as_str()) {
            Some(p) => p,
            None => {
                return Err(unverified_answer());
            },
        };
        proof {
            lemma_position_valid(ps, id@);
        }
        let mut dup = false;
        let m: usize = seen.len();
        let mut q: usize = 0;
        while q < m
            invariant
                m == seen@.len(),
                q <= m,
                dup == exists|a: int| 0 <= a < q && (#[trigger] seen@[a])@ == id@,
            decreases m - q,
        {
            if same_text(seen[q].as_str(), id.as_str()) {
                dup = true;
            }
            q = q + 1;
        }
        proof {
            assert(dup == ids.take(k as int).contains(id@));
            assert forall|x: Seq<char>| #[trigger] ids.take(k + 1).contains(x) <==> (ids.take(k as int).contains(
                x,
            ) || x == id@) by {
                if ids.take(k + 1).contains(x) {
                    let w = choose|w: int| 0 <= w < k + 1 && #[trigger] ids.take(k + 1)[w] == x;
                    if w < k {
                        assert(ids.take(k as int)[w] == x);
                    }
                }
                if ids.take(k as int).contains(x) {
                    let w = choose|w: int| 0 <= w < k && #[trigger] ids.take(k as int)[w] == x;
                    assert(ids.take(k + 1)[w] == x);
                }
                if x == id@ {
                    assert(ids.take(k + 1)[k as int] == x);
                }
            }
        }
        if !dup {
            let p = &passages[index];
            proof {
                lemma_position_valid(ps, id@);
                assert(ps[index as int].session_index == p.session_index as int);
            }
            let session = &sessions[p.session_index];
            let ghost before = citation_views(citations@);
            let item = MeetingCitation {
                session_id: session.id.clone(),
                title: session.title.clone(),
                excerpt: p.text.clone(),
            };
            citations.push(item);
            proof {
                assert(citation_views(citations@) =~= before.push(
                    CitationV { session_id: item.session_id@, title: item.title@, excerpt: item.excerpt@ },
                ));
                assert(ps[index as int].text == p.text@);
            }
            let ghost seen_before = seen@;
            seen.push(id.clone());
            proof {
                assert forall|x: Seq<char>| #[trigger] ids.take(k + 1).contains(x) <==> exists|a: int|
                    0 <= a < seen@.len() && (#[trigger] seen@[a])@ == x by {
                    if x == id@ {
                        assert(seen@[seen@.len() - 1]@ == x);
                    }
                    if exists|a: int| 0 <= a < seen@.len() && (#[trigger] seen@[a])@ == x {
                        let a = choose|a: int| 0 <= a < seen@.len() && (#[trigger] seen@[a])@ == x;
                        if a < seen_before.len() {
                            assert(seen_before[a]@ == x);
                        }
                    }
                    if ids.take(k as int).contains(x) {
                        let a = choose|a: int| 0 <= a < seen_before.len() && (#[trigger] seen_before[a])@ == x;
                        assert(seen@[a] == seen_before[a]);
                    }
                }
            }
        }
        k = k + 1;
    }
    proof {
        assert(ids.take(n as int) =~= ids);
    }
    Ok(MeetingAnswer { answer, citations })
}

/// Law: a question is answered from at most twenty meetings, each of them
/// complete, in the chosen folder, and with material.
pub proof fn lemma_eligible_bounded(ss: Seq<Session>, folder: Option<Seq<char>>)
    ensures
        eligible_spec(ss, folder).len() <= QUESTION_SESSION_LIMIT,
        forall|k: int|
            0 <= k < eligible_spec(ss, folder).len() ==> eligible(#[trigger] eligible_spec(ss, folder)[k], folder),
{
    let pred = |s: Session| eligible(s, folder);
    let all = ss.filter(pred);
    assert forall|k: int| 0 <= k < eligible_spec(ss, folder).len() implies eligible(
        #[trigger] eligible_spec(ss, folder)[k],
        folder,
    ) by {
        assert(eligible_spec(ss, folder)[k] == all[k]);
        ss.lemma_filter_pred(pred, k);
    }
}

/// Law: a question is asked of every completed meeting in the chosen
/// folder whose notes document or saved transcript holds any text, blank
/// context or not: such a meeting is eligible, and when the library holds
/// at most twenty meetings it is among those the question is answered from.
pub proof fn lemma_meetings_with_words_are_asked(ss: Seq<Session>, k: int, folder: Option<Seq<char>>)
    requires
        0 <= k < ss.len(),
        ss[k].status == SessionStatus::Complete,
        folder matches Some(f) ==> ss[k].folder@ == f,
        trim(visible_notes(ss[k])).len() != 0 || (ss[k].transcript matches Some(t) && trim(t@).len()
            != 0),
    ensures
        eligible(ss[k], folder),
        ss.len() <= QUESTION_SESSION_LIMIT ==> eligible_spec(ss, folder).contains(ss[k]),
{
    let pred = |s: Session| eligible(s, folder);
    assert(pred(ss[k]));
    ss.lemma_filter_contains(pred, k);
    ss.lemma_filter_len(pred);
}

} // verus!
