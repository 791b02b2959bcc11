//! What a person does with a finished meeting's insights: apply or dismiss
//! a suggestion, restore the previous notes document, and ask for the
//! insights to be generated again.
use vstd::prelude::*;

use crate::error::{invalid_status, AppError, AppResult};
use crate::session::{visible_notes, Session, SessionStatus};
use crate::suggestions::{bounded, string_views};
use crate::text::{is_blank, lowercase, owned, same_text, to_lowercase, trim, trim_str};

verus! {

/// Restoring swaps the notes document with the previous one, only when the
/// meeting is idle and the document still reads as the person last saw it.
pub fn restore_notes_to(session: Session, expected_notes: &str) -> (r: AppResult<Session>)
    ensures
        (session.status == SessionStatus::Recording || session.status == SessionStatus::Processing)
            ==> (r matches Err(e) && e.code@ == "invalid_session_status"@ && e.message@
            == "Wait until recording and processing finish before restoring notes"@),
        !(session.status == SessionStatus::Recording || session.status == SessionStatus::Processing)
            && visible_notes(session) != expected_notes@ ==> (r matches Err(e) && e.code@
            == "notes_changed"@ && e.message@
            == "Your notes changed. Review the current document before restoring."@),
        !(session.status == SessionStatus::Recording || session.status == SessionStatus::Processing)
            && visible_notes(session) == expected_notes@ && session.previous_notes is None ==> (
        r matches Err(e) && e.code@ == "no_previous_notes"@ && e.message@
            == "There is no previous notes document to restore"@),
        r matches Ok(s) ==> restored(session, s),
        r is Ok <==> !(session.status == SessionStatus::Recording || session.status
            == SessionStatus::Processing) && visible_notes(session) == expected_notes@
            && session.previous_notes is Some,
{
    if session.status == SessionStatus::Recording || session.status == SessionStatus::Processing {
        return Err(invalid_status("Wait until recording and processing finish before restoring notes"));
    }
    let current = session.notes_text();
    if !same_text(current.as_str(), expected_notes) {
        return Err(
            AppError::new(
                "notes_changed",
                "Your notes changed. Review the current document before restoring.",
            ),
        );
    }
    let mut session = session;
    let previous = match session.previous_notes.take() {
        Some(p) => p,
        None => {
            return Err(
                AppError::new("no_previous_notes", "There is no previous notes document to restore"),
            );
        },
    };
    session.notes = Some(previous);
    session.previous_notes = Some(current);
    Ok(session)
}

fn invalid_suggestion() -> (e: AppError)
    ensures
        e.code@ == "invalid_suggestion"@,
        e.message@
            == "Choose an available title, context, category, or participants suggestion and apply or dismiss it"@,
{
    AppError::new(
        "invalid_suggestion",
        "Choose an available title, context, category, or participants suggestion and apply or dismiss it",
    )
}

pub open spec fn known_key(key: Seq<char>) -> bool {
    key == "title"@ || key == "context"@ || key == "category"@ || key == "participants"@
}

pub open spec fn known_action(action: Seq<char>) -> bool {
    action == "apply"@ || action == "dismiss"@
}

/// Attendees with each suggested name added (trimmed) unless an attendee
/// already has it, ignoring case and surrounding space.
pub open spec fn merged_attendees(att: Seq<Seq<char>>, names: Seq<Seq<char>>) -> Seq<Seq<char>>
    decreases names.len(),
{
    if names.len() == 0 {
        att
    } else {
        let prev = merged_attendees(att, names.drop_last());
        let name = trim(names.last());
        if exists|k: int| 0 <= k < prev.len() && lowercase(trim(#[trigger] prev[k])) == lowercase(name) {
            prev
        } else {
            prev.push(name)
        }
    }
}

/// Whether the suggestion for `key` may be applied or dismissed.
pub open spec fn suggestion_usable(s: Session, key: Seq<char>) -> bool {
    match s.ai_suggestions {
        None => false,
        Some(a) => if key == "participants"@ {
            &&& a.participants@.len() != 0
            &&& a.participants@.len() <= 50
            &&& forall|i: int| 0 <= i < a.participants@.len() ==> bounded(
                (#[trigger] a.participants@[i]).name@,
                120,
            )
        } else {
            let (o, limit) = if key == "title"@ {
                (a.title, 160int)
            } else if key == "context"@ {
                (a.context, 2000int)
            } else {
                (a.category, 100int)
            };
            o matches Some(x) && bounded(x.value@, limit)
        },
    }
}

/// The dismissed keys with `key` added once.
pub open spec fn dismissed_with(v: Seq<Seq<char>>, key: Seq<char>) -> Seq<Seq<char>> {
    if v.contains(key) {
        v
    } else {
        v.push(key)
    }
}

fn apply_participants(session: &mut Session)
    requires
        old(session).ai_suggestions is Some,
    ensures
        string_views(final(session).attendees@) == merged_attendees(
            string_views(old(session).attendees@),
            string_views(old(session).ai_suggestions->0.participants@.map_values(
                |p: crate::session::ParticipantSuggestion| p.name,
            )),
        ),
        *final(session) == (Session { attendees: final(session).attendees, ..*old(session) }),
{
    let ghost orig = *session;
    let ghost names = string_views(
        orig.ai_suggestions->0.participants@.map_values(|p: crate::session::ParticipantSuggestion| p.name),
    );
    let mut attendees: Vec<String> = Vec::new();
    std::mem::swap(&mut attendees, &mut session.attendees);
    let n: usize = match &session.ai_suggestions {
        Some(a) => a.participants.len(),
        None => 0,
    };
    let mut i: usize = 0;
    proof {
        assert(names.take(0) =~= Seq::<Seq<char>>::empty());
    }
    while i < n
        invariant
            session.ai_suggestions == orig.ai_suggestions,
            orig.ai_suggestions is Some,
            n == orig.ai_suggestions->0.participants@.len(),
            names == string_views(
                orig.ai_suggestions->0.participants@.map_values(
                    |p: crate::session::ParticipantSuggestion| p.name,
                ),
            ),
            i <= n,
            string_views(attendees@) == merged_attendees(string_views(orig.attendees@), names.take(i as int)),
            *session == (Session { attendees: session.attendees, ..orig }),
        decreases n - i,
    {
        let name_text: &str = match &session.ai_suggestions {
            Some(a) => a.participants[i].name.as_str(),
            None => "",
        };
        proof {
            assert(names[i as int] == name_text@);
            assert(names.take(i + 1).drop_last() =~= names.take(i as int));
            assert(names.take(i + 1).last() == name_text@);
        }
        let name = trim_str(name_text);
        let lower = to_lowercase(name);
        let ghost prev = string_views(attendees@);
        let m: usize = attendees.len();
        let mut k: usize = 0;
        let mut found = false;
        while k < m
            invariant
                m == attendees@.len(),
                prev == string_views(attendees@),
                k <= m,
                lower@ == lowercase(name@),
                found == exists|q: int| 0 <= q < k && lowercase(trim(#[trigger] prev[q])) == lowercase(name@),
            decreases m - k,
        {
            let existing = to_lowercase(trim_str(attendees[k].as_str()));
            proof {
                assert(prev[k as int] == attendees@[k as int]@);
            }
            if same_text(existing.as_str(), lower.as_str()) {
                found = true;
            }
            k = k + 1;
        }
        if !found {
            attendees.push(owned(name));
            proof {
                assert(string_views(attendees@) =~= prev.push(name@));
            }
        }
        i = i + 1;
    }
    proof {
        assert(names.take(n as int) =~= names);
    }
    session.attendees = attendees;
}

/// Applies or dismisses the suggestion for `key` (title, context, category
/// or participants). Applying copies the trimmed value into the manual
/// field (a category becomes the folder) or adds the suggested participants
/// as attendees; either way the key is remembered as handled.
pub fn apply_suggestion_to(session: Session, key: &str, action: &str) -> (r: AppResult<Session>)
    ensures
        r is Ok <==> known_key(key@) && known_action(action@) && suggestion_usable(session, key@),
        r matches Err(e) ==> e.code@ == "invalid_suggestion"@,
        r matches Ok(s) ==> {
            let a = session.ai_suggestions->0;
            &&& string_views(s.dismissed_suggestions@) == dismissed_with(
                string_views(session.dismissed_suggestions@),
                key@,
            )
            &&& if action@ == "dismiss"@ {
                s == (Session { dismissed_suggestions: s.dismissed_suggestions, ..session })
            } else if key@ == "participants"@ {
                &&& string_views(s.attendees@) == merged_attendees(
                    string_views(session.attendees@),
                    string_views(a.participants@.map_values(|p: crate::session::ParticipantSuggestion| p.name)),
                )
                &&& s == (Session {
                    attendees: s.attendees,
                    dismissed_suggestions: s.dismissed_suggestions,
                    ..session
                })
            } else if key@ == "title"@ {
                s.title@ == trim(a.title->0.value@) && s == (Session {
                    title: s.title,
                    dismissed_suggestions: s.dismissed_suggestions,
                    ..session
                })
            } else if key@ == "context"@ {
                s.context@ == trim(a.context->0.value@) && s == (Session {
                    context: s.context,
                    dismissed_suggestions: s.dismissed_suggestions,
                    ..session
                })
            } else {
                s.folder@ == trim(a.category->0.value@) && s == (Session {
                    folder: s.folder,
                    dismissed_suggestions: s.dismissed_suggestions,
                    ..session
                })
            }
        },
{
    proof {
        reveal_strlit("apply");
        reveal_strlit("dismiss");
        reveal_strlit("title");
        reveal_strlit("context");
        reveal_strlit("category");
        reveal_strlit("participants");
    }
    let is_title = same_text(key, "title");
    let is_context = same_text(key, "context");
    let is_category = same_text(key, "category");
    let is_participants = same_text(key, "participants");
    let apply = same_text(action, "apply");
    let dismiss = same_text(action, "dismiss");
    if !(is_title || is_context || is_category || is_participants) || !(apply || dismiss) {
        return Err(invalid_suggestion());
    }
    let mut session = session;
    let ghost orig = session;
    if session.ai_suggestions.is_none() {
        return Err(invalid_suggestion());
    }
    if is_participants {
        let usable = match &session.ai_suggestions {
            Some(a) => {
                let n: usize = a.participants.len();
                let mut ok = n != 0 && n <= 50;
                let mut i: usize = 0;
                while i < n
                    invariant
                        n == a.participants@.len(),
                        i <= n,
                        ok == (n != 0 && n <= 50 && forall|q: int|
                            0 <= q < i ==> bounded((#[trigger] a.participants@[q]).name@, 120)),
                    decreases n - i,
                {
                    let name = a.participants[i].name.as_str();
                    if is_blank(name) || name.unicode_len() > 120 {
                        ok = false;
                    }
                    i = i + 1;
                }
                ok
            },
            None => false,
        };
        if !usable {
            return Err(invalid_suggestion());
        }
        if apply {
            apply_participants(&mut session);
        }
    } else {
        let value: Option<String> = match &session.ai_suggestions {
            Some(a) => {
                let (o, limit) = if is_title {
                    (&a.title, 160usize)
                } else if is_context {
                    (&a.context, 2000usize)
                } else {
                    (&a.category, 100usize)
                };
                match o {
                    Some(x) => if !is_blank(x.value.as_str()) && x.value.as_str().unicode_len()
                        <= limit {
                        Some(owned(trim_str(x.value.as_str())))
                    } else {
                        None
                    },
                    None => None,
                }
            },
            None => None,
        };
        let value = match value {
            Some(v) => v,
            None => {
                return Err(invalid_suggestion());
            },
        };
        if apply {
            if is_title {
                session.title = value;
            } else if is_context {
                session.context = value;
            } else {
                session.folder = value;
            }
        }
    }
    let ghost mid = session;
    let n: usize = session.dismissed_suggestions.len();
    let mut i: usize = 0;
    let mut seen = false;
    while i < n
        invariant
            session == mid,
            n == session.dismissed_suggestions@.len(),
            i <= n,
            seen == exists|q: int|
                0 <= q < i && (#[trigger] session.dismissed_suggestions@[q])@ == key@,
        decreases n - i,
    {
        if same_text(session.dismissed_suggestions[i].as_str(), key) {
            seen = true;
        }
        i = i + 1;
    }
    proof {
        let v = string_views(session.dismissed_suggestions@);
        if seen {
            let q = choose|q: int| 0 <= q < n && (#[trigger] session.dismissed_suggestions@[q])@ == key@;
            assert(v[q] == key@);
        } else {
            assert forall|q: int| 0 <= q < v.len() implies v[q] != key@ by {
                assert(v[q] == session.dismissed_suggestions@[q]@);
            }
        }
    }
    if !seen {
        let ghost before = string_views(session.dismissed_suggestions@);
        session.dismissed_suggestions.push(owned(key));
        proof {
            assert(string_views(session.dismissed_suggestions@) =~= before.push(key@));
        }
    }
    proof {
        assert(session == (Session { dismissed_suggestions: session.dismissed_suggestions, ..mid }));
        assert(string_views(session.dismissed_suggestions@) == dismissed_with(
            string_views(orig.dismissed_suggestions@),
            key@,
        ));
        if action@ == "dismiss"@ {
            reveal_strlit("dismiss");
            reveal_strlit("apply");
            assert("dismiss"@.len() == 7);
            assert("apply"@.len() == 5);
            assert("dismiss"@ != "apply"@);
            assert(!apply);
            assert(mid == orig);
        } else if key@ == "participants"@ {
            assert(mid == (Session { attendees: mid.attendees, ..orig }));
        } else if key@ == "title"@ {
            assert(mid == (Session { title: mid.title, ..orig }));
        }
    }
    Ok(session)
}

/// A completed meeting with a transcript goes back to processing so that
/// its insights are generated again; `processing` says whether it is
/// already being processed.
pub fn prepare_refresh(session: Session, processing: bool) -> (r: AppResult<Session>)
    ensures
        processing ==> (r matches Err(e) && e.code@ == "invalid_session_status"@ && e.message@
            == "This meeting is still processing"@),
        !processing && session.status != SessionStatus::Complete ==> (r matches Err(e) && e.code@
            == "invalid_session_status"@ && e.message@
            == "Only a completed meeting can refresh its insights"@),
        !processing && session.status == SessionStatus::Complete && !(session.transcript matches Some(
            t,
        ) && trim(t@).len() != 0) ==> (r matches Err(e) && e.code@ == "no_meeting_sources"@
            && e.message@ == "A retained transcript is required to refresh insights"@),
        r is Ok <==> !processing && session.status == SessionStatus::Complete && (
        session.transcript matches Some(t) && trim(t@).len() != 0),
        r matches Ok(s) ==> s == (Session { status: SessionStatus::Processing, error: None, ..session }),
{
    if processing {
        return Err(invalid_status("This meeting is still processing"));
    }
    if session.status != SessionStatus::Complete {
        return Err(invalid_status("Only a completed meeting can refresh its insights"));
    }
    let has_text = match &session.transcript {
        Some(t) => !is_blank(t.as_str()),
        None => false,
    };
    if !has_text {
        return Err(
            AppError::new(
                "no_meeting_sources",
                "A retained transcript is required to refresh insights",
            ),
        );
    }
    let mut session = session;
    session.status = SessionStatus::Processing;
    session.error = None;
    Ok(session)
}

/// `after` is `before` with its notes document and the previous one swapped,
/// as `restore_notes_to` makes it.
pub open spec fn restored(before: Session, after: Session) -> bool {
    &&& before.previous_notes is Some
    &&& after.notes == before.previous_notes
    &&& after.previous_notes matches Some(p) && p@ == visible_notes(before)
    &&& after == (Session { notes: after.notes, previous_notes: after.previous_notes, ..before })
}

/// Law: restoring twice gives back the document that was shown, with the
/// same previous document kept; restoring can always be reversed.
pub proof fn lemma_restore_reversible(s0: Session, s1: Session, s2: Session)
    requires
        restored(s0, s1),
        restored(s1, s2),
    ensures
        visible_notes(s2) == visible_notes(s0),
        s2.previous_notes->0@ == s0.previous_notes->0@,
        s2 == (Session { notes: s2.notes, previous_notes: s2.previous_notes, ..s0 }),
{
}

} // verus!
