use meeting_notes::questions::{
    check_question_input, eligible_meetings, has_meeting_material, question_context_error, question_passages,
    require_sources, validate_meeting_answer, validate_question, RawMeetingAnswer,
};
use meeting_notes::session::{CreateSessionInput, Session, SessionStatus};

fn session() -> Session {
    let mut session = Session::new(CreateSessionInput {
        title: "[SIMULATION] Harbor Office 73".into(),
        context: "Only supplied property facts are valid. CONTEXT_TOKEN_814".into(),
        attendees: vec!["[SIMULATION] Alex".into()],
    });
    session.original_notes = "rent roll is the issue NOTES_TOKEN_299".into();
    session.status = SessionStatus::Complete;
    session
}

fn raw(answer: &str, supported: bool, ids: &[&str]) -> RawMeetingAnswer {
    RawMeetingAnswer {
        answer: answer.into(),
        supported,
        source_ids: ids.iter().map(|s| s.to_string()).collect(),
    }
}

#[test]
fn folder_question_resolves_passage_ids_to_saved_text() {
    let mut first = session();
    first.id = "first-meeting".into();
    first.title = "Harbor review".into();
    first.transcript = Some("Exact source sentence about the rent roll.".into());
    let mut second = session();
    second.id = "second-meeting".into();
    second.title = "Leasing review".into();
    second.transcript = Some("SECOND_SOURCE_TOKEN_916".into());
    let sessions = vec![first, second];
    let passages = question_passages(&sessions).unwrap();
    assert!(passages.iter().any(|p| p.id == "m1:transcript:0" && p.text == "SECOND_SOURCE_TOKEN_916"));
    let answer = validate_meeting_answer(
        raw(" The rent roll still needs review. ", true, &["m0:transcript:0", "m0:transcript:0"]),
        &sessions,
    )
    .unwrap();
    assert_eq!(answer.answer, "The rent roll still needs review.");
    assert_eq!(answer.citations.len(), 1);
    assert_eq!(answer.citations[0].session_id, "first-meeting");
    assert_eq!(answer.citations[0].title, "Harbor review");
    assert_eq!(answer.citations[0].excerpt, "Exact source sentence about the rent roll.");
}

#[test]
fn folder_question_rejects_an_answer_with_only_invented_citations() {
    let mut source = session();
    source.id = "real-meeting".into();
    source.transcript = Some("Words".into());
    let error = validate_meeting_answer(
        raw("Unsupported claim.", true, &["m0:transcript:0", "invented"]),
        &vec![source],
    )
    .unwrap_err();
    assert_eq!(error.code, "unverified_answer");
}

#[test]
fn folder_question_rejects_an_uncited_answer() {
    let error = validate_meeting_answer(raw("Unsupported claim.", true, &[]), &vec![session()])
        .unwrap_err();
    assert_eq!(error.code, "unverified_answer");
    let error = validate_meeting_answer(raw("  ", true, &["m0:title:0"]), &vec![session()])
        .unwrap_err();
    assert_eq!(error.code, "unverified_answer");
}

#[test]
fn unavailable_answer_is_a_normal_response_without_invented_facts() {
    let answer = validate_meeting_answer(
        raw("Untrusted unsupported claim.", false, &["m0:title:0"]),
        &vec![session()],
    )
    .unwrap();
    assert!(answer.citations.is_empty());
    assert_eq!(
        answer.answer,
        "The saved notes and transcript don’t contain enough information to answer that."
    );
}

#[test]
fn question_citations_keep_original_unicode_spacing_and_punctuation() {
    let mut source = session();
    source.transcript = Some("Renée:  “Ship 東京.”\n\nFriday — confirmed.".into());
    let expected = source.transcript.clone().unwrap();
    let answer = validate_meeting_answer(
        raw("A Friday launch was confirmed.", true, &["m0:transcript:0"]),
        &vec![source],
    )
    .unwrap();
    assert_eq!(answer.citations[0].excerpt, expected);
}

#[test]
fn meeting_question_rejects_oversized_sources_before_network() {
    for count in [1, 2] {
        let mut source = session();
        source.transcript = Some("界".repeat(34_000 * (3 - count)));
        let error = question_passages(&vec![source; count]).unwrap_err();
        assert_eq!(error.code, "question_sources_too_large");
        assert!(error.message.contains(if count == 1 {
            "search or export"
        } else {
            "smaller"
        }));
    }
    let mut source = session();
    source.title = "x".repeat(200_001);
    assert_eq!(
        question_passages(&vec![source]).unwrap_err().code,
        "question_sources_too_large"
    );
    assert_eq!(question_context_error(1).code, "question_sources_too_large");
}

#[test]
fn long_fields_are_cut_at_white_space_into_numbered_passages() {
    let mut source = session();
    let word = "abcd ";
    source.transcript = Some(word.repeat(500));
    let passages = question_passages(&vec![source.clone()]).unwrap();
    let parts: Vec<&str> = passages
        .iter()
        .filter(|p| p.id.starts_with("m0:transcript:"))
        .map(|p| p.text.as_str())
        .collect();
    assert_eq!(parts.len(), 3);
    assert_eq!(parts[0].chars().count(), 1200);
    assert!(parts[0].ends_with(' '));
    assert_eq!(parts.concat(), source.transcript.unwrap());
    assert!(passages.iter().any(|p| p.id == "m0:title:0"));
    assert!(passages.iter().all(|p| p.session_index == 0));
}

#[test]
fn questions_are_trimmed_and_bounded() {
    assert_eq!(validate_question("  What now? ").unwrap(), "What now?");
    assert_eq!(validate_question(" ").unwrap_err().code, "invalid_question");
    assert!(validate_question(&"q".repeat(2000)).is_ok());
    assert_eq!(
        validate_question(&"q".repeat(2001)).unwrap_err().message,
        "Enter a question of 1 to 2000 characters."
    );
}

#[test]
fn folder_question_sources_are_completed_material_from_that_folder() {
    let mut here = session();
    here.folder = "Leases".into();
    let mut elsewhere = session();
    elsewhere.folder = "Other".into();
    let mut draft = session();
    draft.folder = "Leases".into();
    draft.status = SessionStatus::Draft;
    let mut empty = Session::new(CreateSessionInput {
        title: "Empty".into(),
        context: " ".into(),
        attendees: Vec::new(),
    });
    empty.status = SessionStatus::Complete;
    empty.folder = "Leases".into();
    assert!(!has_meeting_material(&empty));
    assert!(has_meeting_material(&here));
    let chosen = eligible_meetings(vec![here.clone(), elsewhere, draft, empty], Some("Leases"));
    assert_eq!(chosen.len(), 1);
    assert_eq!(chosen[0].folder, "Leases");
    assert_eq!(eligible_meetings(vec![session(); 25], None).len(), 20);
    assert_eq!(require_sources(Vec::new()).unwrap_err().code, "no_meeting_sources");
    assert_eq!(require_sources(vec![here]).unwrap().len(), 1);
}

#[test]
fn the_sent_question_must_fit_the_limit_too() {
    assert!(check_question_input(200_000, 1).is_ok());
    let error = check_question_input(200_001, 1).unwrap_err();
    assert_eq!(error.code, "question_sources_too_large");
    assert!(error.message.contains("search or export"));
    assert!(check_question_input(200_001, 3).unwrap_err().message.contains("smaller"));
}

#[test]
fn meeting_questions_use_saved_ai_edits_instead_of_the_old_baseline() {
    let mut source = session();
    source.enriched_notes = Some("OLD_BASELINE_SHOULD_NOT_APPEAR".into());
    source.edited_enriched_notes = Some("My correction: the decision is Wednesday.".into());
    let sessions = vec![source];
    let passages = question_passages(&sessions).unwrap();
    assert!(passages.iter().any(|p| p.text.contains("My correction: the decision is Wednesday.")));
    assert!(!passages.iter().any(|p| p.text.contains("OLD_BASELINE_SHOULD_NOT_APPEAR")));
    let answer = validate_meeting_answer(raw("Wednesday.", true, &["m0:notes:0"]), &sessions).unwrap();
    assert_eq!(answer.citations.len(), 1);
}

#[test]
fn meeting_question_includes_late_decisions_and_capture_warnings() {
    let mut source = session();
    let decision = "Final decision: postpone until Monday.";
    source.transcript = Some(format!("{}\n{decision}", "Earlier discussion. ".repeat(600)));
    let full_transcript = source.transcript.clone().unwrap();
    source.warnings = vec!["Capture interrupted; coverage is incomplete.".into()];
    let sessions = vec![source];
    let passages = question_passages(&sessions).unwrap();
    assert!(passages.iter().any(|p| p.text.contains(decision)));
    assert!(passages
        .iter()
        .any(|p| p.id == "m0:warnings:0" && p.text.contains("Capture interrupted; coverage is incomplete.")));
    let joined: String = passages
        .iter()
        .filter(|p| p.id.starts_with("m0:transcript:"))
        .map(|p| p.text.as_str())
        .collect();
    assert_eq!(joined, full_transcript);
    let last = passages
        .iter()
        .filter(|p| p.id.starts_with("m0:transcript:"))
        .last()
        .unwrap()
        .id
        .clone();
    let answer =
        validate_meeting_answer(raw("Postpone until Monday.", true, &[last.as_str()]), &sessions).unwrap();
    assert!(answer.citations[0].excerpt.contains(decision));
}
