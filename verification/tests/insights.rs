use meeting_notes::insights::{apply_suggestion_to, prepare_refresh, restore_notes_to};
use meeting_notes::session::{
    AiSuggestions, AudioSource, CreateSessionInput, Evidence, ParticipantSuggestion, Session,
    SessionStatus, SourceTranscript, Suggestion, TopicSuggestion, TranscriptChunk,
    TranscriptSegment,
};
use meeting_notes::sources::meeting_sources;
use meeting_notes::suggestions::{
    accept_suggestions, copy_suggestions, normalized_name, validate_suggestions,
};

fn session() -> Session {
    let mut session = Session::new(CreateSessionInput {
        title: "[SIMULATION] Harbor Office 73".into(),
        context: "Only supplied property facts are valid. CONTEXT_TOKEN_814".into(),
        attendees: vec!["[SIMULATION] Alex".into()],
    });
    session.original_notes = "rent roll is the issue NOTES_TOKEN_299".into();
    session.status = SessionStatus::Complete;
    session.transcript = Some("Retained transcript".into());
    session
}

fn evidence(source_id: &str, excerpt: &str) -> Evidence {
    Evidence {
        source_id: source_id.into(),
        excerpt: excerpt.into(),
    }
}

fn speaking_session() -> Session {
    let mut source = session();
    source.transcription = vec![SourceTranscript {
        source: AudioSource::System,
        chunks: vec![TranscriptChunk {
            start_us: 0,
            duration_us: 4_000_000,
            transcript: Some("I'm Maya. We agreed Monday.".into()),
            segment_index: None,
            segments: vec![TranscriptSegment {
                id: "s0".into(),
                speaker: "A".into(),
                start_us: 0,
                end_us: 3_000_000,
                text: "I'm Maya. We agreed Monday.".into(),
            }],
            error: None,
        }],
    }];
    source
}

fn proposal() -> AiSuggestions {
    AiSuggestions {
        title: Some(Suggestion {
            value: "Monday release".into(),
            evidence: vec![evidence("system:offset-0:s0", "We agreed Monday.")],
        }),
        context: None,
        category: None,
        participants: vec![ParticipantSuggestion {
            name: "Maya".into(),
            speaker_key: Some("system:offset-0:A".into()),
            evidence: vec![evidence("system:offset-0:s0", "I'm Maya.")],
        }],
        topics: vec![TopicSuggestion {
            title: "Release date".into(),
            starts_at_turn_id: "system:offset-0:s0".into(),
            evidence: vec![evidence("system:offset-0:s0", "We agreed Monday.")],
        }],
    }
}

#[test]
fn enrichment_validates_grounded_speaker_suggestions_and_topic_anchors() {
    let source = speaking_session();
    for mutation in [
        "valid",
        "speaker",
        "anchor",
        "duplicate_anchor",
        "missing_evidence",
        "invented_participant",
    ] {
        let mut candidate = proposal();
        match mutation {
            "speaker" => {
                candidate.participants[0].speaker_key = Some("system:offset-60000:A".into())
            }
            "anchor" => candidate.topics[0].starts_at_turn_id = "missing".into(),
            "duplicate_anchor" => {
                let topic = candidate.topics[0].clone();
                candidate.topics.push(topic);
            }
            "missing_evidence" => candidate.title.as_mut().unwrap().evidence = Vec::new(),
            "invented_participant" => candidate.participants[0].name = "Invented Person".into(),
            _ => {}
        }
        let valid = validate_suggestions(&candidate, &source);
        let (kept, omitted) = accept_suggestions(candidate, &source);
        validate_suggestions(&kept, &source).unwrap();
        if mutation == "valid" {
            assert!(valid.is_ok());
            assert!(!omitted);
            assert_eq!(kept.participants[0].name, "Maya");
        } else {
            assert_eq!(valid.unwrap_err().code, "unverified_suggestions", "{mutation}");
            assert!(omitted, "{mutation}");
            if mutation == "invented_participant" || mutation == "speaker" {
                assert!(kept.participants.is_empty());
                assert!(kept.title.is_some());
            }
        }
    }
}

#[test]
fn enrichment_rejects_invented_suggestion_evidence() {
    let source = session();
    for bad in [
        evidence("invented", "rent roll"),
        evidence("manual-notes", "Invented quote"),
    ] {
        let candidate = AiSuggestions {
            title: Some(Suggestion {
                value: "Rent roll review".into(),
                evidence: vec![bad],
            }),
            ..AiSuggestions::empty()
        };
        let (kept, omitted) = accept_suggestions(candidate, &source);
        assert!(kept.title.is_none());
        assert!(omitted);
    }
    let grounded = AiSuggestions {
        title: Some(Suggestion {
            value: "Rent roll review".into(),
            evidence: vec![evidence("manual-notes", "rent roll")],
        }),
        ..AiSuggestions::empty()
    };
    let copy = copy_suggestions(&grounded);
    let (kept, omitted) = accept_suggestions(grounded, &source);
    assert!(!omitted);
    assert_eq!(kept.title.unwrap().value, "Rent roll review");
    assert_eq!(copy.title.unwrap().evidence[0].source_id, "manual-notes");
}

#[test]
fn names_compare_without_case_or_punctuation() {
    assert_eq!(normalized_name("  Dr. Maya-Lee O'Neil "), "dr maya lee o neil");
    assert_eq!(normalized_name("ÉLODIE"), "élodie");
    assert_eq!(normalized_name("..."), "");
}

fn with_suggestions() -> Session {
    let mut s = session();
    s.ai_suggestions = Some(AiSuggestions {
        title: Some(Suggestion {
            value: "  New title ".into(),
            evidence: Vec::new(),
        }),
        context: None,
        category: Some(Suggestion {
            value: "Leases".into(),
            evidence: Vec::new(),
        }),
        participants: vec![
            ParticipantSuggestion {
                name: " maya ".into(),
                speaker_key: None,
                evidence: Vec::new(),
            },
            ParticipantSuggestion {
                name: "[simulation] ALEX".into(),
                speaker_key: None,
                evidence: Vec::new(),
            },
        ],
        topics: Vec::new(),
    });
    s
}

#[test]
fn selected_suggestion_changes_only_that_manual_field_and_persists_dismissal() {
    let source = with_suggestions();
    let applied = apply_suggestion_to(source.clone(), "title", "apply").unwrap();
    assert_eq!(applied.title, "New title");
    assert_eq!(applied.context, source.context);
    assert_eq!(applied.dismissed_suggestions, ["title"]);
    let again = apply_suggestion_to(applied, "title", "dismiss").unwrap();
    assert_eq!(again.dismissed_suggestions, ["title"]);
    assert_eq!(again.title, "New title");

    let folder = apply_suggestion_to(source.clone(), "category", "apply").unwrap();
    assert_eq!(folder.folder, "Leases");
    let people = apply_suggestion_to(source.clone(), "participants", "apply").unwrap();
    assert_eq!(people.attendees, ["[SIMULATION] Alex", "maya"]);
    let dismissed = apply_suggestion_to(source, "participants", "dismiss").unwrap();
    assert_eq!(dismissed.attendees, ["[SIMULATION] Alex"]);
    assert_eq!(dismissed.dismissed_suggestions, ["participants"]);
}

#[test]
fn invalid_suggestion_requests_do_not_mutate_saved_meeting() {
    let source = with_suggestions();
    for (key, action) in [
        ("context", "apply"),
        ("topics", "apply"),
        ("title", "replace"),
        ("", "dismiss"),
    ] {
        let error = apply_suggestion_to(source.clone(), key, action).unwrap_err();
        assert_eq!(error.code, "invalid_suggestion", "{key} {action}");
    }
    assert!(apply_suggestion_to(session(), "title", "apply").is_err());
}

#[test]
fn refresh_preserves_notes_edits_and_dismissals_and_rejects_duplicate_start() {
    let mut source = session();
    source.notes = Some("edited".into());
    source.dismissed_suggestions = vec!["title".into()];
    let refreshed = prepare_refresh(source.clone(), false).unwrap();
    assert_eq!(refreshed.status, SessionStatus::Processing);
    assert_eq!(refreshed.notes.as_deref(), Some("edited"));
    assert_eq!(refreshed.dismissed_suggestions, ["title"]);
    let error = prepare_refresh(source, true).unwrap_err();
    assert_eq!(error.message, "This meeting is still processing");
}

#[test]
fn active_job_and_missing_transcript_block_refresh_without_changes() {
    let mut draft = session();
    draft.status = SessionStatus::Draft;
    assert_eq!(
        prepare_refresh(draft, false).unwrap_err().message,
        "Only a completed meeting can refresh its insights"
    );
    let mut bare = session();
    bare.transcript = Some("  ".into());
    assert_eq!(prepare_refresh(bare, false).unwrap_err().code, "no_meeting_sources");
}

#[test]
fn restore_swaps_documents_durably_without_changing_meeting_data() {
    let mut source = session();
    source.notes = Some("current".into());
    source.previous_notes = Some("older".into());
    let restored = restore_notes_to(source.clone(), "current").unwrap();
    assert_eq!(restored.notes.as_deref(), Some("older"));
    assert_eq!(restored.previous_notes.as_deref(), Some("current"));
    assert_eq!(restored.title, source.title);
    let back = restore_notes_to(restored, "older").unwrap();
    assert_eq!(back.notes.as_deref(), Some("current"));
    assert_eq!(back.previous_notes.as_deref(), Some("older"));
}

#[test]
fn restore_rejects_stale_missing_and_active_documents_without_mutation() {
    let mut source = session();
    source.notes = Some("current".into());
    source.previous_notes = Some("older".into());
    assert_eq!(restore_notes_to(source.clone(), "stale").unwrap_err().code, "notes_changed");
    let mut active = source.clone();
    active.status = SessionStatus::Processing;
    assert_eq!(
        restore_notes_to(active, "current").unwrap_err().code,
        "invalid_session_status"
    );
    source.previous_notes = None;
    assert_eq!(
        restore_notes_to(source, "current").unwrap_err().code,
        "no_previous_notes"
    );
}

#[test]
fn oversized_suggestions_leave_previous_values_intact() {
    let mut source = with_suggestions();
    source.ai_suggestions.as_mut().unwrap().title.as_mut().unwrap().value = "x".repeat(161);
    let before = source.clone();
    assert_eq!(
        apply_suggestion_to(source, "title", "apply").unwrap_err().code,
        "invalid_suggestion"
    );
    assert_eq!(before.title, "[SIMULATION] Harbor Office 73");
    let mut exact = with_suggestions();
    exact.ai_suggestions.as_mut().unwrap().title.as_mut().unwrap().value = "x".repeat(160);
    assert_eq!(apply_suggestion_to(exact, "title", "apply").unwrap().title, "x".repeat(160));
}

#[test]
fn enrichment_and_evidence_validation_use_the_same_original_notes() {
    let mut source = session();
    source.original_notes = "Typed emphasis".into();
    source.enriched_notes = Some("AI baseline".into());
    source.notes = source.enriched_notes.clone();
    for (excerpt, accepted) in [("Typed emphasis", true), ("AI baseline", false)] {
        let candidate = AiSuggestions {
            title: Some(Suggestion {
                value: "Topic".into(),
                evidence: vec![evidence("manual-notes", excerpt)],
            }),
            ..AiSuggestions::empty()
        };
        let (kept, omitted) = accept_suggestions(candidate, &source);
        assert_eq!(kept.title.is_some(), accepted);
        assert_eq!(omitted, !accepted);
    }
}

#[test]
fn generated_notes_are_not_recycled_as_independent_source_evidence() {
    let mut source = session();
    source.enriched_notes = Some("Unsupported generated conclusion".into());
    source.notes = source.enriched_notes.clone();
    let sources = meeting_sources(&source);
    assert!(!sources.iter().any(|s| s.text.contains("Unsupported generated conclusion")));
    assert!(sources.iter().any(|s| s.id == "manual-notes" && s.text.contains("NOTES_TOKEN_299")));
    source.notes = Some("Human correction and emphasis".into());
    assert!(meeting_sources(&source)
        .iter()
        .any(|s| s.id == "manual-notes" && s.text == "Human correction and emphasis"));
}
