use meeting_notes::notes::{
    export_file_name, export_stem, sections_to_markdown, validate_export, EnrichedSections,
};
use meeting_notes::openai::{
    check_response, completed_output_text, invalid_content, is_shareable_request_id, request_failure,
    to_ascii_lowercase, OutputPart,
};
use meeting_notes::session::{AiSuggestions, CreateSessionInput, Session, TranscriptSegment};
use meeting_notes::settings::TranscriptionSettings;
use meeting_notes::transcription::{
    check_upload_size, interpret_transcription, silent_result, transcription_form,
    transcription_prompt,
};

fn sections(
    summary: Vec<String>,
    key_points: Vec<String>,
    decisions: Vec<String>,
    action_items: Vec<String>,
) -> EnrichedSections {
    EnrichedSections {
        suggestions: AiSuggestions::empty(),
        omitted_suggestions: false,
        summary,
        key_points,
        decisions,
        action_items,
    }
}

#[test]
fn markdown_omits_empty_sections_and_includes_decisions() {
    let markdown = sections_to_markdown(EnrichedSections {
        suggestions: AiSuggestions::empty(),
        omitted_suggestions: false,
        summary: Vec::new(),
        key_points: Vec::new(),
        decisions: vec!["Pause until the rent roll is verified.".into()],
        action_items: Vec::new(),
    });

    assert_eq!(
        markdown,
        "## Decisions\n\n- Pause until the rent roll is verified.\n"
    );
}

#[test]
fn markdown_orders_all_sections_and_joins_bullets() {
    let markdown = sections_to_markdown(sections(
        vec!["Rent review.".into()],
        vec!["Roll is late.".into(), "Tenant paid.".into()],
        Vec::new(),
        vec!["Call the bank.".into()],
    ));
    assert_eq!(
        markdown,
        "## Summary\n\n- Rent review.\n\n## Key Points\n\n- Roll is late.\n- Tenant paid.\n\n## Action Items\n\n- Call the bank.\n"
    );
}

#[test]
fn markdown_of_nothing_is_empty() {
    assert_eq!(sections_to_markdown(sections(Vec::new(), Vec::new(), Vec::new(), Vec::new())), "");
}

#[test]
fn export_requires_text_within_the_limit() {
    assert!(validate_export("# Notes").is_ok());
    let blank = validate_export(" \n\t").unwrap_err();
    assert_eq!(blank.code, "invalid_export");
    assert_eq!(
        blank.message,
        "Export must contain text and be no larger than 16 MiB. Your notes were kept."
    );
    let huge = "a".repeat(16 * 1024 * 1024 + 1);
    assert_eq!(validate_export(&huge).unwrap_err().code, "invalid_export");
    let exact = "a".repeat(16 * 1024 * 1024);
    assert!(validate_export(&exact).is_ok());
}

#[test]
fn export_names_are_safe_and_distinct() {
    assert_eq!(export_stem(""), "meeting");
    assert_eq!(export_stem("Q3 review/plan"), "Q3_review_plan");
    assert_eq!(export_stem("Réunion-été"), "Réunion-été");
    assert_eq!(export_stem(&"x".repeat(80)), "x".repeat(50));
    let first = export_file_name("Q3 review");
    let second = export_file_name("Q3 review");
    assert!(first.starts_with("Q3_review-"));
    assert!(first.ends_with(".md"));
    assert_eq!(first.chars().count(), "Q3_review-".len() + 36 + 3);
    assert_ne!(first, second);
}

#[test]
fn openai_invalid_audio_preserves_reason_and_request_id_without_echoing_private_content() {
    let error = check_response(
        400,
        "invalid_value",
        "file",
        "Audio file might be corrupted or unsupported",
        Some("req_audio_123"),
    )
    .unwrap_err();
    assert_eq!(error.code, "invalid_audio");
    assert_eq!(
        error.message,
        "OpenAI could not read this recording. Your audio was kept. Request ID: req_audio_123"
    );
}

#[test]
fn openai_errors_distinguish_actionable_causes_and_never_echo_response_secrets() {
    for (status, code, param, message, expected) in [
        (401, "invalid_api_key", "", "Incorrect API key: sk-secret", "invalid_api_key"),
        (403, "permission_denied", "", "Denied private-project", "model_access"),
        (404, "model_not_found", "model", "", "model_access"),
        (429, "insufficient_quota", "", "", "quota_exceeded"),
        (429, "rate_limit_exceeded", "", "", "rate_limited"),
        (400, "context_length_exceeded", "", "", "input_too_large"),
        (413, "", "", "", "audio_too_large"),
        (500, "server_error", "", "sk-secret private-project", "openai_server"),
    ] {
        let error = check_response(status, code, param, message, Some("req_test_456")).unwrap_err();
        assert_eq!(error.code, expected, "status {status}");
        assert!(error.message.contains("Request ID: req_test_456"));
        assert!(!error.message.contains("sk-secret"));
        assert!(!error.message.contains("private-project"));
    }
}

#[test]
fn non_json_openai_failure_keeps_status_and_network_failure_is_distinct() {
    let error = check_response(502, "", "", "<html>bad gateway</html>", None).unwrap_err();
    assert_eq!(error.code, "openai_server");
    assert!(error.message.contains("502"));
    assert_eq!(request_failure(false).code, "openai_network");
}

#[test]
fn failure_messages_name_the_status_and_drop_unsafe_request_ids() {
    let error = check_response(418, "", "", "", Some("req_<script>")).unwrap_err();
    assert_eq!(error.code, "openai");
    assert_eq!(
        error.message,
        "OpenAI rejected the request (HTTP 418). Your notes and pending audio were kept."
    );
    let error = check_response(408, "", "", "", None).unwrap_err();
    assert_eq!(error.code, "openai_timeout");
    let error = check_response(400, "", "", "The Maximum Content Size was hit", None).unwrap_err();
    assert_eq!(error.code, "input_too_large");
    let error = check_response(400, "", "", "Invalid audio sent", None).unwrap_err();
    assert_eq!(error.code, "invalid_audio");
    assert!(check_response(200, "", "", "", None).is_ok());
    assert!(check_response(299, "x", "y", "z", None).is_ok());
    assert_eq!(request_failure(true).code, "openai_timeout");
    assert_eq!(invalid_content().code, "openai");
}

#[test]
fn request_ids_and_lowercasing() {
    assert!(is_shareable_request_id("req_abc-DEF_123"));
    assert!(!is_shareable_request_id("req"));
    assert!(!is_shareable_request_id("abc_123"));
    assert!(!is_shareable_request_id("req_a b"));
    assert!(!is_shareable_request_id(&format!("req_{}", "a".repeat(125))));
    assert!(is_shareable_request_id(&format!("req_{}", "a".repeat(124))));
    let lowered: String = to_ascii_lowercase("AbC Été").into_iter().collect();
    assert_eq!(lowered, "abc Été");
}

fn session() -> Session {
    Session::new(CreateSessionInput {
        title: "Lease".into(),
        context: String::new(),
        attendees: Vec::new(),
    })
}

fn settings(language: &str, vocabulary: &str, model: &str) -> TranscriptionSettings {
    TranscriptionSettings {
        language: language.into(),
        vocabulary: vocabulary.into(),
        model: model.into(),
    }
}

#[test]
fn product_transcription_multipart_uses_validated_settings_and_bounded_hints() {
    for language in ["", "fr"] {
        let mut source = session();
        source.transcription_settings = settings(language, "ZyntriQix", "gpt-4o-transcribe");
        source.context = format!("Bail commercial {}", "界".repeat(5000));
        source.attendees = vec!["Élodie".into()];
        let prompt = transcription_prompt(&source);
        assert!(prompt.contains("ZyntriQix"));
        assert!(prompt.contains("Élodie"));
        assert!(prompt.contains("Bail commercial"));
        assert!(prompt.chars().count() < 1_300);
        let form = transcription_form(&source.transcription_settings, prompt.clone()).unwrap();
        assert_eq!(form.model, "gpt-4o-transcribe");
        assert_eq!(form.response_format, "json");
        assert_eq!(form.language.is_some(), !language.is_empty());
        assert_eq!(form.prompt, Some(prompt));
        assert_eq!(form.chunking_strategy, None);
    }
}

#[test]
fn prompt_is_empty_without_hints() {
    let source = session();
    assert_eq!(transcription_prompt(&source), "");
    let mut source = session();
    source.attendees = vec!["Ann".into(), "Bo".into()];
    assert_eq!(
        transcription_prompt(&source),
        "Recognition hints only; transcribe only words actually spoken. Do not add these terms unless heard.\nVocabulary: \nAttendees: Ann Bo \nContext: "
    );
}

#[test]
fn diarization_form_uses_supported_fields() {
    let form = transcription_form(
        &settings("en", "must not send", "gpt-4o-transcribe-diarize"),
        "hints".into(),
    )
    .unwrap();
    assert_eq!(form.response_format, "diarized_json");
    assert_eq!(form.chunking_strategy.as_deref(), Some("auto"));
    assert_eq!(form.prompt, None);
    assert_eq!(form.language.as_deref(), Some("en"));
    let error = transcription_form(&settings("", "", "whisper-9"), String::new()).unwrap_err();
    assert_eq!(error.code, "invalid_transcription_settings");
}

#[test]
fn oversized_upload_is_rejected_locally_and_kept() {
    assert_eq!(check_upload_size(25_000_001).unwrap_err().code, "audio_too_large");
    assert_eq!(check_upload_size(25_000_000).unwrap_err().code, "audio_too_large");
    assert!(check_upload_size(24_999_999).is_ok());
}

fn segment(id: &str, speaker: &str, start_us: u64, end_us: u64, text: &str) -> TranscriptSegment {
    TranscriptSegment {
        id: id.into(),
        speaker: speaker.into(),
        start_us,
        end_us,
        text: text.into(),
    }
}

#[test]
fn transcription_rejects_output_limit_instead_of_saving_a_truncated_transcript() {
    let error =
        interpret_transcription(false, "cut off".into(), Some(2000), None, true, None).unwrap_err();
    assert_eq!(error.code, "transcription_too_long");
    let error =
        interpret_transcription(false, "cut off".into(), Some(1900), None, true, None).unwrap_err();
    assert_eq!(error.code, "transcription_too_long");
    let kept = interpret_transcription(false, "words".into(), Some(1899), None, true, None).unwrap();
    assert_eq!(kept.text, "words");
}

#[test]
fn diarization_posts_supported_fields_and_preserves_timed_speakers() {
    let result = interpret_transcription(
        true,
        "I'm Maya.".into(),
        None,
        Some(vec![segment("seg0", "A", 200_000, 2_900_000, "I'm Maya.")]),
        false,
        Some(3_000_000),
    )
    .unwrap();
    assert_eq!(result.text, "I'm Maya.");
    assert_eq!(result.segments[0].speaker, "A");
    assert_eq!(result.segments[0].start_us, 200_000);
    assert!(!result.omitted_speakers);

    let mut source = session();
    source.transcription_settings = settings("en", "must not send", "gpt-4o-transcribe-diarize");
    let prompt = transcription_prompt(&source);
    let form = transcription_form(&source.transcription_settings, prompt).unwrap();
    assert_eq!(form.response_format, "diarized_json");
    assert_eq!(form.chunking_strategy.as_deref(), Some("auto"));
    assert!(form.prompt.is_none());
    assert_eq!(form.language.as_deref(), Some("en"));
}

#[test]
fn diarization_keeps_words_when_speaker_metadata_is_invalid() {
    for segments in [
        Some(Vec::new()),
        None,
        Some(vec![segment("s0", "A", 2_000_000, 2_000_000, "Words")]),
        Some(vec![segment("s0", "", 0, 2_000_000, "Words")]),
        Some(vec![segment("s0", "A", 0, 5_100_000, "Words")]),
        Some(vec![
            segment("s0", "A", 0, 2_000_000, "Words"),
            segment("s0", "B", 2_000_000, 3_000_000, "Words"),
        ]),
    ] {
        let result =
            interpret_transcription(true, "Words".into(), None, segments, false, Some(4_000_000))
                .unwrap();
        assert_eq!(result.text, "Words");
        assert!(result.segments.is_empty());
    }
    let result = interpret_transcription(
        true,
        "Words".into(),
        None,
        Some(vec![segment("s0", "A", 0, 2_000_000, "Words")]),
        false,
        None,
    )
    .unwrap();
    assert!(result.segments.is_empty());
    assert!(result.omitted_speakers);
    let error = interpret_transcription(
        true,
        String::new(),
        None,
        Some(vec![segment("s0", "A", 0, 2_000_000, "Words")]),
        false,
        Some(4_000_000),
    )
    .unwrap_err();
    assert_eq!(error.code, "invalid_transcription");
    let error = interpret_transcription(true, String::new(), None, None, false, Some(4_000_000))
        .unwrap_err();
    assert_eq!(error.code, "invalid_transcription");
    let silent = silent_result();
    assert!(silent.text.is_empty() && silent.segments.is_empty());
}

#[test]
fn openai_statuses_map_to_stable_error_codes() {
    for (status, code) in [
        (401, "invalid_api_key"),
        (413, "audio_too_large"),
        (429, "rate_limited"),
    ] {
        assert_eq!(check_response(status, "", "", "", None).unwrap_err().code, code);
    }
}

#[test]
fn stalled_success_body_is_a_retryable_timeout() {
    let error = request_failure(true);
    assert_eq!(error.code, "openai_timeout");
    assert_eq!(
        error.message,
        "OpenAI timed out. Your notes and pending audio were kept. Retry when ready."
    );
}

fn part(kind: &str, text: Option<&str>) -> OutputPart {
    OutputPart { kind: kind.into(), text: text.map(str::to_owned) }
}

#[test]
fn the_first_output_text_of_a_completed_response_is_the_reply() {
    let output = vec![
        vec![part("reasoning", Some("thinking")), part("output_text", None)],
        vec![part("output_text", Some("first")), part("output_text", Some("second"))],
    ];
    assert_eq!(completed_output_text(true, &output, "answer").unwrap(), "first");
    let error = completed_output_text(false, &output, "answer").unwrap_err();
    assert_eq!(error.message, "OpenAI response was not completed");
    let error = completed_output_text(true, &vec![vec![part("refusal", Some("no"))]], "enrichment")
        .unwrap_err();
    assert_eq!(error.code, "openai");
    assert_eq!(error.message, "OpenAI returned no enrichment content");
}
