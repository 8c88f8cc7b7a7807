use nexq::prepare::{
    audio_check, context_check, credentials_ready, llm_check, llm_needs_test, prepare_interview,
    privacy_check, professor_profile_check, stt_provider_status, translation_check, LlmStatus,
    PrepareInputs, SttProviderInfo,
};

fn ids(v: &[&str]) -> Vec<String> {
    v.iter().map(|s| s.to_string()).collect()
}

fn provider(value: &str, name: Option<&str>, needs: bool, ready: bool) -> SttProviderInfo {
    SttProviderInfo {
        value: value.to_string(),
        name: name.map(|n| n.to_string()),
        needs_credentials: needs,
        credentials_ready: ready,
    }
}

#[test]
fn audio_is_ready_when_selected_devices_exist() {
    let c = audio_check(&ids(&["mic1"]), &ids(&["spk1", "spk2"]), Some("mic1"), Some("default"), None);
    assert_eq!(c.status, "ready");
    assert_eq!(c.detail, "1 microphone(s), 2 output device(s); selected devices are available");
    assert_eq!(c.id, "audio");
    assert!(c.required);
}

#[test]
fn audio_fails_on_missing_devices() {
    let missing = audio_check(&ids(&["mic1"]), &ids(&["spk1"]), Some("mic9"), None, None);
    assert_eq!(missing.status, "error");
    let no_outputs = audio_check(&ids(&["mic1"]), &ids(&[]), None, None, Some("online"));
    assert_eq!(no_outputs.status, "error");
    let in_person = audio_check(&ids(&["mic1", "mic2"]), &ids(&[]), None, Some("gone"), Some("in_person"));
    assert_eq!(in_person.status, "ready");
    assert_eq!(in_person.detail, "2 microphone(s); in-person mode does not require system loopback");
}

#[test]
fn speech_to_text_reports_every_problem() {
    let none = stt_provider_status(&vec![]);
    assert_eq!(none.status, "warning");
    assert_eq!(none.detail, "No party-specific STT provider selected yet");

    let bad = stt_provider_status(&vec![
        provider("mystery", None, false, false),
        provider("deepgram", Some("deepgram"), true, false),
    ]);
    assert_eq!(bad.status, "error");
    assert_eq!(bad.detail, "unknown provider: mystery; deepgram credentials missing");

    let good = stt_provider_status(&vec![
        provider("whisper_api", Some("whisper_api"), true, true),
        provider("local", Some("qwen_asr"), false, false),
    ]);
    assert_eq!(good.status, "ready");
    assert_eq!(good.detail, "whisper api + qwen asr — provider configuration is ready");
}

#[test]
fn credentials_must_not_be_blank() {
    assert!(!credentials_ready(None));
    assert!(!credentials_ready(Some("   ")));
    assert!(credentials_ready(Some(" key ")));
}

#[test]
fn answer_model_checks() {
    let missing = llm_check(&LlmStatus::Missing, None);
    assert_eq!((missing.status.as_str(), missing.detail.as_str()), ("error", "No active LLM provider"));

    let no_model = LlmStatus::Configured { name: "Codex".to_string(), model: " ".to_string() };
    assert!(!llm_needs_test(&no_model));
    assert_eq!(llm_check(&no_model, None).detail, "Codex has no model selected");

    let configured = LlmStatus::Configured { name: "Codex".to_string(), model: "gpt-5".to_string() };
    assert!(llm_needs_test(&configured));
    let ok = llm_check(&configured, Some(Ok(true)));
    assert_eq!((ok.status.as_str(), ok.detail.as_str()), ("ready", "Codex · gpt-5 is reachable"));
    let failed = llm_check(&configured, Some(Ok(false)));
    assert_eq!(failed.detail, "Codex · gpt-5 did not pass its connection check");
    let err = llm_check(&configured, Some(Err("timeout".to_string())));
    assert_eq!((err.status.as_str(), err.detail.as_str()), ("error", "timeout"));
}

#[test]
fn knowledge_base_translation_and_profile_checks() {
    assert_eq!(context_check(3, Some(42)).detail, "3 file(s), 42 indexed chunk(s)");
    assert_eq!(context_check(3, Some(0)).detail, "3 file(s) loaded but the search index is empty");
    assert_eq!(context_check(0, Some(7)).status, "warning");
    assert_eq!(context_check(5, None).detail, "No personal files loaded; direct answers still work");
    assert!(!context_check(1, Some(1)).required);

    assert_eq!(translation_check(Some("DeepL")).detail, "DeepL translation provider selected");
    assert_eq!(translation_check(None).status, "warning");

    assert_eq!(professor_profile_check(Some("Prof. Ada")).status, "ready");
    assert_eq!(professor_profile_check(Some("  ")).status, "warning");
    assert_eq!(privacy_check().status, "ready");
}

#[test]
fn the_report_lists_every_check_in_order() {
    let inputs = PrepareInputs {
        input_ids: ids(&["mic"]),
        output_ids: ids(&["spk"]),
        mic_device_id: None,
        system_device_id: None,
        audio_mode: None,
        stt_providers: vec![],
        llm: LlmStatus::Missing,
        llm_test: None,
        resource_count: 0,
        total_chunks: None,
        translation_provider: None,
        professor_profile: None,
    };
    let report = prepare_interview(&inputs);
    let order: Vec<&str> = report.iter().map(|c| c.id.as_str()).collect();
    assert_eq!(
        order,
        vec!["audio", "stt", "privacy", "llm", "context", "translation", "professor_profile"]
    );
}
