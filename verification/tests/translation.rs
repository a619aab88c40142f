use vibe_kanban::translation::{
    build_system_prompt, check_translation_text, failure_message, format_openai_url,
    pick_translated_text, resolve_env, resolve_llm_config, LlmEnv, TranslationError,
    TranslationRequest,
};

#[test]
fn format_openai_url_appends_v1() {
    assert_eq!(
        format_openai_url("https://example.com"),
        "https://example.com/v1/chat/completions"
    );
    assert_eq!(
        format_openai_url("https://example.com/"),
        "https://example.com/v1/chat/completions"
    );
}

#[test]
fn format_openai_url_respects_existing_v1() {
    assert_eq!(
        format_openai_url("https://example.com/v1"),
        "https://example.com/v1/chat/completions"
    );
    assert_eq!(
        format_openai_url("https://example.com/v1/"),
        "https://example.com/v1/chat/completions"
    );
}

#[test]
fn build_system_prompt_includes_languages() {
    let prompt = build_system_prompt("en", "zh-CN");
    assert!(prompt.contains("en"));
    assert!(prompt.contains("zh-CN"));
}

#[test]
fn format_openai_url_strips_every_trailing_slash() {
    assert_eq!(
        format_openai_url("https://example.com/api///"),
        "https://example.com/api/v1/chat/completions"
    );
}

fn env(
    base: Option<&str>,
    base_fallback: Option<&str>,
    key: Option<&str>,
    model: Option<&str>,
) -> LlmEnv {
    LlmEnv {
        kanban_api_base: base.map(str::to_string),
        openai_api_base: base_fallback.map(str::to_string),
        kanban_api_key: key.map(str::to_string),
        openai_api_key: None,
        kanban_default_model: model.map(str::to_string),
        openai_default_model: None,
    }
}

#[test]
fn resolve_env_prefers_usable_primary_and_trims() {
    assert_eq!(
        resolve_env(&Some("  primary ".to_string()), &Some("fallback".to_string())),
        Some("primary".to_string())
    );
    assert_eq!(
        resolve_env(&Some("   ".to_string()), &Some(" fallback".to_string())),
        Some("fallback".to_string())
    );
    assert_eq!(resolve_env(&None, &Some("".to_string())), None);
}

#[test]
fn resolve_llm_config_reports_first_missing_setting() {
    assert_eq!(
        resolve_llm_config(&env(None, None, None, None)).err(),
        Some(TranslationError::MissingBaseUrl)
    );
    assert_eq!(
        resolve_llm_config(&env(None, Some("http://b"), None, Some("m"))).err(),
        Some(TranslationError::MissingApiKey)
    );
    assert_eq!(
        resolve_llm_config(&env(Some("http://a"), None, Some("k"), None)).err(),
        Some(TranslationError::MissingModel)
    );
    let cfg = resolve_llm_config(&env(Some(" http://a "), Some("http://b"), Some("k"), Some("m")))
        .ok()
        .unwrap();
    assert_eq!(cfg.base_url, "http://a");
    assert_eq!(cfg.api_key, "k");
    assert_eq!(cfg.model, "m");
}

#[test]
fn blank_text_is_refused() {
    let req = TranslationRequest {
        text: " \n\t".to_string(),
        source_lang: "en".to_string(),
        target_lang: "fr".to_string(),
    };
    assert_eq!(check_translation_text(&req), Err(TranslationError::EmptyText));
    let req = TranslationRequest {
        text: "hi".to_string(),
        source_lang: "en".to_string(),
        target_lang: "fr".to_string(),
    };
    assert_eq!(check_translation_text(&req), Ok(()));
}

#[test]
fn first_choice_with_content_decides() {
    assert_eq!(
        pick_translated_text(&vec![None, Some("bonjour".to_string()), Some("x".to_string())]),
        Ok("bonjour".to_string())
    );
    assert_eq!(
        pick_translated_text(&vec![Some("  ".to_string()), Some("x".to_string())]),
        Err(TranslationError::Unavailable)
    );
    assert_eq!(pick_translated_text(&vec![]), Err(TranslationError::Unavailable));
}

#[test]
fn failure_message_prefers_parsed_then_body_then_status() {
    assert_eq!(failure_message(Some(" bad key ".to_string()), "body", "401"), "bad key");
    assert_eq!(failure_message(None, "  oops ", "500"), "oops");
    assert_eq!(
        failure_message(None, "   ", "502 Bad Gateway"),
        "Translation failed with status 502 Bad Gateway"
    );
}
