use jay_rag_core::config::{
    default_concurrent_images, default_concurrent_pages, default_true, Language, ProcessingConfig,
    Quality,
};
use jay_rag_core::prompts::{get_prompts, EN_FULL_PAGE, TH_SINGLE_IMAGE};
use jay_rag_core::provider::{
    after_failure, all_providers, backoff_delay, check_availability, clean_answer, default_model,
    exhausted_message, find_provider, model_listed, unknown_provider_message, ProviderKind,
    RetryStep,
};

#[test]
fn defaults() {
    let c = ProcessingConfig::default();
    assert_eq!(c.image_dpi, 150);
    assert_eq!(c.page_as_image_threshold, 500_000);
    assert_eq!(c.max_concurrent_pages, 4);
    assert_eq!(c.max_concurrent_images, 5);
    assert_eq!(c.language, Language::Th);
    assert_eq!(c.quality, Quality::Standard);
    assert_eq!(default_concurrent_pages(), 4);
    assert_eq!(default_concurrent_images(), 5);
    assert!(default_true());
    assert_eq!(Language::default(), Language::Th);
}

#[test]
fn language_codes() {
    assert_eq!(Language::parse("TH"), Ok(Language::Th));
    assert_eq!(Language::parse("en"), Ok(Language::En));
    assert_eq!(Language::parse("FR"), Err("Unknown language: fr. Use: th | en".to_string()));
    assert_eq!(Language::En.code(), "en");
}

#[test]
fn prompts_follow_language() {
    assert_eq!(get_prompts(Language::En).full_page, EN_FULL_PAGE);
    assert_eq!(get_prompts(Language::Th).single_image, TH_SINGLE_IMAGE);
}

#[test]
fn registry_lookups() {
    assert_eq!(all_providers().len(), 5);
    assert_eq!(default_model("xai"), "grok-2-vision");
    assert_eq!(default_model("nobody"), "qwen2.5vl");
    let m = find_provider("ollama").unwrap();
    assert!(matches!(m.kind, ProviderKind::Local { .. }));
    assert!(find_provider("gemini").is_some());
    assert!(find_provider("Gemini").is_none());
}

#[test]
fn model_listing() {
    let names = vec!["llava:latest".to_string(), "qwen2.5vl:7b".to_string()];
    assert!(model_listed(&names, "qwen2.5vl"));
    assert!(!model_listed(&names, "minicpm-v"));
}

#[test]
fn backoff_doubles() {
    assert_eq!(backoff_delay(1000, 0), 1000);
    assert_eq!(backoff_delay(1000, 3), 8000);
    assert_eq!(backoff_delay(u64::MAX / 2 + 1, 1), u64::MAX);
    assert_eq!(after_failure(0, 3, 1000), RetryStep::Retry { delay_ms: 1000 });
    assert_eq!(after_failure(1, 3, 1000), RetryStep::Retry { delay_ms: 2000 });
    assert_eq!(after_failure(2, 3, 1000), RetryStep::GiveUp);
    assert_eq!(after_failure(0, 1, 1000), RetryStep::GiveUp);
    assert_eq!(exhausted_message("Groq", 3, "boom"), "Groq failed after 3 attempts: boom");
}

#[test]
fn unknown_provider_lists_the_registry() {
    assert_eq!(
        unknown_provider_message("nope"),
        "Unknown provider 'nope'. Use: ollama | openai | gemini | xai | groq"
    );
}

#[test]
fn availability_by_kind() {
    let cloud = ProviderKind::Cloud { api_key_env: "KEY", env_hint: "export KEY=1" };
    assert_eq!(check_availability(&cloud, "C", "m", true, &vec![]), Ok(()));
    assert_eq!(
        check_availability(&cloud, "C", "m", false, &vec![]),
        Err("Missing KEY environment variable.\nRun: export KEY=1".to_string())
    );
    let local = ProviderKind::Local { host_env: "H", default_host: "http://x" };
    let listed = vec!["qwen2.5vl:7b".to_string(), "llava".to_string()];
    assert_eq!(check_availability(&local, "Ollama", "qwen2.5vl", false, &listed), Ok(()));
    assert_eq!(
        check_availability(&local, "Ollama", "minicpm-v", false, &listed),
        Err("Model 'minicpm-v' not found in Ollama.\nRun: ollama pull minicpm-v\nAvailable: qwen2.5vl:7b, llava"
            .to_string())
    );
    assert!(check_availability(&local, "O", "x", true, &vec![]).unwrap_err().ends_with("Available: none"));
}

#[test]
fn answers_are_trimmed() {
    assert_eq!(clean_answer("  a reply \n"), "a reply");
    assert_eq!(clean_answer("\t"), "");
}
