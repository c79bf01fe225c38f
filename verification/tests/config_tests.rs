use hi::config::{
    default_interval_secs, default_large_release_threshold_bytes, default_max_sessions,
    default_poll_timeout_secs, default_session_ttl_secs, McpServerConfig, MemoryConfig, ModelConfig,
    ModelRef, Provider, RemoteConfig, SmallModelConfig, TelegramConfig,
};
use hi::reclaim::{evaluate_reclamation, should_reclaim};

fn base_config(provider: Provider, api_key: Option<&str>) -> ModelConfig {
    ModelConfig {
        provider,
        model: "gpt-4o".to_string(),
        api_key: api_key.map(|s| s.to_string()),
        api_base: None,
        preamble: None,
        context_window: 128000,
        history_limit: None,
        small_model: None,
        heartbeat: None,
        schedules: None,
        compact: None,
        remote: None,
        memory: None,
    }
}

#[test]
fn test_parse_openai_config() {
    let config = base_config(Provider::OpenAI, Some("sk-test"));
    assert_eq!(config.provider, Provider::OpenAI);
    assert_eq!(config.model, "gpt-4o");
    assert_eq!(config.api_key.as_deref(), Some("sk-test"));
    assert!(config.validate().is_ok());
}

#[test]
fn test_parse_ollama_config_no_api_key() {
    let config = base_config(Provider::Ollama, None);
    assert!(config.api_key.is_none());
    assert!(config.validate().is_ok());
}

#[test]
fn test_non_ollama_without_api_key_fails() {
    let config = base_config(Provider::OpenAI, None);
    assert!(config.validate().is_err());
}

#[test]
fn test_config_with_small_model() {
    let mut config = base_config(Provider::OpenAI, Some("sk-test"));
    config.small_model = Some(SmallModelConfig {
        provider: Provider::Ollama,
        model: "qwen2.5:3b".to_string(),
        api_key: None,
        api_base: None,
        context_window: 4096,
    });
    assert!(config.small_model.is_some());
    let small = config.small_model.as_ref().unwrap();
    assert_eq!(small.provider, Provider::Ollama);
    assert_eq!(small.model, "qwen2.5:3b");
    assert!(config.validate().is_ok());
}

#[test]
fn test_resolve_model_ref_default() {
    let config = base_config(Provider::OpenAI, Some("sk-test"));
    let resolved = config.resolve_model_ref(&None);
    assert_eq!(resolved.provider, Provider::OpenAI);
    assert_eq!(resolved.model, "gpt-4o");
}

#[test]
fn test_resolve_model_ref_small() {
    let mut config = base_config(Provider::OpenAI, Some("sk-test"));
    config.small_model = Some(SmallModelConfig {
        provider: Provider::Ollama,
        model: "qwen2.5:3b".to_string(),
        api_key: None,
        api_base: None,
        context_window: 4096,
    });
    let model_ref = Some(ModelRef::Named("small".to_string()));
    let resolved = config.resolve_model_ref(&model_ref);
    assert_eq!(resolved.provider, Provider::Ollama);
    assert_eq!(resolved.model, "qwen2.5:3b");
}

#[test]
fn test_resolve_model_ref_small_fallback() {
    let config = base_config(Provider::OpenAI, Some("sk-test"));
    let model_ref = Some(ModelRef::Named("small".to_string()));
    let resolved = config.resolve_model_ref(&model_ref);
    assert_eq!(resolved.provider, Provider::OpenAI);
    assert_eq!(resolved.model, "gpt-4o");
}

#[test]
fn test_resolve_model_ref_inline() {
    let config = base_config(Provider::OpenAI, Some("sk-test"));
    let inline = SmallModelConfig {
        provider: Provider::Gemini,
        model: "gemini-pro".to_string(),
        api_key: Some("gkey".to_string()),
        api_base: None,
        context_window: 32000,
    };
    let model_ref = Some(ModelRef::Inline(Box::new(inline)));
    let resolved = config.resolve_model_ref(&model_ref);
    assert_eq!(resolved.provider, Provider::Gemini);
    assert_eq!(resolved.model, "gemini-pro");
}

#[test]
fn test_config_telegram_enabled_missing_token_fails() {
    let mut config = base_config(Provider::OpenAI, Some("sk-test"));
    config.remote = Some(RemoteConfig {
        telegram: Some(TelegramConfig {
            enabled: true,
            bot_token: String::new(),
            poll_timeout_secs: Some(30),
        }),
        session: None,
    });
    assert!(config.validate().is_err());
}

#[test]
fn test_config_with_telegram_enabled() {
    let mut config = base_config(Provider::OpenAI, Some("sk-test"));
    config.remote = Some(RemoteConfig {
        telegram: Some(TelegramConfig {
            enabled: true,
            bot_token: "123456:ABC-DEF".to_string(),
            poll_timeout_secs: Some(30),
        }),
        session: None,
    });
    assert!(config.validate().is_ok());
}

#[test]
fn test_defaults() {
    assert_eq!(default_interval_secs(), 300);
    assert_eq!(default_poll_timeout_secs(), Some(30));
    assert_eq!(default_large_release_threshold_bytes(), 1_048_576);
    assert_eq!(default_session_ttl_secs(), 3600);
    assert_eq!(default_max_sessions(), 100);
}

#[test]
fn test_provider_labels() {
    assert_eq!(Provider::OpenAI.label(), "openai");
    assert_eq!(Provider::OpenAICompatible.label(), "openai-compatible");
    assert_eq!(Provider::Anthropic.label(), "anthropic");
    assert_eq!(Provider::Gemini.label(), "gemini");
    assert_eq!(Provider::Ollama.label(), "ollama");
}

#[test]
fn test_server_config_is_stdio() {
    let server = McpServerConfig {
        command: Some("npx".to_string()),
        args: Some(vec!["-y".to_string(), "server".to_string()]),
        env: None,
        url: None,
    };
    assert!(server.command.is_some());
    assert!(server.url.is_none());
}

#[test]
fn test_server_config_is_http() {
    let server = McpServerConfig {
        command: None,
        args: None,
        env: None,
        url: Some("http://localhost:8080".to_string()),
    };
    assert!(server.command.is_none());
    assert!(server.url.is_some());
}

#[test]
fn test_should_reclaim_above_threshold() {
    let config = MemoryConfig { large_release_threshold_bytes: 1000 };
    assert!(should_reclaim(&config, 1000));
    assert!(should_reclaim(&config, 2000));
}

#[test]
fn test_should_reclaim_below_threshold() {
    let config = MemoryConfig { large_release_threshold_bytes: 1000 };
    assert!(!should_reclaim(&config, 999));
    assert!(!should_reclaim(&config, 0));
}

#[test]
fn test_default_config() {
    let config = MemoryConfig::default();
    assert_eq!(config.large_release_threshold_bytes, 1_048_576);
}

#[test]
fn test_evaluate_reclamation_skip() {
    let config = MemoryConfig { large_release_threshold_bytes: 1_000_000 };
    assert!(!evaluate_reclamation(&config, 100));
}

#[test]
fn test_evaluate_reclamation_reclaim() {
    let config = MemoryConfig { large_release_threshold_bytes: 100 };
    assert!(evaluate_reclamation(&config, 200));
}
