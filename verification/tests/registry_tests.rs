use hi::config::{ModelConfig, Provider, RemoteConfig, SessionConfig};
use hi::history::ChatHistory;
use hi::registry::SessionManager;
use hi::session::ChatSession;

fn config_with_session(ttl_secs: u64, max_sessions: usize) -> ModelConfig {
    ModelConfig {
        provider: Provider::Ollama,
        model: "qwen2.5:14b".to_string(),
        api_key: None,
        api_base: None,
        preamble: None,
        context_window: 32000,
        history_limit: None,
        small_model: None,
        heartbeat: None,
        schedules: None,
        compact: None,
        remote: Some(RemoteConfig {
            telegram: None,
            session: Some(SessionConfig { ttl_secs, max_sessions }),
        }),
        memory: None,
    }
}

fn fresh_session(config: &ModelConfig) -> ChatSession {
    let copy = ModelConfig {
        provider: config.provider,
        model: config.model.clone(),
        api_key: config.api_key.clone(),
        api_base: config.api_base.clone(),
        preamble: config.preamble.clone(),
        context_window: config.context_window,
        history_limit: config.history_limit,
        small_model: config.small_model.clone(),
        heartbeat: None,
        schedules: None,
        compact: None,
        remote: None,
        memory: None,
    };
    ChatSession::new(copy, vec![], vec![], ChatHistory::new())
}

#[test]
fn test_same_chat_id_returns_same_session() {
    let config = config_with_session(3600, 100);
    let mut manager = SessionManager::new(config_with_session(3600, 100));
    let (s1, created1) = manager.get_or_create(100, 0, fresh_session(&config));
    let (s2, created2) = manager.get_or_create(100, 1, fresh_session(&config));
    assert!(created1);
    assert!(!created2);
    assert_eq!(s1, s2);
    assert_eq!(manager.session_count(), 1);
}

#[test]
fn test_different_chat_ids_get_different_sessions() {
    let config = config_with_session(3600, 100);
    let mut manager = SessionManager::new(config_with_session(3600, 100));
    let (s1, _) = manager.get_or_create(100, 0, fresh_session(&config));
    let (s2, _) = manager.get_or_create(200, 0, fresh_session(&config));
    assert_ne!(s1, s2);
    assert_eq!(manager.session_count(), 2);
}

#[test]
fn test_session_count_tracks_unique_chats() {
    let config = config_with_session(3600, 100);
    let mut manager = SessionManager::new(config_with_session(3600, 100));
    assert_eq!(manager.session_count(), 0);

    manager.get_or_create(1, 0, fresh_session(&config));
    assert_eq!(manager.session_count(), 1);

    manager.get_or_create(2, 0, fresh_session(&config));
    assert_eq!(manager.session_count(), 2);

    manager.get_or_create(1, 0, fresh_session(&config));
    assert_eq!(manager.session_count(), 2);
}

#[test]
fn test_ttl_eviction() {
    let config = config_with_session(60, 100);
    let mut manager = SessionManager::new(config_with_session(60, 100));

    manager.get_or_create(100, 0, fresh_session(&config));
    assert_eq!(manager.session_count(), 1);

    // 61 seconds later the first session has expired; the next lookup sweeps it.
    manager.get_or_create(200, 61, fresh_session(&config));
    assert_eq!(manager.session_count(), 1);
    assert!(!manager.contains_key(100));
    assert!(manager.contains_key(200));
}

#[test]
fn test_capacity_eviction() {
    let config = config_with_session(3600, 2);
    let mut manager = SessionManager::new(config_with_session(3600, 2));

    manager.get_or_create(100, 0, fresh_session(&config));
    manager.get_or_create(200, 1, fresh_session(&config));
    assert_eq!(manager.session_count(), 2);

    manager.get_or_create(300, 2, fresh_session(&config));
    assert_eq!(manager.session_count(), 2);

    assert!(!manager.contains_key(100));
    assert!(manager.contains_key(200));
    assert!(manager.contains_key(300));
}

#[test]
fn test_session_reuse_updates_activity() {
    let config = config_with_session(60, 100);
    let mut manager = SessionManager::new(config_with_session(60, 100));

    manager.get_or_create(100, 0, fresh_session(&config));

    // Reuse at 30s refreshes the activity clock.
    manager.get_or_create(100, 30, fresh_session(&config));

    // At 70s the session is only 40s idle, so it survives the sweep.
    manager.get_or_create(200, 70, fresh_session(&config));
    assert_eq!(manager.session_count(), 2);
}

#[test]
fn test_ttl_eviction_does_not_evict_fresh_sessions() {
    let config = config_with_session(60, 100);
    let mut manager = SessionManager::new(config_with_session(60, 100));

    manager.get_or_create(100, 0, fresh_session(&config));
    manager.get_or_create(200, 0, fresh_session(&config));

    manager.get_or_create(300, 30, fresh_session(&config));
    assert_eq!(manager.session_count(), 3);
}

#[test]
fn test_reset_session() {
    let config = config_with_session(3600, 100);
    let mut manager = SessionManager::new(config_with_session(3600, 100));
    manager.get_or_create(7, 0, fresh_session(&config));
    assert!(manager.reset_session(7));
    assert!(!manager.reset_session(8));
}

#[test]
fn test_compact_session_empty_history() {
    let config = config_with_session(3600, 100);
    let mut manager = SessionManager::new(config_with_session(3600, 100));
    manager.get_or_create(7, 0, fresh_session(&config));
    // an empty ledger has nothing to compact
    assert!(!manager.compact_session(7));
    assert!(!manager.compact_session(8));
}

#[test]
fn test_compact_session_truncates_that_session() {
    let config = config_with_session(3600, 100);
    let mut manager = SessionManager::new(config_with_session(3600, 100));
    let mut session = fresh_session(&config);
    for i in 0..4 {
        session
            .history
            .push(hi::message::ChatMessage::user(format!("m{i}")));
    }
    manager.get_or_create(7, 0, session);

    assert!(manager.compact_session(7));

    let msgs = manager.entries[0].session.history().messages();
    assert_eq!(msgs.len(), 2);
    assert_eq!(msgs[0].content, "m2");
    assert_eq!(msgs[1].content, "m3");
}

#[test]
fn test_empty_manager() {
    let manager = hi::mcp::McpManager::empty();
    assert_eq!(manager.service_count(), 0);
}
