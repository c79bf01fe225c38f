use hi::config::{CompactConfig, CompactStrategy, ModelConfig, Provider, SmallModelConfig};
use hi::history::ChatHistory;
use hi::message::ChatMessage;
use hi::session::ChatSession;

fn base_config(small: bool) -> ModelConfig {
    ModelConfig {
        provider: Provider::Ollama,
        model: "primary-model".to_string(),
        api_key: None,
        api_base: None,
        preamble: Some("Be brief.".to_string()),
        context_window: 32000,
        history_limit: None,
        small_model: if small {
            Some(SmallModelConfig {
                provider: Provider::Ollama,
                model: "small-model".to_string(),
                api_key: None,
                api_base: None,
                context_window: 4096,
            })
        } else {
            None
        },
        heartbeat: None,
        schedules: None,
        compact: None,
        memory: None,
        remote: None,
    }
}

#[test]
fn test_failing_primary_with_degraded_model_retries_once_and_appends() {
    let mut session = ChatSession::new(base_config(true), vec![], vec![], ChatHistory::new());
    let window = session.prepare_turn("hello");
    assert!(window.len() <= 1);
    let before = session.history().messages().len();

    // The primary completion fails: the session switches to the degraded
    // model and asks for exactly one retry, without touching the ledger.
    let retry = session.handle_completion_failure();
    assert!(retry);
    assert!(session.is_using_small_model());
    assert_eq!(session.current_model_name(), "small-model");
    assert_eq!(session.history().messages().len(), before);

    // The retried completion succeeds and its reply is appended.
    session.complete_turn_success("degraded reply");
    assert_eq!(session.history().messages().len(), before + 1);
    let last = &session.history().messages()[before];
    assert_eq!(last.role, "assistant");
    assert_eq!(last.content, "degraded reply");

    // A later failure on the degraded model asks for no further retry.
    let retry_again = session.handle_completion_failure();
    assert!(!retry_again);
}

#[test]
fn test_failing_primary_without_degraded_model_propagates() {
    let mut session = ChatSession::new(base_config(false), vec![], vec![], ChatHistory::new());
    session.prepare_turn("hello");
    let before = session.history().messages().len();

    let retry = session.handle_completion_failure();
    assert!(!retry);
    assert!(!session.is_using_small_model());
    // The failure propagates and the ledger gains no message.
    assert_eq!(session.history().messages().len(), before);
}

#[test]
fn test_prepare_turn_injects_context_then_user_message() {
    let mut session = ChatSession::new(base_config(false), vec![], vec![], ChatHistory::new());
    let window = session.prepare_turn("hi there");
    let msgs = session.history().messages();
    assert_eq!(msgs.len(), 2);
    assert_eq!(msgs[0].role, "system");
    assert!(msgs[0].content.contains("[System Prompt]\nBe brief."));
    assert!(msgs[0].content.contains("[Available Tools]"));
    assert_eq!(msgs[1].role, "user");
    assert_eq!(msgs[1].content, "hi there");
    // The window excludes the live user message.
    assert_eq!(window.len(), 1);
    assert_eq!(window[0].role, "system");
}

#[test]
fn test_second_turn_same_context_injects_nothing() {
    let mut session = ChatSession::new(base_config(false), vec![], vec![], ChatHistory::new());
    session.prepare_turn("one");
    session.complete_turn_success("reply one");
    let before = session.history().messages().len();
    session.prepare_turn("two");
    // only the user message was appended; the context was unchanged
    assert_eq!(session.history().messages().len(), before + 1);
}

#[test]
fn test_history_limit_caps_window() {
    let mut config = base_config(false);
    config.history_limit = Some(2);
    let mut history = ChatHistory::new();
    for i in 0..6 {
        history.push(ChatMessage::assistant(format!("m{i}")));
    }
    let mut session = ChatSession::new(config, vec![], vec![], history);
    let window = session.prepare_turn("now");
    assert_eq!(window.len(), 2);
}

#[test]
fn test_switch_models_round_trip() {
    let mut session = ChatSession::new(base_config(true), vec![], vec![], ChatHistory::new());
    let small = session.switch_to_small_model().unwrap();
    assert_eq!(small, "small-model");
    assert!(session.is_using_small_model());
    let primary = session.switch_to_primary_model();
    assert_eq!(primary, "primary-model");
    assert!(!session.is_using_small_model());
}

#[test]
fn test_switch_to_small_without_config_fails() {
    let mut session = ChatSession::new(base_config(false), vec![], vec![], ChatHistory::new());
    assert!(session.switch_to_small_model().is_err());
}

#[test]
fn test_run_compact_empty_history_returns_false() {
    let mut session = ChatSession::new(base_config(false), vec![], vec![], ChatHistory::new());
    assert!(!session.run_compact());
}

#[test]
fn test_run_compact_nonempty_history_returns_true() {
    let mut history = ChatHistory::new();
    history.push(ChatMessage::user("hello".to_string()));
    let mut session = ChatSession::new(base_config(false), vec![], vec![], history);
    assert!(session.run_compact());
}

#[test]
fn test_run_compact_truncates_to_recent_half() {
    let mut history = ChatHistory::new();
    for i in 0..4 {
        history.push(ChatMessage::user(format!("m{i}")));
    }
    let mut session = ChatSession::new(base_config(false), vec![], vec![], history);
    assert!(session.run_compact());
    let msgs = session.history().messages();
    assert_eq!(msgs.len(), 2);
    assert_eq!(msgs[0].content, "m2");
    assert_eq!(msgs[1].content, "m3");
}

#[test]
fn test_apply_truncation_compaction_is_unconditional() {
    // a tiny ledger is far below any trigger, yet the manual fallback
    // still drops the oldest half
    let mut history = ChatHistory::new();
    history.push(ChatMessage::user("a".to_string()));
    history.push(ChatMessage::user("b".to_string()));
    let mut session = ChatSession::new(base_config(false), vec![], vec![], history);
    assert!(!session.needs_compaction());
    session.apply_truncation_compaction();
    let msgs = session.history().messages();
    assert_eq!(msgs.len(), 1);
    assert_eq!(msgs[0].content, "b");
}

#[test]
fn test_compaction_prompt_carries_language_and_transcript() {
    let mut config = base_config(false);
    config.compact = Some(CompactConfig {
        enabled: true,
        strategy: CompactStrategy::SmallModel,
        trigger_percent: 80,
        model: None,
        prompt: Some("Summarize.".to_string()),
    });
    let mut history = ChatHistory::new();
    history.push(ChatMessage::user("你好，今天天氣如何？".to_string()));
    let session = ChatSession::new(config, vec![], vec![], history);
    assert!(session.wants_summary_compaction());
    let (prompt, lang) = session.build_compaction_prompt();
    assert_eq!(lang.as_deref(), Some("Chinese"));
    assert!(prompt.starts_with("Summarize."));
    assert!(prompt.contains("[Current user language: Chinese]"));
    assert!(prompt.contains("[user]: 你好，今天天氣如何？"));
}

#[test]
fn test_apply_summary_compaction_marks_context_dirty() {
    let mut history = ChatHistory::new();
    for i in 0..6 {
        history.push(ChatMessage::user(format!("m{i}")));
    }
    let mut session = ChatSession::new(base_config(false), vec![], vec![], history);
    session.apply_summary_compaction("summary of it all", None);
    let msgs = session.history().messages();
    assert_eq!(msgs.len(), 4);
    assert_eq!(msgs[0].role, "system");
    assert!(msgs[0].content.contains("[Conversation Summary]\nsummary of it all"));
}

#[test]
fn test_model_pool_reuses_live_handles() {
    let mut pool = hi::model_pool::ModelPool::new();
    let (h1, created1) = pool.get_or_create("ollama", "small", false);
    assert!(created1);
    let (h2, created2) = pool.get_or_create("ollama", "small", true);
    assert!(!created2);
    assert_eq!(h1, h2);
    // once the caller dropped the handle, the pool must issue a new one
    let (h3, created3) = pool.get_or_create("ollama", "small", false);
    assert!(created3);
    assert_ne!(h1, h3);
}
