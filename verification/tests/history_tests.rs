use hi::history::ChatHistory;
use hi::message::ChatMessage;

fn fresh() -> ChatHistory {
    ChatHistory::new()
}

#[test]
fn test_token_estimate() {
    let mut history = fresh();
    history.push(ChatMessage::user("a".repeat(2000)));
    history.push(ChatMessage::assistant("b".repeat(2000)));
    assert_eq!(history.token_estimate(), 1000);
}

#[test]
fn test_compact() {
    let mut history = fresh();
    for i in 0..20 {
        history.push(ChatMessage::user(format!("message {i}")));
    }

    history.compact(1);
    assert_eq!(history.messages().len(), 10);

    assert_eq!(history.messages()[0].content, "message 10");
}

#[test]
fn test_reset() {
    let mut history = fresh();
    history.push(ChatMessage::user("Hello".to_string()));
    history.reset();
    assert!(history.messages().is_empty());
}

#[test]
fn test_compact_with_summary() {
    let mut history = fresh();
    for i in 0..20 {
        history.push(ChatMessage::user(format!("message {i}")));
    }

    history.compact_with_summary("The user discussed topics 0-9.", None);

    assert_eq!(history.messages().len(), 11);
    assert_eq!(history.messages()[0].role, "system");
    assert!(history.messages()[0]
        .content
        .contains("[Conversation Summary]"));
    assert!(history.messages()[0]
        .content
        .contains("The user discussed topics 0-9."));
    assert_eq!(history.messages()[1].content, "message 10");
    assert_eq!(history.messages()[10].content, "message 19");
}

#[test]
fn test_compact_with_summary_language_marker() {
    let mut history = fresh();
    for i in 0..10 {
        history.push(ChatMessage::user(format!("message {i}")));
    }

    history.compact_with_summary("Summary text", Some("Chinese"));

    let summary_msg = &history.messages()[0];
    assert_eq!(summary_msg.role, "system");
    assert!(summary_msg.content.contains("[User Language: Chinese]"));
    assert!(summary_msg.content.contains("[Conversation Summary]"));
    assert!(summary_msg.content.contains("Summary text"));
}

#[test]
fn test_detect_user_language_english() {
    let mut history = fresh();
    history.push(ChatMessage::user("Hello, how are you?".to_string()));
    assert_eq!(history.detect_user_language(), Some("English".to_string()));
}

#[test]
fn test_detect_user_language_chinese() {
    let mut history = fresh();
    history.push(ChatMessage::user("你好，今天天氣如何？".to_string()));
    assert_eq!(history.detect_user_language(), Some("Chinese".to_string()));
}

#[test]
fn test_detect_user_language_japanese() {
    let mut history = fresh();
    history.push(ChatMessage::user("こんにちは、元気ですか？".to_string()));
    assert_eq!(history.detect_user_language(), Some("Japanese".to_string()));
}

#[test]
fn test_detect_user_language_korean() {
    let mut history = fresh();
    history.push(ChatMessage::user("안녕하세요".to_string()));
    assert_eq!(history.detect_user_language(), Some("Korean".to_string()));
}

#[test]
fn test_detect_user_language_none_without_user_content() {
    let mut history = fresh();
    history.push(ChatMessage::assistant("hello".to_string()));
    history.push(ChatMessage::user(String::new()));
    assert_eq!(history.detect_user_language(), None);
}

#[test]
fn test_needs_compact_with_ratio() {
    let mut history = fresh();
    history.push(ChatMessage::user("a".repeat(4000)));
    assert!(history.needs_compact_with_ratio(1000, 50));
    assert!(!history.needs_compact_with_ratio(10000, 50));
}

#[test]
fn test_language_marker_persists_after_compact() {
    let mut history = fresh();
    for i in 0..10 {
        history.push(ChatMessage::user(format!("你好 {i}")));
        history.push(ChatMessage::assistant(format!("回覆 {i}")));
    }

    let lang = history.detect_user_language();
    assert_eq!(lang.as_deref(), Some("Chinese"));

    history.compact_with_summary("用戶討論了多個話題", lang.as_deref());

    let first = &history.messages()[0];
    assert!(first.content.contains("[User Language: Chinese]"));

    history.push(ChatMessage::user("繼續聊天".to_string()));
    history.push(ChatMessage::assistant("好的".to_string()));

    let marker_present = history
        .messages()
        .iter()
        .any(|m| m.content.contains("[User Language: Chinese]"));
    assert!(marker_present);
}

#[test]
fn test_compact_without_language_marker() {
    let mut history = fresh();
    for i in 0..10 {
        history.push(ChatMessage::user(format!("hello {i}")));
    }

    history.compact_with_summary("User greeted multiple times", None);

    let first = &history.messages()[0];
    assert!(!first.content.contains("[User Language:"));
    assert!(first.content.contains("[Conversation Summary]"));
}

#[test]
fn test_truncate_fallback_after_compact_no_summary() {
    let mut history = fresh();
    for i in 0..20 {
        history.push(ChatMessage::user(format!("msg {i}")));
    }

    history.compact(1);
    assert_eq!(history.messages().len(), 10);
    assert_eq!(history.messages()[0].content, "msg 10");
}

#[test]
fn test_load_keeps_messages_in_order() {
    let history = ChatHistory::load(vec![
        ChatMessage::user("Hello".to_string()),
        ChatMessage::assistant("Hi there!".to_string()),
    ]);
    assert_eq!(history.messages().len(), 2);
    assert_eq!(history.messages()[0].role, "user");
    assert_eq!(history.messages()[0].content, "Hello");
    assert_eq!(history.messages()[1].role, "assistant");
    assert_eq!(history.messages()[1].content, "Hi there!");
}

#[test]
fn test_compact_below_threshold_keeps_everything() {
    let mut history = fresh();
    history.push(ChatMessage::user("hi".to_string()));
    assert_eq!(history.compact(1000), None);
    assert_eq!(history.messages().len(), 1);
}

#[test]
fn test_compact_by_truncation_floor_division() {
    let mut history = fresh();
    for i in 0..5 {
        history.push(ChatMessage::user(format!("m{i}")));
    }
    history.compact_by_truncation();
    assert_eq!(history.messages().len(), 2);
    assert_eq!(history.messages()[0].content, "m3");
}

#[test]
fn test_reset_reports_released_bytes() {
    let mut history = fresh();
    history.push(ChatMessage::user("abcd".to_string()));
    let released = history.reset();
    assert_eq!(released, 8);
}
