use hi::context::ContextManager;
use hi::skills::Skill;

#[test]
fn test_first_message_injects() {
    let mut cm = ContextManager::new();
    let result = cm.build_context_message(Some("Hello"), &vec![], &vec![]);
    assert!(result.is_some());
    assert!(result.unwrap().contains("[System Prompt]"));
}

#[test]
fn test_second_message_no_change_skips() {
    let mut cm = ContextManager::new();
    cm.build_context_message(Some("Hello"), &vec![], &vec![]);
    let result = cm.build_context_message(Some("Hello"), &vec![], &vec![]);
    assert!(result.is_none());
}

#[test]
fn test_mark_dirty_causes_reinjection() {
    let mut cm = ContextManager::new();
    cm.build_context_message(Some("Hello"), &vec![], &vec![]);
    cm.mark_dirty();
    let result = cm.build_context_message(Some("Hello"), &vec![], &vec![]);
    assert!(result.is_some());
    assert!(result.unwrap().contains("[System Prompt]"));
}

#[test]
fn test_change_detected_delta() {
    let mut cm = ContextManager::new();
    cm.build_context_message(Some("Hello"), &vec![], &vec![]);
    let skills = vec![Skill {
        name: "test".to_string(),
        description: "Test skill".to_string(),
        body: "Body".to_string(),
    }];
    let result = cm.build_context_message(Some("Hello"), &vec![], &skills);
    assert!(result.is_some());
    assert!(result.unwrap().contains("[Context Update]"));
}

#[test]
fn test_full_message_format() {
    let mut cm = ContextManager::new();
    let skills = vec![Skill {
        name: "coder".to_string(),
        description: "Coding help".to_string(),
        body: "You code".to_string(),
    }];
    let tools = vec!["bash: Execute commands".to_string()];
    let result = cm
        .build_context_message(Some("System prompt"), &tools, &skills)
        .unwrap();
    assert!(result.contains("[System Prompt]\nSystem prompt"));
    assert!(result.contains("[Available Tools]\nbash: Execute commands"));
    assert!(result.contains("[Available Skills]\n- coder: Coding help"));
}

#[test]
fn test_tools_only_change_gives_delta_with_marker() {
    let mut cm = ContextManager::new();
    cm.build_context_message(Some("P"), &vec!["a: one".to_string()], &vec![]);
    let result = cm
        .build_context_message(Some("P"), &vec!["a: one".to_string(), "b: two".to_string()], &vec![])
        .unwrap();
    assert!(result.starts_with("[Context Update]\n[System Prompt]\nP"));
    assert!(result.contains("[Context Update]\n[Available Tools]\na: one\nb: two"));
}

#[test]
fn test_empty_inputs_give_empty_message() {
    let mut cm = ContextManager::new();
    let result = cm.build_context_message(None, &vec![], &vec![]).unwrap();
    assert_eq!(result, "");
    assert!(cm.build_context_message(None, &vec![], &vec![]).is_none());
}
