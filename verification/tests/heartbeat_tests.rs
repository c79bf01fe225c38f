use hi::heartbeat_store::{
    apply_status_update, next_pending_prompt, parse, serialize, validate_transition,
    HeartbeatLedger, HeartbeatTask, TaskStatus,
};

#[test]
fn test_status_display() {
    assert_eq!(TaskStatus::Pending.label(), "pending");
    assert_eq!(TaskStatus::InProgress.label(), "in-progress");
    assert_eq!(TaskStatus::Done.label(), "done");
    assert_eq!(TaskStatus::Failed.label(), "failed");
}

#[test]
fn test_status_from_str() {
    assert_eq!(TaskStatus::parse("pending").unwrap(), TaskStatus::Pending);
    assert_eq!(
        TaskStatus::parse("in-progress").unwrap(),
        TaskStatus::InProgress
    );
    assert_eq!(TaskStatus::parse("done").unwrap(), TaskStatus::Done);
    assert_eq!(TaskStatus::parse("failed").unwrap(), TaskStatus::Failed);
    assert_eq!(TaskStatus::parse("PENDING").unwrap(), TaskStatus::Pending);
    assert!(TaskStatus::parse("unknown").is_err());
}

#[test]
fn test_validate_transition_valid() {
    assert!(validate_transition(&TaskStatus::Pending, &TaskStatus::InProgress));
    assert!(validate_transition(&TaskStatus::InProgress, &TaskStatus::Done));
    assert!(validate_transition(&TaskStatus::InProgress, &TaskStatus::Failed));
}

#[test]
fn test_validate_transition_invalid() {
    assert!(!validate_transition(&TaskStatus::Pending, &TaskStatus::Done));
    assert!(!validate_transition(&TaskStatus::Pending, &TaskStatus::Failed));
    assert!(!validate_transition(&TaskStatus::Pending, &TaskStatus::Pending));
    assert!(!validate_transition(&TaskStatus::InProgress, &TaskStatus::Pending));
    assert!(!validate_transition(&TaskStatus::InProgress, &TaskStatus::InProgress));
    assert!(!validate_transition(&TaskStatus::Done, &TaskStatus::Pending));
    assert!(!validate_transition(&TaskStatus::Done, &TaskStatus::InProgress));
    assert!(!validate_transition(&TaskStatus::Done, &TaskStatus::Done));
    assert!(!validate_transition(&TaskStatus::Done, &TaskStatus::Failed));
    assert!(!validate_transition(&TaskStatus::Failed, &TaskStatus::Pending));
    assert!(!validate_transition(&TaskStatus::Failed, &TaskStatus::InProgress));
    assert!(!validate_transition(&TaskStatus::Failed, &TaskStatus::Done));
    assert!(!validate_transition(&TaskStatus::Failed, &TaskStatus::Failed));
}

#[test]
fn test_parse_empty() {
    let ledger = parse("");
    assert!(ledger.tasks.is_empty());
    assert_eq!(ledger.header, "");
}

#[test]
fn test_parse_header_only() {
    let text = "# Heartbeat Tasks\n\n";
    let ledger = parse(text);
    assert!(ledger.tasks.is_empty());
    assert!(ledger.header.contains("# Heartbeat Tasks"));
}

#[test]
fn test_parse_single_task() {
    let text = "# Heartbeat Tasks\n\n- [pending] check-logs: Review system logs for errors\n";
    let ledger = parse(text);
    assert_eq!(ledger.tasks.len(), 1);
    assert_eq!(ledger.tasks[0].id, "check-logs");
    assert_eq!(ledger.tasks[0].status, TaskStatus::Pending);
    assert_eq!(ledger.tasks[0].title, "Review system logs for errors");
    assert!(ledger.tasks[0].description.is_none());
}

#[test]
fn test_parse_multiple_tasks() {
    let text = "# Heartbeat Tasks\n\n\
            - [pending] task-1: First task\n\
            - [in-progress] task-2: Second task\n\
            - [done] task-3: Third task\n\
            - [failed] task-4: Fourth task\n";
    let ledger = parse(text);
    assert_eq!(ledger.tasks.len(), 4);
    assert_eq!(ledger.tasks[0].status, TaskStatus::Pending);
    assert_eq!(ledger.tasks[1].status, TaskStatus::InProgress);
    assert_eq!(ledger.tasks[2].status, TaskStatus::Done);
    assert_eq!(ledger.tasks[3].status, TaskStatus::Failed);
}

#[test]
fn test_parse_task_with_description() {
    let text = "# Heartbeat Tasks\n\n- [pending] check-logs: Review system logs\n  Look at /var/log/syslog for errors\n  Also check application logs\n- [pending] backup: Run backup\n";
    let ledger = parse(text);
    assert_eq!(ledger.tasks.len(), 2);
    assert_eq!(
        ledger.tasks[0].description.as_deref(),
        Some("Look at /var/log/syslog for errors\nAlso check application logs")
    );
    assert!(ledger.tasks[1].description.is_none());
}

#[test]
fn test_parse_malformed_lines_preserved_in_header() {
    let text = "# Heartbeat Tasks\n\nSome random text\n- [pending] task-1: Valid task\n";
    let ledger = parse(text);
    assert!(ledger.header.contains("Some random text"));
    assert_eq!(ledger.tasks.len(), 1);
    assert_eq!(ledger.tasks[0].id, "task-1");
}

#[test]
fn test_parse_invalid_status_skipped() {
    let text = "# Heartbeat Tasks\n\n\
            - [pending] task-1: Valid task\n\
            - [bogus] task-2: Invalid status\n\
            - [done] task-3: Another valid\n";
    let ledger = parse(text);
    assert_eq!(ledger.tasks.len(), 2);
    assert_eq!(ledger.tasks[0].id, "task-1");
    assert_eq!(ledger.tasks[1].id, "task-3");
}

#[test]
fn test_serialize_roundtrip() {
    let ledger = HeartbeatLedger {
        header: "# Heartbeat Tasks".to_string(),
        tasks: vec![
            HeartbeatTask {
                id: "task-1".to_string(),
                status: TaskStatus::Pending,
                title: "First task".to_string(),
                description: None,
            },
            HeartbeatTask {
                id: "task-2".to_string(),
                status: TaskStatus::InProgress,
                title: "Second task".to_string(),
                description: Some("With a description".to_string()),
            },
        ],
    };

    let text = serialize(&ledger);
    let reparsed = parse(&text);
    assert_eq!(reparsed.tasks.len(), 2);
    assert_eq!(reparsed.tasks[0].id, "task-1");
    assert_eq!(reparsed.tasks[0].status, TaskStatus::Pending);
    assert_eq!(reparsed.tasks[1].id, "task-2");
    assert_eq!(reparsed.tasks[1].status, TaskStatus::InProgress);
    assert_eq!(
        reparsed.tasks[1].description.as_deref(),
        Some("With a description")
    );
}

#[test]
fn test_serialize_preserves_order() {
    let ledger = HeartbeatLedger {
        header: "# Heartbeat Tasks".to_string(),
        tasks: vec![
            HeartbeatTask {
                id: "z-task".to_string(),
                status: TaskStatus::Pending,
                title: "Z task".to_string(),
                description: None,
            },
            HeartbeatTask {
                id: "a-task".to_string(),
                status: TaskStatus::Done,
                title: "A task".to_string(),
                description: None,
            },
        ],
    };

    let text = serialize(&ledger);
    let z_pos = text.find("z-task").unwrap();
    let a_pos = text.find("a-task").unwrap();
    assert!(z_pos < a_pos);
}

#[test]
fn test_parse_no_tasks() {
    let text = "# Heartbeat Tasks\n\nNo tasks here, just text.\n";
    let ledger = parse(text);
    assert!(ledger.tasks.is_empty());
}

#[test]
fn test_transition_pending_to_in_progress() {
    let mut ledger = HeartbeatLedger {
        header: "# Heartbeat Tasks".to_string(),
        tasks: vec![HeartbeatTask {
            id: "t1".to_string(),
            status: TaskStatus::Pending,
            title: "Test task".to_string(),
            description: None,
        }],
    };
    let result = apply_status_update(&mut ledger, "t1", "in-progress", None).unwrap();
    assert!(result.contains("in-progress"));
    assert_eq!(ledger.tasks[0].status, TaskStatus::InProgress);
}

#[test]
fn test_transition_in_progress_to_done() {
    let mut ledger = HeartbeatLedger {
        header: "# Heartbeat Tasks".to_string(),
        tasks: vec![HeartbeatTask {
            id: "t1".to_string(),
            status: TaskStatus::InProgress,
            title: "Test task".to_string(),
            description: None,
        }],
    };
    let result = apply_status_update(&mut ledger, "t1", "done", None).unwrap();
    assert!(result.contains("done"));
    assert_eq!(ledger.tasks[0].status, TaskStatus::Done);
}

#[test]
fn test_transition_in_progress_to_failed() {
    let mut ledger = HeartbeatLedger {
        header: "# Heartbeat Tasks".to_string(),
        tasks: vec![HeartbeatTask {
            id: "t1".to_string(),
            status: TaskStatus::InProgress,
            title: "Test task".to_string(),
            description: None,
        }],
    };
    let result = apply_status_update(&mut ledger, "t1", "failed", Some("Network timeout")).unwrap();
    assert!(result.contains("failed"));
    assert_eq!(ledger.tasks[0].status, TaskStatus::Failed);
    assert_eq!(ledger.tasks[0].description.as_deref(), Some("Network timeout"));
}

#[test]
fn test_invalid_transition_rejected() {
    let mut ledger = HeartbeatLedger {
        header: "# Heartbeat Tasks".to_string(),
        tasks: vec![HeartbeatTask {
            id: "t1".to_string(),
            status: TaskStatus::Pending,
            title: "Test task".to_string(),
            description: None,
        }],
    };
    let err = apply_status_update(&mut ledger, "t1", "done", None).unwrap_err();
    assert!(err.contains("Invalid transition"));
}

#[test]
fn test_task_not_found() {
    let mut ledger = HeartbeatLedger {
        header: "# Heartbeat Tasks".to_string(),
        tasks: vec![HeartbeatTask {
            id: "t1".to_string(),
            status: TaskStatus::Pending,
            title: "Test task".to_string(),
            description: None,
        }],
    };
    let err = apply_status_update(&mut ledger, "nonexistent", "in-progress", None).unwrap_err();
    assert!(err.contains("not found"));
}

#[test]
fn test_note_appends_to_existing_description() {
    let mut ledger = HeartbeatLedger {
        header: "# Heartbeat Tasks".to_string(),
        tasks: vec![HeartbeatTask {
            id: "t1".to_string(),
            status: TaskStatus::Pending,
            title: "Test task".to_string(),
            description: Some("Original description".to_string()),
        }],
    };
    apply_status_update(&mut ledger, "t1", "in-progress", Some("Started processing")).unwrap();
    let desc = ledger.tasks[0].description.as_deref().unwrap();
    assert!(desc.contains("Original description"));
    assert!(desc.contains("Started processing"));
}

#[test]
fn test_invalid_status_string() {
    let mut ledger = HeartbeatLedger {
        header: "# Heartbeat Tasks".to_string(),
        tasks: vec![HeartbeatTask {
            id: "t1".to_string(),
            status: TaskStatus::Pending,
            title: "Test task".to_string(),
            description: None,
        }],
    };
    let err = apply_status_update(&mut ledger, "t1", "bogus", None).unwrap_err();
    assert!(err.contains("Unknown task status"));
}

#[test]
fn test_build_task_prompt_picks_first_pending() {
    let mut ledger = HeartbeatLedger {
        header: "# Heartbeat Tasks".to_string(),
        tasks: vec![
            HeartbeatTask {
                id: "done-task".to_string(),
                status: TaskStatus::Done,
                title: "Already done".to_string(),
                description: None,
            },
            HeartbeatTask {
                id: "pending-task".to_string(),
                status: TaskStatus::Pending,
                title: "Check logs".to_string(),
                description: Some("Look at system logs".to_string()),
            },
            HeartbeatTask {
                id: "pending-task-2".to_string(),
                status: TaskStatus::Pending,
                title: "Run backup".to_string(),
                description: None,
            },
        ],
    };

    let prompt = next_pending_prompt(&mut ledger).unwrap();
    assert!(prompt.contains("pending-task"));
    assert!(prompt.contains("Check logs"));
    assert!(prompt.contains("Look at system logs"));
    assert!(prompt.contains("heartbeat_write"));
    assert!(!prompt.contains("pending-task-2"));

    assert_eq!(ledger.tasks[1].status, TaskStatus::InProgress);
    assert_eq!(ledger.tasks[2].status, TaskStatus::Pending);
}

#[test]
fn test_build_task_prompt_returns_none_when_no_pending() {
    let mut ledger = HeartbeatLedger {
        header: "# Heartbeat Tasks".to_string(),
        tasks: vec![HeartbeatTask {
            id: "t1".to_string(),
            status: TaskStatus::Done,
            title: "Done task".to_string(),
            description: None,
        }],
    };
    assert!(next_pending_prompt(&mut ledger).is_none());
}

#[test]
fn test_build_task_prompt_returns_none_on_empty_ledger() {
    let mut ledger = HeartbeatLedger { header: "# Heartbeat Tasks".to_string(), tasks: vec![] };
    assert!(next_pending_prompt(&mut ledger).is_none());
}

#[test]
fn test_build_task_prompt_without_description() {
    let mut ledger = HeartbeatLedger {
        header: "# Heartbeat Tasks".to_string(),
        tasks: vec![HeartbeatTask {
            id: "simple".to_string(),
            status: TaskStatus::Pending,
            title: "Simple check".to_string(),
            description: None,
        }],
    };
    let prompt = next_pending_prompt(&mut ledger).unwrap();
    assert!(prompt.contains("simple"));
    assert!(prompt.contains("Simple check"));
    assert!(!prompt.contains("Details:"));
}

#[test]
fn test_validate_content_rules() {
    let tool = hi::heartbeat_store::HeartbeatEditTool::new("HEARTBEAT.md".to_string());
    let ok = hi::heartbeat_store::HeartbeatEditArgs {
        content: "# Heartbeat Tasks\n\n- [pending] t: T\n".to_string(),
        mode: hi::heartbeat_store::HeartbeatEditMode::Replace,
    };
    assert!(tool.validate_content(&ok).is_ok());
    let blank = hi::heartbeat_store::HeartbeatEditArgs {
        content: "   ".to_string(),
        mode: hi::heartbeat_store::HeartbeatEditMode::Replace,
    };
    assert!(tool.validate_content(&blank).unwrap_err().contains("must not be empty"));
    let no_header = hi::heartbeat_store::HeartbeatEditArgs {
        content: "No header".to_string(),
        mode: hi::heartbeat_store::HeartbeatEditMode::Replace,
    };
    assert!(tool.validate_content(&no_header).unwrap_err().contains("header"));
}

#[test]
fn test_ensure_trailing_newline() {
    assert_eq!(hi::heartbeat_store::ensure_trailing_newline("a"), "a\n");
    assert_eq!(hi::heartbeat_store::ensure_trailing_newline("a\n"), "a\n");
}
