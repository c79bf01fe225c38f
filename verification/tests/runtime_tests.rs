use hi::runtime_index::{refresh_memory_sections, refresh_schedule_names, RuntimeIndex};

#[test]
fn test_default_index() {
    let index = RuntimeIndex::default();
    assert!(index.memory_sections.is_empty());
    assert!(index.schedule_names.is_empty());
    assert!(index.last_heartbeat_epoch.is_none());
}

#[test]
fn test_preamble_empty() {
    let index = RuntimeIndex::default();
    let preamble = index.build_context_preamble();
    assert_eq!(
        preamble,
        "You are a background agent with read_file and write_file tools."
    );
}

#[test]
fn test_preamble_with_memory() {
    let index = RuntimeIndex {
        memory_sections: vec!["Notes".to_string(), "Tasks".to_string()],
        ..Default::default()
    };
    let preamble = index.build_context_preamble();
    assert!(preamble.contains("Notes, Tasks"));
}

#[test]
fn test_preamble_with_schedules() {
    let index = RuntimeIndex {
        schedule_names: vec!["daily-summary".to_string()],
        ..Default::default()
    };
    let preamble = index.build_context_preamble();
    assert!(preamble.contains("daily-summary"));
}

#[test]
fn test_preamble_with_heartbeat() {
    let index = RuntimeIndex {
        last_heartbeat_epoch: Some(1700000000),
        ..Default::default()
    };
    let preamble = index.build_context_preamble();
    assert!(preamble.contains("1700000000"));
}

#[test]
fn test_refresh_memory_sections_parses_headers() {
    let sections = refresh_memory_sections("# Notes\nsome text\n## Sub\nmore\n# Tasks\n");
    assert_eq!(sections, vec!["Notes", "Sub", "Tasks"]);
}

#[test]
fn test_refresh_memory_sections_empty_file() {
    let sections = refresh_memory_sections("");
    assert!(sections.is_empty());
}

#[test]
fn test_refresh_schedule_names() {
    let schedules = vec![
        hi::config::ScheduleTaskConfig {
            name: "daily".to_string(),
            cron: "0 0 * * *".to_string(),
            model: None,
            prompt: "test".to_string(),
            enabled: true,
        },
        hi::config::ScheduleTaskConfig {
            name: "hourly".to_string(),
            cron: "0 * * * *".to_string(),
            model: None,
            prompt: "test".to_string(),
            enabled: false,
        },
    ];
    let names = refresh_schedule_names(&schedules);
    assert_eq!(names, vec!["daily", "hourly"]);
}
