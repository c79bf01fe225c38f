use hi::config::ScheduleTaskConfig;

#[test]
fn test_start_with_enable_auto_enables_first_when_none_enabled() {
    let mut tasks = vec![
        ScheduleTaskConfig {
            name: "first".to_string(),
            cron: "0 0 * * *".to_string(),
            model: None,
            prompt: "task 1".to_string(),
            enabled: false,
        },
        ScheduleTaskConfig {
            name: "second".to_string(),
            cron: "0 12 * * *".to_string(),
            model: None,
            prompt: "task 2".to_string(),
            enabled: false,
        },
    ];

    let any_enabled = tasks.iter().any(|t| t.enabled);
    assert!(!any_enabled);

    let changed = hi::schedule::auto_enable_first(&mut tasks);
    assert!(changed);

    assert!(tasks[0].enabled);
    assert!(!tasks[1].enabled);
}

#[test]
fn test_start_with_enable_noop_when_already_enabled() {
    let mut tasks = vec![
        ScheduleTaskConfig {
            name: "first".to_string(),
            cron: "0 0 * * *".to_string(),
            model: None,
            prompt: "task 1".to_string(),
            enabled: false,
        },
        ScheduleTaskConfig {
            name: "second".to_string(),
            cron: "0 12 * * *".to_string(),
            model: None,
            prompt: "task 2".to_string(),
            enabled: true,
        },
    ];

    let any_enabled = tasks.iter().any(|t| t.enabled);
    assert!(any_enabled);

    let changed = hi::schedule::auto_enable_first(&mut tasks);
    assert!(!changed);

    assert!(!tasks[0].enabled);
    assert!(tasks[1].enabled);
}

#[test]
fn test_start_with_enable_noop_when_empty() {
    let mut tasks: Vec<ScheduleTaskConfig> = vec![];

    let changed = hi::schedule::auto_enable_first(&mut tasks);
    assert!(!changed);
    assert!(tasks.is_empty());
}

#[test]
fn test_enabled_filtering() {
    let tasks = vec![
        ScheduleTaskConfig {
            name: "disabled".to_string(),
            cron: "0 0 * * *".to_string(),
            model: None,
            prompt: "disabled task".to_string(),
            enabled: false,
        },
        ScheduleTaskConfig {
            name: "enabled".to_string(),
            cron: "0 12 * * *".to_string(),
            model: None,
            prompt: "enabled task".to_string(),
            enabled: true,
        },
    ];

    let enabled_tasks: Vec<_> = tasks.iter().filter(|t| t.enabled).collect();
    assert_eq!(enabled_tasks.len(), 1);
    assert_eq!(enabled_tasks[0].name, "enabled");
}

#[test]
fn test_all_disabled_filtering() {
    let tasks = vec![
        ScheduleTaskConfig {
            name: "first".to_string(),
            cron: "0 0 * * *".to_string(),
            model: None,
            prompt: "task 1".to_string(),
            enabled: false,
        },
        ScheduleTaskConfig {
            name: "second".to_string(),
            cron: "0 12 * * *".to_string(),
            model: None,
            prompt: "task 2".to_string(),
            enabled: false,
        },
    ];

    let enabled_tasks: Vec<_> = tasks.iter().filter(|t| t.enabled).collect();
    assert!(enabled_tasks.is_empty());
}

#[test]
fn test_add_schedule_success() {
    let args = hi::schedule::ScheduleAddArgs {
        name: "daily".to_string(),
        cron: "0 0 * * *".to_string(),
        prompt: "Generate daily summary".to_string(),
        model: None,
    };
    let (schedules, output) = hi::schedule::apply_add(vec![], &args).unwrap();
    assert_eq!(output.status, "ok");
    assert_eq!(schedules.len(), 1);
    assert_eq!(schedules[0].name, "daily");
    assert!(schedules[0].enabled);
}

#[test]
fn test_add_schedule_invalid_cron() {
    let args = hi::schedule::ScheduleAddArgs {
        name: "bad".to_string(),
        cron: "invalid cron".to_string(),
        prompt: "noop".to_string(),
        model: None,
    };
    let err = hi::schedule::apply_add(vec![], &args).unwrap_err();
    assert!(err.0.contains("Invalid cron expression"));
}

#[test]
fn test_add_schedule_duplicate() {
    let existing = vec![ScheduleTaskConfig {
        name: "daily".to_string(),
        cron: "0 0 * * *".to_string(),
        model: None,
        prompt: "hey".to_string(),
        enabled: false,
    }];
    let args = hi::schedule::ScheduleAddArgs {
        name: "daily".to_string(),
        cron: "0 12 * * *".to_string(),
        prompt: "ping".to_string(),
        model: None,
    };
    let err = hi::schedule::apply_add(existing, &args).unwrap_err();
    assert!(err.0.contains("already exists"));
}

#[test]
fn test_remove_schedule_success() {
    let existing = vec![ScheduleTaskConfig {
        name: "daily".to_string(),
        cron: "0 0 * * *".to_string(),
        model: None,
        prompt: "ping".to_string(),
        enabled: true,
    }];
    let (remaining, output) = hi::schedule::apply_remove(existing, "daily").unwrap();
    assert_eq!(output.status, "ok");
    assert!(remaining.is_empty());
}

#[test]
fn test_remove_schedule_not_found() {
    let existing = vec![ScheduleTaskConfig {
        name: "daily".to_string(),
        cron: "0 0 * * *".to_string(),
        model: None,
        prompt: "ping".to_string(),
        enabled: false,
    }];
    let err = hi::schedule::apply_remove(existing, "missing").unwrap_err();
    assert!(err.0.contains("not found"));
}

#[test]
fn test_remove_schedule_empty_name() {
    let err = hi::schedule::apply_remove(vec![], "   ").unwrap_err();
    assert!(err.0.contains("must not be empty"));
}

#[test]
fn test_filter_valid_schedules() {
    let schedules = vec![
        ScheduleTaskConfig {
            name: "valid".to_string(),
            cron: "0 0 * * *".to_string(),
            model: None,
            prompt: "do something".to_string(),
            enabled: false,
        },
        ScheduleTaskConfig {
            name: "".to_string(),
            cron: "0 0 * * *".to_string(),
            model: None,
            prompt: "missing name".to_string(),
            enabled: false,
        },
        ScheduleTaskConfig {
            name: "no-cron".to_string(),
            cron: "".to_string(),
            model: None,
            prompt: "missing cron".to_string(),
            enabled: false,
        },
    ];
    let valid = hi::schedule::filter_valid_schedules(schedules);
    assert_eq!(valid.len(), 1);
    assert_eq!(valid[0].name, "valid");
}
