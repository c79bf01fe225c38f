use hi::config::{HeartbeatConfig, McpConfig, McpServerConfig, ModelRef, ScheduleTaskConfig};
use hi::remote::{escape_markdown_v2, format_heartbeat, format_mcp_servers, format_schedules, split_message};

const MAX_MESSAGE_LENGTH: usize = 4096;

#[test]
fn test_split_message_short() {
    let text = "Hello, world!";
    let chunks = split_message(text);
    assert_eq!(chunks, vec!["Hello, world!"]);
}

#[test]
fn test_split_message_exact_limit() {
    let text = "a".repeat(MAX_MESSAGE_LENGTH);
    let chunks = split_message(&text);
    assert_eq!(chunks.len(), 1);
    assert_eq!(chunks[0].len(), MAX_MESSAGE_LENGTH);
}

#[test]
fn test_split_message_over_limit() {
    let text = "a".repeat(MAX_MESSAGE_LENGTH + 100);
    let chunks = split_message(&text);
    assert_eq!(chunks.len(), 2);
    assert_eq!(chunks[0].len(), MAX_MESSAGE_LENGTH);
    assert_eq!(chunks[1].len(), 100);
}

#[test]
fn test_split_message_at_newline() {
    let line1 = "a".repeat(MAX_MESSAGE_LENGTH - 10);
    let line2 = "b".repeat(20);
    let text = format!("{}\n{}", line1, line2);
    let chunks = split_message(&text);
    assert_eq!(chunks.len(), 2);
    assert!(chunks[0].ends_with('\n'));
    assert!(chunks[1].starts_with('b'));
}

#[test]
fn test_split_message_empty() {
    let chunks = split_message("");
    assert_eq!(chunks, vec![""]);
}

#[test]
fn test_split_message_preserves_order() {
    let mut text = String::new();
    for i in 0..10 {
        text.push_str(&format!("Chunk {}\n", i));
        text.push_str(&"x".repeat(MAX_MESSAGE_LENGTH / 2));
        text.push('\n');
    }
    let chunks = split_message(&text);
    let reassembled: String = chunks.join("");
    assert_eq!(reassembled, text);
}

#[test]
fn test_split_message_multibyte_utf8() {
    let unit = "你好世界🎉";
    let unit_chars = unit.chars().count();
    let repeats = (MAX_MESSAGE_LENGTH / unit_chars) + 2;
    let text: String = std::iter::repeat(unit).take(repeats).collect();
    assert!(text.chars().count() > MAX_MESSAGE_LENGTH);

    let chunks = split_message(&text);
    assert!(chunks.len() >= 2);

    for chunk in &chunks {
        assert!(chunk.chars().count() <= MAX_MESSAGE_LENGTH);
    }

    let reassembled: String = chunks.join("");
    assert_eq!(reassembled, text);
}

#[test]
fn test_format_schedules_empty() {
    let result = format_schedules(&vec![]);
    assert_eq!(result, "No schedules configured.");
}

#[test]
fn test_format_schedules_with_entries() {
    let schedules = vec![
        ScheduleTaskConfig {
            name: "daily".to_string(),
            cron: "0 0 * * *".to_string(),
            model: None,
            prompt: "Summarize the day.".to_string(),
            enabled: true,
        },
        ScheduleTaskConfig {
            name: "check".to_string(),
            cron: "*/5 * * * *".to_string(),
            model: Some(ModelRef::Named("small".to_string())),
            prompt: "Check status.".to_string(),
            enabled: false,
        },
    ];
    let result = format_schedules(&schedules);
    assert!(result.contains("daily"));
    assert!(result.contains("0 0 * * *"));
    assert!(result.contains("model=default"));
    assert!(result.contains("check"));
    assert!(result.contains("model=small"));
}

#[test]
fn test_format_schedules_long_prompt_truncated() {
    let schedules = vec![ScheduleTaskConfig {
        name: "verbose".to_string(),
        cron: "0 0 * * *".to_string(),
        model: None,
        prompt: "A".repeat(100),
        enabled: true,
    }];
    let result = format_schedules(&schedules);
    assert!(result.contains("…"));
    assert!(!result.contains(&"A".repeat(100)));
}

#[test]
fn test_format_heartbeat_none() {
    let result = format_heartbeat(None);
    assert_eq!(result, "Heartbeat: not configured.");
}

#[test]
fn test_format_heartbeat_configured() {
    let hb = HeartbeatConfig {
        enabled: true,
        interval_secs: 1200,
        model: Some(ModelRef::Named("small".to_string())),
        prompt: Some("heartbeat check".to_string()),
    };
    let result = format_heartbeat(Some(&hb));
    assert!(result.contains("enabled: true"));
    assert!(result.contains("interval: 1200s"));
    assert!(result.contains("model: small"));
    assert!(result.contains("prompt: heartbeat check"));
}

#[test]
fn test_format_heartbeat_disabled_no_prompt() {
    let hb = HeartbeatConfig {
        enabled: false,
        interval_secs: 300,
        model: None,
        prompt: None,
    };
    let result = format_heartbeat(Some(&hb));
    assert!(result.contains("enabled: false"));
    assert!(result.contains("model: default"));
    assert!(result.contains("prompt: (none)"));
}

#[test]
fn test_format_mcp_servers_empty() {
    let config = McpConfig { mcp_servers: Vec::new() };
    let result = format_mcp_servers(&config);
    assert_eq!(result, "MCP: no servers configured.");
}

#[test]
fn test_format_mcp_servers_with_entries() {
    let config = McpConfig {
        mcp_servers: vec![
            (
                "filesystem".to_string(),
                McpServerConfig {
                    command: Some("npx".to_string()),
                    args: Some(vec!["-y".to_string(), "server".to_string()]),
                    env: None,
                    url: None,
                },
            ),
            (
                "remote".to_string(),
                McpServerConfig {
                    command: None,
                    args: None,
                    env: None,
                    url: Some("http://localhost:8080/mcp".to_string()),
                },
            ),
        ],
    };
    let result = format_mcp_servers(&config);
    assert!(result.contains("filesystem — stdio (npx)"));
    assert!(result.contains("remote — http (http://localhost:8080/mcp)"));
}

#[test]
fn test_escape_markdown_v2_plain_text() {
    assert_eq!(
        escape_markdown_v2("Hello! How are you."),
        r"Hello\! How are you\."
    );
}

#[test]
fn test_escape_markdown_v2_special_chars() {
    assert_eq!(escape_markdown_v2("a_b*c[d]e"), r"a\_b\*c\[d\]e");
    assert_eq!(escape_markdown_v2("(x)~y>z"), r"\(x\)\~y\>z");
    assert_eq!(escape_markdown_v2("a+b-c=d"), r"a\+b\-c\=d");
    assert_eq!(escape_markdown_v2("{a|b}"), r"\{a\|b\}");
    assert_eq!(escape_markdown_v2("1.2!3"), r"1\.2\!3");
    assert_eq!(escape_markdown_v2(r"a\b"), r"a\\b");
}

#[test]
fn test_escape_markdown_v2_code_block_preserved() {
    let input = "Hello!\n```rust\nfn main() { println!(\"!\"); }\n```\nDone.";
    let result = escape_markdown_v2(input);
    assert!(result.contains("```rust\nfn main() { println!(\"!\"); }\n```"));
    assert!(result.starts_with(r"Hello\!"));
    assert!(result.ends_with(r"Done\."));
}

#[test]
fn test_escape_markdown_v2_inline_code_preserved() {
    let input = "Use `vec![1, 2]` here.";
    let result = escape_markdown_v2(input);
    assert!(result.contains("`vec![1, 2]`"));
    assert!(result.contains(r"here\."));
}

#[test]
fn test_escape_markdown_v2_mixed_content() {
    let input = "Hello! `code.here` and more. ```\nblock!\n``` end!";
    let result = escape_markdown_v2(input);
    assert!(result.contains(r"Hello\!"));
    assert!(result.contains("`code.here`"));
    assert!(result.contains("```\nblock!\n```"));
    assert!(result.contains(r"end\!"));
}

#[test]
fn test_escape_markdown_v2_no_special_chars() {
    assert_eq!(escape_markdown_v2("Hello world"), "Hello world");
}

#[test]
fn test_escape_markdown_v2_empty() {
    assert_eq!(escape_markdown_v2(""), "");
}

#[test]
fn test_escape_markdown_v2_unclosed_code_block() {
    let input = "Hello! ```code without closing";
    let result = escape_markdown_v2(input);
    assert!(result.contains("```code without closing"));
    assert!(result.starts_with(r"Hello\!"));
}

#[test]
fn test_escape_markdown_v2_unclosed_inline_code() {
    let input = "Hello! `unclosed code";
    let result = escape_markdown_v2(input);
    assert!(result.contains("`unclosed code"));
    assert!(result.starts_with(r"Hello\!"));
}

#[test]
fn test_escape_markdown_v2_hash_at_start() {
    assert_eq!(escape_markdown_v2("# Heading"), r"\# Heading");
}

#[test]
fn test_read_file_full() {
    let content = "line one\nline two\nline three\n";
    let result = hi::tools::render_file_slice(content, None, None);
    assert!(result.contains("1| line one"));
    assert!(result.contains("2| line two"));
    assert!(result.contains("3| line three"));
    assert!(!result.contains("[Showing lines"));
}

#[test]
fn test_read_file_with_offset_and_limit() {
    let mut content = String::new();
    for i in 1..=10 {
        content.push_str(&format!("line {i}\n"));
    }
    let result = hi::tools::render_file_slice(&content, Some(3), Some(2));
    assert!(result.contains("3| line 3"));
    assert!(result.contains("4| line 4"));
    assert!(!result.contains("5| line 5"));
    assert!(result.contains("[Showing lines 3-4 of 10]"));
}

#[test]
fn test_read_file_offset_only() {
    let mut content = String::new();
    for i in 1..=5 {
        content.push_str(&format!("line {i}\n"));
    }
    let result = hi::tools::render_file_slice(&content, Some(4), None);
    assert!(result.contains("4| line 4"));
    assert!(result.contains("5| line 5"));
    assert!(!result.contains("3| line 3"));
    assert!(result.contains("[Showing lines 4-5 of 5]"));
}

#[test]
fn test_read_file_limit_exceeds_file() {
    let result = hi::tools::render_file_slice("only line\n", Some(1), Some(100));
    assert!(result.contains("1| only line"));
    assert!(!result.contains("[Showing lines"));
}

#[test]
fn test_read_file_offset_beyond_end() {
    let result = hi::tools::render_file_slice("line 1\n", Some(999), None);
    assert!(result.contains("[Showing lines"));
}

#[test]
fn test_read_file_utf8_content() {
    let content = "你好世界\nこんにちは\n🎉🎊\n";
    let result = hi::tools::render_file_slice(content, None, None);
    assert!(result.contains("1| 你好世界"));
    assert!(result.contains("2| こんにちは"));
    assert!(result.contains("3| 🎉🎊"));
}

#[test]
fn test_read_file_width_pads_line_numbers() {
    let mut content = String::new();
    for i in 1..=12 {
        content.push_str(&format!("l{i}\n"));
    }
    let result = hi::tools::render_file_slice(&content, Some(9), Some(3));
    assert!(result.contains(" 9| l9"));
    assert!(result.contains("10| l10"));
    assert!(result.contains("11| l11"));
}
