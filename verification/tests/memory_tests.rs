use hi::memory_doc::{parse_header_line, parse_sections};

#[test]
fn test_parse_header_line() {
    assert_eq!(parse_header_line("# Hello"), Some((1, "Hello".to_string())));
    assert_eq!(
        parse_header_line("## Sub Section"),
        Some((2, "Sub Section".to_string()))
    );
    assert_eq!(parse_header_line("### Deep"), Some((3, "Deep".to_string())));
    assert_eq!(parse_header_line("Not a header"), None);
    assert_eq!(parse_header_line("#NoSpace"), None);
    assert_eq!(parse_header_line("# "), None);
    assert_eq!(parse_header_line("#"), None);
}

#[test]
fn test_parse_sections_basic() {
    let text = "# Notes\nSome notes here\n\n## Projects\nProject list\n\n### hi-cli\nRust chat tool";
    let sections = parse_sections(text);
    assert_eq!(sections.len(), 3);
    assert_eq!(sections[0].path, "Notes");
    assert_eq!(sections[0].content, "Some notes here");
    assert_eq!(sections[1].path, "Notes/Projects");
    assert_eq!(sections[1].content, "Project list");
    assert_eq!(sections[2].path, "Notes/Projects/hi-cli");
    assert_eq!(sections[2].content, "Rust chat tool");
}

#[test]
fn test_parse_sections_sibling_headers() {
    let text = "# A\nContent A\n\n# B\nContent B";
    let sections = parse_sections(text);
    assert_eq!(sections.len(), 2);
    assert_eq!(sections[0].path, "A");
    assert_eq!(sections[1].path, "B");
}

#[test]
fn test_parse_sections_back_to_parent_level() {
    let text = "# A\n## A1\nDeep\n\n# B\nTop level B";
    let sections = parse_sections(text);
    assert_eq!(sections.len(), 3);
    assert_eq!(sections[0].path, "A");
    assert_eq!(sections[1].path, "A/A1");
    assert_eq!(sections[1].content, "Deep");
    assert_eq!(sections[2].path, "B");
    assert_eq!(sections[2].content, "Top level B");
}

#[test]
fn test_parse_sections_empty() {
    let sections = parse_sections("");
    assert!(sections.is_empty());
}

#[test]
fn test_parse_sections_no_headers() {
    let sections = parse_sections("Just plain text\nwithout headers");
    assert!(sections.is_empty());
}

#[test]
fn test_parse_sections_levels_recorded() {
    let text = "# Top\nbody\n\n## Inner\nmore";
    let sections = parse_sections(text);
    assert_eq!(sections[0].level, 1);
    assert_eq!(sections[1].level, 2);
}

#[test]
fn test_read_memory_full() {
    let result = hi::memory_doc::read_memory("# Notes\nHello world", None);
    assert_eq!(result, "# Notes\nHello world");
}

#[test]
fn test_read_memory_empty_text() {
    let result = hi::memory_doc::read_memory("", None);
    assert_eq!(result, "(memory is empty)");
}

#[test]
fn test_read_memory_section() {
    let result = hi::memory_doc::read_memory("# A\nContent A\n\n# B\nContent B", Some("B"));
    assert!(result.contains("Content B"));
    assert!(!result.contains("Content A"));
}

#[test]
fn test_read_memory_section_not_found() {
    let result = hi::memory_doc::read_memory("# A\nContent", Some("Z"));
    assert!(result.contains("not found"));
}

#[test]
fn test_read_memory_section_includes_children() {
    let result =
        hi::memory_doc::read_memory("# Projects\nOverview\n\n## hi-cli\nRust tool", Some("Projects"));
    assert!(result.contains("Overview"));
    assert!(result.contains("hi-cli"));
}

#[test]
fn test_read_memory_case_insensitive() {
    let result = hi::memory_doc::read_memory("# Notes\nContent here", Some("notes"));
    assert!(result.contains("Content here"));
}

#[test]
fn test_write_memory_new_file() {
    let parts = vec!["Notes".to_string()];
    let content = hi::memory_doc::rebuild_with_section("", &parts, "Hello world");
    assert!(content.contains("# Notes"));
    assert!(content.contains("Hello world"));
}

#[test]
fn test_write_memory_nested_section() {
    let parts = vec!["Projects".to_string(), "hi-cli".to_string()];
    let content = hi::memory_doc::rebuild_with_section("", &parts, "A Rust chat tool");
    assert!(content.contains("# Projects"));
    assert!(content.contains("## hi-cli"));
    assert!(content.contains("A Rust chat tool"));
}

#[test]
fn test_write_memory_update_existing() {
    let parts = vec!["Notes".to_string()];
    let content = hi::memory_doc::rebuild_with_section("# Notes\nOld content\n", &parts, "New content");
    assert!(content.contains("New content"));
    assert!(!content.contains("Old content"));
}

#[test]
fn test_write_memory_preserves_other_sections() {
    let parts = vec!["A".to_string()];
    let content =
        hi::memory_doc::rebuild_with_section("# A\nContent A\n\n# B\nContent B\n", &parts, "Updated A");
    assert!(content.contains("Updated A"));
    assert!(content.contains("Content B"));
}

#[test]
fn test_write_memory_case_insensitive_match() {
    let parts = vec!["notes".to_string()];
    let content = hi::memory_doc::rebuild_with_section("# Notes\nOld\n", &parts, "New");
    assert!(content.contains("New"));
    assert!(!content.contains("Old"));
}

#[test]
fn test_list_sections_hierarchical() {
    let result = hi::memory_doc::list_sections("# Notes\nHi\n\n## Sub\nThere\n\n# Projects\nList");
    assert!(result.contains("Notes [Notes]"));
    assert!(result.contains("Sub [Notes/Sub]"));
    assert!(result.contains("Projects [Projects]"));
}

#[test]
fn test_list_sections_none() {
    let result = hi::memory_doc::list_sections("just text");
    assert!(result.contains("no sections found"));
}
