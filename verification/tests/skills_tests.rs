use hi::skills::{build_preamble, Skill};

#[test]
fn test_build_preamble_with_skills() {
    let skills = vec![
        Skill {
            name: "a".to_string(),
            description: "Skill A".to_string(),
            body: "You are skill A.".to_string(),
        },
        Skill {
            name: "b".to_string(),
            description: "Skill B".to_string(),
            body: "You are skill B.".to_string(),
        },
    ];
    let result = build_preamble(Some("Base prompt"), &skills);
    assert!(result.contains("Base prompt"));
    assert!(result.contains("You are skill A."));
    assert!(result.contains("You are skill B."));
}

#[test]
fn test_build_preamble_no_base() {
    let skills = vec![Skill {
        name: "a".to_string(),
        description: "A".to_string(),
        body: "Skill body".to_string(),
    }];
    let result = build_preamble(None, &skills);
    assert_eq!(result, "Skill body");
}

#[test]
fn test_build_preamble_empty_base_dropped() {
    let skills = vec![Skill {
        name: "a".to_string(),
        description: "A".to_string(),
        body: "Body".to_string(),
    }];
    let result = build_preamble(Some(""), &skills);
    assert_eq!(result, "Body");
}

#[test]
fn test_skill_summaries() {
    let skills = vec![Skill {
        name: "coder".to_string(),
        description: "Coding help".to_string(),
        body: "You code".to_string(),
    }];
    let summaries = hi::context::ContextManager::skill_summaries(&skills);
    assert_eq!(summaries.len(), 1);
    assert_eq!(summaries[0].name, "coder");
    assert_eq!(summaries[0].description, "Coding help");
}

#[test]
fn test_parse_frontmatter_with_description() {
    let content = "---\ndescription: Expert coding guidance\n---\nYou are a coding expert.";
    let (desc, body) = hi::skills::parse_frontmatter(content, "fallback");
    assert_eq!(desc, "Expert coding guidance");
    assert_eq!(body, "You are a coding expert.");
}

#[test]
fn test_parse_frontmatter_without_frontmatter() {
    let content = "You are a translator.";
    let (desc, body) = hi::skills::parse_frontmatter(content, "translator");
    assert_eq!(desc, "translator");
    assert_eq!(body, "You are a translator.");
}

#[test]
fn test_parse_frontmatter_quoted_description() {
    let content = "---\ndescription: \"Quoted desc\"\n---\nBody text.";
    let (desc, body) = hi::skills::parse_frontmatter(content, "fallback");
    assert_eq!(desc, "Quoted desc");
    assert_eq!(body, "Body text.");
}

#[test]
fn test_format_skills_listing() {
    let skills = vec![Skill {
        name: "coder".to_string(),
        description: "Coding help".to_string(),
        body: "You code".to_string(),
    }];
    let listing = hi::skills::format_skills(&skills);
    assert!(listing.starts_with("Loaded skills:"));
    assert!(listing.contains("coder"));
    assert!(listing.contains("Coding help"));
    assert_eq!(hi::skills::format_skills(&vec![]), "No skills loaded.");
}
