use wisdomguard::enhancer::{
    dry_run_prompt, enhancement_prompt_for, extract_tool_name, format_enhanced_guide,
    format_errors, format_gotchas, format_standalone, format_workflows, merge_enhancements_into,
    merge_sections, reply_within_limit,
};
use wisdomguard::prompt::{EnhancementResponse, ErrorSolution, Gotcha, IrError, Workflow};

fn sample() -> EnhancementResponse {
    EnhancementResponse {
        workflows: vec![Workflow {
            title: "Setup".to_string(),
            steps: vec!["install".to_string(), "configure".to_string()],
        }],
        gotchas: vec![Gotcha {
            wrong: "bad way".to_string(),
            right: "good way".to_string(),
            explanation: "because".to_string(),
        }],
        key_items: vec!["run".to_string(), "build".to_string()],
        error_solutions: vec![ErrorSolution {
            error: "not found".to_string(),
            solution: "install it".to_string(),
        }],
    }
}

#[test]
fn formats_enhanced_guide() {
    let enhancements = EnhancementResponse {
        workflows: vec![Workflow {
            title: "Setup".to_string(),
            steps: vec!["install".to_string(), "configure".to_string()],
        }],
        gotchas: vec![Gotcha {
            wrong: "bad way".to_string(),
            right: "good way".to_string(),
            explanation: "because".to_string(),
        }],
        key_items: vec!["run".to_string(), "build".to_string()],
        error_solutions: vec![ErrorSolution {
            error: "not found".to_string(),
            solution: "install it".to_string(),
        }],
    };

    let guide = format_enhanced_guide("mytool", &enhancements);
    assert!(guide.contains("# mytool for AI Agents"));
    assert!(guide.contains("## Key Commands"));
    assert!(guide.contains("## Common Workflows"));
    assert!(guide.contains("## Common Mistakes"));
    assert!(guide.contains("## Error Messages"));
}

#[test]
fn dry_run_produces_prompt() {
    let ir = r#"{"name":"test","framework":"Clap","commands":[],"global_flags":[],"groups":[],"description":"test"}"#;
    let prompt = dry_run_prompt(ir);
    assert!(prompt.contains("test"));
    assert!(prompt.contains("workflows"));
}

#[test]
fn merges_sections_into_base() {
    let base = "# Tool for AI Agents\n\n## Quick Reference\n\n```bash\ntool run\n```\n\n## Command Reference\n\nDetails here.\n\n---\n**Framework**: clap\n";
    let enhancements = EnhancementResponse {
        workflows: vec![Workflow {
            title: "Setup".to_string(),
            steps: vec!["step1".to_string()],
        }],
        gotchas: vec![Gotcha {
            wrong: "bad".to_string(),
            right: "good".to_string(),
            explanation: "because".to_string(),
        }],
        key_items: Vec::new(),
        error_solutions: Vec::new(),
    };

    let merged = merge_sections(base, &enhancements);
    assert!(merged.contains("## Quick Reference"));
    assert!(merged.contains("## Command Reference"));
    assert!(merged.contains("**Framework**: clap"));
    assert!(merged.contains("## Common Workflows"));
    assert!(merged.contains("## Common Mistakes"));
}

#[test]
fn standalone_format_works() {
    let ir = r#"{"name":"tool","framework":"Clap","commands":[],"global_flags":[],"groups":[],"description":"test"}"#;
    let enhancements = EnhancementResponse::default();
    let guide = format_standalone(ir, &enhancements);
    assert!(guide.contains("# tool for AI Agents"));
}

#[test]
fn standalone_guide_exact_layout() {
    let guide = format_enhanced_guide("my|tool", &sample());
    let expected = "# my\\|tool for AI Agents — Enhanced Guide\n\n\
## Key Commands\n\n- `run`\n- `build`\n\n\
## Common Workflows\n\n### Setup\n\n```bash\ninstall\nconfigure\n```\n\n\
## Common Mistakes\n\n| Wrong | Right | Why |\n|-------|-------|-----|\n| bad way | good way | because |\n\n\
## Error Messages\n\n| Error | Solution |\n|-------|----------|\n| not found | install it |\n\n\
---\nEnhanced with VertexAI Gemini\n";
    assert_eq!(guide, expected);
}

#[test]
fn empty_enhancements_give_empty_sections() {
    let e = EnhancementResponse::default();
    assert_eq!(format_workflows(&e), "");
    assert_eq!(format_gotchas(&e), "");
    assert_eq!(format_errors(&e), "");
    assert_eq!(
        format_enhanced_guide("t", &e),
        "# t for AI Agents — Enhanced Guide\n\n---\nEnhanced with VertexAI Gemini\n"
    );
}

#[test]
fn workflow_steps_are_sanitized() {
    let e = EnhancementResponse {
        workflows: vec![Workflow {
            title: "Run `it`".to_string(),
            steps: vec!["<b>cargo</b> build | tee log".to_string()],
        }],
        gotchas: Vec::new(),
        key_items: Vec::new(),
        error_solutions: Vec::new(),
    };
    assert_eq!(
        format_workflows(&e),
        "## Common Workflows\n\n### Run 'it'\n\n```bash\ncargo build \\| tee log\n```\n\n"
    );
}

#[test]
fn merge_inserts_at_exact_places() {
    let base = "# T\n## Quick Reference\nq\n## Commands\nc\n---\nf\n";
    let merged = merge_sections(base, &sample());
    let expected = "# T\n## Quick Reference\nq\n\
## Common Workflows\n\n### Setup\n\n```bash\ninstall\nconfigure\n```\n\n\
## Commands\nc\n\
## Common Mistakes\n\n| Wrong | Right | Why |\n|-------|-------|-----|\n| bad way | good way | because |\n\n\
## Error Messages\n\n| Error | Solution |\n|-------|----------|\n| not found | install it |\n\n\
---\nf\n";
    assert_eq!(merged, expected);
}

#[test]
fn merge_appends_when_no_place_found() {
    let base = "# T\r\nonly text";
    let merged = merge_enhancements_into(base, &sample());
    assert!(merged.starts_with("# T\nonly text\n## Common Workflows\n"));
    assert!(merged.ends_with("| not found | install it |\n\n"));
    assert!(!merged.contains("Key Commands"));
}

#[test]
fn merge_errors_without_gotchas_go_before_the_footer() {
    let base = "## A\n---\nf\n";
    let e = EnhancementResponse {
        workflows: Vec::new(),
        gotchas: Vec::new(),
        key_items: vec!["k".to_string()],
        error_solutions: vec![ErrorSolution { error: "E".to_string(), solution: "S".to_string() }],
    };
    assert_eq!(
        merge_sections(base, &e),
        "## A\n## Error Messages\n\n| Error | Solution |\n|-------|----------|\n| E | S |\n\n---\nf\n"
    );
}

#[test]
fn merge_puts_workflows_after_the_quick_reference() {
    let base = "## Intro\ni\n## Quick Reference\nq\n## Commands\nc\n";
    let e = EnhancementResponse {
        workflows: vec![Workflow { title: "W".to_string(), steps: vec!["s".to_string()] }],
        gotchas: Vec::new(),
        key_items: Vec::new(),
        error_solutions: Vec::new(),
    };
    assert_eq!(
        merge_sections(base, &e),
        "## Intro\ni\n## Quick Reference\nq\n## Common Workflows\n\n### W\n\n```bash\ns\n```\n\n## Commands\nc\n"
    );
    // Without a Quick Reference, the first section heading is the place.
    assert!(merge_sections("## Intro\ni\n", &e).starts_with("## Common Workflows\n"));
    // A Quick Reference with no heading after it: the workflows go at the end.
    assert!(merge_sections("## Quick Reference\nq\n", &e).starts_with("## Quick Reference\nq\n## Common Workflows"));
}

#[test]
fn merge_without_enhancements_keeps_the_lines() {
    let base = "a\r\nb\n\nc";
    assert_eq!(merge_sections(base, &EnhancementResponse::default()), "a\nb\n\nc\n");
}

#[test]
fn tool_name_is_read_or_defaulted() {
    assert_eq!(extract_tool_name(r#"{"name":"cargo"}"#), "cargo");
    assert_eq!(extract_tool_name(r#"{"name":7}"#), "Unknown Tool");
    assert_eq!(extract_tool_name("not json"), "Unknown Tool");
    assert_eq!(extract_tool_name("[1,2]"), "Unknown Tool");
}

#[test]
fn prompt_for_refuses_unknown_ir() {
    assert!(matches!(enhancement_prompt_for(r#"{"name":"x"}"#), Err(IrError::UnknownIrType)));
    assert!(matches!(enhancement_prompt_for("{"), Err(IrError::InvalidJson(_))));
    let p = enhancement_prompt_for(r#"{"name":"api","endpoints":[],"spec_format":"x"}"#).unwrap();
    assert!(p.contains("following API tool specification in JSON format for \"api\""));
}

#[test]
fn dry_run_defaults_to_cli() {
    let p = dry_run_prompt(r#"{"name":"x"}"#);
    assert!(p.contains("following CLI tool specification"));
    assert!(p.contains("\"x\""));
}

#[test]
fn reply_size_limit() {
    assert!(reply_within_limit("  ```json\n{}\n```  "));
    let big = "x".repeat(1024 * 1024 + 1);
    assert!(!reply_within_limit(&big));
    let exact = "x".repeat(1024 * 1024);
    assert!(reply_within_limit(&exact));
    let multibyte = "é".repeat(512 * 1024 + 1);
    assert!(!reply_within_limit(&multibyte));
}

#[test]
fn merge_ignores_key_items() {
    let base = "# T\n## Quick Reference\n## Usage\n---\nend\n";
    let with_keys = sample();
    let mut without_keys = sample();
    without_keys.key_items.clear();
    assert_eq!(merge_sections(base, &with_keys), merge_sections(base, &without_keys));
}
