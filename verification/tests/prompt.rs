use wisdomguard::prompt::{
    guide_type_from_fields, tool_name_from_fields, top_level_fields, JsonField,
    build_enhancement_prompt, detect_guide_type, enhancements_or_empty, strip_code_fences,
    EnhancementRequest, EnhancementResponse, GuideType, IrError, Workflow,
};

#[test]
fn builds_prompt() {
    let req = EnhancementRequest {
        tool_name: "mytool".to_string(),
        ir_json: r#"{"name":"mytool"}"#.to_string(),
        guide_type: GuideType::Cli,
    };
    let prompt = build_enhancement_prompt(&req);
    assert!(prompt.contains("mytool"));
    assert!(prompt.contains(r#"{"name":"mytool"}"#));
}

#[test]
fn detects_cli_ir() {
    let json = r#"{"name":"tool","framework":"Clap","commands":[],"global_flags":[],"groups":[],"description":""}"#;
    let t = detect_guide_type(json).unwrap();
    assert!(matches!(t, GuideType::Cli));
}

#[test]
fn detects_api_ir() {
    let json = r#"{"name":"api","endpoints":[],"spec_format":"OpenApi3","schemas":[],"auth_methods":[],"description":""}"#;
    let t = detect_guide_type(json).unwrap();
    assert!(matches!(t, GuideType::Api));
}

#[test]
fn detects_doc_ir() {
    let json = r#"{"name":"lib","modules":[],"source_format":"RustDoc","sections":[],"description":""}"#;
    let t = detect_guide_type(json).unwrap();
    assert!(matches!(t, GuideType::Doc));
}

#[test]
fn detection_prefers_cli_and_refuses_others() {
    let both = r#"{"framework":1,"commands":2,"endpoints":3,"spec_format":4}"#;
    assert!(matches!(detect_guide_type(both), Ok(GuideType::Cli)));
    assert!(matches!(detect_guide_type(r#"{"framework":1}"#), Err(IrError::UnknownIrType)));
    assert!(matches!(detect_guide_type("[]"), Err(IrError::UnknownIrType)));
    assert!(matches!(detect_guide_type("{oops"), Err(IrError::InvalidJson(_))));
}

#[test]
fn prompt_fills_placeholders_exactly() {
    let req = EnhancementRequest {
        tool_name: "kubectl".to_string(),
        ir_json: "{\"x\":\"tool specification\"}".to_string(),
        guide_type: GuideType::Doc,
    };
    let prompt = build_enhancement_prompt(&req);
    assert!(prompt.starts_with("You are an expert"));
    assert!(prompt.contains(
        "Given the following Documentation tool specification in JSON format for \"kubectl\", generate"
    ));
    assert!(prompt.contains("Tool specification:\n{\"x\":\"Documentation tool specification\"}\n\nRespond ONLY"));
    assert!(!prompt.contains("{TOOL_NAME}"));
    assert!(!prompt.contains("{IR_JSON}"));
}

#[test]
fn labels_of_guide_types() {
    assert_eq!(GuideType::Cli.label(), "CLI");
    assert_eq!(GuideType::Api.label(), "API");
    assert_eq!(GuideType::Doc.label(), "Documentation");
}

#[test]
fn parses_fenced_response() {
    let json = "```json\n{\"workflows\": [], \"gotchas\": [], \"key_items\": [], \"error_solutions\": []}\n```";
    assert_eq!(
        strip_code_fences(json),
        "{\"workflows\": [], \"gotchas\": [], \"key_items\": [], \"error_solutions\": []}"
    );
}

#[test]
fn strips_only_fences_and_white_space() {
    assert_eq!(strip_code_fences("```\n[1]\n```"), "[1]");
    assert_eq!(strip_code_fences("\u{3000} {\"a\":1} \t"), "{\"a\":1}");
    assert_eq!(strip_code_fences("plain"), "plain");
    assert_eq!(strip_code_fences("```json```"), "");
    assert_eq!(strip_code_fences("a```"), "a");
}

#[test]
fn falls_back_to_empty_enhancements() {
    let e = enhancements_or_empty(None);
    assert!(e.workflows.is_empty() && e.gotchas.is_empty());
    assert!(e.key_items.is_empty() && e.error_solutions.is_empty());
    let decoded = EnhancementResponse {
        workflows: vec![Workflow { title: "t".to_string(), steps: vec![] }],
        gotchas: vec![],
        key_items: vec!["run".to_string()],
        error_solutions: vec![],
    };
    let kept = enhancements_or_empty(Some(decoded));
    assert_eq!(kept.workflows.len(), 1);
    assert_eq!(kept.key_items, vec!["run"]);
}

fn field(key: &str, text: Option<&str>) -> JsonField {
    JsonField { key: key.to_string(), text: text.map(String::from) }
}

#[test]
fn guide_type_from_given_fields() {
    let cli = vec![field("commands", None), field("framework", Some("Clap"))];
    assert_eq!(guide_type_from_fields(&cli), Some(GuideType::Cli));
    let doc = vec![field("modules", None), field("source_format", Some("RustDoc"))];
    assert_eq!(guide_type_from_fields(&doc), Some(GuideType::Doc));
    let api = vec![field("endpoints", None), field("spec_format", None), field("modules", None)];
    assert_eq!(guide_type_from_fields(&api), Some(GuideType::Api));
    assert_eq!(guide_type_from_fields(&vec![field("name", Some("x"))]), None);
    assert_eq!(tool_name_from_fields(&vec![field("a", None), field("name", Some("git"))]), Some("git".to_string()));
    assert_eq!(tool_name_from_fields(&vec![field("name", None)]), None);
    assert_eq!(tool_name_from_fields(&vec![]), None);
}

#[test]
fn top_level_fields_of_documents() {
    let fields = top_level_fields(r#"{"name":"t","n":1}"#).unwrap();
    assert_eq!(fields.len(), 2);
    assert!(fields.iter().any(|f| f.key == "name" && f.text.as_deref() == Some("t")));
    assert!(fields.iter().any(|f| f.key == "n" && f.text.is_none()));
    assert_eq!(top_level_fields("\"just a string\"").ok().map(|f| f.len()), Some(0));
    assert!(top_level_fields("{,}").is_err());
}
