use wisdomguard::security::{
    blocked_prefixes, check_output_target, check_resolved_target, escape_markdown, has_traversal,
    input_size_allowed, is_system_location, safe_description, sanitize_llm_response,
    OutputRefusal,
};

#[test]
fn escapes_markdown() {
    assert_eq!(escape_markdown("a|b\nc"), "a\\|b c");
}

#[test]
fn escapes_every_special_character() {
    assert_eq!(escape_markdown("`x`\r\n|"), "'x' \\|");
    assert_eq!(escape_markdown(""), "");
}

#[test]
fn sanitizes_html_in_llm() {
    assert_eq!(
        sanitize_llm_response("hello <script>alert</script> world"),
        "hello alert world"
    );
    assert_eq!(sanitize_llm_response("<b>bold</b>"), "bold");
}

#[test]
fn sanitize_edge_cases() {
    assert_eq!(sanitize_llm_response("a <> b"), "a <> b");
    assert_eq!(sanitize_llm_response("1 < 2"), "1 < 2");
    assert_eq!(sanitize_llm_response("<<a>b>"), "b>");
    assert_eq!(sanitize_llm_response("<a\nb>x|y"), "x\\|y");
}

#[test]
fn description_kept_when_it_fits() {
    assert_eq!(safe_description("short", 5), "short");
    assert_eq!(safe_description("a|b", 4), "a\\|b");
}

#[test]
fn description_cut_at_char_boundary() {
    assert_eq!(safe_description("abcdefghij", 8), "abcde...");
    assert_eq!(safe_description("abcdefghij", 2), "...");
    // 'é' is two bytes: the cut falls before a character that would cross it.
    assert_eq!(safe_description("ééééé", 7), "éé...");
    assert!(safe_description(&"x".repeat(600), 500).len() <= 500);
}

#[test]
fn traversal_and_system_paths() {
    assert!(has_traversal("../../etc/x"));
    assert!(has_traversal("a..b"));
    assert!(!has_traversal("./out.md"));
    let prefixes = blocked_prefixes();
    let sep = std::path::MAIN_SEPARATOR;
    assert_eq!(prefixes[0], format!("{sep}etc"));
    assert_eq!(prefixes[4], format!("{sep}boot"));
    assert!(is_system_location(&format!("{sep}etc{sep}passwd"), &prefixes));
    assert!(is_system_location(&format!("{sep}proc"), &prefixes));
    assert!(!is_system_location(&format!("{sep}home{sep}u{sep}etc"), &prefixes));
}

#[test]
fn input_size_limit() {
    assert!(input_size_allowed(50 * 1024 * 1024));
    assert!(!input_size_allowed(50 * 1024 * 1024 + 1));
}

#[test]
fn output_checks_in_order() {
    assert_eq!(check_output_target("../x", true, true), Some(OutputRefusal::Traversal));
    assert_eq!(check_output_target("x", true, true), Some(OutputRefusal::PathIsLink));
    assert_eq!(check_output_target("d/x", false, true), Some(OutputRefusal::ParentIsLink));
    assert_eq!(check_output_target("d/x", false, false), None);
    let sep = std::path::MAIN_SEPARATOR;
    let prefixes = blocked_prefixes();
    assert_eq!(
        check_resolved_target(&format!("{sep}sys{sep}x"), &prefixes),
        Some(OutputRefusal::SystemDirectory)
    );
    assert_eq!(check_resolved_target(&format!("{sep}tmp{sep}x"), &prefixes), None);
    assert_eq!(
        OutputRefusal::SystemDirectory.message(),
        "Writing to system directories is not allowed"
    );
    assert_eq!(OutputRefusal::Traversal.message(), "Output path must not contain '..' traversal");
}
