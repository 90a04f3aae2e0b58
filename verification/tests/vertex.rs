use std::time::Duration;
use wisdomguard::exit::exit_code_for_error;
use wisdomguard::vertex::{
    reply_text, retry_decision, status_error, Candidate, CandidateContent, CandidatePart,
    ConfigEnv, ConfigError, GenerateResponse, RetryDecision, VertexConfig,
};

#[test]
fn builds_endpoint_url() {
    let config = VertexConfig {
        project_id: "my-project".to_string(),
        location: "us-central1".to_string(),
        model: "gemini-2.5-flash".to_string(),
        timeout: Duration::from_secs(60),
        max_tokens: 8192,
    };
    let url = config.endpoint_url();
    assert!(url.contains("us-central1-aiplatform.googleapis.com"));
    assert!(url.contains("my-project"));
    assert!(url.contains("gemini-2.5-flash"));
    assert!(url.ends_with(":generateContent"));
}

#[test]
fn config_requires_project() {
    let result = VertexConfig::from_args(None, None, None, &ConfigEnv::empty());
    assert!(result.is_err());
    assert_eq!(
        result.err().map(|e| e.message()),
        Some("Missing project ID. Set --project or GOOGLE_CLOUD_PROJECT env var")
    );
    assert_eq!(
        VertexConfig::from_args(None, None, None, &ConfigEnv::empty()).err(),
        Some(ConfigError::MissingProject)
    );
}

#[test]
fn config_uses_defaults() {
    let config = VertexConfig::from_args(Some("proj"), None, None, &ConfigEnv::empty()).unwrap();
    assert_eq!(config.location, "us-central1");
    assert_eq!(config.model, "gemini-2.5-flash");
    assert_eq!(config.timeout, Duration::from_secs(60));
    assert_eq!(config.max_tokens, 8192);
}

#[test]
fn config_prefers_arguments_then_environment() {
    let env = ConfigEnv {
        project: Some("env-proj".to_string()),
        location: Some("europe-west1".to_string()),
        model: Some("env-model".to_string()),
    };
    let c = VertexConfig::from_args(None, None, Some("gemini-2.5-pro"), &env).unwrap();
    assert_eq!(c.project_id, "env-proj");
    assert_eq!(c.location, "europe-west1");
    assert_eq!(c.model, "gemini-2.5-pro");
    assert_eq!(
        c.endpoint_url(),
        "https://europe-west1-aiplatform.googleapis.com/v1/projects/env-proj/locations/europe-west1/publishers/google/models/gemini-2.5-pro:generateContent"
    );
}

#[test]
fn status_messages() {
    assert_eq!(status_error(200), None);
    assert_eq!(status_error(204), None);
    assert_eq!(
        status_error(401).as_deref(),
        Some("Authentication failed. Check your GCP credentials and permissions")
    );
    assert_eq!(status_error(403), status_error(401));
    assert_eq!(status_error(429).as_deref(), Some("Rate limited by VertexAI"));
    assert_eq!(status_error(503).as_deref(), Some("VertexAI server error (503)"));
    assert_eq!(status_error(404).as_deref(), Some("VertexAI request failed (404)"));
    assert_eq!(status_error(0).as_deref(), Some("VertexAI request failed (0)"));
    assert_eq!(status_error(65535).as_deref(), Some("VertexAI request failed (65535)"));
}

#[test]
fn retries_with_backoff() {
    assert_eq!(retry_decision(0, "Rate limited by VertexAI"), RetryDecision::Retry { delay_secs: 1 });
    assert_eq!(retry_decision(1, "VertexAI server error (502)"), RetryDecision::Retry { delay_secs: 2 });
    assert_eq!(retry_decision(2, "Rate limited by VertexAI"), RetryDecision::Retry { delay_secs: 4 });
    assert_eq!(retry_decision(3, "Rate limited by VertexAI"), RetryDecision::GiveUp);
    assert_eq!(retry_decision(0, "VertexAI request failed (404)"), RetryDecision::GiveUp);
    assert_eq!(
        retry_decision(0, "Authentication failed. Check your GCP credentials and permissions"),
        RetryDecision::GiveUp
    );
}

#[test]
fn reply_text_takes_first_part() {
    let part = |t: Option<&str>| CandidatePart { text: t.map(String::from) };
    let resp = GenerateResponse {
        candidates: Some(vec![
            Candidate {
                content: Some(CandidateContent { parts: Some(vec![part(Some("first")), part(Some("second"))]) }),
            },
            Candidate { content: Some(CandidateContent { parts: Some(vec![part(Some("other"))]) }) },
        ]),
    };
    assert_eq!(reply_text(resp).as_deref(), Some("first"));
    assert_eq!(reply_text(GenerateResponse { candidates: None }), None);
    assert_eq!(reply_text(GenerateResponse { candidates: Some(vec![]) }), None);
    let no_text = GenerateResponse {
        candidates: Some(vec![Candidate {
            content: Some(CandidateContent { parts: Some(vec![part(None)]) }),
        }]),
    };
    assert_eq!(reply_text(no_text), None);
}

#[test]
fn exit_codes() {
    assert_eq!(exit_code_for_error("Authentication failed. Check your GCP credentials"), 3);
    assert_eq!(exit_code_for_error("Could not load IR file: Cannot open file: x"), 2);
    assert_eq!(exit_code_for_error("Output path must not be a symbolic link"), 2);
    assert_eq!(exit_code_for_error("Output path must not contain '..' traversal"), 2);
    assert_eq!(exit_code_for_error("Failed to write output file: Writing to system directories is not allowed"), 2);
    assert_eq!(exit_code_for_error("IR file is not valid JSON"), 1);
}
