use cc_proxy::json::decode_json;
use cc_proxy::validation::{validate_request, ValidationReport, ValidationSeverity};
use cc_proxy::attributes::AttrValue;

fn validate(json: &str) -> ValidationReport {
    let raw = decode_json(json.as_bytes()).unwrap();
    validate_request(json.as_bytes(), &raw)
}

#[test]
fn test_clean_request_no_findings() {
    let json = r#"{
            "model": "sonnet-model",
            "max_tokens": 1024,
            "messages": [
                {"role": "user", "content": "Hello"},
                {"role": "assistant", "content": [{"type": "text", "text": "Hi!"}]}
            ]
        }"#;
    let report = validate(json);
    assert!(report.typed_parse_succeeded);
    assert!(report.findings.is_empty());
    assert!(report.unknown_block_types.is_empty());
}

#[test]
fn test_unknown_content_blocks_detected() {
    let json = r#"{
            "model": "opus-model",
            "max_tokens": 16384,
            "messages": [{
                "role": "assistant",
                "content": [
                    {"type": "thinking", "thinking": "let me consider..."},
                    {"type": "text", "text": "Here is my answer"},
                    {"type": "server_tool_use", "id": "st_1", "name": "web_search"},
                    {"type": "citations", "citations": []}
                ]
            }]
        }"#;
    let report = validate(json);
    assert!(report.typed_parse_succeeded);
    assert_eq!(report.findings.len(), 3);
    assert_eq!(
        report.unknown_block_types,
        vec!["thinking", "server_tool_use", "citations"]
    );
    for finding in &report.findings {
        assert_eq!(finding.severity, ValidationSeverity::Medium);
        assert_eq!(finding.category, "unknown_content_block");
    }
    assert_eq!(report.findings[0].block_type, Some("thinking".to_string()));
    assert_eq!(report.findings[0].message_index, Some(0));
    assert_eq!(report.findings[0].role, Some("assistant".to_string()));
}

#[test]
fn test_unknown_blocks_deduplicated() {
    let json = r#"{
            "model": "test",
            "max_tokens": 100,
            "messages": [
                {
                    "role": "assistant",
                    "content": [
                        {"type": "thinking", "thinking": "..."},
                        {"type": "text", "text": "answer"}
                    ]
                },
                {
                    "role": "assistant",
                    "content": [
                        {"type": "thinking", "thinking": "more thinking..."},
                        {"type": "text", "text": "another answer"}
                    ]
                }
            ]
        }"#;
    let report = validate(json);
    assert!(report.typed_parse_succeeded);
    assert_eq!(report.findings.len(), 2);
    assert_eq!(report.unknown_block_types, vec!["thinking"]);
}

#[test]
fn test_string_content_no_findings() {
    let json = r#"{
            "model": "test",
            "max_tokens": 100,
            "messages": [
                {"role": "user", "content": "Hello, world!"}
            ]
        }"#;
    let report = validate(json);
    assert!(report.typed_parse_succeeded);
    assert!(report.findings.is_empty());
}

#[test]
fn test_invalid_request_high_severity() {
    let json = r#"{
            "model": "test",
            "messages": [{"role": "user", "content": "Hi"}]
        }"#;
    let report = validate(json);
    assert!(!report.typed_parse_succeeded);
    assert_eq!(report.findings.len(), 1);
    assert_eq!(report.findings[0].severity, ValidationSeverity::High);
    assert_eq!(report.findings[0].category, "typed_parse_failure");
    assert!(report.findings[0].message.contains("max_tokens"));
}

#[test]
fn test_emit_no_panic() {
    let json = r#"{
            "model": "test",
            "max_tokens": 100,
            "messages": [{
                "role": "assistant",
                "content": [
                    {"type": "thinking", "thinking": "..."},
                    {"type": "text", "text": "answer"}
                ]
            }]
        }"#;
    let report = validate(json);
    let span = tracing::Span::none();
    report.emit(&span);
}

#[test]
fn test_emit_clean_request_no_panic() {
    let json = r#"{
            "model": "test",
            "max_tokens": 100,
            "messages": [{"role": "user", "content": "Hello"}]
        }"#;
    let report = validate(json);
    let span = tracing::Span::none();
    report.emit(&span);
}

#[test]
fn test_mixed_known_and_unknown_blocks() {
    let json = r#"{
            "model": "test",
            "max_tokens": 100,
            "messages": [
                {
                    "role": "user",
                    "content": [
                        {"type": "text", "text": "What is this?"},
                        {"type": "tool_result", "tool_use_id": "t1", "content": "result"}
                    ]
                },
                {
                    "role": "assistant",
                    "content": [
                        {"type": "thinking", "thinking": "..."},
                        {"type": "text", "text": "answer"},
                        {"type": "tool_use", "id": "t2", "name": "bash", "input": {}}
                    ]
                }
            ]
        }"#;
    let report = validate(json);
    assert!(report.typed_parse_succeeded);
    assert_eq!(report.findings.len(), 1);
    assert_eq!(report.findings[0].block_type, Some("thinking".to_string()));
    assert_eq!(report.findings[0].message_index, Some(1));
    assert_eq!(report.findings[0].role, Some("assistant".to_string()));
}

#[test]
fn unknown_block_scenario_report_attributes() {
    let json = r#"{"model":"m","max_tokens":8,"messages":[{"role":"assistant","content":[{"type":"thinking","thinking":"x"},{"type":"text","text":"A"},{"type":"server_tool_use","id":"s","name":"n","input":{}}]}]}"#;
    let report = validate(json);
    assert!(report.typed_parse_succeeded);
    let attrs = report.attributes();
    let get = |k: &str| attrs.iter().find(|a| a.key == k).map(|a| &a.value);
    assert!(matches!(get("shadow.validation.typed_parse_ok"), Some(AttrValue::Bool(true))));
    assert!(matches!(get("shadow.validation.finding_count"), Some(AttrValue::Int(2))));
    match get("shadow.validation.unknown_block_types") {
        Some(AttrValue::Str(s)) => assert_eq!(s, "thinking,server_tool_use"),
        _ => panic!("missing unknown_block_types"),
    }
    match get("shadow.validation.max_severity") {
        Some(AttrValue::Str(s)) => assert_eq!(s, "medium"),
        _ => panic!("missing max_severity"),
    }
    match get("shadow.validation.findings_json") {
        Some(AttrValue::Str(s)) => {
            let parsed = decode_json(s.as_bytes()).unwrap();
            assert_eq!(parsed.as_array().unwrap().len(), 2);
            assert!(s.contains("\"message_index\":0"));
        }
        _ => panic!("missing findings_json"),
    }
}

#[test]
fn clean_report_omits_optional_attributes() {
    let report = validate(r#"{"model":"m","max_tokens":8,"messages":[{"role":"user","content":"hi"}]}"#);
    let attrs = report.attributes();
    assert_eq!(attrs.len(), 2);
}

#[test]
fn high_severity_report_attributes() {
    let report = validate(r#"{"model":"m","max_tokens":-1,"messages":[]}"#);
    assert!(!report.typed_parse_succeeded);
    let attrs = report.attributes();
    let sev = attrs.iter().find(|a| a.key == "shadow.validation.max_severity").unwrap();
    assert!(matches!(&sev.value, AttrValue::Str(s) if s == "high"));
}

#[test]
fn bad_role_and_missing_block_fields_fail_typed_parse() {
    assert!(!validate(r#"{"model":"m","max_tokens":1,"messages":[{"role":"system","content":"x"}]}"#).typed_parse_succeeded);
    assert!(!validate(r#"{"model":"m","max_tokens":1,"messages":[{"role":"user","content":[{"type":"tool_use","name":"x","input":{}}]}]}"#).typed_parse_succeeded);
    assert!(!validate(r#"{"model":"m","max_tokens":1,"messages":[{"role":"user","content":[{"text":"no type"}]}]}"#).typed_parse_succeeded);
    assert!(!validate(r#"{"model":"m","max_tokens":4294967296,"messages":[]}"#).typed_parse_succeeded);
    assert!(validate(r#"{"model":"m","max_tokens":4294967295,"messages":[],"tool_choice":{"type":"tool","name":"x"}}"#).typed_parse_succeeded);
    assert!(!validate(r#"{"model":"m","max_tokens":1,"messages":[],"tool_choice":{"type":"sometimes"}}"#).typed_parse_succeeded);
    assert!(!validate(r#"{"model":"m","max_tokens":1,"messages":[],"stream":null}"#).typed_parse_succeeded);
}

#[test]
fn typed_failure_message_names_the_field() {
    let report = validate(r#"{"model":"m","max_tokens":1,"messages":[],"top_k":"x"}"#);
    assert_eq!(report.findings[0].message, "Typed deserialization failed: invalid field `top_k`");
    let report = validate(r#"{"model":"m","messages":[]}"#);
    assert_eq!(
        report.findings[0].message,
        "Typed deserialization failed: missing or invalid field `max_tokens`"
    );
}
