use cc_proxy::correlation::generate_id;
use cc_proxy::json::{decode_json, to_text, Json};
use cc_proxy::mode::{ProxyMode, RuntimeMode};
use cc_proxy::proxy::{
    client_response_headers, client_status, compare_usage, decide_set_mode, decide_set_tracing,
    fallback_forwards, fallback_url, forward_raw_header, forward_request_header,
    forward_response_header, initial_mode, messages_url, request_model_and_stream, route_messages,
    upstream_error_status, upstream_host, upstream_request_headers, AdminError, Header,
    MessagesRoute, TapBuffer, CORRELATION_HEADER,
};
use cc_proxy::rewrite::{rewrite_json, rewrite_request_body, DEFAULT_MAX_TOKENS};
use cc_proxy::stats::ProxyStats;
use cc_proxy::usage::{extract_and_record_stats, extract_usage, UsageTally};

fn rewrite_text(body: &[u8], model: Option<&str>) -> Option<String> {
    rewrite_request_body(body, model).map(|v| String::from_utf8(v).unwrap())
}

fn h(name: &str, value: &str) -> Header {
    Header { name: name.to_string(), value: value.as_bytes().to_vec() }
}

#[test]
fn simple_passthrough_scenario_counts_tokens() {
    let body = br#"{"role":"assistant","content":[{"type":"text","text":"OK"}],"usage":{"input_tokens":3,"output_tokens":1}}"#;
    let mut tap = TapBuffer::new();
    assert!(tap.observe(&body[..40]));
    assert!(!tap.observe(&body[40..]));
    assert_eq!(tap.buffer, body.to_vec());
    let stats = ProxyStats::new();
    stats.inc_requests();
    extract_and_record_stats(&stats, &tap.buffer, false);
    let snap = stats.snapshot();
    assert_eq!(snap.total_requests, 1);
    assert_eq!(snap.input_tokens, 3);
    assert_eq!(snap.output_tokens, 1);
    assert_eq!(snap.tool_calls, 0);
}

#[test]
fn streaming_tool_use_counts_one_tool_call() {
    let body = b"event: message_start\ndata: {\"type\":\"message_start\",\"message\":{\"role\":\"assistant\",\"usage\":{\"input_tokens\":50}}}\n\nevent: content_block_start\ndata: {\"index\":0,\"content_block\":{\"type\":\"tool_use\",\"id\":\"t1\",\"name\":\"bash\"}}\n\nevent: message_delta\ndata: {\"usage\":{\"output_tokens\":20}}\n\n";
    let t = extract_usage(body, true);
    assert_eq!(t, UsageTally { input_tokens: Some(50), output_tokens: 20, tool_calls: 1 });
}

#[test]
fn input_tokens_counted_once_when_both_events_carry_them() {
    let body = b"event: message_start\ndata: {\"message\":{\"usage\":{\"input_tokens\":7}}}\n\nevent: message_delta\ndata: {\"usage\":{\"input_tokens\":9,\"output_tokens\":4}}\n\n";
    let stats = ProxyStats::new();
    extract_and_record_stats(&stats, body, true);
    assert_eq!(stats.snapshot().input_tokens, 7);
    assert_eq!(stats.snapshot().output_tokens, 4);
}

#[test]
fn input_tokens_taken_from_message_delta_when_start_lacks_them() {
    let body = b"event: message_start\ndata: {\"message\":{\"role\":\"assistant\"}}\n\nevent: message_delta\ndata: {\"usage\":{\"input_tokens\":9,\"output_tokens\":4}}\n\n";
    let t = extract_usage(body, true);
    assert_eq!(t.input_tokens, Some(9));
}

#[test]
fn unreadable_bodies_add_nothing() {
    assert_eq!(extract_usage(b"nope", false), UsageTally { input_tokens: None, output_tokens: 0, tool_calls: 0 });
    assert_eq!(extract_usage(&[0xff, 0x00], true), UsageTally { input_tokens: None, output_tokens: 0, tool_calls: 0 });
}

#[test]
fn nonstreaming_tool_use_blocks_counted() {
    let body = br#"{"content":[{"type":"tool_use"},{"type":"text"},{"type":"tool_use"}],"usage":{"input_tokens":1}}"#;
    let t = extract_usage(body, false);
    assert_eq!(t, UsageTally { input_tokens: Some(1), output_tokens: 0, tool_calls: 2 });
}

#[test]
fn body_rewrite_preserves_fields_scenario() {
    let body = br#"{"model":"orig","extra":{"a":1},"messages":[{"role":"user","content":"x"}]}"#;
    let out = rewrite_text(body, Some("override-x")).unwrap();
    assert_eq!(
        out,
        r#"{"model":"override-x","extra":{"a":1},"messages":[{"role":"user","content":"x"}],"max_tokens":65536}"#
    );
    assert_eq!(DEFAULT_MAX_TOKENS, 65536);
}

#[test]
fn rewrite_keeps_present_max_tokens_and_replaces_null() {
    let out = rewrite_text(br#"{"max_tokens":5,"model":"m"}"#, None).unwrap();
    assert_eq!(out, r#"{"max_tokens":5,"model":"m"}"#);
    let out = rewrite_text(br#"{"max_tokens":null,"b":[1,2.5,"\n"]}"#, None).unwrap();
    assert_eq!(out, r#"{"max_tokens":65536,"b":[1,2.5,"\n"]}"#);
}

#[test]
fn rewrite_of_invalid_body_is_refused() {
    assert!(rewrite_text(b"{not json", Some("m")).is_none());
}

#[test]
fn rewrite_of_non_object_passes_unchanged() {
    assert_eq!(rewrite_text(b"[1, 2]", Some("m")).unwrap(), "[1, 2]");
}

#[test]
fn rewrite_round_trip_is_stable() {
    let first = rewrite_text(br#"{"a":{"b":[true,false,null]},"model":"x"}"#, Some("y")).unwrap();
    let second = rewrite_text(first.as_bytes(), None).unwrap();
    assert_eq!(first, second);
    let doc = decode_json(first.as_bytes()).unwrap();
    assert_eq!(to_text(&rewrite_json(doc, None)), first);
}

#[test]
fn string_escapes_are_encoded() {
    let j = Json::Str("a\"b\\c\u{1}\t".to_string());
    assert_eq!(to_text(&j), "\"a\\\"b\\\\c\\u0001\\t\"");
}

#[test]
fn number_readers() {
    let j = decode_json(b"[18446744073709551615, -9223372036854775808, 1.5, -3]").unwrap();
    let a = j.as_array().unwrap();
    assert_eq!(a[0].as_u64(), Some(u64::MAX));
    assert_eq!(a[0].as_i64(), None);
    assert_eq!(a[1].as_i64(), Some(i64::MIN));
    assert_eq!(a[2].as_u64(), None);
    assert_eq!(a[3].as_i64(), Some(-3));
    assert_eq!(a[3].as_u64(), None);
}

#[test]
fn request_headers_carry_correlation_and_drop_others() {
    let incoming = vec![
        h("host", "client"),
        h("content-length", "10"),
        h("content-type", "text/plain"),
        h("x-api-key", "SECRET-REDACTED"),
        h("anthropic-version", "2023-06-01"),
        h(CORRELATION_HEADER, "spoofed"),
    ];
    let to_pass = upstream_request_headers(&incoming, "id-1", false);
    let names: Vec<&str> = to_pass.iter().map(|h| h.name.as_str()).collect();
    assert_eq!(names, vec!["content-type", "x-shadow-request-id", "x-api-key", "anthropic-version"]);
    assert_eq!(to_pass[1].value, b"id-1".to_vec());
    assert_eq!(to_pass[0].value, b"application/json".to_vec());
    let to_target = upstream_request_headers(&incoming, "id-1", true);
    let names: Vec<&str> = to_target.iter().map(|h| h.name.as_str()).collect();
    assert_eq!(names, vec!["content-type", "x-shadow-request-id", "anthropic-version"]);
}

#[test]
fn response_headers_end_with_correlation() {
    let upstream = vec![h("connection", "close"), h("x-request-id", "r1"), h("content-type", "text/event-stream")];
    let out = client_response_headers(&upstream, "abc");
    let names: Vec<&str> = out.iter().map(|h| h.name.as_str()).collect();
    assert_eq!(names, vec!["x-request-id", "content-type", "x-shadow-request-id"]);
    assert_eq!(out[2].value, b"abc".to_vec());
}

#[test]
fn header_predicates() {
    for n in ["host", "connection", "transfer-encoding", "keep-alive", "upgrade", "proxy-authenticate", "proxy-authorization", "te", "trailers"] {
        assert!(!forward_response_header(n));
        assert!(!forward_raw_header(n));
        assert!(!forward_request_header(n, false));
    }
    assert!(forward_raw_header("content-length"));
    assert!(!forward_raw_header("x-shadow-request-id"));
    assert!(!forward_request_header("content-length", false));
    assert!(forward_request_header("x-api-key", false));
    assert!(!forward_request_header("x-api-key", true));
    assert!(forward_response_header("x-request-id"));
}

#[test]
fn statuses() {
    assert_eq!(upstream_error_status(true), 504);
    assert_eq!(upstream_error_status(false), 502);
    assert_eq!(client_status(200), 200);
    assert_eq!(client_status(999), 999);
    assert_eq!(client_status(42), 502);
    assert_eq!(client_status(1000), 502);
}

#[test]
fn urls_and_hosts() {
    assert_eq!(messages_url("http://mock"), "http://mock/v1/messages");
    assert_eq!(fallback_url("https://a.b", "/v1/models", Some("x=1")), "https://a.b/v1/models?x=1");
    assert_eq!(fallback_url("https://a.b", "/v1/models", None), "https://a.b/v1/models");
    assert_eq!(upstream_host("https://api.anthropic.com/v1/messages"), "api.anthropic.com");
    assert_eq!(upstream_host("http://mock:8080"), "mock:8080");
    assert_eq!(upstream_host("https://https://x/y"), "x");
}

#[test]
fn routing_by_mode() {
    assert_eq!(route_messages(ProxyMode::TargetOnly, false), MessagesRoute::Target);
    assert_eq!(route_messages(ProxyMode::Compare, false), MessagesRoute::CompareThenPassthrough);
    assert_eq!(route_messages(ProxyMode::AnthropicOnly, false), MessagesRoute::Forbidden);
    assert_eq!(route_messages(ProxyMode::AnthropicOnly, true), MessagesRoute::Passthrough);
    assert!(!fallback_forwards(ProxyMode::TargetOnly));
    assert!(fallback_forwards(ProxyMode::Compare));
    assert_eq!(initial_mode("compare"), ProxyMode::Compare);
    assert_eq!(initial_mode("bogus"), ProxyMode::TargetOnly);
}

#[test]
fn anthropic_only_gated_scenario() {
    let payload = decode_json(br#"{"mode":"anthropic-only"}"#).unwrap();
    let err = decide_set_mode(&payload, false).unwrap_err();
    assert_eq!(err, AdminError::AnthropicOnlyDisabled);
    assert_eq!(err.status(), 403);
    assert!(err.message().contains("--allow-anthropic-only"));
    assert_eq!(decide_set_mode(&payload, true), Ok(ProxyMode::AnthropicOnly));
    let bad = decode_json(br#"{"mode":"sideways"}"#).unwrap();
    assert_eq!(decide_set_mode(&bad, true), Err(AdminError::InvalidMode));
    assert_eq!(AdminError::InvalidMode.status(), 400);
    let none = decode_json(br#"{}"#).unwrap();
    assert_eq!(decide_set_mode(&none, true), Err(AdminError::MissingMode));
    assert_eq!(route_messages(ProxyMode::AnthropicOnly, false), MessagesRoute::Forbidden);
}

#[test]
fn tracing_toggle_payloads() {
    assert_eq!(decide_set_tracing(&decode_json(br#"{"enabled":false}"#).unwrap()), Ok(false));
    assert_eq!(decide_set_tracing(&decode_json(br#"{"enabled":"yes"}"#).unwrap()), Err(AdminError::MissingEnabled));
}

#[test]
fn model_and_stream_defaults() {
    let doc = decode_json(br#"{"model":"m","stream":true}"#).unwrap();
    assert_eq!(request_model_and_stream(Some(&doc)), ("m".to_string(), true));
    assert_eq!(request_model_and_stream(None), ("unknown".to_string(), false));
}

#[test]
fn compare_usage_reads_tokens() {
    assert_eq!(compare_usage(br#"{"usage":{"input_tokens":3,"output_tokens":1}}"#), Some((Some(3), Some(1))));
    assert_eq!(compare_usage(br#"{"x":1}"#), None);
    assert_eq!(compare_usage(b"oops"), None);
}

#[test]
fn runtime_mode_reads_back_stored_mode() {
    let m = RuntimeMode::new(ProxyMode::Compare);
    assert_eq!(m.get(), ProxyMode::Compare);
    let shared = m.clone();
    shared.set(ProxyMode::AnthropicOnly);
    assert_eq!(m.get(), ProxyMode::AnthropicOnly);
    assert_eq!(ProxyMode::from_u8(7), ProxyMode::Compare);
    assert_eq!(ProxyMode::TargetOnly.name(), "target");
}

#[test]
fn correlation_ids_are_fresh() {
    let a = generate_id();
    let b = generate_id();
    assert_eq!(a.len(), 36);
    assert_ne!(a, b);
}

use cc_proxy::usage::estimate_input_tokens;

#[test]
fn token_estimate_is_a_quarter_of_content_bytes() {
    let body = br#"{"messages":[{"role":"user","content":"abcdefgh"},{"role":"user","content":[{"type":"text","text":"ignored"}]},{"role":"assistant","content":"1234"}]}"#;
    assert_eq!(estimate_input_tokens(body), 3);
    assert_eq!(estimate_input_tokens(b"not json"), 25);
    assert_eq!(estimate_input_tokens(br#"{"model":"m"}"#), 25);
}

#[test]
fn rewrite_keeps_member_bytes_verbatim() {
    let body = b"{ \"model\" : \"orig\",\n  \"extra\": {\"a\": 1.50, \"s\": \"\\u00e9\"} , \"max_tokens\": null }";
    let out = rewrite_text(body, Some("new")).unwrap();
    assert_eq!(
        out,
        "{\"model\":\"new\",\n  \"extra\": {\"a\": 1.50, \"s\": \"\\u00e9\"} ,\"max_tokens\":65536}"
    );
}

#[test]
fn rewrite_of_empty_object_adds_members() {
    assert_eq!(rewrite_text(b"{ }", Some("m")).unwrap(), "{ \"model\":\"m\",\"max_tokens\":65536}");
    assert_eq!(rewrite_text(b"{}", None).unwrap(), "{\"max_tokens\":65536}");
}

#[test]
fn commas_and_braces_inside_strings_do_not_split_members() {
    let body = br#"{"a":"x,}\"y","model":"m","n":[{"k":","}]}"#;
    let out = rewrite_text(body, Some("z")).unwrap();
    assert_eq!(out, r#"{"a":"x,}\"y","model":"z","n":[{"k":","}],"max_tokens":65536}"#);
}

#[test]
fn correlation_id_has_uuid_v4_form() {
    let id = generate_id();
    for (i, c) in id.chars().enumerate() {
        if [8, 13, 18, 23].contains(&i) {
            assert_eq!(c, '-');
        } else {
            assert!(c.is_ascii_digit() || ('a'..='f').contains(&c));
        }
    }
    assert_eq!(id.chars().nth(14), Some('4'));
}
