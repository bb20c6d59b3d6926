use cc_proxy::convert::anthropic_to_openai;
use cc_proxy::json::{decode_json, to_text, Json};

fn parse(text: &str) -> Json {
    decode_json(text.as_bytes()).unwrap()
}

fn simple(extra: &str) -> Json {
    parse(&format!(
        r#"{{"model":"sonnet-model","max_tokens":1024,"messages":[{{"role":"user","content":"Hello!"}}],"stream":true{extra}}}"#
    ))
}

fn s<'a>(j: Option<&'a Json>) -> Option<&'a str> {
    j.and_then(|v| v.as_str()).map(|x| x.as_str())
}

fn msgs(oai: &Json) -> &Vec<Json> {
    oai.get("messages").unwrap().as_array().unwrap()
}

#[test]
fn anthropic_to_openai_test_simple_conversion() {
    let oai = anthropic_to_openai(&simple(""));
    assert_eq!(s(oai.get("model")), Some("sonnet-model"));
    assert_eq!(oai.get("max_completion_tokens").unwrap().as_u64(), Some(1024));
    assert_eq!(oai.get("stream").unwrap().as_bool(), Some(false));
    assert_eq!(msgs(&oai).len(), 1);
    assert_eq!(s(msgs(&oai)[0].get("role")), Some("user"));
    assert_eq!(s(msgs(&oai)[0].get("content")), Some("Hello!"));
}

#[test]
fn test_system_prompt_string() {
    let oai = anthropic_to_openai(&simple(r#","system":"You are helpful.""#));
    let m = msgs(&oai);
    assert_eq!(m.len(), 2);
    assert_eq!(s(m[0].get("role")), Some("system"));
    assert_eq!(s(m[0].get("content")), Some("You are helpful."));
    assert_eq!(s(m[1].get("role")), Some("user"));
}

#[test]
fn test_system_prompt_prepended() {
    let oai = anthropic_to_openai(&simple(r#","system":"You are helpful.""#));
    let m = msgs(&oai);
    assert_eq!(m.len(), 2);
    assert_eq!(s(m[0].get("role")), Some("system"));
    assert_eq!(s(m[0].get("content")), Some("You are helpful."));
    assert_eq!(s(m[1].get("role")), Some("user"));
}

#[test]
fn test_system_prompt_blocks() {
    let oai = anthropic_to_openai(&simple(
        r#","system":[{"type":"text","text":"Block one"},{"type":"text","text":"Block two"}]"#,
    ));
    let m = msgs(&oai);
    assert_eq!(s(m[0].get("role")), Some("system"));
    assert_eq!(s(m[0].get("content")), Some("Block one\nBlock two"));
}

#[test]
fn anthropic_to_openai_test_tool_use_conversion() {
    let req = parse(
        r#"{
            "model": "test",
            "max_tokens": 100,
            "messages": [
                {"role": "user", "content": "Weather?"},
                {"role": "assistant", "content": [
                    {"type": "tool_use", "id": "tool_123", "name": "get_weather", "input": {"location": "SF"}}
                ]},
                {"role": "user", "content": [
                    {"type": "tool_result", "tool_use_id": "tool_123", "content": "72F and sunny"}
                ]}
            ]
        }"#,
    );
    let oai = anthropic_to_openai(&req);
    let m = msgs(&oai);
    assert_eq!(m.len(), 3);
    assert_eq!(s(m[0].get("role")), Some("user"));
    assert_eq!(s(m[1].get("role")), Some("assistant"));
    let calls = m[1].get("tool_calls").unwrap().as_array().unwrap();
    assert_eq!(s(calls[0].get("function").unwrap().get("name")), Some("get_weather"));
    assert_eq!(
        s(calls[0].get("function").unwrap().get("arguments")),
        Some("{\"location\":\"SF\"}")
    );
    assert_eq!(s(m[2].get("role")), Some("tool"));
    assert_eq!(s(m[2].get("tool_call_id")), Some("tool_123"));
    assert_eq!(s(m[2].get("content")), Some("72F and sunny"));
}

#[test]
fn anthropic_to_openai_test_tools_and_tool_choice_conversion() {
    let oai = anthropic_to_openai(&simple(
        r#","tools":[{"name":"get_weather","description":"Get weather info","input_schema":{"type":"object","properties":{"location":{"type":"string"}},"required":["location"]}}],"tool_choice":{"type":"auto"}"#,
    ));
    let tools = oai.get("tools").unwrap().as_array().unwrap();
    assert_eq!(s(tools[0].get("function").unwrap().get("name")), Some("get_weather"));
    assert_eq!(s(oai.get("tool_choice")), Some("auto"));
    assert_eq!(
        to_text(tools[0].get("function").unwrap().get("parameters").unwrap()),
        r#"{"type":"object","properties":{"location":{"type":"string"}},"required":["location"]}"#
    );
}

#[test]
fn anthropic_to_openai_test_named_tool_choice() {
    let oai = anthropic_to_openai(&simple(r#","tool_choice":{"type":"tool","name":"search"}"#));
    let tc = oai.get("tool_choice").unwrap();
    assert_eq!(s(tc.get("type")), Some("function"));
    assert_eq!(s(tc.get("function").unwrap().get("name")), Some("search"));
}

#[test]
fn tool_choice_any_becomes_required() {
    let oai = anthropic_to_openai(&simple(r#","tool_choice":{"type":"any"}"#));
    assert_eq!(s(oai.get("tool_choice")), Some("required"));
}

#[test]
fn anthropic_to_openai_test_stop_sequences() {
    let oai = anthropic_to_openai(&simple(r#","stop_sequences":["STOP","END"]"#));
    let stop = oai.get("stop").unwrap().as_array().unwrap();
    assert_eq!(stop.len(), 2);
    assert_eq!(s(Some(&stop[0])), Some("STOP"));
}

#[test]
fn anthropic_to_openai_test_optional_params() {
    let oai = anthropic_to_openai(&simple(r#","temperature":0.7,"top_p":0.9"#));
    let temp: f64 = to_text(oai.get("temperature").unwrap()).parse().unwrap();
    assert!((temp - 0.7).abs() < 0.001, "temperature: {temp}");
    let top_p: f64 = to_text(oai.get("top_p").unwrap()).parse().unwrap();
    assert!((top_p - 0.9).abs() < 0.001, "top_p: {top_p}");
}

#[test]
fn anthropic_to_openai_test_image_block_placeholder() {
    let req = parse(
        r#"{"model":"test","max_tokens":100,"messages":[{"role":"user","content":[{"type":"text","text":"Look at this: "},{"type":"image","source":{"type":"base64","media_type":"image/png","data":"abc123"}}]}]}"#,
    );
    let oai = anthropic_to_openai(&req);
    assert_eq!(s(msgs(&oai)[0].get("content")), Some("Look at this: [image]"));
}

#[test]
fn test_unknown_block_types_skipped() {
    let req = parse(
        r#"{"model":"test","max_tokens":100,"messages":[
            {"role":"user","content":[{"type":"text","text":"Hello"},{"type":"citations","citations":[]},{"type":"text","text":" world"}]},
            {"role":"assistant","content":[{"type":"thinking","thinking":"let me think..."},{"type":"text","text":"Here is my answer"},{"type":"server_tool_use","id":"st_1","name":"web_search"}]}
        ]}"#,
    );
    let oai = anthropic_to_openai(&req);
    let m = msgs(&oai);
    assert_eq!(s(m[0].get("content")), Some("Hello world"));
    assert_eq!(s(m[1].get("role")), Some("assistant"));
    assert_eq!(s(m[1].get("content")), Some("Here is my answer"));
}

#[test]
fn test_tool_result_with_array_content() {
    let req = parse(
        r#"{"model":"test","max_tokens":100,"messages":[{"role":"user","content":[{"type":"tool_result","tool_use_id":"tool_1","content":[{"type":"text","text":"Result line 1"},{"type":"text","text":"Result line 2"}]}]}]}"#,
    );
    let oai = anthropic_to_openai(&req);
    let m = msgs(&oai);
    assert_eq!(s(m[0].get("role")), Some("tool"));
    assert_eq!(s(m[0].get("content")), Some("Result line 1Result line 2"));
}

#[test]
fn defaults_for_missing_model_and_max_tokens() {
    let oai = anthropic_to_openai(&parse(r#"{"messages":[]}"#));
    assert_eq!(
        to_text(&oai),
        r#"{"model":"unknown","messages":[],"max_completion_tokens":4096,"stream":false}"#
    );
}

use cc_proxy::convert::is_quota_check;

fn multi_turn_request() -> Json {
    parse(
        r#"{
            "model": "sonnet-model",
            "max_tokens": 8096,
            "system": "You are a coding assistant.",
            "stream": true,
            "messages": [
                {"role": "user", "content": "What files are in src?"},
                {"role": "assistant", "content": [
                    {"type": "text", "text": "Let me check."},
                    {"type": "tool_use", "id": "t1", "name": "list_files", "input": {"path": "src"}}
                ]},
                {"role": "user", "content": [
                    {"type": "tool_result", "tool_use_id": "t1", "content": "main.rs\nlib.rs"}
                ]},
                {"role": "assistant", "content": [
                    {"type": "text", "text": "Found main.rs and lib.rs."}
                ]},
                {"role": "user", "content": "Read main.rs"},
                {"role": "assistant", "content": [
                    {"type": "tool_use", "id": "t2", "name": "read_file", "input": {"path": "src/main.rs"}}
                ]},
                {"role": "user", "content": [
                    {"type": "tool_result", "tool_use_id": "t2", "content": "fn main() {}"}
                ]}
            ],
            "tools": [
                {"name": "list_files", "description": "List files", "input_schema": {"type": "object"}},
                {"name": "read_file", "description": "Read a file", "input_schema": {"type": "object"}}
            ]
        }"#,
    )
}

#[test]
fn test_shadow_dispatch_preserves_full_history() {
    let req = multi_turn_request();
    let bytes = to_text(&req);
    let oai = anthropic_to_openai(&decode_json(bytes.as_bytes()).expect("conversion should succeed"));
    let m = msgs(&oai);
    assert_eq!(m.len(), 8, "Shadow request must include full history. Got {} messages", m.len());
    let roles: Vec<&str> = m.iter().map(|x| s(x.get("role")).unwrap()).collect();
    assert_eq!(
        roles,
        vec!["system", "user", "assistant", "tool", "assistant", "user", "assistant", "tool"]
    );
}

#[test]
fn test_shadow_dispatch_message_count_matches_input() {
    let req = multi_turn_request();
    let input_msg_count = req.get("messages").unwrap().as_array().unwrap().len();
    let oai = anthropic_to_openai(&req);
    assert_eq!(msgs(&oai).len(), input_msg_count + 1);
}

#[test]
fn test_quota_check_skipped() {
    let req = parse(r#"{"model":"sonnet-model","max_tokens":16,"messages":[{"role":"user","content":"hi"}]}"#);
    assert!(is_quota_check(&req));
}

#[test]
fn test_multi_turn_not_quota_check() {
    let req = multi_turn_request();
    assert!(!is_quota_check(&req));
}

use cc_proxy::convert::{bearer_header, shadow_only_body, shadow_request_bodies, ShadowOnlyError};

#[test]
fn mirror_bodies_one_per_model() {
    let bytes = to_text(&multi_turn_request());
    let models = vec!["m-a".to_string(), "m-b".to_string()];
    let bodies = shadow_request_bodies(bytes.as_bytes(), &models).unwrap();
    assert_eq!(bodies.len(), 2);
    assert_eq!(s(bodies[0].get("model")), Some("m-a"));
    assert_eq!(s(bodies[1].get("model")), Some("m-b"));
    assert_eq!(msgs(&bodies[1]).len(), 8);
    let quota = br#"{"model":"x","max_tokens":16,"messages":[{"role":"user","content":"hi"}]}"#;
    assert!(shadow_request_bodies(quota, &models).is_none());
    assert!(shadow_request_bodies(b"{", &models).is_none());
}

#[test]
fn shadow_only_body_choices() {
    let bytes = to_text(&multi_turn_request());
    assert_eq!(shadow_only_body(b"nope", &vec!["m".to_string()]).unwrap_err(), ShadowOnlyError::InvalidJson);
    assert_eq!(shadow_only_body(bytes.as_bytes(), &Vec::new()).unwrap_err(), ShadowOnlyError::NoModels);
    let body = shadow_only_body(bytes.as_bytes(), &vec!["first".to_string(), "second".to_string()]).unwrap();
    assert_eq!(s(body.get("model")), Some("first"));
}

#[test]
fn bearer_only_with_key() {
    assert_eq!(bearer_header(""), None);
    assert_eq!(bearer_header("SECRET-REDACTED"), Some("Bearer SECRET-REDACTED".to_string()));
}
