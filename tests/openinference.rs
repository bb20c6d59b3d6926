use cc_proxy::attributes::{response_attributes, AttrValue, SpanAttribute};
use cc_proxy::json::decode_json;
use cc_proxy::request_attrs::request_attributes;
use cc_proxy::telemetry::{set_request_attributes, set_response_attributes};

fn find<'a>(attrs: &'a [SpanAttribute], key: &str) -> Option<&'a AttrValue> {
    attrs.iter().find(|a| a.key == key).map(|a| &a.value)
}

fn str_of(attrs: &[SpanAttribute], key: &str) -> Option<String> {
    match find(attrs, key) {
        Some(AttrValue::Str(s)) => Some(s.clone()),
        _ => None,
    }
}

fn int_of(attrs: &[SpanAttribute], key: &str) -> Option<i64> {
    match find(attrs, key) {
        Some(AttrValue::Int(i)) => Some(*i),
        _ => None,
    }
}

const NONSTREAMING_BODY: &[u8] = br#"{
            "id": "msg_123",
            "type": "message",
            "role": "assistant",
            "content": [
                {"type": "text", "text": "Hello!"},
                {"type": "tool_use", "id": "t1", "name": "bash", "input": {"cmd": "ls"}}
            ],
            "usage": {"input_tokens": 100, "output_tokens": 50}
        }"#;

const STREAMING_BODY: &[u8] = b"event: message_start\ndata: {\"type\":\"message_start\",\"message\":{\"id\":\"msg_1\",\"role\":\"assistant\",\"usage\":{\"input_tokens\":25}}}\n\nevent: content_block_start\ndata: {\"type\":\"content_block_start\",\"index\":0,\"content_block\":{\"type\":\"text\",\"text\":\"\"}}\n\nevent: content_block_delta\ndata: {\"type\":\"content_block_delta\",\"index\":0,\"delta\":{\"type\":\"text_delta\",\"text\":\"Hello\"}}\n\nevent: content_block_delta\ndata: {\"type\":\"content_block_delta\",\"index\":0,\"delta\":{\"type\":\"text_delta\",\"text\":\" world\"}}\n\nevent: message_delta\ndata: {\"type\":\"message_delta\",\"delta\":{\"stop_reason\":\"end_turn\"},\"usage\":{\"output_tokens\":10}}\n\n";

const STREAMING_TOOL_BODY: &[u8] = b"event: message_start\ndata: {\"type\":\"message_start\",\"message\":{\"id\":\"msg_1\",\"role\":\"assistant\",\"usage\":{\"input_tokens\":50}}}\n\nevent: content_block_start\ndata: {\"type\":\"content_block_start\",\"index\":0,\"content_block\":{\"type\":\"tool_use\",\"id\":\"t1\",\"name\":\"bash\"}}\n\nevent: content_block_delta\ndata: {\"type\":\"content_block_delta\",\"index\":0,\"delta\":{\"type\":\"input_json_delta\",\"partial_json\":\"{\\\"cmd\\\": \"}}\n\nevent: content_block_delta\ndata: {\"type\":\"content_block_delta\",\"index\":0,\"delta\":{\"type\":\"input_json_delta\",\"partial_json\":\"\\\"ls\\\"}\"}}\n\nevent: message_delta\ndata: {\"type\":\"message_delta\",\"delta\":{\"stop_reason\":\"tool_use\"},\"usage\":{\"output_tokens\":20}}\n\n";

#[test]
fn openinference_test_set_request_attributes_no_panic() {
    let json = r#"{
            "model": "sonnet-model",
            "max_tokens": 8096,
            "system": "Be helpful",
            "messages": [
                {"role": "user", "content": "Hello"},
                {"role": "assistant", "content": [
                    {"type": "text", "text": "Hi there!"},
                    {"type": "tool_use", "id": "t1", "name": "bash", "input": {"cmd": "ls"}}
                ]}
            ],
            "tools": [{"name": "bash", "description": "Run bash", "input_schema": {"type": "object"}}],
            "temperature": 0.7,
            "top_p": 0.9,
            "stream": true
        }"#;
    let req = decode_json(json.as_bytes()).unwrap();
    let span = tracing::Span::none();
    set_request_attributes(&span, &req);
}

#[test]
fn test_request_with_unknown_content_blocks() {
    let json = r#"{
            "model": "opus-model",
            "max_tokens": 16384,
            "system": [{"type": "text", "text": "You are helpful."}],
            "messages": [
                {"role": "user", "content": "Hello"},
                {"role": "assistant", "content": [
                    {"type": "thinking", "thinking": "Let me consider..."},
                    {"type": "text", "text": "Hi!"},
                    {"type": "server_tool_use", "id": "st1", "name": "web_search", "input": {}}
                ]},
                {"role": "user", "content": [
                    {"type": "tool_result", "tool_use_id": "st1", "content": "results here"},
                    {"type": "text", "text": "What did you find?"}
                ]}
            ],
            "stream": true
        }"#;
    let req = decode_json(json.as_bytes()).unwrap();
    let span = tracing::Span::none();
    set_request_attributes(&span, &req);
}

#[test]
fn test_system_prompt_as_blocks() {
    let json = r#"{
            "model": "test",
            "max_tokens": 100,
            "system": [
                {"type": "text", "text": "Block one"},
                {"type": "text", "text": "Block two"}
            ],
            "messages": [{"role": "user", "content": "Hi"}]
        }"#;
    let req = decode_json(json.as_bytes()).unwrap();
    let span = tracing::Span::none();
    set_request_attributes(&span, &req);
    let attrs = request_attributes(&req);
    assert_eq!(str_of(&attrs, "llm.input_messages.0.message.role").as_deref(), Some("system"));
    assert_eq!(
        str_of(&attrs, "llm.input_messages.0.message.content").as_deref(),
        Some("Block one\nBlock two")
    );
    assert_eq!(str_of(&attrs, "llm.input_messages.1.message.role").as_deref(), Some("user"));
    assert_eq!(str_of(&attrs, "llm.input_messages.1.message.content").as_deref(), Some("Hi"));
}

#[test]
fn openinference_test_set_nonstreaming_response_no_panic() {
    let span = tracing::Span::none();
    set_response_attributes(&span, NONSTREAMING_BODY, false);
}

#[test]
fn openinference_test_set_streaming_response_no_panic() {
    let span = tracing::Span::none();
    set_response_attributes(&span, STREAMING_BODY, true);
}

#[test]
fn openinference_test_streaming_tool_use_no_panic() {
    let span = tracing::Span::none();
    set_response_attributes(&span, STREAMING_TOOL_BODY, true);
}

#[test]
fn openinference_test_invalid_json_response_no_panic() {
    let body = b"not json at all";
    let span = tracing::Span::none();
    set_response_attributes(&span, body, false);
    assert!(response_attributes(body, false).is_empty());
}

#[test]
fn openinference_test_invalid_sse_events_no_panic() {
    let body = b"event: message_start\ndata: {bad json}\n\nevent: content_block_delta\ndata: also bad\n\n";
    let span = tracing::Span::none();
    set_response_attributes(&span, body, true);
    let attrs = response_attributes(body, true);
    assert_eq!(attrs.len(), 1);
    assert_eq!(attrs[0].key, "output.value");
}

#[test]
fn nonstreaming_response_attribute_values() {
    let attrs = response_attributes(NONSTREAMING_BODY, false);
    assert_eq!(
        str_of(&attrs, "output.value").as_deref(),
        Some(std::str::from_utf8(NONSTREAMING_BODY).unwrap())
    );
    assert_eq!(str_of(&attrs, "llm.output_messages.0.message.role").as_deref(), Some("assistant"));
    assert_eq!(str_of(&attrs, "llm.output_messages.0.message.content").as_deref(), Some("Hello!"));
    assert_eq!(
        str_of(&attrs, "llm.output_messages.0.message.tool_calls.0.tool_call.function.name").as_deref(),
        Some("bash")
    );
    assert_eq!(
        str_of(&attrs, "llm.output_messages.0.message.tool_calls.0.tool_call.function.arguments")
            .as_deref(),
        Some("{\"cmd\":\"ls\"}")
    );
    assert_eq!(int_of(&attrs, "llm.token_count.prompt"), Some(100));
    assert_eq!(int_of(&attrs, "llm.token_count.completion"), Some(50));
}

#[test]
fn streaming_text_is_reassembled() {
    let attrs = response_attributes(STREAMING_BODY, true);
    assert_eq!(str_of(&attrs, "llm.output_messages.0.message.role").as_deref(), Some("assistant"));
    assert_eq!(
        str_of(&attrs, "llm.output_messages.0.message.content").as_deref(),
        Some("Hello world")
    );
    assert_eq!(int_of(&attrs, "llm.token_count.prompt"), Some(25));
    assert_eq!(int_of(&attrs, "llm.token_count.completion"), Some(10));
}

#[test]
fn streaming_tool_use_extraction_scenario() {
    let attrs = response_attributes(STREAMING_TOOL_BODY, true);
    assert_eq!(int_of(&attrs, "llm.token_count.prompt"), Some(50));
    assert_eq!(int_of(&attrs, "llm.token_count.completion"), Some(20));
    assert_eq!(
        str_of(&attrs, "llm.output_messages.0.message.tool_calls.0.tool_call.function.name").as_deref(),
        Some("bash")
    );
    assert_eq!(
        str_of(&attrs, "llm.output_messages.0.message.tool_calls.0.tool_call.function.arguments")
            .as_deref(),
        Some("{\"cmd\": \"ls\"}")
    );
    assert!(find(&attrs, "llm.output_messages.0.message.content").is_none());
}

#[test]
fn streaming_non_utf8_sets_nothing() {
    let body = [0xffu8, 0xfe, b'\n', b'\n'];
    assert!(response_attributes(&body, true).is_empty());
}

#[test]
fn request_attribute_values() {
    let json = r#"{"model":"m","max_tokens":8,"temperature":0.5,"messages":[{"role":"user","content":[{"type":"text","text":"a"},{"type":"tool_result","tool_use_id":"x","content":"b"},{"type":"tool_use","id":"t","name":"bash","input":{"k":1}}]}],"tools":[{"name":"bash","input_schema":{}}]}"#;
    let req = decode_json(json.as_bytes()).unwrap();
    let attrs = request_attributes(&req);
    assert_eq!(str_of(&attrs, "openinference.span.kind").as_deref(), Some("LLM"));
    assert_eq!(str_of(&attrs, "llm.system").as_deref(), Some("anthropic"));
    assert_eq!(str_of(&attrs, "llm.model_name").as_deref(), Some("m"));
    assert_eq!(
        str_of(&attrs, "llm.invocation_parameters").as_deref(),
        Some("{\"max_tokens\":8,\"temperature\":0.5}")
    );
    assert_eq!(str_of(&attrs, "llm.input_messages.0.message.content").as_deref(), Some("a\nb"));
    assert_eq!(
        str_of(&attrs, "llm.input_messages.0.message.tool_calls.0.tool_call.function.arguments")
            .as_deref(),
        Some("{\"k\":1}")
    );
    assert_eq!(
        str_of(&attrs, "llm.tools.0.tool.json_schema").as_deref(),
        Some("{\"name\":\"bash\",\"input_schema\":{}}")
    );
    assert!(str_of(&attrs, "input.value").unwrap().starts_with("[{\"role\":\"user\""));
}

use cc_proxy::shadow_attrs::{
    chat_request_attributes, chat_response_attributes, set_shadow_request_attributes,
    set_shadow_response_attributes,
};

#[test]
fn test_shadow_request_attributes_no_panic() {
    let json = r#"{
            "model": "deepseek-v3.2",
            "messages": [
                {"role": "system", "content": "You are helpful."},
                {"role": "user", "content": "Hello"},
                {"role": "assistant", "content": "Hi!", "tool_calls": [
                    {"id": "t1", "type": "function", "function": {"name": "bash", "arguments": "{\"cmd\":\"ls\"}"}}
                ]},
                {"role": "tool", "content": "file1.rs", "tool_call_id": "t1"},
                {"role": "user", "content": "What did you find?"}
            ],
            "max_completion_tokens": 32000,
            "stream": false,
            "tools": [{"type": "function", "function": {"name": "bash", "description": "Run bash", "parameters": {}}}]
        }"#;
    let req = decode_json(json.as_bytes()).unwrap();
    let span = tracing::Span::none();
    set_shadow_request_attributes(&span, &req);
    let attrs = chat_request_attributes(&req);
    assert_eq!(
        str_of(&attrs, "llm.input_messages.2.message.tool_calls.0.tool_call.function.arguments").as_deref(),
        Some("{\"cmd\":\"ls\"}")
    );
    assert_eq!(
        str_of(&attrs, "llm.invocation_parameters").as_deref(),
        Some("{\"max_completion_tokens\":32000}")
    );
    assert_eq!(str_of(&attrs, "llm.input_messages.3.message.role").as_deref(), Some("tool"));
}

#[test]
fn test_shadow_response_attributes_no_panic() {
    let body = r#"{
            "id": "chatcmpl-123",
            "object": "chat.completion",
            "choices": [{
                "index": 0,
                "message": {
                    "role": "assistant",
                    "content": "Hello!"
                },
                "finish_reason": "stop"
            }],
            "usage": {"prompt_tokens": 100, "completion_tokens": 10, "total_tokens": 110}
        }"#;
    let span = tracing::Span::none();
    set_shadow_response_attributes(&span, body);
    let attrs = chat_response_attributes(body);
    assert_eq!(str_of(&attrs, "llm.output_messages.0.message.content").as_deref(), Some("Hello!"));
    assert_eq!(int_of(&attrs, "llm.token_count.prompt"), Some(100));
    assert_eq!(int_of(&attrs, "llm.token_count.completion"), Some(10));
}

#[test]
fn test_shadow_response_with_tool_calls_no_panic() {
    let body = r#"{
            "id": "chatcmpl-456",
            "choices": [{
                "message": {
                    "role": "assistant",
                    "tool_calls": [{
                        "id": "call_1",
                        "type": "function",
                        "function": {"name": "bash", "arguments": "{\"cmd\":\"ls\"}"}
                    }]
                },
                "finish_reason": "tool_calls"
            }],
            "usage": {"prompt_tokens": 50, "completion_tokens": 20, "total_tokens": 70}
        }"#;
    let span = tracing::Span::none();
    set_shadow_response_attributes(&span, body);
    let attrs = chat_response_attributes(body);
    assert_eq!(
        str_of(&attrs, "llm.output_messages.0.message.tool_calls.0.tool_call.function.name").as_deref(),
        Some("bash")
    );
}

#[test]
fn test_shadow_response_invalid_json_no_panic() {
    let span = tracing::Span::none();
    set_shadow_response_attributes(&span, "not json");
    assert!(chat_response_attributes("not json").is_empty());
}

#[test]
fn empty_stream_sets_only_output_value() {
    let attrs = response_attributes(b"", true);
    assert_eq!(attrs.len(), 1);
    assert_eq!(str_of(&attrs, "output.value").as_deref(), Some(""));
}

#[test]
fn delta_for_missing_block_is_ignored() {
    let body = b"event: content_block_delta\ndata: {\"index\":3,\"delta\":{\"type\":\"text_delta\",\"text\":\"x\"}}\n\n";
    let attrs = response_attributes(body, true);
    assert!(str_of(&attrs, "llm.output_messages.0.message.content").is_none());
}

#[test]
fn crlf_lines_and_trailing_spaces_are_trimmed() {
    let body = b"event: message_start \r\ndata: {\"message\":{\"role\":\"assistant\",\"usage\":{\"input_tokens\":4}}} \r\n\n";
    let attrs = response_attributes(body, true);
    assert_eq!(int_of(&attrs, "llm.token_count.prompt"), Some(4));
}

#[test]
fn blocks_are_keyed_by_start_index() {
    let body = b"event: content_block_start\ndata: {\"index\":1,\"content_block\":{\"type\":\"text\",\"text\":\"\"}}\n\nevent: content_block_delta\ndata: {\"index\":1,\"delta\":{\"type\":\"text_delta\",\"text\":\"late\"}}\n\nevent: content_block_start\ndata: {\"index\":0,\"content_block\":{\"type\":\"text\",\"text\":\"\"}}\n\nevent: content_block_delta\ndata: {\"index\":0,\"delta\":{\"type\":\"text_delta\",\"text\":\"early \"}}\n\n";
    let attrs = response_attributes(body, true);
    assert_eq!(
        str_of(&attrs, "llm.output_messages.0.message.content").as_deref(),
        Some("early late")
    );
}

#[test]
fn first_input_token_count_is_kept() {
    let body = b"event: message_start\ndata: {\"message\":{\"usage\":{\"input_tokens\":5}}}\n\nevent: message_start\ndata: {\"message\":{\"usage\":{\"input_tokens\":9}}}\n\n";
    let attrs = response_attributes(body, true);
    assert_eq!(int_of(&attrs, "llm.token_count.prompt"), Some(5));
}
