use papr::ai::{
    chat_request, extract_delta, extract_error, handle_sse_line, read_frame, AiConfig, AiEvent,
    Frame, LineOutcome, Provider,
};
use papr::error::AppError;
use papr::json::{parse_json, Json};

const STOCK_MODEL: &str = "stock-model-1";

fn document(text: &str) -> Json {
    parse_json(text).expect("a JSON document")
}

fn text(s: &str) -> Json {
    Json::Text(s.to_string())
}

fn record(fields: Vec<(&str, Json)>) -> Json {
    Json::Record(fields.into_iter().map(|(k, v)| (k.to_string(), v)).collect())
}

fn content_chunk(content: &str) -> Json {
    let delta = record(vec![("content", text(content))]);
    record(vec![("choices", Json::List(vec![record(vec![("delta", delta)])]))])
}

#[test]
fn openai_null_error_field_is_not_an_error() {
    let delta = record(vec![("content", text("hello"))]);
    let chunk = record(vec![
        ("choices", Json::List(vec![record(vec![("delta", delta)])])),
        ("error", Json::Null),
    ]);
    assert_eq!(extract_error(&chunk, Provider::OpenAi), None);
    assert_eq!(extract_delta(&chunk, Provider::OpenAi).as_deref(), Some("hello"));
}

#[test]
fn openai_real_error_object_is_surfaced() {
    let chunk = record(vec![("error", record(vec![("message", text("rate limit exceeded"))]))]);
    assert_eq!(extract_error(&chunk, Provider::OpenAi).as_deref(), Some("rate limit exceeded"));
}

#[test]
fn openai_error_object_without_message_falls_back() {
    let chunk = record(vec![("error", record(vec![("code", Json::Number("500".to_string()))]))]);
    assert_eq!(extract_error(&chunk, Provider::OpenAi).as_deref(), Some("stream error"));
}

#[test]
fn openai_plain_delta_chunk_has_no_error() {
    let chunk = content_chunk("x");
    assert_eq!(extract_error(&chunk, Provider::OpenAi), None);
}

#[test]
fn anthropic_error_event_is_surfaced() {
    let chunk = record(vec![
        ("type", text("error")),
        ("error", record(vec![("message", text("overloaded"))])),
    ]);
    assert_eq!(extract_error(&chunk, Provider::Anthropic).as_deref(), Some("overloaded"));
}

#[test]
fn anthropic_content_delta_is_not_an_error() {
    let chunk = record(vec![
        ("type", text("content_block_delta")),
        ("delta", record(vec![("type", text("text_delta")), ("text", text("world"))])),
    ]);
    assert_eq!(extract_error(&chunk, Provider::Anthropic), None);
    assert_eq!(extract_delta(&chunk, Provider::Anthropic).as_deref(), Some("world"));
}

#[test]
fn anthropic_other_events_carry_no_delta() {
    let chunk = document(r#"{"type":"message_start","delta":{"text":"no"}}"#);
    assert_eq!(extract_delta(&chunk, Provider::Anthropic), None);
    let bare = document(r#"{"type":"error"}"#);
    assert_eq!(extract_error(&bare, Provider::Anthropic).as_deref(), Some("stream error"));
}

#[test]
fn sse_line_forwards_a_delta() {
    let mut full = String::new();
    let line = "data: {\"choices\":[{\"delta\":{\"content\":\"hi\"}}]}\n";
    let out = handle_sse_line(line, Provider::OpenAi, &mut full).unwrap();
    match out {
        LineOutcome::Send(AiEvent::Delta(t)) => assert_eq!(t, "hi"),
        _ => panic!("the delta must be sent"),
    }
    assert_eq!(full, "hi");
}

#[test]
fn sse_line_ignores_non_data_and_done_lines() {
    let mut full = String::new();
    for line in [": keep-alive comment\n", "data: [DONE]\n", "\n"] {
        let out = handle_sse_line(line, Provider::OpenAi, &mut full).unwrap();
        assert!(matches!(out, LineOutcome::Continue));
    }
    assert!(full.is_empty());
}

#[test]
fn sse_line_surfaces_a_mid_stream_error() {
    let mut full = String::new();
    let line = "data: {\"error\":{\"message\":\"rate limited\"}}\n";
    match handle_sse_line(line, Provider::OpenAi, &mut full) {
        Ok(_) => panic!("the error must be surfaced"),
        Err(e) => assert!(e.message().contains("rate limited")),
    }
}

#[test]
fn sse_final_frame_without_trailing_newline_is_not_dropped() {
    let mut full = String::new();
    let last = "data: {\"choices\":[{\"delta\":{\"content\":\"!\"}}]}";
    let out = handle_sse_line(last, Provider::OpenAi, &mut full).unwrap();
    match out {
        LineOutcome::Send(AiEvent::Delta(t)) => assert_eq!(t, "!"),
        _ => panic!("the delta must be sent"),
    }
    assert_eq!(full, "!");
}

#[test]
fn sse_line_passes_over_a_payload_that_is_no_document() {
    let mut full = String::new();
    let out = handle_sse_line("data: {broken\n", Provider::OpenAi, &mut full).unwrap();
    assert!(matches!(out, LineOutcome::Continue));
    assert!(full.is_empty());
}

#[test]
fn frames_follow_from_the_document() {
    let delta = Some(content_chunk("a"));
    assert!(matches!(read_frame(&delta, Provider::OpenAi), Frame::Delta(t) if t == "a"));
    assert!(matches!(read_frame(&None, Provider::OpenAi), Frame::Ignored));
    let failed = Some(document(r#"{"error":{"message":"no"}}"#));
    assert!(matches!(read_frame(&failed, Provider::OpenAi), Frame::Failed(_)));
}

#[test]
fn documents_are_read_whole() {
    let doc = document(r#"{"a":[null,true,2.5,"s"],"b":{}}"#);
    let list = doc.get("a").unwrap();
    assert!(matches!(list.get_item(0), Some(Json::Null) | None));
    assert!(matches!(list.get_item(1), Some(Json::Bool(true))));
    assert!(matches!(list.get_item(2), Some(Json::Number(n)) if n == "2.5"));
    assert_eq!(list.get_item(3).unwrap().as_str(), Some("s"));
    assert!(doc.get("b").unwrap().is_record());
    assert!(doc.get("c").is_none());
    assert!(parse_json("{").is_none());
}

#[test]
fn config_trims_whitespace_off_a_pasted_api_key() {
    let cfg = AiConfig::new(
        Some("openai".into()),
        Some("  sk-abc123\n".into()),
        None,
        None,
        STOCK_MODEL,
    )
    .unwrap_or_else(|_| panic!("a key with surrounding whitespace is still a usable key"));
    assert_eq!(cfg.api_key, "sk-abc123");
}

#[test]
fn config_trims_whitespace_off_a_pasted_model_name() {
    let cfg = AiConfig::new(
        Some("anthropic".into()),
        Some("sk-key".into()),
        Some(" sonnet-4-6 ".into()),
        None,
        STOCK_MODEL,
    )
    .unwrap_or_else(|_| panic!("a usable configuration"));
    assert_eq!(cfg.model, "sonnet-4-6");
}

#[test]
fn config_rejects_a_whitespace_only_api_key() {
    match AiConfig::new(
        Some("openai".into()),
        Some("   \n".into()),
        None,
        None,
        STOCK_MODEL,
    ) {
        Ok(_) => panic!("a whitespace-only key must not be accepted"),
        Err(e) => assert!(e.message().contains("noAiKey")),
    }
}

#[test]
fn config_falls_back_to_the_default_model_for_a_blank_one() {
    let cfg = AiConfig::new(
        Some("openai".into()),
        Some("sk-key".into()),
        Some("  ".into()),
        None,
        STOCK_MODEL,
    )
    .unwrap_or_else(|_| panic!("a usable configuration"));
    assert_eq!(cfg.model, "gpt-4.1-mini");
}

#[test]
fn config_defaults_to_anthropic() {
    let cfg = AiConfig::new(None, Some("k".into()), None, None, STOCK_MODEL)
        .unwrap_or_else(|_| panic!("a usable configuration"));
    assert_eq!(cfg.provider, Provider::Anthropic);
    assert_eq!(cfg.model, STOCK_MODEL);
    assert_eq!(cfg.base_url, "https://api.anthropic.com/v1");
}

#[test]
fn config_drops_the_trailing_slash_of_the_base_url() {
    let cfg = AiConfig::new(
        Some("openai".into()),
        Some("k".into()),
        None,
        Some(" https://host.example/v1/ ".into()),
        STOCK_MODEL,
    )
    .unwrap_or_else(|_| panic!("a usable configuration"));
    assert_eq!(cfg.base_url, "https://host.example/v1");
}

#[test]
fn a_missing_key_is_a_localisable_error() {
    let missing = AiConfig::new(None, None, None, None, STOCK_MODEL);
    assert!(matches!(missing, Err(AppError::Code("noAiKey"))));
}

#[test]
fn requests_differ_by_provider() {
    let anthropic = AiConfig::new(None, Some("k".into()), None, None, STOCK_MODEL)
        .unwrap_or_else(|_| panic!("a usable configuration"));
    let r = chat_request(&anthropic, "sys", "hi", 7);
    assert_eq!(r.url, "https://api.anthropic.com/v1/messages");
    assert_eq!(r.headers[0], ("x-api-key".to_string(), "k".to_string()));
    assert_eq!(r.headers[1], ("anthropic-version".to_string(), "2023-06-01".to_string()));
    assert_eq!(r.bearer, None);
    assert_eq!(r.timeout_secs, 300);
    assert_eq!(r.body.get("system").unwrap().as_str(), Some("sys"));
    assert!(matches!(r.body.get("max_tokens"), Some(Json::Number(n)) if n == "7"));

    let openai = AiConfig::new(Some("openai".into()), Some("k".into()), None, None, STOCK_MODEL)
        .unwrap_or_else(|_| panic!("a usable configuration"));
    let r = chat_request(&openai, "sys", "hi", 7);
    assert_eq!(r.url, "https://api.openai.com/v1/chat/completions");
    assert_eq!(r.bearer.as_deref(), Some("k"));
    assert!(r.body.get("system").is_none());
    let first = r.body.get("messages").unwrap().get_item(0).unwrap();
    assert_eq!(first.get("role").unwrap().as_str(), Some("system"));
    assert_eq!(first.get("content").unwrap().as_str(), Some("sys"));
    let second = r.body.get("messages").unwrap().get_item(1).unwrap();
    assert_eq!(second.get("content").unwrap().as_str(), Some("hi"));
}
