use race_gateway::downstream::{
    auth_placement, build_request_url, ends_with_sse_delimiter, find_bytes, is_hop_by_hop_header,
    next_sse_frame_len, replace_google_model_action, rewrite_request_body, rewrite_request_bytes,
    should_forward_header, AuthPlacement, DispatchRoute, RewriteError, SseFramer,
};
use race_gateway::domain::types::{AuthStrategy, DownstreamRouteKind};
use race_gateway::schema::{JsonMember, JsonValue};

#[test]
fn detects_lf_delimited_sse_frame() {
    let buffer = b"event: message\ndata: hello\n\nrest";
    assert_eq!(
        next_sse_frame_len(buffer),
        Some("event: message\ndata: hello\n\n".len())
    );
}

#[test]
fn detects_crlf_delimited_sse_frame() {
    let buffer = b"event: message\r\ndata: hello\r\n\r\nrest";
    assert_eq!(
        next_sse_frame_len(buffer),
        Some("event: message\r\ndata: hello\r\n\r\n".len())
    );
}

#[test]
fn prefers_earliest_frame_boundary() {
    let buffer = b"data: one\n\ndata: two\r\n\r\n";
    assert_eq!(next_sse_frame_len(buffer), Some("data: one\n\n".len()));
}

#[test]
fn no_frame_without_delimiter() {
    assert_eq!(next_sse_frame_len(b"data: partial\n"), None);
    assert_eq!(next_sse_frame_len(b""), None);
    assert_eq!(next_sse_frame_len(b"\r\n\r"), None);
}

#[test]
fn crlf_before_lf_wins() {
    assert_eq!(next_sse_frame_len(b"a\r\n\r\nb\n\n"), Some(5));
}

#[test]
fn find_bytes_finds_first_occurrence() {
    assert_eq!(find_bytes(b"abcabc", b"bc"), Some(1));
    assert_eq!(find_bytes(b"abc", b""), None);
    assert_eq!(find_bytes(b"ab", b"abc"), None);
    assert_eq!(find_bytes(b"abc", b"x"), None);
}

#[test]
fn delimiter_suffix_detection() {
    assert!(ends_with_sse_delimiter(b"data: x\n\n"));
    assert!(ends_with_sse_delimiter(b"data: x\r\n\r\n"));
    assert!(!ends_with_sse_delimiter(b"data: x\n"));
    assert!(!ends_with_sse_delimiter(b""));
}

#[test]
fn framer_regroups_chunks_into_events() {
    let mut framer = SseFramer::new();
    assert!(framer.push(b"data: o").is_empty());
    let frames = framer.push(b"ne\n\ndata: two\n\ndata: th");
    assert_eq!(frames, vec![b"data: one\n\n".to_vec(), b"data: two\n\n".to_vec()]);
    let frames = framer.push(b"ree\r\n\r\n");
    assert_eq!(frames, vec![b"data: three\r\n\r\n".to_vec()]);
    assert_eq!(framer.finish(), None);
}

#[test]
fn framer_closes_trailing_bytes() {
    let mut framer = SseFramer::new();
    assert!(framer.push(b"data: tail").is_empty());
    assert_eq!(framer.finish(), Some(b"data: tail\n\n".to_vec()));
}

#[test]
fn google_model_action_is_rewritten() {
    assert_eq!(
        replace_google_model_action(Some("gemini-pro:streamGenerateContent"), "vendor/model"),
        "vendor/model:streamGenerateContent"
    );
    assert_eq!(
        replace_google_model_action(Some("generateContent"), "m"),
        "m:generateContent"
    );
    assert_eq!(replace_google_model_action(None, "m"), "m:streamGenerateContent");
    assert_eq!(replace_google_model_action(Some("a:b:c"), "m"), "m:b:c");
}

#[test]
fn request_urls_follow_the_route() {
    let route = |kind, action: Option<&str>| DispatchRoute {
        route_kind: kind,
        model_action: action.map(|s| s.to_string()),
    };
    assert_eq!(
        build_request_url("https://x/v1", &route(DownstreamRouteKind::OpenAiChatCompletions, None), "m"),
        "https://x/v1/chat/completions"
    );
    assert_eq!(
        build_request_url("https://x/v1", &route(DownstreamRouteKind::OpenAiResponses, None), "m"),
        "https://x/v1/responses"
    );
    assert_eq!(
        build_request_url("https://x", &route(DownstreamRouteKind::AnthropicMessages, None), "m"),
        "https://x/v1/messages"
    );
    assert_eq!(
        build_request_url(
            "https://g",
            &route(DownstreamRouteKind::GoogleV1BetaModels, Some("p:streamGenerateContent")),
            "gem"
        ),
        "https://g/v1beta/models/gem:streamGenerateContent"
    );
    assert_eq!(
        build_request_url("https://g", &route(DownstreamRouteKind::GoogleV1Models, None), "gem"),
        "https://g/models/gem:streamGenerateContent"
    );
}

#[test]
fn hop_by_hop_headers_are_recognised() {
    assert!(is_hop_by_hop_header("connection"));
    assert!(is_hop_by_hop_header("transfer-encoding"));
    assert!(is_hop_by_hop_header("host"));
    assert!(!is_hop_by_hop_header("content-type"));
    assert!(!is_hop_by_hop_header("x-request-id"));
}

#[test]
fn credentials_and_hop_headers_are_not_forwarded() {
    assert!(should_forward_header("content-type"));
    assert!(should_forward_header("anthropic-version"));
    assert!(!should_forward_header("authorization"));
    assert!(!should_forward_header("x-api-key"));
    assert!(!should_forward_header("keep-alive"));
}

#[test]
fn auth_placement_follows_the_strategy() {
    assert_eq!(
        auth_placement(&AuthStrategy::Bearer, "sk-1"),
        AuthPlacement::Bearer("sk-1".to_string())
    );
    assert_eq!(
        auth_placement(
            &AuthStrategy::HeaderApiKey { header_name: "x-api-key".to_string() },
            "sk-2"
        ),
        AuthPlacement::Header { name: "x-api-key".to_string(), value: "sk-2".to_string() }
    );
    assert_eq!(
        auth_placement(
            &AuthStrategy::QueryApiKey { parameter_name: "key".to_string() },
            "sk-3"
        ),
        AuthPlacement::Query { name: "key".to_string(), value: "sk-3".to_string() }
    );
}

fn member<'a>(v: &'a JsonValue, key: &str) -> Option<&'a JsonValue> {
    match v {
        JsonValue::Object(ms) => ms.iter().find(|m| m.key == key).map(|m| &m.value),
        _ => None,
    }
}

#[test]
fn openai_body_gets_upstream_model_and_stream() {
    let body = JsonValue::Object(vec![
        JsonMember { key: "model".to_string(), value: JsonValue::Str("alias".to_string()) },
        JsonMember { key: "stream".to_string(), value: JsonValue::Bool(false) },
        JsonMember { key: "messages".to_string(), value: JsonValue::Array(vec![]) },
    ]);
    let route = DispatchRoute { route_kind: DownstreamRouteKind::OpenAiChatCompletions, model_action: None };
    let out = rewrite_request_body(&route, "vendor/real", body);
    match member(&out, "model") {
        Some(JsonValue::Str(s)) => assert_eq!(s, "vendor/real"),
        other => panic!("unexpected model {:?}", other),
    }
    assert!(matches!(member(&out, "stream"), Some(JsonValue::Bool(true))));
    assert!(matches!(member(&out, "messages"), Some(JsonValue::Array(_))));
    match &out {
        JsonValue::Object(ms) => assert_eq!(ms.len(), 3),
        _ => panic!("object expected"),
    }
}

#[test]
fn anthropic_body_from_null_gets_model_and_stream() {
    let route = DispatchRoute { route_kind: DownstreamRouteKind::AnthropicMessages, model_action: None };
    let out = rewrite_request_body(&route, "vendor/messages-model", JsonValue::Null);
    match member(&out, "model") {
        Some(JsonValue::Str(s)) => assert_eq!(s, "vendor/messages-model"),
        other => panic!("unexpected model {:?}", other),
    }
    assert!(matches!(member(&out, "stream"), Some(JsonValue::Bool(true))));
}

#[test]
fn google_body_is_left_alone() {
    let route = DispatchRoute {
        route_kind: DownstreamRouteKind::GoogleV1BetaModels,
        model_action: Some("m:streamGenerateContent".to_string()),
    };
    let body = JsonValue::Array(vec![JsonValue::Number("1".to_string())]);
    let out = rewrite_request_body(&route, "gemini", body);
    match out {
        JsonValue::Array(items) => {
            assert_eq!(items.len(), 1);
            assert!(matches!(&items[0], JsonValue::Number(n) if n == "1"));
        }
        other => panic!("unexpected {:?}", other),
    }
}

#[test]
fn request_bytes_are_rewritten_through_json() {
    let chat = DispatchRoute { route_kind: DownstreamRouteKind::OpenAiChatCompletions, model_action: None };
    let out = rewrite_request_bytes(&chat, "vendor/real", br#"{"model":"alias","stream":false,"n":2.5,"messages":[{"role":"user","content":"hi \u00e9"}]}"#).unwrap();
    let value: serde_json::Value = serde_json::from_slice(&out).unwrap();
    let expected: serde_json::Value = serde_json::from_str(
        r#"{"model":"vendor/real","stream":true,"n":2.5,"messages":[{"role":"user","content":"hi \u00e9"}]}"#,
    )
    .unwrap();
    assert_eq!(value, expected);
    let anthropic = DispatchRoute { route_kind: DownstreamRouteKind::AnthropicMessages, model_action: None };
    assert_eq!(rewrite_request_bytes(&anthropic, "m", b"null").unwrap(), br#"{"model":"m","stream":true}"#.to_vec());
    let google = DispatchRoute {
        route_kind: DownstreamRouteKind::GoogleV1BetaModels,
        model_action: Some("m:streamGenerateContent".to_string()),
    };
    assert_eq!(rewrite_request_bytes(&google, "g", b" [1, 2] ").unwrap(), b"[1,2]".to_vec());
}

#[test]
fn request_bytes_that_cannot_be_rewritten() {
    let chat = DispatchRoute { route_kind: DownstreamRouteKind::OpenAiChatCompletions, model_action: None };
    assert_eq!(rewrite_request_bytes(&chat, "m", b"{not json"), Err(RewriteError::InvalidJson));
    assert_eq!(rewrite_request_bytes(&chat, "m", &[0x7b, 0xff, 0x7d]), Err(RewriteError::InvalidJson));
    assert_eq!(rewrite_request_bytes(&chat, "m", b"[1]"), Err(RewriteError::NotAnObject));
    assert_eq!(rewrite_request_bytes(&chat, "m", b"\"text\""), Err(RewriteError::NotAnObject));
    let google = DispatchRoute { route_kind: DownstreamRouteKind::GoogleV1Models, model_action: None };
    assert_eq!(rewrite_request_bytes(&google, "g", b"\"text\"").unwrap(), b"\"text\"".to_vec());
}
