use race_gateway::adapters::anthropic::{extract_json_usize_field, AnthropicAdapter};
use race_gateway::adapters::google::{
    GoogleAdapter, GoogleCandidate, GoogleChunk, GoogleContent, GooglePart,
};
use race_gateway::adapters::openai::{
    has_openai_delta_content, OpenAiAdapter, OpenAiChatChunk, OpenAiChoice, OpenAiDelta,
    OpenAiFunctionFields, OpenAiResponseEvent, OpenAiToolCall,
};
use race_gateway::adapters::{
    adapter_for_route, event_payload_texts, EventAnalysis, ParsedPayload, RaceProtocolAdapter,
};
use race_gateway::domain::types::{DownstreamRouteKind, KeyValue, ProtocolFamily, RaceCandidate};
use race_gateway::group::race::{CandidateState, CandidateWeightSnapshot, ProtocolFlags};

fn candidate_state() -> CandidateState {
    CandidateState {
        candidate: RaceCandidate {
            id: "cand-a".to_string(),
            group_id: "group-a".to_string(),
            name: "A".to_string(),
            model_id: None,
            upstream_model: "vendor/model-a".to_string(),
            inline_endpoint_overrides: vec![],
            initial_weight_bits: 100.0f64.to_bits(),
            response_protection_timeout_ms: 1_000,
            enabled: true,
            metadata: "{}".to_string(),
        },
        launched_at: None,
        first_content_at: None,
        winner_selected: true,
        failed: true,
        ended: true,
        error: Some("connection reset".to_string()),
        buffered_count: 1,
        buffered_bytes: 32,
        api_key_masked: "secret***".to_string(),
        relative_delay_ns: 0,
        weight_snapshot: CandidateWeightSnapshot {
            initial_weight_bits: 100.0f64.to_bits(),
            effective_weight_bits: 100.0f64.to_bits(),
            weight_deviation_bits: 0.0f64.to_bits(),
            status: "normal".to_string(),
        },
        protocol_flags: ProtocolFlags::default(),
        protocol_open_blocks: Vec::new(),
    }
}

fn empty_state() -> CandidateState {
    let mut state = candidate_state();
    state.winner_selected = false;
    state.failed = false;
    state.ended = false;
    state.error = None;
    state.buffered_count = 0;
    state.buffered_bytes = 0;
    state
}

fn no_function() -> OpenAiDelta {
    OpenAiDelta {
        content: None,
        reasoning_content: None,
        tool_calls: None,
        function_call: None,
    }
}

fn chat(delta: Option<OpenAiDelta>, finish_reason: Option<&str>) -> ParsedPayload {
    ParsedPayload::OpenAiChat(OpenAiChatChunk {
        choices: vec![OpenAiChoice {
            delta,
            finish_reason: finish_reason.map(|s| s.to_string()),
        }],
    })
}

fn response(kind: &str) -> ParsedPayload {
    ParsedPayload::OpenAiResponse(OpenAiResponseEvent {
        kind: Some(kind.to_string()),
    })
}

fn google_text(text: Option<&str>, finish: Option<&str>) -> ParsedPayload {
    let parts = match text {
        Some(t) => vec![GooglePart {
            text: Some(t.to_string()),
            function_call: false,
            executable_code: false,
            code_execution_result: false,
        }],
        None => vec![],
    };
    ParsedPayload::Google(GoogleChunk {
        candidates: vec![GoogleCandidate {
            content: GoogleContent { parts },
            finish_reason: finish.map(|s| s.to_string()),
        }],
    })
}

fn errors() -> Vec<KeyValue> {
    vec![
        KeyValue {
            key: "A".to_string(),
            value: "timeout".to_string(),
        },
        KeyValue {
            key: "B".to_string(),
            value: "HTTP 500 \"boom\"".to_string(),
        },
    ]
}

#[test]
fn fallback_close_closes_unclosed_blocks() {
    let adapter = AnthropicAdapter;
    let mut state = candidate_state();
    let analysis = adapter.inspect_event(
        &mut state,
        "event: content_block_start\ndata: {\"type\":\"content_block_start\",\"index\":0,\"content_block\":{\"type\":\"text\",\"text\":\"\"}}\n\n"
            .as_bytes(),
    );
    assert!(!analysis.has_content);

    let events = adapter.fallback_close_events("group-a", &state);
    assert!(events
        .iter()
        .any(|event| event.contains("event: content_block_stop")));
    assert!(events.iter().any(|event| event.contains("event: message_stop")));
}

#[test]
fn role_only_chunk_is_not_treated_as_content() {
    let adapter = OpenAiAdapter::new(DownstreamRouteKind::OpenAiChatCompletions);
    let event = "data: {\"choices\":[{\"index\":0,\"delta\":{\"role\":\"assistant\"},\"finish_reason\":null}]}\n\n";
    let parsed = vec![chat(Some(no_function()), None)];
    let mut state = empty_state();
    assert!(
        !adapter
            .inspect_event(&mut state, event.as_bytes(), &parsed)
            .has_content
    );
}

#[test]
fn reasoning_or_tool_delta_is_treated_as_content() {
    let adapter = OpenAiAdapter::new(DownstreamRouteKind::OpenAiChatCompletions);
    let event = "data: {\"choices\":[{\"index\":0,\"delta\":{\"tool_calls\":[{\"function\":{\"name\":\"lookup\",\"arguments\":\"{\\\"q\\\":\\\"x\\\"}\"}}]},\"finish_reason\":null}]}\n\n";
    let delta = OpenAiDelta {
        tool_calls: Some(vec![OpenAiToolCall {
            function: Some(OpenAiFunctionFields {
                name: Some("lookup".to_string()),
                arguments: Some("{\"q\":\"x\"}".to_string()),
            }),
        }]),
        ..no_function()
    };
    let parsed = vec![chat(Some(delta), None)];
    let mut state = empty_state();
    assert!(
        adapter
            .inspect_event(&mut state, event.as_bytes(), &parsed)
            .has_content
    );
}

#[test]
fn metadata_or_finish_only_chunk_is_not_treated_as_content() {
    let adapter = GoogleAdapter::new(DownstreamRouteKind::GoogleV1BetaModels);
    let event = "data: {\"candidates\":[{\"content\":{\"role\":\"model\",\"parts\":[]},\"finishReason\":\"STOP\"}],\"usageMetadata\":{\"promptTokenCount\":12}}\n\n";
    let parsed = vec![google_text(None, Some("STOP"))];
    let mut state = empty_state();
    assert!(
        !adapter
            .inspect_event(&mut state, event.as_bytes(), &parsed)
            .has_content
    );
}

#[test]
fn text_part_is_treated_as_content() {
    let adapter = GoogleAdapter::new(DownstreamRouteKind::GoogleV1BetaModels);
    let event = "data: {\"candidates\":[{\"content\":{\"role\":\"model\",\"parts\":[{\"text\":\"hello\"}]}}]}\n\n";
    let parsed = vec![google_text(Some("hello"), None)];
    let mut state = empty_state();
    assert!(
        adapter
            .inspect_event(&mut state, event.as_bytes(), &parsed)
            .has_content
    );
}

#[test]
fn extracts_index_field() {
    assert_eq!(
        extract_json_usize_field("{\"type\":\"content_block_start\",\"index\": 12}", "index"),
        Some(12)
    );
    assert_eq!(extract_json_usize_field("{\"index\":\"x\"}", "index"), None);
    assert_eq!(extract_json_usize_field("{\"other\":1}", "index"), None);
    assert_eq!(extract_json_usize_field("{\"index\" 1}", "index"), None);
    assert_eq!(
        extract_json_usize_field("{\"index\":99999999999999999999999}", "index"),
        None
    );
}

#[test]
fn anthropic_tracks_blocks_and_closing_events() {
    let adapter = AnthropicAdapter;
    let mut state = empty_state();
    for ix in [0, 1] {
        let ev = format!(
            "event: content_block_start\ndata: {{\"type\":\"content_block_start\",\"index\":{ix}}}\n\n"
        );
        adapter.inspect_event(&mut state, ev.as_bytes());
    }
    assert_eq!(state.protocol_open_blocks, vec![0, 1]);
    let delta = adapter.inspect_event(
        &mut state,
        b"event: content_block_delta\ndata: {\"type\":\"content_block_delta\",\"index\":1,\"delta\":{\"type\":\"text_delta\",\"text\":\"hi\"}}\n\n",
    );
    assert!(delta.has_content);
    adapter.inspect_event(
        &mut state,
        b"event: content_block_stop\ndata: {\"type\":\"content_block_stop\",\"index\":0}\n\n",
    );
    assert_eq!(state.protocol_open_blocks, vec![1]);
    let events = adapter.fallback_close_events("g", &state);
    assert_eq!(
        events,
        vec![
            "event: content_block_stop\ndata: {\"type\":\"content_block_stop\",\"index\":1}\n\n".to_string(),
            "event: message_delta\ndata: {\"type\":\"message_delta\",\"delta\":{\"stop_reason\":\"end_turn\",\"stop_sequence\":null},\"usage\":{\"output_tokens\":1}}\n\n".to_string(),
            "event: message_stop\ndata: {\"type\":\"message_stop\"}\n\n".to_string(),
        ]
    );
    adapter.inspect_event(&mut state, b"event: message_delta\ndata: {}\n\n");
    adapter.inspect_event(&mut state, b"event: message_stop\ndata: {}\n\n");
    assert!(state.protocol_flags.emitted_message_delta);
    assert!(state.protocol_flags.emitted_message_stop);
    adapter.inspect_event(
        &mut state,
        b"event: content_block_stop\ndata: {\"type\":\"content_block_stop\",\"index\":1}\n\n",
    );
    assert!(adapter.fallback_close_events("g", &state).is_empty());
}

#[test]
fn non_utf8_event_changes_nothing() {
    let adapter = AnthropicAdapter;
    let mut state = empty_state();
    let analysis = adapter.inspect_event(&mut state, &[0xff, 0xfe, b'x']);
    assert_eq!(analysis, EventAnalysis { has_content: false });
    assert!(state.protocol_open_blocks.is_empty());
    assert!(event_payload_texts(&[0xff]).is_none());
}

#[test]
fn payload_texts_are_trimmed_data_lines() {
    let texts = event_payload_texts(b"event: x\ndata:  one \r\ndata:two\n\n").unwrap();
    assert_eq!(texts, vec!["one".to_string(), "two".to_string()]);
}

#[test]
fn anthropic_all_failed_reports_each_error() {
    let events = AnthropicAdapter.all_failed_events("grp", &errors());
    assert_eq!(events.len(), 6);
    assert!(events[0].starts_with("event: message_start\n"));
    let expected_text = serde_json::to_string(
        "All candidates failed in group 'grp': A: timeout; B: HTTP 500 \"boom\"",
    )
    .unwrap();
    assert_eq!(
        events[2],
        format!(
            "event: content_block_delta\ndata: {{\"type\":\"content_block_delta\",\"index\":0,\"delta\":{{\"type\":\"text_delta\",\"text\":{expected_text}}}}}\n\n"
        )
    );
    assert_eq!(events[5], "event: message_stop\ndata: {\"type\":\"message_stop\"}\n\n");
}

#[test]
fn openai_done_and_finish_flags() {
    let adapter = OpenAiAdapter::new(DownstreamRouteKind::OpenAiChatCompletions);
    let mut state = empty_state();
    let parsed = vec![chat(None, Some("stop")), ParsedPayload::Invalid];
    let analysis = adapter.inspect_event(
        &mut state,
        b"data: {\"choices\":[{\"finish_reason\":\"stop\"}]}\n\ndata: [DONE]\n\n",
        &parsed,
    );
    assert!(!analysis.has_content);
    assert!(state.protocol_flags.emitted_finish);
    assert!(state.protocol_flags.emitted_done);
    assert!(adapter.fallback_close_events("g", &state).is_empty());
}

#[test]
fn openai_fallback_close_per_route() {
    let chat_adapter = OpenAiAdapter::new(DownstreamRouteKind::OpenAiChatCompletions);
    let state = empty_state();
    let events = chat_adapter.fallback_close_events("g", &state);
    assert_eq!(
        events,
        vec![
            "data: {\"choices\":[{\"delta\":{},\"finish_reason\":\"stop\",\"index\":0}]}\n\n"
                .to_string(),
            "data: [DONE]\n\n".to_string(),
        ]
    );
    let responses = OpenAiAdapter::new(DownstreamRouteKind::OpenAiResponses);
    let events = responses.fallback_close_events("g", &state);
    assert_eq!(events[0], "data: {\"type\":\"response.completed\"}\n\n");
    assert_eq!(events.len(), 2);
}

#[test]
fn openai_responses_kinds() {
    let adapter = OpenAiAdapter::new(DownstreamRouteKind::OpenAiResponses);
    assert_eq!(adapter.protocol_label(), "openai_responses");
    let mut state = empty_state();
    let a = adapter.inspect_event(
        &mut state,
        b"data: {\"type\":\"response.output_text.delta\"}\n\n",
        &vec![response("response.output_text.delta")],
    );
    assert!(a.has_content);
    assert!(!state.protocol_flags.emitted_finish);
    let b = adapter.inspect_event(
        &mut state,
        b"data: {\"type\":\"response.completed\"}\n\n",
        &vec![response("response.completed")],
    );
    assert!(!b.has_content);
    assert!(state.protocol_flags.emitted_finish);
    // A chat chunk does not count on the Responses route.
    let c = adapter.inspect_event(
        &mut state,
        b"data: {}\n\n",
        &vec![chat(
            Some(OpenAiDelta {
                content: Some("x".to_string()),
                ..no_function()
            }),
            None,
        )],
    );
    assert!(!c.has_content);
}

#[test]
fn openai_all_failed_events_per_route() {
    let expected_message = serde_json::to_string(
        "All candidates failed in model group 'grp': A: timeout; B: HTTP 500 \"boom\"",
    )
    .unwrap();
    let chat_events =
        OpenAiAdapter::new(DownstreamRouteKind::OpenAiChatCompletions).all_failed_events("grp", &errors());
    assert_eq!(chat_events.len(), 2);
    assert_eq!(
        chat_events[0],
        format!("data: {{\"error\":{{\"code\":\"all_candidates_failed\",\"message\":{expected_message},\"param\":\"model\",\"type\":\"model_group_race_error\"}}}}\n\n")
    );
    assert_eq!(chat_events[1], "data: [DONE]\n\n");
    let value: serde_json::Value =
        serde_json::from_str(chat_events[0].trim_start_matches("data: ").trim()).unwrap();
    assert_eq!(value["error"]["code"], "all_candidates_failed");
    let resp_events =
        OpenAiAdapter::new(DownstreamRouteKind::OpenAiResponses).all_failed_events("grp", &errors());
    let value: serde_json::Value =
        serde_json::from_str(resp_events[0].trim_start_matches("data: ").trim()).unwrap();
    assert_eq!(value["type"], "error");
    assert_eq!(value["error"]["type"], "model_group_race_error");
}

#[test]
fn delta_content_rules() {
    assert!(!has_openai_delta_content(&no_function()));
    assert!(!has_openai_delta_content(&OpenAiDelta {
        content: Some(String::new()),
        ..no_function()
    }));
    assert!(has_openai_delta_content(&OpenAiDelta {
        reasoning_content: Some("think".to_string()),
        ..no_function()
    }));
    assert!(!has_openai_delta_content(&OpenAiDelta {
        tool_calls: Some(vec![OpenAiToolCall { function: None }]),
        ..no_function()
    }));
    assert!(has_openai_delta_content(&OpenAiDelta {
        function_call: Some(OpenAiFunctionFields {
            name: None,
            arguments: Some("{}".to_string()),
        }),
        ..no_function()
    }));
}

#[test]
fn google_finish_and_close() {
    let adapter = GoogleAdapter::new(DownstreamRouteKind::GoogleV1Models);
    let mut state = empty_state();
    let close = adapter.fallback_close_events("g", &state);
    assert_eq!(
        close,
        vec!["data: {\"candidates\":[{\"content\":{\"parts\":[],\"role\":\"model\"},\"finishReason\":\"STOP\"}]}\n\n".to_string()]
    );
    adapter.inspect_event(
        &mut state,
        b"data: {}\n\n",
        &vec![google_text(Some("x"), Some("STOP"))],
    );
    assert!(state.protocol_flags.emitted_finish);
    assert!(adapter.fallback_close_events("g", &state).is_empty());
    let failed = adapter.all_failed_events("grp", &errors());
    assert_eq!(failed.len(), 1);
    let value: serde_json::Value =
        serde_json::from_str(failed[0].trim_start_matches("data: ").trim()).unwrap();
    assert_eq!(
        value["candidates"][0]["content"]["parts"][0]["text"],
        "All candidates failed in group 'grp': A: timeout; B: HTTP 500 \"boom\""
    );
    assert_eq!(value["candidates"][0]["finishReason"], "STOP");
}

#[test]
fn adapter_for_route_dispatches() {
    let a = adapter_for_route(DownstreamRouteKind::AnthropicMessages);
    assert!(matches!(a, RaceProtocolAdapter::Anthropic(_)));
    assert_eq!(a.protocol_label(), "anthropic");
    assert_eq!(a.protocol_family(), ProtocolFamily::Anthropic);
    let g = adapter_for_route(DownstreamRouteKind::GoogleV1BetaModels);
    assert_eq!(g.route_kind(), DownstreamRouteKind::GoogleV1BetaModels);
    assert_eq!(g.protocol_label(), "google");
    let o = adapter_for_route(DownstreamRouteKind::OpenAiChatCompletions);
    assert_eq!(o.protocol_label(), "openai");
    assert_eq!(o.response_content_type(), "text/event-stream");
}

#[test]
fn failure_message_is_escaped_as_a_json_string() {
    let errs = vec![KeyValue { key: "A".to_string(), value: "line1\nline2\t\"q\" \\ \u{1}é".to_string() }];
    let events = OpenAiAdapter::new(DownstreamRouteKind::OpenAiChatCompletions).all_failed_events("g", &errs);
    assert_eq!(
        events[0],
        "data: {\"error\":{\"code\":\"all_candidates_failed\",\"message\":\"All candidates failed in model group 'g': A: line1\\nline2\\t\\\"q\\\" \\\\ \\u0001é\",\"param\":\"model\",\"type\":\"model_group_race_error\"}}\n\n"
    );
}
