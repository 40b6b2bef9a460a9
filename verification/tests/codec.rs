use race_gateway::codec::{
    encode_content, parse_call_arguments, ContentBlock, ImageSource, InternalMessage,
    InternalRequest, MessageContent, Role, ToolCall, ToolDefinition,
};
use race_gateway::gemini::{GoogleEncoder, ToolCallMetadataEntry};
use race_gateway::schema::{JsonMember, JsonValue};
use serde_json::Value;

fn to_serde(v: &JsonValue) -> Value {
    match v {
        JsonValue::Null => Value::Null,
        JsonValue::Bool(b) => Value::Bool(*b),
        JsonValue::Number(n) => serde_json::from_str(n).unwrap(),
        JsonValue::Str(s) => Value::String(s.clone()),
        JsonValue::Array(items) => Value::Array(items.iter().map(to_serde).collect()),
        JsonValue::Object(ms) => {
            let mut map = serde_json::Map::new();
            for m in ms {
                map.insert(m.key.clone(), to_serde(&m.value));
            }
            Value::Object(map)
        }
    }
}

fn from_text(text: &str) -> JsonValue {
    parse_call_arguments(text)
}

fn expected(text: &str) -> Value {
    serde_json::from_str(text).unwrap()
}

fn message(role: Role, content: MessageContent) -> InternalMessage {
    InternalMessage { role, content, tool_call_id: None, tool_calls: None, extra: None }
}

fn text_message(role: Role, text: &str) -> InternalMessage {
    message(role, MessageContent::Text(text.to_string()))
}

fn request(messages: Vec<InternalMessage>) -> InternalRequest {
    InternalRequest {
        messages,
        temperature: None,
        max_tokens: None,
        top_p: None,
        tools: None,
        extra: Vec::new(),
    }
}

fn member(key: &str, text: &str) -> JsonMember {
    JsonMember { key: key.to_string(), value: from_text(text) }
}

#[test]
fn arguments_text_is_parsed_or_replaced_by_an_empty_object() {
    assert_eq!(to_serde(&parse_call_arguments(r#"{"city":"Paris","n":3}"#)), expected(r#"{"city":"Paris","n":3}"#));
    assert_eq!(to_serde(&parse_call_arguments("[1, true, null]")), expected("[1,true,null]"));
    assert_eq!(to_serde(&parse_call_arguments("not json")), expected("{}"));
    assert_eq!(to_serde(&parse_call_arguments("")), expected("{}"));
}

#[test]
fn user_and_tool_text_messages_become_user_text_parts() {
    let out = encode_content(&text_message(Role::User, "hello"));
    assert_eq!(to_serde(&out), expected(r#"{"role":"user","parts":[{"text":"hello"}]}"#));
    let out = encode_content(&text_message(Role::Assistant, "hi there"));
    assert_eq!(to_serde(&out), expected(r#"{"role":"model","parts":[{"text":"hi there"}]}"#));
}

#[test]
fn tool_reply_text_becomes_a_function_response() {
    let mut msg = text_message(Role::Tool, "42 degrees");
    msg.tool_call_id = Some("call_1".to_string());
    let out = encode_content(&msg);
    assert_eq!(
        to_serde(&out),
        expected(r#"{"role":"user","parts":[{"functionResponse":{"name":"call_1","response":{"result":"42 degrees"}}}]}"#)
    );
}

#[test]
fn tool_calls_carry_parsed_arguments_and_signatures() {
    let mut msg = text_message(Role::Assistant, "");
    msg.tool_calls = Some(vec![
        ToolCall {
            id: "c1".to_string(),
            name: "get_weather".to_string(),
            arguments: r#"{"city":"Paris"}"#.to_string(),
            thought_signature: None,
        },
        ToolCall {
            id: "c2".to_string(),
            name: "broken".to_string(),
            arguments: "not json".to_string(),
            thought_signature: Some("sig-own".to_string()),
        },
        ToolCall {
            id: "c3".to_string(),
            name: "plain".to_string(),
            arguments: "{}".to_string(),
            thought_signature: None,
        },
    ]);
    msg.extra = Some(vec![ToolCallMetadataEntry {
        index: None,
        id: Some("c1".to_string()),
        name: None,
        thought_signature: Some("sig-remembered".to_string()),
    }]);
    let out = encode_content(&msg);
    assert_eq!(
        to_serde(&out),
        expected(
            r#"{"role":"model","parts":[
                {"functionCall":{"name":"get_weather","args":{"city":"Paris"},"thoughtSignature":"sig-remembered"}},
                {"functionCall":{"name":"broken","args":{},"thoughtSignature":"sig-own"}},
                {"functionCall":{"name":"plain","args":{}}}
            ]}"#
        )
    );
}

#[test]
fn text_before_tool_calls_is_kept() {
    let mut msg = text_message(Role::Assistant, "Let me check.");
    msg.tool_calls = Some(vec![ToolCall {
        id: "c1".to_string(),
        name: "lookup".to_string(),
        arguments: r#"{"q":1}"#.to_string(),
        thought_signature: None,
    }]);
    let out = encode_content(&msg);
    assert_eq!(
        to_serde(&out),
        expected(r#"{"role":"model","parts":[{"text":"Let me check."},{"functionCall":{"name":"lookup","args":{"q":1}}}]}"#)
    );
}

#[test]
fn content_blocks_become_parts_in_order() {
    let mut msg = message(
        Role::Assistant,
        MessageContent::Blocks(vec![
            ContentBlock::Text { text: "look".to_string() },
            ContentBlock::Image {
                source: ImageSource { media_type: "image/png".to_string(), data: "AAAA".to_string() },
            },
            ContentBlock::ToolUse { id: "".to_string(), name: "search".to_string(), input: from_text(r#"{"q":"x"}"#) },
            ContentBlock::ToolResult { tool_use_id: "t9".to_string(), content: from_text(r#"{"ok":true}"#) },
            ContentBlock::Reasoning { text: "thinking".to_string() },
        ]),
    );
    msg.extra = Some(vec![ToolCallMetadataEntry {
        index: Some(2),
        id: None,
        name: None,
        thought_signature: Some("  sig-at-2  ".to_string()),
    }]);
    let out = encode_content(&msg);
    assert_eq!(
        to_serde(&out),
        expected(
            r#"{"role":"model","parts":[
                {"text":"look"},
                {"inlineData":{"mimeType":"image/png","data":"AAAA"}},
                {"functionCall":{"name":"search","args":{"q":"x"},"thoughtSignature":"sig-at-2"}},
                {"functionResponse":{"name":"t9","response":{"ok":true}}},
                {"text":"thinking"}
            ]}"#
        )
    );
}

#[test]
fn request_with_system_messages_parameters_and_tools() {
    let mut req = request(vec![
        text_message(Role::System, "Be brief."),
        text_message(Role::User, "hello"),
        message(
            Role::System,
            MessageContent::Blocks(vec![
                ContentBlock::Text { text: "Use " .to_string() },
                ContentBlock::Reasoning { text: "ignored".to_string() },
                ContentBlock::Text { text: "metric.".to_string() },
            ]),
        ),
    ]);
    req.temperature = Some("0.5".to_string());
    req.max_tokens = Some(128);
    req.top_p = Some("0.9".to_string());
    req.tools = Some(vec![
        ToolDefinition {
            name: "lookup".to_string(),
            description: Some("Find things".to_string()),
            parameters: from_text(r#"{"type":"object","properties":{"q":{"type":"string"}},"required":["q"]}"#),
        },
        ToolDefinition { name: "__builtin__google_search".to_string(), description: None, parameters: JsonValue::Null },
        ToolDefinition {
            name: "strict".to_string(),
            description: None,
            parameters: from_text(r#"{"type":"object","additionalProperties":false}"#),
        },
        ToolDefinition { name: "__builtin__code_execution".to_string(), description: None, parameters: JsonValue::Null },
    ]);
    let out = GoogleEncoder.encode_request(&req);
    assert_eq!(
        to_serde(&out),
        expected(
            r#"{
                "contents":[{"role":"user","parts":[{"text":"hello"}]}],
                "systemInstruction":{"parts":[{"text":"Be brief."},{"text":"Use metric."}]},
                "generationConfig":{"temperature":0.5,"maxOutputTokens":128,"topP":0.9},
                "tools":[
                    {"functionDeclarations":[
                        {"name":"lookup","description":"Find things","parameters":{"type":"object","properties":{"q":{"type":"string"}},"required":["q"]}},
                        {"name":"strict","parameters":{"type":"object","description":"Gemini compatibility hints: Additional properties are not allowed."}}
                    ]},
                    {"googleSearch":{}},
                    {"codeExecution":{}}
                ]
            }"#
        )
    );
}

#[test]
fn preserved_gemini_fields_pass_through() {
    let mut req = request(vec![text_message(Role::System, "dropped"), text_message(Role::User, "hi")]);
    req.temperature = Some("0.2".to_string());
    req.tools = Some(vec![ToolDefinition {
        name: "ignored".to_string(),
        description: None,
        parameters: from_text("{}"),
    }]);
    req.extra = vec![
        member("__google_raw_system_instruction", r#"{"parts":[{"text":"raw system"}]}"#),
        member("__google_generation_config", r#"{"candidateCount":2,"temperature":1}"#),
        member("__google_raw_tools", r#"[{"googleSearchRetrieval":{}}]"#),
        member("__google_tool_config", r#"{"functionCallingConfig":{"mode":"ANY"}}"#),
        member("__google_safety_settings", r#"[{"category":"HARM_CATEGORY_HATE_SPEECH","threshold":"BLOCK_NONE"}]"#),
        member("__google_cached_content", r#""cachedContents/abc""#),
    ];
    let out = GoogleEncoder.encode_request(&req);
    assert_eq!(
        to_serde(&out),
        expected(
            r#"{
                "contents":[{"role":"user","parts":[{"text":"hi"}]}],
                "systemInstruction":{"parts":[{"text":"raw system"}]},
                "generationConfig":{"candidateCount":2,"temperature":0.2},
                "tools":[{"googleSearchRetrieval":{}}],
                "toolConfig":{"functionCallingConfig":{"mode":"ANY"}},
                "safetySettings":[{"category":"HARM_CATEGORY_HATE_SPEECH","threshold":"BLOCK_NONE"}],
                "cachedContent":"cachedContents/abc"
            }"#
        )
    );
}

#[test]
fn bare_request_has_contents_only() {
    let req = request(vec![text_message(Role::User, "a"), text_message(Role::Assistant, "b")]);
    let out = GoogleEncoder.encode_request(&req);
    assert_eq!(
        to_serde(&out),
        expected(r#"{"contents":[{"role":"user","parts":[{"text":"a"}]},{"role":"model","parts":[{"text":"b"}]}]}"#)
    );
    let mut only_builtins = request(Vec::new());
    only_builtins.tools = Some(Vec::new());
    let out = GoogleEncoder.encode_request(&only_builtins);
    assert_eq!(to_serde(&out), expected(r#"{"contents":[]}"#));
}
