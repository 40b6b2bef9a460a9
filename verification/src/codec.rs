//! Encoding a chat request for the Gemini `generateContent` API: messages
//! become `contents`, system messages the `systemInstruction`, tool
//! definitions `functionDeclarations` (their schemas made acceptable to
//! Gemini), and preserved Gemini fields pass through.
use vstd::prelude::*;

use crate::gemini::{
    entries_view, lookup_google_tool_call_thought_signature, remembered_signature, EntryView,
    GoogleEncoder, ToolCallMetadataEntry,
};
use crate::schema::{
    find_key, find_member, json_view, items_view, lemma_items_view_push, lemma_members_view,
    lemma_members_view_push, members_view, sanitize_gemini_schema, sanitized, set_key, set_member,
    JsonMember, JsonValue, JsonView,
};
use crate::text::{decimal, push_decimal, push_str, str_eq};

verus! {

// ---------------------------------------------------------------------------
// Parsing tool-call arguments
// ---------------------------------------------------------------------------

#[verifier::external_type_specification]
#[verifier::external_body]
pub struct ExSerdeJsonValue(serde_json::Value);

/// What `serde_json::from_str::<serde_json::Value>` makes of a text: the
/// document, or none where the text is not a JSON document.
pub uninterp spec fn json_parse(text: Seq<char>) -> Option<JsonView>;

/// The library's form of a `serde_json::Value`, variant by variant, numbers
/// as `serde_json` writes them. It serves `parse_json_text` alone.
#[verifier::external_body]
fn json_from_serde(v: serde_json::Value) -> JsonValue {
    match v {
        serde_json::Value::Null => JsonValue::Null,
        serde_json::Value::Bool(b) => JsonValue::Bool(b),
        serde_json::Value::Number(n) => JsonValue::Number(n.to_string()),
        serde_json::Value::String(s) => JsonValue::Str(s),
        serde_json::Value::Array(a) => JsonValue::Array(a.into_iter().map(json_from_serde).collect()),
        serde_json::Value::Object(m) => JsonValue::Object(
            m.into_iter().map(|(key, value)| JsonMember { key, value: json_from_serde(value) }).collect(),
        ),
    }
}

/// `serde_json::from_str::<serde_json::Value>` of `text`, converted to the
/// library's form. Claimed: the result is `json_parse(text)`, none exactly
/// where `serde_json` refuses the text.
#[verifier::external_body]
pub(crate) fn parse_json_text(text: &str) -> (r: Option<JsonValue>)
    ensures
        match r {
            Some(v) => json_parse(text@) == Some(json_view(v)),
            None => json_parse(text@).is_none(),
        },
{
    match serde_json::from_str::<serde_json::Value>(text) {
        Ok(v) => Some(json_from_serde(v)),
        Err(_) => None,
    }
}

/// The `serde_json::Value` of a value in the library's form, variant by
/// variant (a number text that `serde_json` does not read becomes `null`).
/// It serves `json_to_bytes` alone.
#[verifier::external_body]
fn json_to_serde(v: JsonValue) -> serde_json::Value {
    match v {
        JsonValue::Null => serde_json::Value::Null,
        JsonValue::Bool(b) => serde_json::Value::Bool(b),
        JsonValue::Number(n) => match n.parse::<serde_json::Number>() {
            Ok(num) => serde_json::Value::Number(num),
            Err(_) => serde_json::Value::Null,
        },
        JsonValue::Str(s) => serde_json::Value::String(s),
        JsonValue::Array(a) => serde_json::Value::Array(a.into_iter().map(json_to_serde).collect()),
        JsonValue::Object(ms) => serde_json::Value::Object(
            ms.into_iter().map(|m| (m.key, json_to_serde(m.value))).collect(),
        ),
    }
}

/// What `serde_json::to_vec` writes for a JSON value.
pub uninterp spec fn json_bytes(v: JsonView) -> Seq<u8>;

/// `serde_json::to_vec` of the value, converted to a `serde_json::Value`.
/// Claimed: the bytes are `json_bytes` of the value; writing a
/// `serde_json::Value` cannot fail.
#[verifier::external_body]
pub(crate) fn json_to_bytes(v: JsonValue) -> (r: Vec<u8>)
    ensures
        r@ == json_bytes(json_view(v)),
{
    match serde_json::to_vec(&json_to_serde(v)) {
        Ok(bytes) => bytes,
        Err(_) => Vec::new(),
    }
}

/// The arguments of a tool call as sent: the parsed text, or an empty
/// object where the text is not JSON.
pub open spec fn call_args(text: Seq<char>) -> JsonView {
    match json_parse(text) {
        Some(v) => v,
        None => JsonView::Object(seq![]),
    }
}

/// The arguments of a tool call (see `call_args`).
pub fn parse_call_arguments(text: &str) -> (r: JsonValue)
    ensures
        json_view(r) == call_args(text@),
{
    match parse_json_text(text) {
        Some(v) => v,
        None => {
            let r = JsonValue::Object(Vec::new());
            assert(members_view(Seq::<JsonMember>::empty()) =~= seq![]);
            r
        },
    }
}

// ---------------------------------------------------------------------------
// The request model
// ---------------------------------------------------------------------------

/// Who wrote a message.
#[derive(Debug, Clone, Copy, PartialEq, Eq, Structural)]
pub enum Role {
    System,
    User,
    Assistant,
    Tool,
}

/// A tool call made by the assistant; `arguments` is JSON text.
#[derive(Debug)]
pub struct ToolCall {
    pub id: String,
    pub name: String,
    pub arguments: String,
    pub thought_signature: Option<String>,
}

/// An inline image.
#[derive(Debug)]
pub struct ImageSource {
    pub media_type: String,
    pub data: String,
}

/// A block of a message's content.
#[derive(Debug)]
pub enum ContentBlock {
    Text { text: String },
    Image { source: ImageSource },
    ToolUse { id: String, name: String, input: JsonValue },
    ToolResult { tool_use_id: String, content: JsonValue },
    Reasoning { text: String },
}

/// A message's content: plain text or blocks.
#[derive(Debug)]
pub enum MessageContent {
    Text(String),
    Blocks(Vec<ContentBlock>),
}

/// A chat message; `extra` holds the thought signatures remembered for
/// its tool calls, where any were.
#[derive(Debug)]
pub struct InternalMessage {
    pub role: Role,
    pub content: MessageContent,
    pub tool_call_id: Option<String>,
    pub tool_calls: Option<Vec<ToolCall>>,
    pub extra: Option<Vec<ToolCallMetadataEntry>>,
}

/// A tool the model may call; `parameters` is a JSON Schema.
#[derive(Debug)]
pub struct ToolDefinition {
    pub name: String,
    pub description: Option<String>,
    pub parameters: JsonValue,
}

/// A chat request. `temperature` and `top_p` are JSON number texts;
/// `extra` holds fields preserved from a Gemini request by key, a key that
/// occurs twice being read at its first occurrence.
#[derive(Debug)]
pub struct InternalRequest {
    pub messages: Vec<InternalMessage>,
    pub temperature: Option<String>,
    pub max_tokens: Option<u32>,
    pub top_p: Option<String>,
    pub tools: Option<Vec<ToolDefinition>>,
    pub extra: Vec<JsonMember>,
}

// ---------------------------------------------------------------------------
// The encoding, on abstract values
// ---------------------------------------------------------------------------

/// An object of one member.
pub open spec fn obj1(k: Seq<char>, v: JsonView) -> JsonView {
    JsonView::Object(seq![(k, v)])
}

/// An object of two members.
pub open spec fn obj2(k1: Seq<char>, v1: JsonView, k2: Seq<char>, v2: JsonView) -> JsonView {
    JsonView::Object(seq![(k1, v1), (k2, v2)])
}

/// A text part.
pub open spec fn text_part(t: Seq<char>) -> JsonView {
    obj1("text"@, JsonView::Str(t))
}

/// Gemini's name for a role; system messages are not encoded as contents.
pub open spec fn role_name(r: Role) -> Seq<char> {
    match r {
        Role::Assistant => "model"@,
        _ => "user"@,
    }
}

/// The remembered signatures of a message, as abstract entries.
pub open spec fn message_entries(msg: InternalMessage) -> Option<Seq<EntryView>> {
    match msg.extra {
        Some(es) => Some(entries_view(es@)),
        None => None,
    }
}

/// The signature remembered for a tool call, where entries were recorded.
pub open spec fn lookup_signature(
    es: Option<Seq<EntryView>>,
    index: Option<usize>,
    id: Seq<char>,
    name: Seq<char>,
) -> Option<Seq<char>> {
    match es {
        Some(e) => remembered_signature(e, index, Some(id), Some(name)),
        None => None,
    }
}

/// A `functionCall` part: name, arguments and, where there is one, the
/// thought signature.
pub open spec fn function_call_part(name: Seq<char>, args: JsonView, sig: Option<Seq<char>>) -> JsonView {
    let base = seq![("name"@, JsonView::Str(name)), ("args"@, args)];
    obj1(
        "functionCall"@,
        JsonView::Object(
            match sig {
                Some(s) => base.push(("thoughtSignature"@, JsonView::Str(s))),
                None => base,
            },
        ),
    )
}

/// The part for a tool call of a text message: its own signature, else the
/// one remembered by id or name.
pub open spec fn tool_call_part(tc: ToolCall, es: Option<Seq<EntryView>>) -> JsonView {
    let sig = match tc.thought_signature {
        Some(s) => Some(s@),
        None => lookup_signature(es, None, tc.id@, tc.name@),
    };
    function_call_part(tc.name@, call_args(tc.arguments@), sig)
}

/// The parts for a list of tool calls, in order.
pub open spec fn tool_call_parts(tcs: Seq<ToolCall>, es: Option<Seq<EntryView>>) -> Seq<JsonView> {
    Seq::new(tcs.len(), |i: int| tool_call_part(tcs[i], es))
}

/// The part for the block at `index`.
pub open spec fn block_part(b: ContentBlock, index: int, es: Option<Seq<EntryView>>) -> JsonView {
    match b {
        ContentBlock::Text { text } => text_part(text@),
        ContentBlock::Image { source } => obj1(
            "inlineData"@,
            obj2("mimeType"@, JsonView::Str(source.media_type@), "data"@, JsonView::Str(source.data@)),
        ),
        ContentBlock::ToolUse { id, name, input } => function_call_part(
            name@,
            json_view(input),
            lookup_signature(es, Some(index as usize), id@, name@),
        ),
        ContentBlock::ToolResult { tool_use_id, content } => obj1(
            "functionResponse"@,
            obj2("name"@, JsonView::Str(tool_use_id@), "response"@, json_view(content)),
        ),
        ContentBlock::Reasoning { text } => text_part(text@),
    }
}

/// The parts of a message.
pub open spec fn message_parts(msg: InternalMessage) -> Seq<JsonView> {
    let es = message_entries(msg);
    match msg.content {
        MessageContent::Text(t) => match msg.tool_call_id {
            Some(id) => seq![
                obj1(
                    "functionResponse"@,
                    obj2("name"@, JsonView::Str(id@), "response"@, obj1("result"@, JsonView::Str(t@))),
                ),
            ],
            None => match msg.tool_calls {
                Some(tcs) => (if t@.len() > 0 {
                    seq![text_part(t@)]
                } else {
                    Seq::empty()
                }) + tool_call_parts(tcs@, es),
                None => seq![text_part(t@)],
            },
        },
        MessageContent::Blocks(bs) => Seq::new(bs@.len(), |i: int| block_part(bs@[i], i, es)),
    }
}

/// A non-system message as a Gemini content: its role and its parts.
pub open spec fn encoded_content(msg: InternalMessage) -> JsonView {
    obj2("role"@, JsonView::Str(role_name(msg.role)), "parts"@, JsonView::Array(message_parts(msg)))
}

// ---------------------------------------------------------------------------
// The request encoding, on abstract values
// ---------------------------------------------------------------------------

/// An optional JSON value, abstractly.
pub open spec fn opt_json_view(o: Option<JsonValue>) -> Option<JsonView> {
    match o {
        Some(v) => Some(json_view(v)),
        None => None,
    }
}

/// The preserved field `k` of a request (its first occurrence).
pub open spec fn extra_get(extra: Seq<JsonMember>, k: Seq<char>) -> Option<JsonView> {
    match find_key(members_view(extra), k) {
        Some(i) => Some(members_view(extra)[i].1),
        None => None,
    }
}

/// `ms` with `k` set to `v` where there is a `v`.
pub open spec fn set_opt(ms: Seq<(Seq<char>, JsonView)>, k: Seq<char>, v: Option<JsonView>) -> Seq<
    (Seq<char>, JsonView),
> {
    match v {
        Some(x) => set_key(ms, k, x),
        None => ms,
    }
}

/// The text of the text blocks, in order.
pub open spec fn block_texts(bs: Seq<ContentBlock>) -> Seq<char>
    decreases bs.len(),
{
    if bs.len() == 0 {
        Seq::empty()
    } else {
        block_texts(bs.drop_last()) + match bs.last() {
            ContentBlock::Text { text } => text@,
            _ => Seq::empty(),
        }
    }
}

/// The text of a message's content: the text itself, or that of its text
/// blocks.
pub open spec fn message_text(c: MessageContent) -> Seq<char> {
    match c {
        MessageContent::Text(t) => t@,
        MessageContent::Blocks(bs) => block_texts(bs@),
    }
}

/// A text part for each system message, in order.
pub open spec fn system_parts(ms: Seq<InternalMessage>) -> Seq<JsonView>
    decreases ms.len(),
{
    if ms.len() == 0 {
        Seq::empty()
    } else {
        let rest = system_parts(ms.drop_last());
        if ms.last().role == Role::System {
            rest.push(text_part(message_text(ms.last().content)))
        } else {
            rest
        }
    }
}

/// Each non-system message encoded, in order.
pub open spec fn contents_of(ms: Seq<InternalMessage>) -> Seq<JsonView>
    decreases ms.len(),
{
    if ms.len() == 0 {
        Seq::empty()
    } else {
        let rest = contents_of(ms.drop_last());
        if ms.last().role == Role::System {
            rest
        } else {
            rest.push(encoded_content(ms.last()))
        }
    }
}

/// The system instruction: the preserved one, else the system messages'
/// texts as parts, else none.
pub open spec fn system_instruction(req: InternalRequest) -> Option<JsonView> {
    match extra_get(req.extra@, "__google_raw_system_instruction"@) {
        Some(v) => Some(v),
        None => {
            let p = system_parts(req.messages@);
            if p.len() == 0 {
                None
            } else {
                Some(obj1("parts"@, JsonView::Array(p)))
            }
        },
    }
}

/// The generation config: the preserved one (where it is an object), with
/// the request's temperature, token limit and top-p set over it.
pub open spec fn generation_config(req: InternalRequest) -> Seq<(Seq<char>, JsonView)> {
    let base = match extra_get(req.extra@, "__google_generation_config"@) {
        Some(JsonView::Object(m)) => m,
        _ => Seq::empty(),
    };
    let a = set_opt(
        base,
        "temperature"@,
        match req.temperature {
            Some(t) => Some(JsonView::Number(t@)),
            None => None,
        },
    );
    let b = set_opt(
        a,
        "maxOutputTokens"@,
        match req.max_tokens {
            Some(m) => Some(JsonView::Number(decimal(m as nat))),
            None => None,
        },
    );
    set_opt(
        b,
        "topP"@,
        match req.top_p {
            Some(p) => Some(JsonView::Number(p@)),
            None => None,
        },
    )
}

/// The entry for a built-in Gemini tool, by its reserved name.
pub open spec fn builtin_tool(name: Seq<char>) -> Option<JsonView> {
    if name == "__builtin__google_search"@ {
        Some(obj1("googleSearch"@, JsonView::Object(Seq::empty())))
    } else if name == "__builtin__code_execution"@ {
        Some(obj1("codeExecution"@, JsonView::Object(Seq::empty())))
    } else if name == "__builtin__google_search_retrieval"@ {
        Some(obj1("googleSearchRetrieval"@, JsonView::Object(Seq::empty())))
    } else {
        None
    }
}

/// A function declaration: name, description where there is one, and the
/// parameters schema made acceptable to Gemini.
pub open spec fn function_declaration(t: ToolDefinition) -> JsonView {
    let head = seq![("name"@, JsonView::Str(t.name@))];
    let with_desc = match t.description {
        Some(d) => head.push(("description"@, JsonView::Str(d@))),
        None => head,
    };
    JsonView::Object(with_desc.push(("parameters"@, sanitized(json_view(t.parameters)))))
}

/// The declarations of the tools that are not built-ins, in order.
pub open spec fn function_declarations(ts: Seq<ToolDefinition>) -> Seq<JsonView>
    decreases ts.len(),
{
    if ts.len() == 0 {
        Seq::empty()
    } else {
        let rest = function_declarations(ts.drop_last());
        if builtin_tool(ts.last().name@) is None {
            rest.push(function_declaration(ts.last()))
        } else {
            rest
        }
    }
}

/// The entries of the built-in tools, in order.
pub open spec fn builtin_entries(ts: Seq<ToolDefinition>) -> Seq<JsonView>
    decreases ts.len(),
{
    if ts.len() == 0 {
        Seq::empty()
    } else {
        let rest = builtin_entries(ts.drop_last());
        match builtin_tool(ts.last().name@) {
            Some(e) => rest.push(e),
            None => rest,
        }
    }
}

/// The tools array: one `functionDeclarations` entry where there are
/// declarations, then the built-ins.
pub open spec fn tool_array(ts: Seq<ToolDefinition>) -> Seq<JsonView> {
    let d = function_declarations(ts);
    (if d.len() > 0 {
        seq![obj1("functionDeclarations"@, JsonView::Array(d))]
    } else {
        Seq::empty()
    }) + builtin_entries(ts)
}

/// The tools: the preserved ones, else those of the request where the
/// array is not empty.
pub open spec fn tools_value(req: InternalRequest) -> Option<JsonView> {
    match extra_get(req.extra@, "__google_raw_tools"@) {
        Some(v) => Some(v),
        None => match req.tools {
            Some(ts) => if tool_array(ts@).len() > 0 {
                Some(JsonView::Array(tool_array(ts@)))
            } else {
                None
            },
            None => None,
        },
    }
}

/// The members of the encoded request, before the preserved passthrough
/// fields.
pub open spec fn core_members(req: InternalRequest) -> Seq<(Seq<char>, JsonView)> {
    let m0 = seq![("contents"@, JsonView::Array(contents_of(req.messages@)))];
    let m1 = set_opt(m0, "systemInstruction"@, system_instruction(req));
    let g = generation_config(req);
    let m2 = if g.len() > 0 {
        set_key(m1, "generationConfig"@, JsonView::Object(g))
    } else {
        m1
    };
    set_opt(m2, "tools"@, tools_value(req))
}

/// The Gemini request body: contents, system instruction, generation
/// config, tools, then the preserved tool config, safety settings and
/// cached content.
pub open spec fn encoded_request(req: InternalRequest) -> JsonView {
    let m3 = core_members(req);
    let m4 = set_opt(m3, "toolConfig"@, extra_get(req.extra@, "__google_tool_config"@));
    let m5 = set_opt(m4, "safetySettings"@, extra_get(req.extra@, "__google_safety_settings"@));
    JsonView::Object(
        set_opt(m5, "cachedContent"@, extra_get(req.extra@, "__google_cached_content"@)),
    )
}

// ---------------------------------------------------------------------------
// Building JSON values

// ---------------------------------------------------------------------------

/// A copy of a JSON value.
pub fn clone_json(v: &JsonValue) -> (r: JsonValue)
    ensures
        json_view(r) == json_view(*v),
    decreases v,
{
    match v {
        JsonValue::Null => JsonValue::Null,
        JsonValue::Bool(b) => JsonValue::Bool(*b),
        JsonValue::Number(n) => JsonValue::Number(n.clone()),
        JsonValue::Str(s) => JsonValue::Str(s.clone()),
        JsonValue::Array(items) => {
            let mut out: Vec<JsonValue> = Vec::new();
            let mut i: usize = 0;
            while i < items.len()
                invariant
                    i <= items.len(),
                    *v == JsonValue::Array(*items),
                    items_view(out@) == items_view(items@.take(i as int)),
                decreases items.len() - i,
            {
                proof {
                    assert(decreases_to!(*v => (*v)->Array_0));
                    assert(decreases_to!(*items => items@));
                    assert(decreases_to!(items@ => items@[i as int]));
                }
                let x = clone_json(&items[i]);
                proof {
                    lemma_items_view_push(out@, x);
                    assert(items@.take(i + 1) =~= items@.take(i as int).push(items@[i as int]));
                    lemma_items_view_push(items@.take(i as int), items@[i as int]);
                }
                out.push(x);
                i = i + 1;
            }
            assert(items@.take(items.len() as int) =~= items@);
            JsonValue::Array(out)
        },
        JsonValue::Object(ms) => {
            let mut out: Vec<JsonMember> = Vec::new();
            let mut i: usize = 0;
            while i < ms.len()
                invariant
                    i <= ms.len(),
                    *v == JsonValue::Object(*ms),
                    members_view(out@) == members_view(ms@.take(i as int)),
                decreases ms.len() - i,
            {
                proof {
                    assert(decreases_to!(*v => (*v)->Object_0));
                    assert(decreases_to!(*ms => ms@));
                    assert(decreases_to!(ms@ => ms@[i as int]));
                    assert(decreases_to!(ms@[i as int] => ms@[i as int].value));
                }
                let x = clone_json(&ms[i].value);
                let m = JsonMember { key: ms[i].key.clone(), value: x };
                proof {
                    lemma_members_view_push(out@, m);
                    assert(ms@.take(i + 1) =~= ms@.take(i as int).push(ms@[i as int]));
                    lemma_members_view_push(ms@.take(i as int), ms@[i as int]);
                }
                out.push(m);
                i = i + 1;
            }
            assert(ms@.take(ms.len() as int) =~= ms@);
            JsonValue::Object(out)
        },
    }
}

/// An object of one member (see `obj1`).
fn object1(k: &str, v: JsonValue) -> (r: JsonValue)
    ensures
        json_view(r) == obj1(k@, json_view(v)),
{
    let mut ms: Vec<JsonMember> = Vec::new();
    let m = JsonMember { key: k.to_string(), value: v };
    proof {
        lemma_members_view_push(ms@, m);
    }
    ms.push(m);
    assert(members_view(ms@) =~= seq![(k@, json_view(v))]);
    JsonValue::Object(ms)
}

/// An object of two members (see `obj2`).
fn object2(k1: &str, v1: JsonValue, k2: &str, v2: JsonValue) -> (r: JsonValue)
    ensures
        json_view(r) == obj2(k1@, json_view(v1), k2@, json_view(v2)),
{
    let mut ms: Vec<JsonMember> = Vec::new();
    let m1 = JsonMember { key: k1.to_string(), value: v1 };
    proof {
        lemma_members_view_push(ms@, m1);
    }
    ms.push(m1);
    let m2 = JsonMember { key: k2.to_string(), value: v2 };
    proof {
        lemma_members_view_push(ms@, m2);
    }
    ms.push(m2);
    assert(members_view(ms@) =~= seq![(k1@, json_view(v1)), (k2@, json_view(v2))]);
    JsonValue::Object(ms)
}

/// A text part (see `text_part`).
fn text_part_value(t: &String) -> (r: JsonValue)
    ensures
        json_view(r) == text_part(t@),
{
    object1("text", JsonValue::Str(t.clone()))
}

/// A `functionCall` part (see `function_call_part`).
fn function_call_value(name: &String, args: JsonValue, sig: Option<String>) -> (r: JsonValue)
    ensures
        json_view(r) == function_call_part(
            name@,
            json_view(args),
            match sig {
                Some(s) => Some(s@),
                None => None,
            },
        ),
{
    let ghost av = json_view(args);
    let mut ms: Vec<JsonMember> = Vec::new();
    let m1 = JsonMember { key: "name".to_string(), value: JsonValue::Str(name.clone()) };
    proof {
        lemma_members_view_push(ms@, m1);
    }
    ms.push(m1);
    let m2 = JsonMember { key: "args".to_string(), value: args };
    proof {
        lemma_members_view_push(ms@, m2);
    }
    ms.push(m2);
    let ghost base = members_view(ms@);
    assert(base =~= seq![("name"@, JsonView::Str(name@)), ("args"@, av)]);
    match sig {
        Some(s) => {
            let m3 = JsonMember { key: "thoughtSignature".to_string(), value: JsonValue::Str(s) };
            proof {
                lemma_members_view_push(ms@, m3);
            }
            ms.push(m3);
        },
        None => {},
    }
    object1("functionCall", JsonValue::Object(ms))
}

/// The entries of a message, borrowed.
fn entries_of(msg: &InternalMessage) -> (r: Option<&Vec<ToolCallMetadataEntry>>)
    ensures
        match r {
            Some(es) => message_entries(*msg) == Some(entries_view(es@)),
            None => message_entries(*msg).is_none(),
        },
{
    match &msg.extra {
        Some(es) => Some(es),
        None => None,
    }
}

/// The signature remembered for a tool call (see `lookup_signature`).
fn signature_for(
    es: Option<&Vec<ToolCallMetadataEntry>>,
    index: Option<usize>,
    id: &String,
    name: &String,
) -> (r: Option<String>)
    ensures
        (match r {
            Some(s) => Some(s@),
            None => None,
        }) == lookup_signature(
            match es {
                Some(e) => Some(entries_view(e@)),
                None => None,
            },
            index,
            id@,
            name@,
        ),
{
    lookup_google_tool_call_thought_signature(es, index, Some(id.as_str()), Some(name.as_str()))
}

/// The part for the block at `index` (see `block_part`).
fn block_value(b: &ContentBlock, index: usize, es: Option<&Vec<ToolCallMetadataEntry>>) -> (r: JsonValue)
    ensures
        json_view(r) == block_part(
            *b,
            index as int,
            match es {
                Some(e) => Some(entries_view(e@)),
                None => None,
            },
        ),
{
    match b {
        ContentBlock::Text { text } => text_part_value(text),
        ContentBlock::Image { source } => object1(
            "inlineData",
            object2(
                "mimeType",
                JsonValue::Str(source.media_type.clone()),
                "data",
                JsonValue::Str(source.data.clone()),
            ),
        ),
        ContentBlock::ToolUse { id, name, input } => {
            let sig = signature_for(es, Some(index), id, name);
            function_call_value(name, clone_json(input), sig)
        },
        ContentBlock::ToolResult { tool_use_id, content } => object1(
            "functionResponse",
            object2("name", JsonValue::Str(tool_use_id.clone()), "response", clone_json(content)),
        ),
        ContentBlock::Reasoning { text } => text_part_value(text),
    }
}

/// The part for a tool call of a text message (see `tool_call_part`).
fn tool_call_value(tc: &ToolCall, es: Option<&Vec<ToolCallMetadataEntry>>) -> (r: JsonValue)
    ensures
        json_view(r) == tool_call_part(
            *tc,
            match es {
                Some(e) => Some(entries_view(e@)),
                None => None,
            },
        ),
{
    let args = parse_call_arguments(tc.arguments.as_str());
    let sig = match &tc.thought_signature {
        Some(s) => Some(s.clone()),
        None => signature_for(es, None, &tc.id, &tc.name),
    };
    function_call_value(&tc.name, args, sig)
}

/// The parts of a message (see `message_parts`).
fn message_parts_value(msg: &InternalMessage) -> (r: Vec<JsonValue>)
    ensures
        items_view(r@) == message_parts(*msg),
{
    let es = entries_of(msg);
    let ghost esv = message_entries(*msg);
    let mut parts: Vec<JsonValue> = Vec::new();
    match &msg.content {
        MessageContent::Text(t) => {
            match &msg.tool_call_id {
                Some(id) => {
                    let p = object1(
                        "functionResponse",
                        object2(
                            "name",
                            JsonValue::Str(id.clone()),
                            "response",
                            object1("result", JsonValue::Str(t.clone())),
                        ),
                    );
                    proof {
                        lemma_items_view_push(parts@, p);
                    }
                    parts.push(p);
                    assert(items_view(parts@) =~= message_parts(*msg));
                },
                None => {
                    match &msg.tool_calls {
                        Some(tcs) => {
                            if !t.as_str().is_empty() {
                                let p = text_part_value(t);
                                proof {
                                    lemma_items_view_push(parts@, p);
                                }
                                parts.push(p);
                            }
                            let ghost head = items_view(parts@);
                            assert(head =~= if t@.len() > 0 {
                                seq![text_part(t@)]
                            } else {
                                Seq::<JsonView>::empty()
                            });
                            let mut i: usize = 0;
                            while i < tcs.len()
                                invariant
                                    i <= tcs.len(),
                                    items_view(parts@) == head + tool_call_parts(tcs@, esv).take(i as int),
                                    esv == match es {
                                        Some(e) => Some(entries_view(e@)),
                                        None => None,
                                    },
                                decreases tcs.len() - i,
                            {
                                let p = tool_call_value(&tcs[i], es);
                                proof {
                                    lemma_items_view_push(parts@, p);
                                    assert(tool_call_parts(tcs@, esv).take(i + 1) =~= tool_call_parts(
                                        tcs@,
                                        esv,
                                    ).take(i as int).push(json_view(p)));
                                }
                                parts.push(p);
                                i = i + 1;
                            }
                            assert(tool_call_parts(tcs@, esv).take(tcs.len() as int) =~= tool_call_parts(tcs@, esv));
                        },
                        None => {
                            let p = text_part_value(t);
                            proof {
                                lemma_items_view_push(parts@, p);
                            }
                            parts.push(p);
                            assert(items_view(parts@) =~= message_parts(*msg));
                        },
                    }
                },
            }
        },
        MessageContent::Blocks(bs) => {
            let ghost want = Seq::new(bs@.len(), |i: int| block_part(bs@[i], i, esv));
            let mut i: usize = 0;
            while i < bs.len()
                invariant
                    i <= bs.len(),
                    want == Seq::new(bs@.len(), |i: int| block_part(bs@[i], i, esv)),
                    items_view(parts@) == want.take(i as int),
                    esv == match es {
                        Some(e) => Some(entries_view(e@)),
                        None => None,
                    },
                decreases bs.len() - i,
            {
                let p = block_value(&bs[i], i, es);
                proof {
                    lemma_items_view_push(parts@, p);
                    assert(want.take(i + 1) =~= want.take(i as int).push(json_view(p)));
                }
                parts.push(p);
                i = i + 1;
            }
            assert(want.take(bs.len() as int) =~= want);
        },
    }
    parts
}

/// A non-system message as a Gemini content: `{"role", "parts"}` (see
/// `encoded_content`).
pub fn encode_content(msg: &InternalMessage) -> (r: JsonValue)
    requires
        msg.role != Role::System,
    ensures
        json_view(r) == encoded_content(*msg),
{
    let role = match msg.role {
        Role::Assistant => "model",
        _ => "user",
    };
    let parts = message_parts_value(msg);
    object2("role", JsonValue::Str(role.to_string()), "parts", JsonValue::Array(parts))
}

// ---------------------------------------------------------------------------
// Encoding a request
// ---------------------------------------------------------------------------

/// A copy of the preserved field `k` (see `extra_get`).
fn extra_value(extra: &Vec<JsonMember>, k: &str) -> (r: Option<JsonValue>)
    ensures
        opt_json_view(r) == extra_get(extra@, k@),
{
    match find_member(extra, k) {
        Some(i) => {
            proof {
                lemma_members_view(extra@);
            }
            Some(clone_json(&extra[i].value))
        },
        None => None,
    }
}

/// Sets member `k` where there is a value (see `set_opt`).
fn set_member_opt(out: &mut Vec<JsonMember>, k: &str, v: Option<JsonValue>)
    ensures
        members_view(final(out)@) == set_opt(members_view(old(out)@), k@, opt_json_view(v)),
{
    match v {
        Some(x) => set_member(out, k.to_string(), x),
        None => {},
    }
}

/// The text of a message's content (see `message_text`).
fn message_text_value(c: &MessageContent) -> (r: String)
    ensures
        r@ == message_text(*c),
{
    match c {
        MessageContent::Text(t) => t.clone(),
        MessageContent::Blocks(bs) => {
            let mut out = String::new();
            let mut i: usize = 0;
            while i < bs.len()
                invariant
                    i <= bs.len(),
                    out@ == block_texts(bs@.take(i as int)),
                decreases bs.len() - i,
            {
                assert(bs@.take(i + 1).drop_last() =~= bs@.take(i as int));
                match &bs[i] {
                    ContentBlock::Text { text } => push_str(&mut out, text.as_str()),
                    _ => {},
                }
                assert(out@ =~= block_texts(bs@.take(i + 1)));
                i = i + 1;
            }
            assert(bs@.take(bs.len() as int) =~= bs@);
            out
        },
    }
}

/// The system instruction (see `system_instruction`).
fn system_instruction_value(req: &InternalRequest) -> (r: Option<JsonValue>)
    ensures
        opt_json_view(r) == system_instruction(*req),
{
    match extra_value(&req.extra, "__google_raw_system_instruction") {
        Some(v) => Some(v),
        None => {
            let ms = &req.messages;
            let mut parts: Vec<JsonValue> = Vec::new();
            let mut i: usize = 0;
            while i < ms.len()
                invariant
                    i <= ms.len(),
                    items_view(parts@) == system_parts(ms@.take(i as int)),
                decreases ms.len() - i,
            {
                assert(ms@.take(i + 1).drop_last() =~= ms@.take(i as int));
                if ms[i].role == Role::System {
                    let t = message_text_value(&ms[i].content);
                    let p = object1("text", JsonValue::Str(t));
                    proof {
                        lemma_items_view_push(parts@, p);
                    }
                    parts.push(p);
                }
                i = i + 1;
            }
            assert(ms@.take(ms.len() as int) =~= ms@);
            if parts.len() == 0 {
                proof {
                    crate::schema::lemma_items_view(parts@);
                }
                None
            } else {
                proof {
                    crate::schema::lemma_items_view(parts@);
                }
                Some(object1("parts", JsonValue::Array(parts)))
            }
        },
    }
}

/// Each non-system message encoded (see `contents_of`).
fn contents_value(ms: &Vec<InternalMessage>) -> (r: Vec<JsonValue>)
    ensures
        items_view(r@) == contents_of(ms@),
{
    let mut out: Vec<JsonValue> = Vec::new();
    let mut i: usize = 0;
    while i < ms.len()
        invariant
            i <= ms.len(),
            items_view(out@) == contents_of(ms@.take(i as int)),
        decreases ms.len() - i,
    {
        assert(ms@.take(i + 1).drop_last() =~= ms@.take(i as int));
        if ms[i].role != Role::System {
            let c = encode_content(&ms[i]);
            proof {
                lemma_items_view_push(out@, c);
            }
            out.push(c);
        }
        i = i + 1;
    }
    assert(ms@.take(ms.len() as int) =~= ms@);
    out
}

/// The generation config (see `generation_config`).
fn generation_config_value(req: &InternalRequest) -> (r: Vec<JsonMember>)
    ensures
        members_view(r@) == generation_config(*req),
{
    let mut out: Vec<JsonMember> = match extra_value(&req.extra, "__google_generation_config") {
        Some(JsonValue::Object(m)) => m,
        _ => {
            let e: Vec<JsonMember> = Vec::new();
            assert(members_view(e@) =~= Seq::empty());
            e
        },
    };
    let t = match &req.temperature {
        Some(t) => Some(JsonValue::Number(t.clone())),
        None => None,
    };
    set_member_opt(&mut out, "temperature", t);
    let m = match req.max_tokens {
        Some(m) => {
            let mut text = String::new();
            push_decimal(&mut text, m as usize);
            assert(text@ =~= decimal(m as nat));
            Some(JsonValue::Number(text))
        },
        None => None,
    };
    set_member_opt(&mut out, "maxOutputTokens", m);
    let p = match &req.top_p {
        Some(p) => Some(JsonValue::Number(p.clone())),
        None => None,
    };
    set_member_opt(&mut out, "topP", p);
    out
}

/// The entry for a built-in tool (see `builtin_tool`).
fn builtin_value(name: &str) -> (r: Option<JsonValue>)
    ensures
        opt_json_view(r) == builtin_tool(name@),
{
    let key = if str_eq(name, "__builtin__google_search") {
        "googleSearch"
    } else if str_eq(name, "__builtin__code_execution") {
        "codeExecution"
    } else if str_eq(name, "__builtin__google_search_retrieval") {
        "googleSearchRetrieval"
    } else {
        return None;
    };
    let e: Vec<JsonMember> = Vec::new();
    assert(members_view(e@) =~= Seq::empty());
    Some(object1(key, JsonValue::Object(e)))
}

/// A function declaration (see `function_declaration`).
fn function_declaration_value(t: &ToolDefinition) -> (r: JsonValue)
    ensures
        json_view(r) == function_declaration(*t),
{
    let mut ms: Vec<JsonMember> = Vec::new();
    let m1 = JsonMember { key: "name".to_string(), value: JsonValue::Str(t.name.clone()) };
    proof {
        lemma_members_view_push(ms@, m1);
    }
    ms.push(m1);
    assert(members_view(ms@) =~= seq![("name"@, JsonView::Str(t.name@))]);
    match &t.description {
        Some(d) => {
            let m2 = JsonMember { key: "description".to_string(), value: JsonValue::Str(d.clone()) };
            proof {
                lemma_members_view_push(ms@, m2);
            }
            ms.push(m2);
        },
        None => {},
    }
    let m3 = JsonMember {
        key: "parameters".to_string(),
        value: sanitize_gemini_schema(clone_json(&t.parameters)),
    };
    proof {
        lemma_members_view_push(ms@, m3);
    }
    ms.push(m3);
    JsonValue::Object(ms)
}

/// The tools array (see `tool_array`).
fn tool_array_value(ts: &Vec<ToolDefinition>) -> (r: Vec<JsonValue>)
    ensures
        items_view(r@) == tool_array(ts@),
{
    let mut decls: Vec<JsonValue> = Vec::new();
    let mut builtins: Vec<JsonValue> = Vec::new();
    let mut i: usize = 0;
    while i < ts.len()
        invariant
            i <= ts.len(),
            items_view(decls@) == function_declarations(ts@.take(i as int)),
            items_view(builtins@) == builtin_entries(ts@.take(i as int)),
        decreases ts.len() - i,
    {
        assert(ts@.take(i + 1).drop_last() =~= ts@.take(i as int));
        match builtin_value(ts[i].name.as_str()) {
            Some(e) => {
                proof {
                    lemma_items_view_push(builtins@, e);
                }
                builtins.push(e);
            },
            None => {
                let d = function_declaration_value(&ts[i]);
                proof {
                    lemma_items_view_push(decls@, d);
                }
                decls.push(d);
            },
        }
        i = i + 1;
    }
    assert(ts@.take(ts.len() as int) =~= ts@);
    proof {
        crate::schema::lemma_items_view(decls@);
    }
    let mut out: Vec<JsonValue> = Vec::new();
    if decls.len() > 0 {
        let d = object1("functionDeclarations", JsonValue::Array(decls));
        proof {
            lemma_items_view_push(out@, d);
        }
        out.push(d);
    }
    let ghost head = items_view(out@);
    let mut j: usize = 0;
    while j < builtins.len()
        invariant
            j <= builtins.len(),
            items_view(out@) == head + items_view(builtins@.take(j as int)),
        decreases builtins.len() - j,
    {
        let e = clone_json(&builtins[j]);
        proof {
            lemma_items_view_push(out@, e);
            assert(builtins@.take(j + 1) =~= builtins@.take(j as int).push(builtins@[j as int]));
            lemma_items_view_push(builtins@.take(j as int), builtins@[j as int]);
        }
        out.push(e);
        j = j + 1;
    }
    assert(builtins@.take(builtins.len() as int) =~= builtins@);
    assert(items_view(out@) =~= tool_array(ts@));
    out
}

/// The tools (see `tools_value`).
fn tools_json(req: &InternalRequest) -> (r: Option<JsonValue>)
    ensures
        opt_json_view(r) == tools_value(*req),
{
    match extra_value(&req.extra, "__google_raw_tools") {
        Some(v) => Some(v),
        None => match &req.tools {
            Some(ts) => {
                let a = tool_array_value(ts);
                proof {
                    crate::schema::lemma_items_view(a@);
                }
                if a.len() > 0 {
                    Some(JsonValue::Array(a))
                } else {
                    None
                }
            },
            None => None,
        },
    }
}

impl GoogleEncoder {
    /// The Gemini request body for `req` (see `encoded_request`).
    pub fn encode_request(&self, req: &InternalRequest) -> (r: JsonValue)
        ensures
            json_view(r) == encoded_request(*req),
    {
        let system = system_instruction_value(req);
        let contents = contents_value(&req.messages);
        let mut body: Vec<JsonMember> = Vec::new();
        let m0 = JsonMember { key: "contents".to_string(), value: JsonValue::Array(contents) };
        proof {
            lemma_members_view_push(body@, m0);
        }
        body.push(m0);
        assert(members_view(body@) =~= seq![("contents"@, JsonView::Array(contents_of(req.messages@)))]);
        set_member_opt(&mut body, "systemInstruction", system);
        let g = generation_config_value(req);
        proof {
            lemma_members_view(g@);
        }
        if g.len() > 0 {
            set_member(&mut body, "generationConfig".to_string(), JsonValue::Object(g));
        }
        set_member_opt(&mut body, "tools", tools_json(req));
        assert(members_view(body@) == core_members(*req));
        set_member_opt(&mut body, "toolConfig", extra_value(&req.extra, "__google_tool_config"));
        set_member_opt(&mut body, "safetySettings", extra_value(&req.extra, "__google_safety_settings"));
        set_member_opt(&mut body, "cachedContent", extra_value(&req.extra, "__google_cached_content"));
        JsonValue::Object(body)
    }
}


/// Gemini's built-in tools are asked for by reserved tool names:
/// `__builtin__google_search` gives `{"googleSearch": {}}`,
/// `__builtin__code_execution` gives `{"codeExecution": {}}` and
/// `__builtin__google_search_retrieval` gives `{"googleSearchRetrieval": {}}`;
/// any other name is declared as a function. User and tool messages are
/// sent with the role `user`, assistant messages with the role `model`.
pub proof fn law_builtin_tools_and_roles(name: Seq<char>)
    ensures
        name == "__builtin__google_search"@ ==> builtin_tool(name) == Some(
            JsonView::Object(seq![("googleSearch"@, JsonView::Object(Seq::empty()))]),
        ),
        name == "__builtin__code_execution"@ ==> builtin_tool(name) == Some(
            JsonView::Object(seq![("codeExecution"@, JsonView::Object(Seq::empty()))]),
        ),
        name == "__builtin__google_search_retrieval"@ ==> builtin_tool(name) == Some(
            JsonView::Object(seq![("googleSearchRetrieval"@, JsonView::Object(Seq::empty()))]),
        ),
        name != "__builtin__google_search"@ && name != "__builtin__code_execution"@ && name
            != "__builtin__google_search_retrieval"@ ==> builtin_tool(name) is None,
        role_name(Role::User) == "user"@ && role_name(Role::Tool) == "user"@ && role_name(Role::Assistant)
            == "model"@,
{
    reveal_strlit("__builtin__google_search");
    reveal_strlit("__builtin__code_execution");
    reveal_strlit("__builtin__google_search_retrieval");
    assert("__builtin__google_search"@.len() != "__builtin__google_search_retrieval"@.len());
    assert("__builtin__google_search"@[11] != "__builtin__code_execution"@[11]);
    assert("__builtin__code_execution"@[11] != "__builtin__google_search_retrieval"@[11]);
}

} // verus!
