use race_gateway::schema::{
    append_description_notes, gemini_schema_compatibility_note, reconcile_required_with_properties,
    sanitize_gemini_schema, JsonMember, JsonValue,
};

fn s(t: &str) -> JsonValue {
    JsonValue::Str(t.to_string())
}

fn member(k: &str, v: JsonValue) -> JsonMember {
    JsonMember { key: k.to_string(), value: v }
}

fn obj(ms: Vec<JsonMember>) -> JsonValue {
    JsonValue::Object(ms)
}

fn get<'a>(v: &'a JsonValue, k: &str) -> Option<&'a JsonValue> {
    match v {
        JsonValue::Object(ms) => ms.iter().find(|m| m.key == k).map(|m| &m.value),
        _ => None,
    }
}

fn text(v: Option<&JsonValue>) -> Option<String> {
    match v {
        Some(JsonValue::Str(t)) => Some(t.clone()),
        _ => None,
    }
}

#[test]
fn notes_for_dropped_keywords() {
    assert_eq!(
        gemini_schema_compatibility_note("additionalProperties", &JsonValue::Bool(false)),
        Some("Additional properties are not allowed.".to_string())
    );
    assert_eq!(
        gemini_schema_compatibility_note("propertyNames", &obj(vec![member("pattern", s("^a+$"))])),
        Some("Object property names should match regex `^a+$`.".to_string())
    );
    assert_eq!(
        gemini_schema_compatibility_note("exclusiveMinimum", &JsonValue::Number("0".to_string())),
        Some("Value must be strictly greater than 0.".to_string())
    );
    assert_eq!(gemini_schema_compatibility_note("exclusiveMaximum", &JsonValue::Null), None);
    assert_eq!(gemini_schema_compatibility_note("type", &s("object")), None);
}

#[test]
fn sanitizer_drops_keywords_and_reconciles_required() {
    let schema = obj(vec![
        member("$schema", s("http://json-schema.org/draft-07/schema#")),
        member("additionalProperties", JsonValue::Bool(false)),
        member(
            "properties",
            obj(vec![member(
                "q",
                obj(vec![member("type", s("string")), member("exclusiveMaximum", JsonValue::Number("5".to_string()))]),
            )]),
        ),
        member("required", JsonValue::Array(vec![s("q"), s("missing"), JsonValue::Number("1".to_string())])),
        member("type", s("object")),
    ]);
    let out = sanitize_gemini_schema(schema);
    assert!(get(&out, "$schema").is_none());
    assert!(get(&out, "additionalProperties").is_none());
    match get(&out, "required") {
        Some(JsonValue::Array(items)) => {
            assert_eq!(items.len(), 1);
            assert!(matches!(&items[0], JsonValue::Str(t) if t == "q"));
        }
        _ => panic!("required kept as array"),
    }
    assert_eq!(
        text(get(&out, "description")),
        Some("Gemini compatibility hints: Additional properties are not allowed. Required fields omitted for Gemini compatibility because their property definitions are unavailable: missing.".to_string())
    );
    let q = get(get(&out, "properties").unwrap(), "q").unwrap();
    assert!(get(q, "exclusiveMaximum").is_none());
    assert_eq!(
        text(get(q, "description")),
        Some("Gemini compatibility hints: Value must be strictly less than 5.".to_string())
    );
}

#[test]
fn required_without_properties_is_emptied() {
    let mut ms = vec![member("required", JsonValue::Array(vec![s("a")]))];
    let mut notes: Vec<String> = vec![];
    reconcile_required_with_properties(&mut ms, &mut notes);
    assert!(matches!(&ms[0].value, JsonValue::Array(v) if v.is_empty()));
    assert_eq!(notes.len(), 1);
    assert!(notes[0].starts_with("Some required fields were dropped"));
}

#[test]
fn description_notes_append_once() {
    let mut ms = vec![member("description", s("Lookup tool"))];
    append_description_notes(&mut ms, vec!["A.".to_string(), "A.".to_string(), "B.".to_string()]);
    assert_eq!(text(Some(&ms[0].value)), Some("Lookup tool\n\nGemini compatibility hints: A. B.".to_string()));
    append_description_notes(&mut ms, vec!["A.".to_string(), "B.".to_string()]);
    assert_eq!(text(Some(&ms[0].value)), Some("Lookup tool\n\nGemini compatibility hints: A. B.".to_string()));
    let mut other = vec![member("description", JsonValue::Number("3".to_string()))];
    append_description_notes(&mut other, vec!["C.".to_string()]);
    assert_eq!(text(Some(&other[0].value)), Some("Gemini compatibility hints: C.".to_string()));
    let mut none: Vec<JsonMember> = vec![];
    append_description_notes(&mut none, vec![]);
    assert!(none.is_empty());
}

#[test]
fn arrays_and_scalars() {
    let out = sanitize_gemini_schema(JsonValue::Array(vec![obj(vec![member("not", obj(vec![]))]), JsonValue::Bool(true)]));
    match out {
        JsonValue::Array(items) => {
            assert_eq!(items.len(), 2);
            match &items[0] {
                JsonValue::Object(ms) => assert!(ms.is_empty()),
                _ => panic!("object"),
            }
            assert!(matches!(items[1], JsonValue::Bool(true)));
        }
        _ => panic!("array"),
    }
}
