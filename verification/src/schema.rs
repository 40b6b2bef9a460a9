//! Making a JSON Schema acceptable to Gemini's function declarations:
//! unsupported keywords are dropped, `required` is reconciled with the
//! remaining `properties`, and what was lost is described in hints appended
//! to the schema's description.
use vstd::prelude::*;

use crate::gemini::{gemini_unsupported_keywords, is_gemini_unsupported_schema_keyword};
use crate::text::{chars_of, contains_chars, contains_seq, push_str, str_eq};

verus! {

/// A JSON value; numbers are held as the text JSON writes for them, and an
/// object as its members in order, each key once.
#[derive(Debug)]
pub enum JsonValue {
    Null,
    Bool(bool),
    Number(String),
    Str(String),
    Array(Vec<JsonValue>),
    Object(Vec<JsonMember>),
}

/// A member of a JSON object.
#[derive(Debug)]
pub struct JsonMember {
    pub key: String,
    pub value: JsonValue,
}

/// Position of the first member with key `k`.
pub(crate) fn find_member(ms: &Vec<JsonMember>, k: &str) -> (r: Option<usize>)
    ensures
        match r {
            Some(i) => find_key(members_view(ms@), k@) == Some(i as int) && i < ms.len(),
            None => find_key(members_view(ms@), k@).is_none(),
        },
{
    let ghost mv = members_view(ms@);
    proof {
        lemma_members_view(ms@);
    }
    let mut i: usize = 0;
    while i < ms.len()
        invariant
            i <= ms.len(),
            mv == members_view(ms@),
            mv.len() == ms.len(),
            forall|j: int| 0 <= j < ms.len() ==> #[trigger] mv[j] == (ms@[j].key@, json_view(ms@[j].value)),
            find_key(mv.subrange(0, i as int), k@).is_none(),
        decreases ms.len() - i,
    {
        assert(mv.subrange(0, i + 1).drop_last() =~= mv.subrange(0, i as int));
        assert(mv[i as int].0 == ms@[i as int].key@);
        if str_eq(ms[i].key.as_str(), k) {
            proof {
                lemma_find_key_prefix(mv, i + 1, k@);
            }
            return Some(i);
        }
        i += 1;
    }
    assert(mv.subrange(0, ms.len() as int) =~= mv);
    None
}

pub(crate) proof fn lemma_members_view(ms: Seq<JsonMember>)
    ensures
        members_view(ms).len() == ms.len(),
        forall|i: int|
            0 <= i < ms.len() ==> #[trigger] members_view(ms)[i] == (ms[i].key@, json_view(ms[i].value)),
    decreases ms.len(),
{
    if ms.len() > 0 {
        let d = ms.subrange(0, ms.len() - 1);
        lemma_members_view(d);
        assert forall|i: int| 0 <= i < ms.len() implies #[trigger] members_view(ms)[i] == (
            ms[i].key@,
            json_view(ms[i].value),
        ) by {
            if i < ms.len() - 1 {
                assert(d[i] == ms[i]);
            }
        }
    }
}

pub(crate) proof fn lemma_items_view(s: Seq<JsonValue>)
    ensures
        items_view(s).len() == s.len(),
        forall|i: int| 0 <= i < s.len() ==> #[trigger] items_view(s)[i] == json_view(s[i]),
    decreases s.len(),
{
    if s.len() > 0 {
        let d = s.subrange(0, s.len() - 1);
        lemma_items_view(d);
        assert forall|i: int| 0 <= i < s.len() implies #[trigger] items_view(s)[i] == json_view(s[i]) by {
            if i < s.len() - 1 {
                assert(d[i] == s[i]);
            }
        }
    }
}

proof fn lemma_find_key_prefix(ms: Seq<(Seq<char>, JsonView)>, n: int, k: Seq<char>)
    requires
        0 <= n <= ms.len(),
    ensures
        find_key(ms.subrange(0, n), k) is Some ==> find_key(ms, k) == find_key(ms.subrange(0, n), k),
        find_key(ms.subrange(0, n), k) matches Some(i) ==> 0 <= i < n && ms[i].0 == k,
    decreases ms.len() - n,
{
    lemma_find_key_bound(ms.subrange(0, n), k);
    if n < ms.len() {
        assert(ms.subrange(0, n + 1).drop_last() =~= ms.subrange(0, n));
        lemma_find_key_prefix(ms, n + 1, k);
    } else {
        assert(ms.subrange(0, n) =~= ms);
    }
}

pub(crate) proof fn lemma_find_key_bound(ms: Seq<(Seq<char>, JsonView)>, k: Seq<char>)
    ensures
        find_key(ms, k) matches Some(i) ==> 0 <= i < ms.len() && ms[i].0 == k,
        find_key(ms, k) is None ==> forall|j: int| 0 <= j < ms.len() ==> ms[j].0 != k,
    decreases ms.len(),
{
    if ms.len() > 0 {
        let d = ms.drop_last();
        lemma_find_key_bound(d, k);
        assert(forall|j: int| 0 <= j < d.len() ==> d[j] == ms[j]);
    }
}

fn number_note_exec(v: &JsonValue, prefix: &str) -> (r: Option<String>)
    ensures
        match r {
            Some(s) => bound_note(json_view(*v), prefix@) == Some(s@),
            None => bound_note(json_view(*v), prefix@).is_none(),
        },
{
    let text = match v {
        JsonValue::Number(n) => n.as_str(),
        JsonValue::Str(t) => t.as_str(),
        _ => return None,
    };
    let mut out = String::new();
    push_str(&mut out, prefix);
    push_str(&mut out, " ");
    push_str(&mut out, text);
    push_str(&mut out, ".");
    assert(out@ =~= prefix@ + " "@ + text@ + "."@);
    Some(out)
}

/// The hint that keyword `key` with value `value` leaves behind when it is
/// dropped for Gemini (see `keyword_note`).
pub fn gemini_schema_compatibility_note(key: &str, value: &JsonValue) -> (r: Option<String>)
    ensures
        match r {
            Some(s) => keyword_note(key@, json_view(*value)) == Some(s@),
            None => keyword_note(key@, json_view(*value)).is_none(),
        },
{
    if str_eq(key, "additionalProperties") {
        return match value {
            JsonValue::Bool(false) => Some("Additional properties are not allowed.".to_string()),
            JsonValue::Bool(true) => Some("Additional properties are allowed.".to_string()),
            _ => Some(
                "Additional properties have schema constraints that Gemini does not enforce directly.".to_string(),
            ),
        };
    }
    if str_eq(key, "propertyNames") {
        let pattern: Option<&str> = match value {
            JsonValue::Object(ms) => match find_member(ms, "pattern") {
                Some(i) => {
                    proof {
                        lemma_members_view(ms@);
                    }
                    match &ms[i].value {
                        JsonValue::Str(p) => Some(p.as_str()),
                        _ => None,
                    }
                },
                None => None,
            },
            _ => None,
        };
        return match pattern {
            Some(p) => {
                let mut out = String::new();
                push_str(&mut out, "Object property names should match regex `");
                push_str(&mut out, p);
                push_str(&mut out, "`.");
                assert(out@ =~= "Object property names should match regex `"@ + p@ + "`."@);
                Some(out)
            },
            None => Some(
                "Object property names have extra validation rules that Gemini does not enforce directly.".to_string(),
            ),
        };
    }
    if str_eq(key, "exclusiveMinimum") {
        return number_note_exec(value, "Value must be strictly greater than");
    }
    if str_eq(key, "exclusiveMaximum") {
        return number_note_exec(value, "Value must be strictly less than");
    }
    if str_eq(key, "patternProperties") {
        return Some("Some property-name regex patterns carry additional value constraints.".to_string());
    }
    None
}


/// The abstract value of a JSON value.
pub enum JsonView {
    Null,
    Bool(bool),
    Number(Seq<char>),
    Str(Seq<char>),
    Array(Seq<JsonView>),
    Object(Seq<(Seq<char>, JsonView)>),
}

/// The abstract value of a JSON value.
pub open spec fn json_view(v: JsonValue) -> JsonView
    decreases v,
{
    match v {
        JsonValue::Null => JsonView::Null,
        JsonValue::Bool(b) => JsonView::Bool(b),
        JsonValue::Number(n) => JsonView::Number(n@),
        JsonValue::Str(t) => JsonView::Str(t@),
        JsonValue::Array(items) => JsonView::Array(items_view(items@)),
        JsonValue::Object(ms) => JsonView::Object(members_view(ms@)),
    }
}

/// The abstract values of a list of JSON values.
pub open spec fn items_view(s: Seq<JsonValue>) -> Seq<JsonView>
    decreases s,
{
    if s.len() == 0 {
        seq![]
    } else {
        items_view(s.subrange(0, s.len() - 1)).push(json_view(s[s.len() - 1]))
    }
}

/// The abstract values of a list of object members.
pub open spec fn members_view(s: Seq<JsonMember>) -> Seq<(Seq<char>, JsonView)>
    decreases s,
{
    if s.len() == 0 {
        seq![]
    } else {
        members_view(s.subrange(0, s.len() - 1)).push(
            (s[s.len() - 1].key@, json_view(s[s.len() - 1].value)),
        )
    }
}


// ---------------------------------------------------------------------------
// The transformation, on abstract values
// ---------------------------------------------------------------------------

/// Position of the first member of `ms` with key `k`.
pub open spec fn find_key(ms: Seq<(Seq<char>, JsonView)>, k: Seq<char>) -> Option<int>
    decreases ms.len(),
{
    if ms.len() == 0 {
        None
    } else {
        match find_key(ms.drop_last(), k) {
            Some(i) => Some(i),
            None => if ms.last().0 == k {
                Some(ms.len() - 1)
            } else {
                None
            },
        }
    }
}

/// `ms` with `k` set to `v`: in place when `k` is a key of `ms`, else
/// added at the end.
pub open spec fn set_key(ms: Seq<(Seq<char>, JsonView)>, k: Seq<char>, v: JsonView) -> Seq<
    (Seq<char>, JsonView),
> {
    match find_key(ms, k) {
        Some(i) => ms.update(i, (k, v)),
        None => ms.push((k, v)),
    }
}

/// The hint about an exclusive bound.
pub open spec fn bound_note(v: JsonView, prefix: Seq<char>) -> Option<Seq<char>> {
    match v {
        JsonView::Number(n) => Some(prefix + " "@ + n + "."@),
        JsonView::Str(t) => Some(prefix + " "@ + t + "."@),
        _ => None,
    }
}

/// The `pattern` text of a schema object.
pub open spec fn pattern_text(v: JsonView) -> Option<Seq<char>> {
    match v {
        JsonView::Object(ms) => match find_key(ms, "pattern"@) {
            Some(i) => match ms[i].1 {
                JsonView::Str(p) => Some(p),
                _ => None,
            },
            None => None,
        },
        _ => None,
    }
}

/// The hint that dropping keyword `key` with value `v` leaves behind.
pub open spec fn keyword_note(key: Seq<char>, v: JsonView) -> Option<Seq<char>> {
    if key == "additionalProperties"@ {
        match v {
            JsonView::Bool(false) => Some("Additional properties are not allowed."@),
            JsonView::Bool(true) => Some("Additional properties are allowed."@),
            _ => Some(
                "Additional properties have schema constraints that Gemini does not enforce directly."@,
            ),
        }
    } else if key == "propertyNames"@ {
        match pattern_text(v) {
            Some(p) => Some("Object property names should match regex `"@ + p + "`."@),
            None => Some(
                "Object property names have extra validation rules that Gemini does not enforce directly."@,
            ),
        }
    } else if key == "exclusiveMinimum"@ {
        bound_note(v, "Value must be strictly greater than"@)
    } else if key == "exclusiveMaximum"@ {
        bound_note(v, "Value must be strictly less than"@)
    } else if key == "patternProperties"@ {
        Some("Some property-name regex patterns carry additional value constraints."@)
    } else {
        None
    }
}

/// The hints of the members of an object, in member order.
pub open spec fn member_notes(ms: Seq<(Seq<char>, JsonView)>) -> Seq<Seq<char>>
    decreases ms.len(),
{
    if ms.len() == 0 {
        seq![]
    } else {
        let rest = member_notes(ms.drop_last());
        match keyword_note(ms.last().0, ms.last().1) {
            Some(n) => rest.push(n),
            None => rest,
        }
    }
}

/// A schema made acceptable to Gemini: in objects, unsupported keywords
/// dropped and the other members sanitized, `required` reconciled with
/// `properties`, and hints appended to the description; arrays sanitized
/// item by item; other values unchanged.
pub open spec fn sanitized(v: JsonView) -> JsonView
    decreases v,
{
    match v {
        JsonView::Array(items) => JsonView::Array(sanitized_items(items)),
        JsonView::Object(ms) => {
            let kept = sanitized_members(ms);
            let (reconciled, notes) = reconciled_required(kept, member_notes(ms));
            JsonView::Object(with_notes(reconciled, notes))
        },
        _ => v,
    }
}

/// Each item sanitized.
pub open spec fn sanitized_items(s: Seq<JsonView>) -> Seq<JsonView>
    decreases s,
{
    if s.len() == 0 {
        seq![]
    } else {
        sanitized_items(s.subrange(0, s.len() - 1)).push(sanitized(s[s.len() - 1]))
    }
}

/// The supported members, in order, each value sanitized.
pub open spec fn sanitized_members(ms: Seq<(Seq<char>, JsonView)>) -> Seq<(Seq<char>, JsonView)>
    decreases ms,
{
    if ms.len() == 0 {
        seq![]
    } else {
        let rest = sanitized_members(ms.subrange(0, ms.len() - 1));
        let last = ms[ms.len() - 1];
        if gemini_unsupported_keywords().contains(last.0) {
            rest
        } else {
            set_key(rest, last.0, sanitized(last.1))
        }
    }
}

/// The keys of an object's members.
pub open spec fn key_set(ms: Seq<(Seq<char>, JsonView)>) -> Set<Seq<char>> {
    Set::new(|k: Seq<char>| exists|j: int| 0 <= j < ms.len() && (#[trigger] ms[j]).0 == k)
}

/// The item is a name among `names`.
pub open spec fn named_in(names: Set<Seq<char>>, x: JsonView) -> bool {
    match x {
        JsonView::Str(n) => names.contains(n),
        _ => false,
    }
}

/// The required items that are kept: names of known properties.
pub open spec fn kept_required(items: Seq<JsonView>, names: Set<Seq<char>>) -> Seq<JsonView>
    decreases items.len(),
{
    if items.len() == 0 {
        seq![]
    } else {
        let rest = kept_required(items.drop_last(), names);
        if named_in(names, items.last()) {
            rest.push(items.last())
        } else {
            rest
        }
    }
}

/// The required names that are dropped: names of unknown properties.
pub open spec fn dropped_required(items: Seq<JsonView>, names: Set<Seq<char>>) -> Seq<Seq<char>>
    decreases items.len(),
{
    if items.len() == 0 {
        seq![]
    } else {
        let rest = dropped_required(items.drop_last(), names);
        match items.last() {
            JsonView::Str(n) => if names.contains(n) {
                rest
            } else {
                rest.push(n)
            },
            _ => rest,
        }
    }
}

/// Texts joined by `sep`.
pub open spec fn joined(ts: Seq<Seq<char>>, sep: Seq<char>) -> Seq<char>
    decreases ts.len(),
{
    if ts.len() == 0 {
        seq![]
    } else if ts.len() == 1 {
        ts[0]
    } else {
        joined(ts.drop_last(), sep) + sep + ts.last()
    }
}

/// The property names of a schema object, when it has a `properties`
/// object.
pub open spec fn property_names(ms: Seq<(Seq<char>, JsonView)>) -> Option<Set<Seq<char>>> {
    match find_key(ms, "properties"@) {
        Some(i) => match ms[i].1 {
            JsonView::Object(ps) => Some(key_set(ps)),
            _ => None,
        },
        None => None,
    }
}

/// The hint left when required fields lose their properties entirely.
pub open spec fn all_required_dropped_note() -> Seq<char> {
    "Some required fields were dropped because the matching properties are unavailable after Gemini compatibility sanitization."@
}

/// `required` reconciled with `properties`: without a `properties` object,
/// `required` is emptied (with a hint when it held something); else only
/// the names of known properties stay (with a hint naming the others).
pub open spec fn reconciled_required(ms: Seq<(Seq<char>, JsonView)>, notes: Seq<Seq<char>>) -> (
    Seq<(Seq<char>, JsonView)>,
    Seq<Seq<char>>,
) {
    match find_key(ms, "required"@) {
        Some(j) => match ms[j].1 {
            JsonView::Array(items) => match property_names(ms) {
                None => (
                    ms.update(j, (ms[j].0, JsonView::Array(seq![]))),
                    if items.len() > 0 {
                        notes.push(all_required_dropped_note())
                    } else {
                        notes
                    },
                ),
                Some(names) => {
                    let dropped = dropped_required(items, names);
                    (
                        ms.update(j, (ms[j].0, JsonView::Array(kept_required(items, names)))),
                        if dropped.len() > 0 {
                            notes.push(
                                "Required fields omitted for Gemini compatibility because their property definitions are unavailable: "@
                                    + joined(dropped, ", "@) + "."@,
                            )
                        } else {
                            notes
                        },
                    )
                },
            },
            _ => (ms, notes),
        },
        None => (ms, notes),
    }
}

/// Consecutive repeated hints kept once.
pub open spec fn dedup(ts: Seq<Seq<char>>) -> Seq<Seq<char>>
    decreases ts.len(),
{
    if ts.len() == 0 {
        seq![]
    } else {
        let rest = dedup(ts.drop_last());
        if ts.len() >= 2 && ts[ts.len() - 2] == ts.last() {
            rest
        } else {
            rest.push(ts.last())
        }
    }
}

/// The description suffix that carries the hints.
pub open spec fn hints_suffix(notes: Seq<Seq<char>>) -> Seq<char> {
    "Gemini compatibility hints: "@ + joined(dedup(notes), " "@)
}

/// The object with its hints appended to its description: a text
/// description gets the suffix (after a blank line when not empty) unless
/// it already holds it; otherwise the description becomes the suffix.
pub open spec fn with_notes(ms: Seq<(Seq<char>, JsonView)>, notes: Seq<Seq<char>>) -> Seq<
    (Seq<char>, JsonView),
> {
    if notes.len() == 0 {
        ms
    } else {
        let suffix = hints_suffix(notes);
        match find_key(ms, "description"@) {
            Some(i) => match ms[i].1 {
                JsonView::Str(d) => if contains_seq(d, suffix) {
                    ms
                } else {
                    ms.update(
                        i,
                        (
                            ms[i].0,
                            JsonView::Str(
                                if d.len() > 0 {
                                    d + "\n\n"@ + suffix
                                } else {
                                    d + suffix
                                },
                            ),
                        ),
                    )
                },
                _ => set_key(ms, "description"@, JsonView::Str(suffix)),
            },
            None => set_key(ms, "description"@, JsonView::Str(suffix)),
        }
    }
}


// ---------------------------------------------------------------------------
// The transformation
// ---------------------------------------------------------------------------

/// The views of a list of texts.
pub open spec fn texts_view(v: Seq<String>) -> Seq<Seq<char>> {
    v.map_values(|t: String| t@)
}

proof fn lemma_members_view_update(ms: Seq<JsonMember>, i: int, m: JsonMember)
    requires
        0 <= i < ms.len(),
    ensures
        members_view(ms.update(i, m)) == members_view(ms).update(i, (m.key@, json_view(m.value))),
{
    lemma_members_view(ms);
    lemma_members_view(ms.update(i, m));
    assert(members_view(ms.update(i, m)) =~= members_view(ms).update(i, (m.key@, json_view(m.value))));
}

pub(crate) proof fn lemma_members_view_push(ms: Seq<JsonMember>, m: JsonMember)
    ensures
        members_view(ms.push(m)) == members_view(ms).push((m.key@, json_view(m.value))),
{
    assert(ms.push(m).subrange(0, ms.len() as int) =~= ms);
}

pub(crate) proof fn lemma_items_view_push(s: Seq<JsonValue>, x: JsonValue)
    ensures
        items_view(s.push(x)) == items_view(s).push(json_view(x)),
{
    assert(s.push(x).subrange(0, s.len() as int) =~= s);
}

/// Sets member `key` of an object to `value` (see `set_key`).
pub fn set_member(out: &mut Vec<JsonMember>, key: String, value: JsonValue)
    ensures
        members_view(final(out)@) == set_key(members_view(old(out)@), key@, json_view(value)),
{
    match find_member(out, key.as_str()) {
        Some(i) => {
            let m = JsonMember { key, value };
            proof {
                lemma_members_view_update(out@, i as int, m);
            }
            out.set(i, m);
        },
        None => {
            let m = JsonMember { key, value };
            proof {
                lemma_members_view_push(out@, m);
            }
            out.push(m);
        },
    }
}

/// Appends the texts joined by `sep`.
fn push_joined(out: &mut String, ts: &Vec<String>, sep: &str)
    ensures
        final(out)@ == old(out)@ + joined(texts_view(ts@), sep@),
{
    let ghost start = out@;
    let ghost tv = texts_view(ts@);
    let mut i: usize = 0;
    while i < ts.len()
        invariant
            i <= ts.len(),
            tv == texts_view(ts@),
            out@ == start + joined(tv.take(i as int), sep@),
        decreases ts.len() - i,
    {
        if i > 0 {
            push_str(out, sep);
        }
        push_str(out, ts[i].as_str());
        proof {
            let pre = tv.take(i as int);
            let post = tv.take(i + 1);
            assert(post.drop_last() =~= pre);
            assert(post.last() == ts@[i as int]@);
            if i == 0 {
                assert(post.len() == 1);
            }
            assert(out@ =~= start + joined(post, sep@));
        }
        i += 1;
    }
    assert(tv.take(ts.len() as int) =~= tv);
}

/// Each item sanitized (see `sanitized_items`).
fn sanitize_items(items: Vec<JsonValue>) -> (r: Vec<JsonValue>)
    ensures
        items_view(r@) == sanitized_items(items_view(items@)),
    decreases items@,
{
    let ghost orig = items@;
    let mut items = items;
    if items.len() == 0 {
        return items;
    }
    let last = items.pop().unwrap();
    assert(items@ == orig.subrange(0, orig.len() - 1));
    proof {
        lemma_items_view(orig);
        lemma_items_view(items@);
        assert(items_view(orig).subrange(0, orig.len() - 1) =~= items_view(items@));
    }
    let mut r = sanitize_items(items);
    let x = sanitize_gemini_schema(last);
    proof {
        lemma_items_view_push(r@, x);
    }
    r.push(x);
    r
}

/// The supported members sanitized, and the hints of all members (see
/// `sanitized_members` and `member_notes`).
fn sanitize_members(ms: Vec<JsonMember>) -> (r: (Vec<JsonMember>, Vec<String>))
    ensures
        members_view(r.0@) == sanitized_members(members_view(ms@)),
        texts_view(r.1@) == member_notes(members_view(ms@)),
    decreases ms@,
{
    let ghost orig = ms@;
    let mut ms = ms;
    if ms.len() == 0 {
        let notes: Vec<String> = Vec::new();
        assert(texts_view(notes@) =~= Seq::<Seq<char>>::empty());
        return (ms, notes);
    }
    let last = ms.pop().unwrap();
    let ghost mv = members_view(orig);
    proof {
        lemma_members_view(orig);
        lemma_members_view(ms@);
        assert(mv.subrange(0, orig.len() - 1) =~= members_view(ms@));
        assert(mv.drop_last() =~= members_view(ms@));
        assert(mv.last() == (last.key@, json_view(last.value)));
    }
    let (mut out, mut notes) = sanitize_members(ms);
    let ghost notes_before = notes@;
    match gemini_schema_compatibility_note(last.key.as_str(), &last.value) {
        Some(n) => {
            notes.push(n);
            assert(texts_view(notes@) =~= texts_view(notes_before).push(n@));
        },
        None => {},
    }
    if !is_gemini_unsupported_schema_keyword(last.key.as_str()) {
        let JsonMember { key, value } = last;
        let v = sanitize_gemini_schema(value);
        set_member(&mut out, key, v);
    }
    (out, notes)
}

/// Whether `n` is one of `names`.
fn name_listed(names: &Vec<String>, n: &str) -> (r: bool)
    ensures
        r == exists|q: int| 0 <= q < names@.len() && (#[trigger] names@[q])@ == n@,
{
    let mut j: usize = 0;
    while j < names.len()
        invariant
            j <= names.len(),
            forall|m: int| 0 <= m < j ==> (#[trigger] names@[m])@ != n@,
        decreases names.len() - j,
    {
        if str_eq(names[j].as_str(), n) {
            return true;
        }
        j += 1;
    }
    false
}

/// The texts of the required items that name known properties are kept;
/// the other text items are the dropped names (see `kept_required`,
/// `dropped_required`).
fn split_required(items: Vec<JsonValue>, names: &Vec<String>, names_set: Ghost<Set<Seq<char>>>) -> (r: (
    Vec<JsonValue>,
    Vec<String>,
))
    requires
        lists_names(names@, names_set@),
    ensures
        items_view(r.0@) == kept_required(items_view(items@), names_set@),
        texts_view(r.1@) == dropped_required(items_view(items@), names_set@),
    decreases items@.len(),
{
    let ghost orig = items@;
    let mut items = items;
    if items.len() == 0 {
        let dropped: Vec<String> = Vec::new();
        assert(texts_view(dropped@) =~= Seq::<Seq<char>>::empty());
        return (Vec::new(), dropped);
    }
    let last = items.pop().unwrap();
    proof {
        lemma_items_view(orig);
        lemma_items_view(items@);
        assert(items_view(orig).drop_last() =~= items_view(items@));
        assert(items_view(orig).last() == json_view(last));
    }
    let (mut kept, mut dropped) = split_required(items, names, names_set);
    match last {
        JsonValue::Str(n) => {
            let known = name_listed(names, n.as_str());
            if known {
                let x = JsonValue::Str(n);
                proof {
                    lemma_items_view_push(kept@, x);
                }
                kept.push(x);
            } else {
                let ghost before = dropped@;
                dropped.push(n);
                assert(texts_view(dropped@) =~= texts_view(before).push(dropped@.last()@));
            }
        },
        _ => {},
    }
    (kept, dropped)
}

/// `ns` lists exactly the names of `set`.
pub open spec fn lists_names(ns: Seq<String>, set: Set<Seq<char>>) -> bool {
    forall|k: Seq<char>|
        set.contains(k) <==> exists|q: int| 0 <= q < ns.len() && (#[trigger] ns[q])@ == k
}

/// The keys of the `properties` object, when there is one.
fn property_name_list(out: &Vec<JsonMember>) -> (r: Option<Vec<String>>)
    ensures
        r is Some <==> property_names(members_view(out@)) is Some,
        r is Some ==> lists_names(r->0@, property_names(members_view(out@))->0),
{
    proof {
        lemma_members_view(out@);
    }
    match find_member(out, "properties") {
        Some(i) => match &out[i].value {
            JsonValue::Object(ps) => {
                let mut keys: Vec<String> = Vec::new();
                let mut k: usize = 0;
                proof {
                    lemma_members_view(ps@);
                }
                while k < ps.len()
                    invariant
                        k <= ps.len(),
                        keys.len() == k,
                        forall|m: int| 0 <= m < k ==> (#[trigger] keys@[m])@ == ps@[m].key@,
                    decreases ps.len() - k,
                {
                    keys.push(ps[k].key.clone());
                    k += 1;
                }
                proof {
                    let pv = members_view(ps@);
                    assert(members_view(out@)[i as int].1 == json_view(out@[i as int].value));
                    assert(json_view(out@[i as int].value) == JsonView::Object(pv));
                    assert(property_names(members_view(out@)) == Some(key_set(pv)));
                    assert forall|key: Seq<char>| property_names(members_view(out@))->0.contains(key) <==> exists|q: int|
                        0 <= q < keys@.len() && (#[trigger] keys@[q])@ == key by {
                        if key_set(pv).contains(key) {
                            let q = choose|q: int| 0 <= q < pv.len() && (#[trigger] pv[q]).0 == key;
                            assert(keys@[q]@ == key);
                        }
                        if exists|q: int| 0 <= q < keys@.len() && (#[trigger] keys@[q])@ == key {
                            let q = choose|q: int| 0 <= q < keys@.len() && (#[trigger] keys@[q])@ == key;
                            assert(pv[q].0 == key);
                        }
                    }
                }
                Some(keys)
            },
            _ => {
                assert(members_view(out@)[i as int].1 == json_view(out@[i as int].value));
                None
            },
        },
        None => None,
    }
}

/// Reconciles `required` with `properties` (see `reconciled_required`).
pub fn reconcile_required_with_properties(out: &mut Vec<JsonMember>, notes: &mut Vec<String>)
    ensures
        (members_view(final(out)@), texts_view(final(notes)@)) == reconciled_required(
            members_view(old(out)@),
            texts_view(old(notes)@),
        ),
{
    let ghost mv = members_view(out@);
    let ghost nv = texts_view(notes@);
    proof {
        lemma_members_view(out@);
    }
    let names = property_name_list(out);
    let j = match find_member(out, "required") {
        Some(j) => j,
        None => return ,
    };
    let mut m = JsonMember { key: String::new(), value: JsonValue::Null };
    std::mem::swap(&mut out[j], &mut m);
    assert(m == old(out)@[j as int]);
    assert(mv[j as int] == (m.key@, json_view(m.value)));
    let JsonMember { key, value } = m;
    match value {
        JsonValue::Array(items) => {
            let ghost iv = items_view(items@);
            assert(mv[j as int].1 == JsonView::Array(iv));
            proof {
                lemma_items_view(items@);
            }
            match names {
                None => {
                    if items.len() > 0 {
                        notes.push(all_required_dropped_text());
                        assert(texts_view(notes@) =~= nv.push(all_required_dropped_note()));
                    } else {
                        assert(texts_view(notes@) =~= nv);
                    }
                    let empty: Vec<JsonValue> = Vec::new();
                    assert(items_view(empty@) =~= Seq::<JsonView>::empty());
                    let nm = JsonMember { key, value: JsonValue::Array(empty) };
                    proof {
                        lemma_members_view_update(old(out)@, j as int, nm);
                    }
                    out.set(j, nm);
                    assert(out@ == old(out)@.update(j as int, nm));
                    assert(members_view(out@) == mv.update(j as int, (mv[j as int].0, JsonView::Array(seq![]))));
                },
                Some(ns) => {
                    let ghost set = property_names(mv)->0;
                    let (kept, dropped) = split_required(items, &ns, Ghost(set));
                    if dropped.len() > 0 {
                        let mut note = String::new();
                        push_str(&mut note, "Required fields omitted for Gemini compatibility because their property definitions are unavailable: ");
                        push_joined(&mut note, &dropped, ", ");
                        push_str(&mut note, ".");
                        notes.push(note);
                        assert(texts_view(notes@) =~= nv.push(note@));
                    } else {
                        assert(texts_view(notes@) =~= nv);
                    }
                    let nm = JsonMember { key, value: JsonValue::Array(kept) };
                    proof {
                        lemma_members_view_update(old(out)@, j as int, nm);
                    }
                    out.set(j, nm);
                    assert(out@ == old(out)@.update(j as int, nm));
                },
            }
        },
        other => {
            let ghost ov = json_view(other);
            let nm = JsonMember { key, value: other };
            proof {
                lemma_members_view_update(old(out)@, j as int, nm);
            }
            out.set(j, nm);
            assert(out@ == old(out)@.update(j as int, nm));
            assert(members_view(out@) =~= mv);
        },
    }
}

fn all_required_dropped_text() -> (r: String)
    ensures
        r@ == all_required_dropped_note(),
{
    "Some required fields were dropped because the matching properties are unavailable after Gemini compatibility sanitization.".to_string()
}


/// The hints with consecutive repeats kept once (see `dedup`).
fn dedup_notes(ts: &Vec<String>) -> (r: Vec<String>)
    ensures
        texts_view(r@) == dedup(texts_view(ts@)),
{
    let ghost tv = texts_view(ts@);
    let mut out: Vec<String> = Vec::new();
    let mut i: usize = 0;
    while i < ts.len()
        invariant
            i <= ts.len(),
            tv == texts_view(ts@),
            texts_view(out@) == dedup(tv.take(i as int)),
        decreases ts.len() - i,
    {
        let ghost pre = tv.take(i as int);
        let ghost post = tv.take(i + 1);
        assert(post.drop_last() =~= pre);
        assert(post.last() == ts@[i as int]@);
        let repeat = i >= 1 && str_eq(ts[i - 1].as_str(), ts[i].as_str());
        if repeat {
            assert(post[post.len() - 2] == ts@[i - 1]@);
        } else {
            let ghost before = out@;
            out.push(ts[i].clone());
            assert(texts_view(out@) =~= texts_view(before).push(ts@[i as int]@));
            if i >= 1 {
                assert(post[post.len() - 2] == ts@[i - 1]@);
            }
        }
        i += 1;
    }
    assert(tv.take(ts.len() as int) =~= tv);
    out
}

/// Appends the hints to the object's description (see `with_notes`).
pub fn append_description_notes(out: &mut Vec<JsonMember>, notes: Vec<String>)
    ensures
        members_view(final(out)@) == with_notes(members_view(old(out)@), texts_view(notes@)),
{
    if notes.len() == 0 {
        return ;
    }
    let deduped = dedup_notes(&notes);
    let mut suffix = String::new();
    push_str(&mut suffix, "Gemini compatibility hints: ");
    push_joined(&mut suffix, &deduped, " ");
    assert(suffix@ =~= hints_suffix(texts_view(notes@)));
    proof {
        lemma_members_view(out@);
    }
    match find_member(out, "description") {
        Some(i) => {
            let text: Option<String> = match &out[i].value {
                JsonValue::Str(d) => {
                    let dv = chars_of(d.as_str());
                    let sv = chars_of(suffix.as_str());
                    if contains_chars(&dv, &sv) {
                        None
                    } else {
                        let mut t = String::new();
                        push_str(&mut t, d.as_str());
                        if d.as_str().unicode_len() > 0 {
                            push_str(&mut t, "\n\n");
                        }
                        push_str(&mut t, suffix.as_str());
                        Some(t)
                    }
                },
                _ => {
                    let key = "description".to_string();
                    set_member(out, key, JsonValue::Str(suffix));
                    return ;
                },
            };
            match text {
                Some(t) => {
                    let key = out[i].key.clone();
                    let m = JsonMember { key, value: JsonValue::Str(t) };
                    proof {
                        lemma_members_view_update(out@, i as int, m);
                    }
                    out.set(i, m);
                    assert(members_view(out@) =~= with_notes(
                        members_view(old(out)@),
                        texts_view(notes@),
                    ));
                },
                None => {},
            }
        },
        None => {
            set_member(out, "description".to_string(), JsonValue::Str(suffix));
        },
    }
}

/// A schema made acceptable to Gemini (see `sanitized`).
pub fn sanitize_gemini_schema(value: JsonValue) -> (r: JsonValue)
    ensures
        json_view(r) == sanitized(json_view(value)),
    decreases value,
{
    match value {
        JsonValue::Array(items) => JsonValue::Array(sanitize_items(items)),
        JsonValue::Object(ms) => {
            let (mut out, mut notes) = sanitize_members(ms);
            reconcile_required_with_properties(&mut out, &mut notes);
            append_description_notes(&mut out, notes);
            JsonValue::Object(out)
        },
        other => other,
    }
}


/// The keys of `ms` are none of Gemini's unsupported keywords.
pub open spec fn keys_supported(ms: Seq<(Seq<char>, JsonView)>) -> bool {
    forall|j: int| 0 <= j < ms.len() ==> !gemini_unsupported_keywords().contains(#[trigger] ms[j].0)
}

proof fn lemma_set_key_keys(ms: Seq<(Seq<char>, JsonView)>, k: Seq<char>, v: JsonView)
    ensures
        forall|j: int|
            0 <= j < set_key(ms, k, v).len() ==> (#[trigger] set_key(ms, k, v)[j]).0 == k || (j < ms.len()
                && set_key(ms, k, v)[j].0 == ms[j].0),
{
    lemma_find_key_bound(ms, k);
}

proof fn lemma_sanitized_members_supported(ms: Seq<(Seq<char>, JsonView)>)
    ensures
        keys_supported(sanitized_members(ms)),
    decreases ms.len(),
{
    if ms.len() > 0 {
        let d = ms.subrange(0, ms.len() - 1);
        lemma_sanitized_members_supported(d);
        let last = ms[ms.len() - 1];
        if !gemini_unsupported_keywords().contains(last.0) {
            lemma_set_key_keys(sanitized_members(d), last.0, sanitized(last.1));
        }
    }
}

proof fn lemma_description_supported()
    ensures
        !gemini_unsupported_keywords().contains("description"@),
{
    reveal_strlit("description");
    reveal_strlit("$schema");
    assert("description"@.len() != "$schema"@.len() || "description"@[2] != "$schema"@[2]);
    reveal_strlit("additionalProperties");
    assert("description"@.len() != "additionalProperties"@.len() || "description"@[2] != "additionalProperties"@[2]);
    reveal_strlit("$ref");
    assert("description"@.len() != "$ref"@.len() || "description"@[2] != "$ref"@[2]);
    reveal_strlit("ref");
    assert("description"@.len() != "ref"@.len() || "description"@[2] != "ref"@[2]);
    reveal_strlit("definitions");
    assert("description"@.len() != "definitions"@.len() || "description"@[2] != "definitions"@[2]);
    reveal_strlit("$defs");
    assert("description"@.len() != "$defs"@.len() || "description"@[2] != "$defs"@[2]);
    reveal_strlit("propertyNames");
    assert("description"@.len() != "propertyNames"@.len() || "description"@[2] != "propertyNames"@[2]);
    reveal_strlit("patternProperties");
    assert("description"@.len() != "patternProperties"@.len() || "description"@[2] != "patternProperties"@[2]);
    reveal_strlit("unevaluatedProperties");
    assert("description"@.len() != "unevaluatedProperties"@.len() || "description"@[2] != "unevaluatedProperties"@[2]);
    reveal_strlit("dependentRequired");
    assert("description"@.len() != "dependentRequired"@.len() || "description"@[2] != "dependentRequired"@[2]);
    reveal_strlit("dependentSchemas");
    assert("description"@.len() != "dependentSchemas"@.len() || "description"@[2] != "dependentSchemas"@[2]);
    reveal_strlit("if");
    assert("description"@.len() != "if"@.len() || "description"@[2] != "if"@[2]);
    reveal_strlit("then");
    assert("description"@.len() != "then"@.len() || "description"@[2] != "then"@[2]);
    reveal_strlit("else");
    assert("description"@.len() != "else"@.len() || "description"@[2] != "else"@[2]);
    reveal_strlit("not");
    assert("description"@.len() != "not"@.len() || "description"@[2] != "not"@[2]);
    reveal_strlit("contains");
    assert("description"@.len() != "contains"@.len() || "description"@[2] != "contains"@[2]);
    reveal_strlit("minContains");
    assert("description"@.len() != "minContains"@.len() || "description"@[2] != "minContains"@[2]);
    reveal_strlit("maxContains");
    assert("description"@.len() != "maxContains"@.len() || "description"@[2] != "maxContains"@[2]);
    reveal_strlit("prefixItems");
    assert("description"@.len() != "prefixItems"@.len() || "description"@[2] != "prefixItems"@[2]);
    reveal_strlit("exclusiveMinimum");
    assert("description"@.len() != "exclusiveMinimum"@.len() || "description"@[2] != "exclusiveMinimum"@[2]);
    reveal_strlit("exclusiveMaximum");
    assert("description"@.len() != "exclusiveMaximum"@.len() || "description"@[2] != "exclusiveMaximum"@[2]);
    if gemini_unsupported_keywords().contains("description"@) {
        let i = choose|i: int| 0 <= i < gemini_unsupported_keywords().len() && gemini_unsupported_keywords()[i] == "description"@;
    }
}

/// Sanitizing an object schema for Gemini leaves none of the keywords
/// Gemini does not take (such as `$defs`, `$ref`, `additionalProperties`)
/// among its keys.
pub proof fn law_sanitized_object_keys(ms: Seq<(Seq<char>, JsonView)>)
    ensures
        sanitized(JsonView::Object(ms)) matches JsonView::Object(out) && keys_supported(out),
{
    let kept = sanitized_members(ms);
    lemma_sanitized_members_supported(ms);
    let (reconciled, notes) = reconciled_required(kept, member_notes(ms));
    lemma_find_key_bound(kept, "required"@);
    assert(keys_supported(reconciled)) by {
        assert forall|j: int| 0 <= j < reconciled.len() implies !gemini_unsupported_keywords().contains(
            #[trigger] reconciled[j].0,
        ) by {
            assert(reconciled[j].0 == kept[j].0);
        }
    }
    lemma_find_key_bound(reconciled, "description"@);
    lemma_description_supported();
    lemma_set_key_keys(reconciled, "description"@, JsonView::Str(hints_suffix(notes)));
    let out = with_notes(reconciled, notes);
    assert forall|j: int| 0 <= j < out.len() implies !gemini_unsupported_keywords().contains(#[trigger] out[j].0) by {
        if notes.len() > 0 {
            if out.len() == reconciled.len() {
                assert(out[j].0 == reconciled[j].0 || out[j].0 == "description"@);
            }
        }
    }
}

} // verus!
