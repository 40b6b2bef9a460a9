//! Gemini request details: the upstream path, the JSON Schema keywords
//! Gemini does not take, and the thought signatures remembered for tool
//! calls.
use vstd::prelude::*;

use crate::control::{first_where, lemma_first_where_at, lemma_first_where_none};
use crate::text::{push_str, str_eq, trim, trim_str};

verus! {

/// Encodes requests for the Gemini API.
#[derive(Debug, Clone, Copy)]
pub struct GoogleEncoder;

impl GoogleEncoder {
    /// The upstream path for `model`: streamed as server-sent events, or a
    /// single response.
    pub fn egress_path(&self, model: &str, stream: bool) -> (r: String)
        ensures
            stream ==> r@ == "/v1beta/models/"@ + model@ + ":streamGenerateContent?alt=sse"@,
            !stream ==> r@ == "/v1beta/models/"@ + model@ + ":generateContent"@,
    {
        let mut out = String::new();
        push_str(&mut out, "/v1beta/models/");
        push_str(&mut out, model);
        if stream {
            push_str(&mut out, ":streamGenerateContent?alt=sse");
        } else {
            push_str(&mut out, ":generateContent");
        }
        assert(out@ =~= "/v1beta/models/"@ + model@ + if stream {
            ":streamGenerateContent?alt=sse"@
        } else {
            ":generateContent"@
        });
        out
    }
}

/// The JSON Schema keywords that Gemini's function declarations do not
/// accept.
pub open spec fn gemini_unsupported_keywords() -> Seq<Seq<char>> {
    seq![
        "$schema"@,
        "additionalProperties"@,
        "$ref"@,
        "ref"@,
        "definitions"@,
        "$defs"@,
        "propertyNames"@,
        "patternProperties"@,
        "unevaluatedProperties"@,
        "dependentRequired"@,
        "dependentSchemas"@,
        "if"@,
        "then"@,
        "else"@,
        "not"@,
        "contains"@,
        "minContains"@,
        "maxContains"@,
        "prefixItems"@,
        "exclusiveMinimum"@,
        "exclusiveMaximum"@,
    ]
}

/// Whether a JSON Schema keyword is one Gemini does not accept.
pub fn is_gemini_unsupported_schema_keyword(key: &str) -> (r: bool)
    ensures
        r == gemini_unsupported_keywords().contains(key@),
{
    let words: [&str; 21] = [
        "$schema",
        "additionalProperties",
        "$ref",
        "ref",
        "definitions",
        "$defs",
        "propertyNames",
        "patternProperties",
        "unevaluatedProperties",
        "dependentRequired",
        "dependentSchemas",
        "if",
        "then",
        "else",
        "not",
        "contains",
        "minContains",
        "maxContains",
        "prefixItems",
        "exclusiveMinimum",
        "exclusiveMaximum",
    ];
    let ghost ws = gemini_unsupported_keywords();
    assert(forall|i: int| 0 <= i < 21 ==> (#[trigger] words@[i])@ == ws[i]);
    let mut i: usize = 0;
    while i < 21
        invariant
            i <= 21,
            words@.len() == 21,
            ws == gemini_unsupported_keywords(),
            forall|j: int| 0 <= j < 21 ==> (#[trigger] words@[j])@ == ws[j],
            forall|j: int| 0 <= j < i ==> ws[j] != key@,
        decreases 21 - i,
    {
        if str_eq(words[i], key) {
            assert(ws[i as int] == key@);
            return true;
        }
        i += 1;
    }
    assert(!ws.contains(key@)) by {
        if ws.contains(key@) {
            let j = choose|j: int| 0 <= j < ws.len() && ws[j] == key@;
        }
    }
    false
}

/// A thought signature remembered for a tool call: the call's position,
/// id and name where they were recorded as such, and the signature.
#[derive(Debug)]
pub struct ToolCallMetadataEntry {
    pub index: Option<u64>,
    pub id: Option<String>,
    pub name: Option<String>,
    pub thought_signature: Option<String>,
}

/// The abstract value of an entry.
pub struct EntryView {
    pub index: Option<u64>,
    pub id: Option<Seq<char>>,
    pub name: Option<Seq<char>>,
    pub thought_signature: Option<Seq<char>>,
}

impl View for ToolCallMetadataEntry {
    type V = EntryView;

    open spec fn view(&self) -> EntryView {
        EntryView {
            index: self.index,
            id: match self.id {
                Some(s) => Some(s@),
                None => None,
            },
            name: match self.name {
                Some(s) => Some(s@),
                None => None,
            },
            thought_signature: match self.thought_signature {
                Some(s) => Some(s@),
                None => None,
            },
        }
    }
}

/// The entry's signature, trimmed, when it is not blank.
pub open spec fn entry_signature(e: EntryView) -> Option<Seq<char>> {
    match e.thought_signature {
        Some(s) => if trim(s).len() > 0 {
            Some(trim(s))
        } else {
            None
        },
        None => None,
    }
}

/// The entry matches `key` and has a signature.
pub open spec fn usable_by_id(id: Seq<char>) -> spec_fn(EntryView) -> bool {
    |e: EntryView| e.id == Some(id) && entry_signature(e) is Some
}

/// The entry matches the position and has a signature.
pub open spec fn usable_by_index(index: u64) -> spec_fn(EntryView) -> bool {
    |e: EntryView| e.index == Some(index) && entry_signature(e) is Some
}

/// The entry matches the name and has a signature.
pub open spec fn usable_by_name(name: Seq<char>) -> spec_fn(EntryView) -> bool {
    |e: EntryView| e.name == Some(name) && entry_signature(e) is Some
}

/// The signature of the first entry that `p` accepts.
pub open spec fn first_signature(es: Seq<EntryView>, p: spec_fn(EntryView) -> bool) -> Option<Seq<char>> {
    match first_where(es, p) {
        Some(i) => entry_signature(es[i]),
        None => None,
    }
}

/// The signature remembered for a tool call: by its id (trimmed, not
/// blank), else by its position, else by its name (trimmed, not blank);
/// each time the first entry that matches and has a signature.
pub open spec fn remembered_signature(
    es: Seq<EntryView>,
    index: Option<usize>,
    id: Option<Seq<char>>,
    name: Option<Seq<char>>,
) -> Option<Seq<char>> {
    let by_id = match id {
        Some(i) => if trim(i).len() > 0 {
            first_signature(es, usable_by_id(trim(i)))
        } else {
            None
        },
        None => None,
    };
    let by_index = match index {
        Some(ix) => first_signature(es, usable_by_index(ix as u64)),
        None => None,
    };
    let by_name = match name {
        Some(n) => if trim(n).len() > 0 {
            first_signature(es, usable_by_name(trim(n)))
        } else {
            None
        },
        None => None,
    };
    if by_id is Some {
        by_id
    } else if by_index is Some {
        by_index
    } else {
        by_name
    }
}

/// The views of a list of entries.
pub open spec fn entries_view(v: Seq<ToolCallMetadataEntry>) -> Seq<EntryView> {
    v.map_values(|e: ToolCallMetadataEntry| e@)
}

fn signature_of(e: &ToolCallMetadataEntry) -> (r: Option<String>)
    ensures
        match r {
            Some(s) => entry_signature(e@) == Some(s@),
            None => entry_signature(e@).is_none(),
        },
{
    match &e.thought_signature {
        Some(s) => {
            let t = trim_str(s.as_str());
            if t.as_str().unicode_len() > 0 {
                Some(t)
            } else {
                None
            }
        },
        None => None,
    }
}

fn opt_eq(o: &Option<String>, s: &str) -> (r: bool)
    ensures
        r == (match o {
            Some(x) => Some(x@),
            None => None,
        } == Some(s@)),
{
    match o {
        Some(x) => str_eq(x.as_str(), s),
        None => false,
    }
}

/// What a lookup matches entries by.
enum MatchBy<'a> {
    Id(&'a str),
    Index(u64),
    Name(&'a str),
}

spec fn match_pred(m: MatchBy) -> spec_fn(EntryView) -> bool {
    match m {
        MatchBy::Id(s) => usable_by_id(s@),
        MatchBy::Index(i) => usable_by_index(i),
        MatchBy::Name(s) => usable_by_name(s@),
    }
}

fn lookup_by(entries: &Vec<ToolCallMetadataEntry>, m: MatchBy) -> (r: Option<String>)
    ensures
        match r {
            Some(s) => first_signature(entries_view(entries@), match_pred(m)) == Some(s@),
            None => first_signature(entries_view(entries@), match_pred(m)).is_none(),
        },
{
    let ghost ev = entries_view(entries@);
    let ghost p = match_pred(m);
    let mut i: usize = 0;
    while i < entries.len()
        invariant
            i <= entries.len(),
            ev == entries_view(entries@),
            p == match_pred(m),
            forall|j: int| 0 <= j < i ==> !p(ev[j]),
        decreases entries.len() - i,
    {
        let e = &entries[i];
        assert(ev[i as int] == e@);
        let key_matches = match m {
            MatchBy::Id(s) => opt_eq(&e.id, s),
            MatchBy::Index(ix) => e.index == Some(ix),
            MatchBy::Name(s) => opt_eq(&e.name, s),
        };
        if key_matches {
            match signature_of(e) {
                Some(sig) => {
                    proof {
                        lemma_first_where_at(ev, p, i as int);
                    }
                    return Some(sig);
                },
                None => {},
            }
        }
        i += 1;
    }
    proof {
        lemma_first_where_none(ev, p);
    }
    None
}

/// The thought signature remembered for a tool call (see
/// `remembered_signature`); none when no entries were recorded.
pub fn lookup_google_tool_call_thought_signature(
    entries: Option<&Vec<ToolCallMetadataEntry>>,
    index: Option<usize>,
    id: Option<&str>,
    name: Option<&str>,
) -> (r: Option<String>)
    ensures
        match entries {
            None => r.is_none(),
            Some(es) => match r {
                Some(s) => remembered_signature(
                    entries_view(es@),
                    index,
                    match id {
                        Some(i) => Some(i@),
                        None => None,
                    },
                    match name {
                        Some(n) => Some(n@),
                        None => None,
                    },
                ) == Some(s@),
                None => remembered_signature(
                    entries_view(es@),
                    index,
                    match id {
                        Some(i) => Some(i@),
                        None => None,
                    },
                    match name {
                        Some(n) => Some(n@),
                        None => None,
                    },
                ).is_none(),
            },
        },
{
    let es = match entries {
        Some(es) => es,
        None => return None,
    };
    let by_id = match id {
        Some(i) => {
            let t = trim_str(i);
            if t.as_str().unicode_len() > 0 {
                lookup_by(es, MatchBy::Id(t.as_str()))
            } else {
                None
            }
        },
        None => None,
    };
    if by_id.is_some() {
        return by_id;
    }
    let by_index = match index {
        Some(ix) => lookup_by(es, MatchBy::Index(ix as u64)),
        None => None,
    };
    if by_index.is_some() {
        return by_index;
    }
    match name {
        Some(n) => {
            let t = trim_str(n);
            if t.as_str().unicode_len() > 0 {
                lookup_by(es, MatchBy::Name(t.as_str()))
            } else {
                None
            }
        },
        None => None,
    }
}

/// Records the thought signature of a tool call, trimmed, when it is not
/// blank: appended to the recorded entries, or as the first entry when
/// none were recorded.
pub fn append_google_tool_call_metadata(
    entries: &mut Option<Vec<ToolCallMetadataEntry>>,
    index: usize,
    id: &str,
    name: &str,
    thought_signature: Option<&str>,
)
    ensures
        match thought_signature {
            Some(s) if trim(s@).len() > 0 => {
                let e = EntryView {
                    index: Some(index as u64),
                    id: Some(id@),
                    name: Some(name@),
                    thought_signature: Some(trim(s@)),
                };
                match *old(entries) {
                    Some(v) => final(entries).is_some() && entries_view(final(entries).unwrap()@)
                        == entries_view(v@).push(e),
                    None => final(entries).is_some() && entries_view(final(entries).unwrap()@)
                        == seq![e],
                }
            },
            _ => *final(entries) == *old(entries),
        },
{
    let sig = match thought_signature {
        Some(s) => trim_str(s),
        None => return ,
    };
    if sig.as_str().unicode_len() == 0 {
        return ;
    }
    let entry = ToolCallMetadataEntry {
        index: Some(index as u64),
        id: Some(id.to_string()),
        name: Some(name.to_string()),
        thought_signature: Some(sig),
    };
    match entries {
        Some(v) => {
            let ghost before = v@;
            v.push(entry);
            assert(entries_view(v@) =~= entries_view(before).push(entry@));
        },
        None => {
            let mut v: Vec<ToolCallMetadataEntry> = Vec::new();
            v.push(entry);
            assert(entries_view(v@) =~= seq![entry@]);
            *entries = Some(v);
        },
    }
}


/// The keywords Gemini does not take are exactly `$schema`,
/// `additionalProperties`, `$ref`, `ref`, `definitions`, `$defs`,
/// `propertyNames`, `patternProperties`, `unevaluatedProperties`,
/// `dependentRequired`, `dependentSchemas`, `if`, `then`, `else`, `not`,
/// `contains`, `minContains`, `maxContains`, `prefixItems`,
/// `exclusiveMinimum` and `exclusiveMaximum`.
pub proof fn law_gemini_unsupported_keywords(k: Seq<char>)
    ensures
        gemini_unsupported_keywords().contains(k) <==> (k == "$schema"@ || k == "additionalProperties"@ || k == "$ref"@ || k == "ref"@ || k == "definitions"@ || k == "$defs"@ || k == "propertyNames"@ || k == "patternProperties"@ || k == "unevaluatedProperties"@ || k == "dependentRequired"@ || k == "dependentSchemas"@ || k == "if"@ || k == "then"@ || k == "else"@ || k == "not"@ || k == "contains"@ || k == "minContains"@ || k == "maxContains"@ || k == "prefixItems"@ || k == "exclusiveMinimum"@ || k == "exclusiveMaximum"@),
{
    let ws = gemini_unsupported_keywords();
    if k == "$schema"@ || k == "additionalProperties"@ || k == "$ref"@ || k == "ref"@ || k == "definitions"@ || k == "$defs"@ || k == "propertyNames"@ || k == "patternProperties"@ || k == "unevaluatedProperties"@ || k == "dependentRequired"@ || k == "dependentSchemas"@ || k == "if"@ || k == "then"@ || k == "else"@ || k == "not"@ || k == "contains"@ || k == "minContains"@ || k == "maxContains"@ || k == "prefixItems"@ || k == "exclusiveMinimum"@ || k == "exclusiveMaximum"@ {
        if k == "$schema"@ { assert(ws[0] == k); }
        if k == "additionalProperties"@ { assert(ws[1] == k); }
        if k == "$ref"@ { assert(ws[2] == k); }
        if k == "ref"@ { assert(ws[3] == k); }
        if k == "definitions"@ { assert(ws[4] == k); }
        if k == "$defs"@ { assert(ws[5] == k); }
        if k == "propertyNames"@ { assert(ws[6] == k); }
        if k == "patternProperties"@ { assert(ws[7] == k); }
        if k == "unevaluatedProperties"@ { assert(ws[8] == k); }
        if k == "dependentRequired"@ { assert(ws[9] == k); }
        if k == "dependentSchemas"@ { assert(ws[10] == k); }
        if k == "if"@ { assert(ws[11] == k); }
        if k == "then"@ { assert(ws[12] == k); }
        if k == "else"@ { assert(ws[13] == k); }
        if k == "not"@ { assert(ws[14] == k); }
        if k == "contains"@ { assert(ws[15] == k); }
        if k == "minContains"@ { assert(ws[16] == k); }
        if k == "maxContains"@ { assert(ws[17] == k); }
        if k == "prefixItems"@ { assert(ws[18] == k); }
        if k == "exclusiveMinimum"@ { assert(ws[19] == k); }
        if k == "exclusiveMaximum"@ { assert(ws[20] == k); }
    }
    if ws.contains(k) {
        let i = choose|i: int| 0 <= i < ws.len() && ws[i] == k;
        if i == 0 { assert(k == "$schema"@); }
        if i == 1 { assert(k == "additionalProperties"@); }
        if i == 2 { assert(k == "$ref"@); }
        if i == 3 { assert(k == "ref"@); }
        if i == 4 { assert(k == "definitions"@); }
        if i == 5 { assert(k == "$defs"@); }
        if i == 6 { assert(k == "propertyNames"@); }
        if i == 7 { assert(k == "patternProperties"@); }
        if i == 8 { assert(k == "unevaluatedProperties"@); }
        if i == 9 { assert(k == "dependentRequired"@); }
        if i == 10 { assert(k == "dependentSchemas"@); }
        if i == 11 { assert(k == "if"@); }
        if i == 12 { assert(k == "then"@); }
        if i == 13 { assert(k == "else"@); }
        if i == 14 { assert(k == "not"@); }
        if i == 15 { assert(k == "contains"@); }
        if i == 16 { assert(k == "minContains"@); }
        if i == 17 { assert(k == "maxContains"@); }
        if i == 18 { assert(k == "prefixItems"@); }
        if i == 19 { assert(k == "exclusiveMinimum"@); }
        if i == 20 { assert(k == "exclusiveMaximum"@); }
    }
}

} // verus!
