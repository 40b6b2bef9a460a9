//! Upstream request shaping and server-sent-event (SSE) framing.
//!
//! An upstream SSE body arrives in arbitrary chunks; `SseFramer` regroups the
//! bytes into whole events, each cut at the earliest frame delimiter
//! (`"\n\n"` or `"\r\n\r\n"`).
use vstd::prelude::*;

use crate::domain::types::DownstreamRouteKind;
use crate::text::{push_str, chars_of, string_from_range};

verus! {

broadcast use Seq::lemma_flatten_push;

/// `n` occurs in `h` starting at `i`.
pub open spec fn bytes_at(h: Seq<u8>, n: Seq<u8>, i: int) -> bool {
    0 <= i && i + n.len() <= h.len() && h.subrange(i, i + n.len()) == n
}

/// `p` is a suffix of `h`.
pub open spec fn bytes_suffix(h: Seq<u8>, p: Seq<u8>) -> bool {
    p.len() <= h.len() && h.subrange(h.len() - p.len(), h.len() as int) == p
}

/// The line-feed frame delimiter `"\n\n"`.
pub open spec fn lf_delim() -> Seq<u8> {
    seq![10u8, 10u8]
}

/// The CRLF frame delimiter `"\r\n\r\n"`.
pub open spec fn crlf_delim() -> Seq<u8> {
    seq![13u8, 10u8, 13u8, 10u8]
}

/// `b` ends with an SSE frame delimiter.
pub open spec fn ends_with_delim(b: Seq<u8>) -> bool {
    bytes_suffix(b, lf_delim()) || bytes_suffix(b, crlf_delim())
}

/// `k` is the length of the first complete frame of `b`: the shortest
/// prefix of `b` that ends with a delimiter.
pub open spec fn is_first_frame_len(b: Seq<u8>, k: int) -> bool {
    &&& 0 < k <= b.len()
    &&& ends_with_delim(b.subrange(0, k))
    &&& forall|j: int| 0 <= j < k ==> !ends_with_delim(#[trigger] b.subrange(0, j))
}

/// `b` holds no complete frame.
pub open spec fn no_complete_frame(b: Seq<u8>) -> bool {
    forall|j: int| 0 <= j <= b.len() ==> !ends_with_delim(#[trigger] b.subrange(0, j))
}

/// Position of the first occurrence of `needle` in `haystack`; `None` when
/// the needle is empty or does not occur.
pub fn find_bytes(haystack: &[u8], needle: &[u8]) -> (r: Option<usize>)
    ensures
        match r {
            Some(i) => needle@.len() > 0 && bytes_at(haystack@, needle@, i as int) && forall|j: int|
                0 <= j < i ==> !bytes_at(haystack@, needle@, j),
            None => needle@.len() == 0 || forall|j: int| !bytes_at(haystack@, needle@, j),
        },
{
    if needle.len() == 0 || haystack.len() < needle.len() {
        return None;
    }
    let hlen = haystack.len();
    let last = haystack.len() - needle.len();
    let mut i: usize = 0;
    while i <= last
        invariant
            hlen == haystack@.len(),
            0 < needle@.len() <= haystack@.len(),
            last == haystack@.len() - needle@.len(),
            forall|j: int| 0 <= j < i ==> !bytes_at(haystack@, needle@, j),
        decreases last + 1 - i,
    {
        let mut k: usize = 0;
        let mut matched = true;
        while k < needle.len()
            invariant
                hlen == haystack@.len(),
                0 < needle@.len() <= haystack@.len(),
                i <= last,
                last == haystack@.len() - needle@.len(),
                k <= needle@.len(),
                matched ==> forall|t: int| 0 <= t < k ==> haystack@[i + t] == needle@[t],
                !matched ==> !bytes_at(haystack@, needle@, i as int),
            decreases needle.len() - k,
        {
            if matched && haystack[i + k] != needle[k] {
                assert(haystack@.subrange(i as int, i + needle@.len())[k as int] != needle@[k as int]);
                matched = false;
            }
            k += 1;
        }
        if matched {
            assert(haystack@.subrange(i as int, i + needle@.len()) =~= needle@);
            return Some(i);
        }
        i += 1;
    }
    None
}

/// Whether `buffer` ends with `"\n\n"` or `"\r\n\r\n"`.
pub fn ends_with_sse_delimiter(buffer: &[u8]) -> (r: bool)
    ensures
        r == ends_with_delim(buffer@),
{
    let n = buffer.len();
    let lf = n >= 2 && buffer[n - 2] == 10u8 && buffer[n - 1] == 10u8;
    let crlf = n >= 4 && buffer[n - 4] == 13u8 && buffer[n - 3] == 10u8 && buffer[n - 2] == 13u8
        && buffer[n - 1] == 10u8;
    proof {
        if n >= 2 {
            let s = buffer@.subrange(n - 2, n as int);
            if lf {
                assert(s =~= lf_delim());
            } else {
                assert(s[0] != 10u8 || s[1] != 10u8);
            }
        }
        if n >= 4 {
            let s = buffer@.subrange(n - 4, n as int);
            if crlf {
                assert(s =~= crlf_delim());
            } else {
                assert(s[0] != 13u8 || s[1] != 10u8 || s[2] != 13u8 || s[3] != 10u8);
            }
        }
    }
    lf || crlf
}

proof fn lemma_suffix_occurrence(b: Seq<u8>, d: Seq<u8>, j: int)
    requires
        0 <= j <= b.len(),
        bytes_suffix(b.subrange(0, j), d),
    ensures
        bytes_at(b, d, j - d.len()),
{
    assert(b.subrange(j - d.len(), j) =~= b.subrange(0, j).subrange(j - d.len(), j));
}

proof fn lemma_occurrence_suffix(b: Seq<u8>, d: Seq<u8>, i: int)
    requires
        bytes_at(b, d, i),
    ensures
        bytes_suffix(b.subrange(0, i + d.len()), d),
{
    assert(b.subrange(0, i + d.len()).subrange(i, i + d.len()) =~= b.subrange(i, i + d.len()));
}

/// Length of the first complete SSE frame in `buffer`, cut at whichever
/// delimiter ends first; `None` when the buffer holds no complete frame.
pub fn next_sse_frame_len(buffer: &[u8]) -> (r: Option<usize>)
    ensures
        match r {
            Some(k) => is_first_frame_len(buffer@, k as int),
            None => no_complete_frame(buffer@),
        },
{
    let lf_needle: [u8; 2] = [10u8, 10u8];
    let crlf_needle: [u8; 4] = [13u8, 10u8, 13u8, 10u8];
    assert(lf_needle@ =~= lf_delim());
    assert(crlf_needle@ =~= crlf_delim());
    let lf_s: &[u8] = lf_needle.as_slice();
    let crlf_s: &[u8] = crlf_needle.as_slice();
    assert(lf_s@ =~= lf_delim());
    assert(crlf_s@ =~= crlf_delim());
    let lf = find_bytes(buffer, lf_s);
    let crlf = find_bytes(buffer, crlf_s);
    let ghost b = buffer@;
    let blen = buffer.len();
    assert(blen == b.len());
    proof {
        assert forall|j: int| 0 <= j <= b.len() && #[trigger] ends_with_delim(b.subrange(0, j)) implies (
        lf.is_some() && j >= lf.unwrap() + 2) || (crlf.is_some() && j >= crlf.unwrap() + 4) by {
            if bytes_suffix(b.subrange(0, j), lf_delim()) {
                lemma_suffix_occurrence(b, lf_delim(), j);
            } else {
                lemma_suffix_occurrence(b, crlf_delim(), j);
            }
        }
        if let Some(p) = lf {
            lemma_occurrence_suffix(b, lf_delim(), p as int);
        }
        if let Some(q) = crlf {
            lemma_occurrence_suffix(b, crlf_delim(), q as int);
        }
    }
    match (lf, crlf) {
        (Some(left), Some(right)) => {
            let l = left + 2;
            let c = right + 4;
            if l <= c {
                Some(l)
            } else {
                Some(c)
            }
        },
        (Some(left), None) => Some(left + 2),
        (None, Some(right)) => Some(right + 4),
        (None, None) => None,
    }
}

/// The bytes of a list of byte vectors, concatenated.
pub open spec fn concat_frames(frames: Seq<Vec<u8>>) -> Seq<u8> {
    frames.map_values(|f: Vec<u8>| f@).flatten()
}

/// Each frame ends at the earliest delimiter of its own bytes.
pub open spec fn all_minimal_frames(frames: Seq<Vec<u8>>) -> bool {
    forall|i: int| 0 <= i < frames.len() ==> is_first_frame_len(
        (#[trigger] frames[i])@,
        frames[i]@.len() as int,
    )
}

/// Copies `s[from..to]` into a new vector.
pub fn copy_range(s: &[u8], from: usize, to: usize) -> (r: Vec<u8>)
    requires
        from <= to <= s@.len(),
    ensures
        r@ == s@.subrange(from as int, to as int),
{
    let mut out: Vec<u8> = Vec::new();
    let mut i = from;
    while i < to
        invariant
            from <= i <= to <= s@.len(),
            out@ == s@.subrange(from as int, i as int),
        decreases to - i,
    {
        out.push(s[i]);
        i += 1;
        assert(out@ =~= s@.subrange(from as int, i as int));
    }
    out
}

proof fn lemma_first_frame_of_prefix(b: Seq<u8>, k: int)
    requires
        is_first_frame_len(b, k),
    ensures
        is_first_frame_len(b.subrange(0, k), k),
{
    let f = b.subrange(0, k);
    assert(f.subrange(0, k) =~= f);
    assert forall|j: int| 0 <= j < k implies !ends_with_delim(#[trigger] f.subrange(0, j)) by {
        assert(f.subrange(0, j) =~= b.subrange(0, j));
    }
}

/// Regroups an SSE byte stream into whole events. The buffer holds the bytes
/// received after the last complete event; it never holds a complete event.
pub struct SseFramer {
    buffer: Vec<u8>,
}

impl SseFramer {
    /// The bytes received but not yet handed out as a frame.
    pub closed spec fn pending(&self) -> Seq<u8> {
        self.buffer@
    }

    /// The framer's invariant: no complete frame is pending.
    pub closed spec fn wf(&self) -> bool {
        no_complete_frame(self.buffer@)
    }

    /// A framer with nothing pending.
    pub fn new() -> (r: Self)
        ensures
            r.wf(),
            r.pending() == Seq::<u8>::empty(),
    {
        let r = SseFramer { buffer: Vec::new() };
        assert forall|j: int| 0 <= j <= r.buffer@.len() implies !ends_with_delim(
            #[trigger] r.buffer@.subrange(0, j),
        ) by {}
        r
    }

    /// Appends `chunk` to the pending bytes and hands out every complete
    /// frame, in order, each cut at its earliest delimiter. Nothing is lost or
    /// reordered: the frames followed by what stays pending are the old
    /// pending bytes followed by the chunk.
    pub fn push(&mut self, chunk: &[u8]) -> (frames: Vec<Vec<u8>>)
        requires
            old(self).wf(),
        ensures
            final(self).wf(),
            concat_frames(frames@) + final(self).pending() == old(self).pending() + chunk@,
            all_minimal_frames(frames@),
    {
        let mut all: Vec<u8> = Vec::new();
        let mut i: usize = 0;
        while i < self.buffer.len()
            invariant
                i <= self.buffer.len(),
                all@ == self.buffer@.subrange(0, i as int),
            decreases self.buffer.len() - i,
        {
            all.push(self.buffer[i]);
            i += 1;
            assert(all@ =~= self.buffer@.subrange(0, i as int));
        }
        let mut k: usize = 0;
        while k < chunk.len()
            invariant
                k <= chunk@.len(),
                all@ == self.buffer@ + chunk@.subrange(0, k as int),
            decreases chunk.len() - k,
        {
            all.push(chunk[k]);
            k += 1;
            assert(all@ =~= self.buffer@ + chunk@.subrange(0, k as int));
        }
        assert(chunk@.subrange(0, chunk@.len() as int) =~= chunk@);
        assert(self.buffer@.subrange(0, self.buffer@.len() as int) =~= self.buffer@);
        let ghost total = all@;
        assert(total == old(self).pending() + chunk@);
        let mut frames: Vec<Vec<u8>> = Vec::new();
        let mut start: usize = 0;
        assert(concat_frames(frames@) =~= total.subrange(0, 0));
        loop
            invariant
                total == old(self).pending() + chunk@,
                all@ == total,
                start <= all@.len(),
                concat_frames(frames@) == total.subrange(0, start as int),
                all_minimal_frames(frames@),
            decreases all@.len() - start,
        {
            let rest = copy_range(all.as_slice(), start, all.len());
            match next_sse_frame_len(rest.as_slice()) {
                Some(len) => {
                    let frame = copy_range(rest.as_slice(), 0, len);
                    proof {
                        lemma_first_frame_of_prefix(rest@, len as int);
                        assert(frame@ =~= rest@.subrange(0, len as int));
                        assert(frames@.push(frame).map_values(|f: Vec<u8>| f@) =~= frames@.map_values(
                            |f: Vec<u8>| f@,
                        ).push(frame@));
                        assert(total.subrange(0, start + len) =~= total.subrange(0, start as int)
                            + frame@);
                    }
                    frames.push(frame);
                    start = start + len;
                },
                None => {
                    self.buffer = rest;
                    assert(total =~= total.subrange(0, start as int) + rest@);
                    return frames;
                },
            }
        }
    }

    /// Hands out what is still pending when the stream ends: nothing when no
    /// byte is pending, else the pending bytes, closed with `"\n\n"` unless
    /// they already end with a delimiter.
    pub fn finish(self) -> (r: Option<Vec<u8>>)
        ensures
            self.pending().len() == 0 ==> r.is_none(),
            self.pending().len() > 0 ==> r.is_some() && r.unwrap()@ == if ends_with_delim(
                self.pending(),
            ) {
                self.pending()
            } else {
                self.pending() + lf_delim()
            },
    {
        if self.buffer.len() == 0 {
            return None;
        }
        let mut out = self.buffer;
        if !ends_with_sse_delimiter(out.as_slice()) {
            let ghost before = out@;
            out.push(10u8);
            out.push(10u8);
            assert(out@ =~= before + lf_delim());
        }
        Some(out)
    }
}

/// Which downstream surface a request arrived on, and the Google model action
/// (`model:action`) from its path, if any.
#[derive(Debug)]
pub struct DispatchRoute {
    pub route_kind: DownstreamRouteKind,
    pub model_action: Option<String>,
}

/// The part of `value` after its first `:`, or all of `value` when it holds
/// no `:`.
pub open spec fn after_first_colon(value: Seq<char>) -> Seq<char> {
    if exists|i: int| 0 <= i < value.len() && value[i] == ':' {
        let i = choose|i: int|
            0 <= i < value.len() && value[i] == ':' && forall|j: int|
                0 <= j < i ==> value[j] != ':';
        value.subrange(i + 1, value.len() as int)
    } else {
        value
    }
}

/// The Google action named by `model_action`: the part after its first `:`
/// when it has one, else all of it; `streamGenerateContent` when absent.
pub open spec fn google_action(model_action: Option<Seq<char>>) -> Seq<char> {
    match model_action {
        Some(v) => after_first_colon(v),
        None => after_first_colon("streamGenerateContent"@),
    }
}

/// `upstream_model:action`, the Google model path segment for the upstream
/// model, keeping the action that the downstream request asked for.
pub fn replace_google_model_action(model_action: Option<&str>, upstream_model: &str) -> (r:
    String)
    ensures
        r@ == upstream_model@ + ":"@ + google_action(
            match model_action {
                Some(v) => Some(v@),
                None => None,
            },
        ),
{
    let value: &str = match model_action {
        Some(v) => v,
        None => "streamGenerateContent",
    };
    let ghost opt_view: Option<Seq<char>> = match model_action {
        Some(v) => Some(v@),
        None => None,
    };
    let ghost value_view = match model_action {
        Some(v) => v@,
        None => "streamGenerateContent"@,
    };
    assert(value@ == value_view);
    let chars = chars_of(value);
    let mut i: usize = 0;
    while i < chars.len() && chars[i] != ':'
        invariant
            i <= chars@.len(),
            forall|j: int| 0 <= j < i ==> chars@[j] != ':',
        decreases chars.len() - i,
    {
        i += 1;
    }
    let mut out = String::new();
    push_str(&mut out, upstream_model);
    push_str(&mut out, ":");
    if i < chars.len() {
        let action = string_from_range(&chars, i + 1, chars.len());
        push_str(&mut out, action.as_str());
        assert(out@ =~= upstream_model@ + ":"@ + chars@.subrange(i + 1, chars@.len() as int));
        proof {
            let v = chars@;
            let w = choose|w: int|
                0 <= w < v.len() && v[w] == ':' && forall|j: int| 0 <= j < w ==> v[j] != ':';
            assert(0 <= i < v.len() && v[i as int] == ':' && forall|j: int|
                0 <= j < i ==> v[j] != ':');
            if w < i {
            } else if w > i {
            }
            assert(w == i);
            assert(after_first_colon(v) == chars@.subrange(i + 1, chars@.len() as int));
        }
    } else {
        push_str(&mut out, value);
        assert(!exists|j: int| 0 <= j < value_view.len() && value_view[j] == ':');
        assert(after_first_colon(value_view) == value_view);
    }
    out
}

/// The upstream URL for a route on an endpoint rooted at `base_url`.
pub open spec fn request_url(
    base_url: Seq<char>,
    route_kind: DownstreamRouteKind,
    model_action: Option<Seq<char>>,
    upstream_model: Seq<char>,
) -> Seq<char> {
    match route_kind {
        DownstreamRouteKind::OpenAiChatCompletions => base_url + "/chat/completions"@,
        DownstreamRouteKind::OpenAiResponses => base_url + "/responses"@,
        DownstreamRouteKind::AnthropicMessages => base_url + "/v1/messages"@,
        DownstreamRouteKind::GoogleV1BetaModels => base_url + "/v1beta/models/"@ + (upstream_model
            + ":"@ + google_action(model_action)),
        DownstreamRouteKind::GoogleV1Models => base_url + "/models/"@ + (upstream_model + ":"@
            + google_action(model_action)),
    }
}

/// The view of an optional string.
pub open spec fn opt_str_view(o: Option<String>) -> Option<Seq<char>> {
    match o {
        Some(s) => Some(s@),
        None => None,
    }
}

/// The upstream URL a candidate's request is sent to.
pub fn build_request_url(base_url: &str, route: &DispatchRoute, upstream_model: &str) -> (r:
    String)
    ensures
        r@ == request_url(base_url@, route.route_kind, opt_str_view(route.model_action), upstream_model@),
{
    let mut out = String::new();
    push_str(&mut out, base_url);
    match route.route_kind {
        DownstreamRouteKind::OpenAiChatCompletions => push_str(&mut out, "/chat/completions"),
        DownstreamRouteKind::OpenAiResponses => push_str(&mut out, "/responses"),
        DownstreamRouteKind::AnthropicMessages => push_str(&mut out, "/v1/messages"),
        DownstreamRouteKind::GoogleV1BetaModels => {
            push_str(&mut out, "/v1beta/models/");
            let action = match &route.model_action {
                Some(v) => Some(v.as_str()),
                None => None,
            };
            let tail = replace_google_model_action(action, upstream_model);
            push_str(&mut out, tail.as_str());
        },
        DownstreamRouteKind::GoogleV1Models => {
            push_str(&mut out, "/models/");
            let action = match &route.model_action {
                Some(v) => Some(v.as_str()),
                None => None,
            };
            let tail = replace_google_model_action(action, upstream_model);
            push_str(&mut out, tail.as_str());
        },
    }
    proof {
        assert(out@ =~= request_url(base_url@, route.route_kind, opt_str_view(route.model_action), upstream_model@));
    }
    out
}


// ---------------------------------------------------------------------------
// Upstream requests
// ---------------------------------------------------------------------------

/// The hop-by-hop headers, which a proxy does not forward.
pub open spec fn hop_by_hop_headers() -> Seq<Seq<char>> {
    seq![
        "connection"@,
        "host"@,
        "keep-alive"@,
        "proxy-authenticate"@,
        "proxy-authorization"@,
        "te"@,
        "trailer"@,
        "transfer-encoding"@,
        "upgrade"@,
        "content-length"@,
    ]
}

/// Whether a (lower-case) header name is hop-by-hop.
pub fn is_hop_by_hop_header(name: &str) -> (r: bool)
    ensures
        r == hop_by_hop_headers().contains(name@),
{
    let names: [&str; 10] = [
        "connection",
        "host",
        "keep-alive",
        "proxy-authenticate",
        "proxy-authorization",
        "te",
        "trailer",
        "transfer-encoding",
        "upgrade",
        "content-length",
    ];
    let ghost hs = hop_by_hop_headers();
    assert(forall|i: int| 0 <= i < 10 ==> (#[trigger] names@[i])@ == hs[i]);
    let mut i: usize = 0;
    while i < 10
        invariant
            i <= 10,
            names@.len() == 10,
            hs == hop_by_hop_headers(),
            forall|j: int| 0 <= j < 10 ==> (#[trigger] names@[j])@ == hs[j],
            forall|j: int| 0 <= j < i ==> hs[j] != name@,
        decreases 10 - i,
    {
        if crate::text::str_eq(names[i], name) {
            assert(hs[i as int] == name@);
            return true;
        }
        i += 1;
    }
    assert(!hs.contains(name@)) by {
        if hs.contains(name@) {
            let j = choose|j: int| 0 <= j < hs.len() && hs[j] == name@;
        }
    }
    false
}

/// A client header is passed on upstream: it is not hop-by-hop and does
/// not carry the client's own credentials.
pub open spec fn forwarded_header(name: Seq<char>) -> bool {
    !hop_by_hop_headers().contains(name) && name != "authorization"@ && name != "x-api-key"@
}

/// Whether a client header (lower-case name) is passed on upstream.
pub fn should_forward_header(name: &str) -> (r: bool)
    ensures
        r == forwarded_header(name@),
{
    !is_hop_by_hop_header(name) && !crate::text::str_eq(name, "authorization")
        && !crate::text::str_eq(name, "x-api-key")
}

/// Where the selected key goes on an upstream request.
#[derive(Debug, PartialEq, Eq)]
pub enum AuthPlacement {
    /// `Authorization: Bearer <secret>`.
    Bearer(String),
    /// A header of the given name holding the secret.
    Header { name: String, value: String },
    /// A query parameter of the given name holding the secret.
    Query { name: String, value: String },
}

/// Where the secret goes for an authentication strategy.
pub fn auth_placement(strategy: &crate::domain::types::AuthStrategy, secret: &str) -> (r: AuthPlacement)
    ensures
        match *strategy {
            crate::domain::types::AuthStrategy::Bearer => r matches AuthPlacement::Bearer(s) && s@
                == secret@,
            crate::domain::types::AuthStrategy::HeaderApiKey { header_name } => r matches AuthPlacement::Header {
                name,
                value,
            } && name@ == header_name@ && value@ == secret@,
            crate::domain::types::AuthStrategy::QueryApiKey { parameter_name } => r matches AuthPlacement::Query {
                name,
                value,
            } && name@ == parameter_name@ && value@ == secret@,
        },
{
    match strategy {
        crate::domain::types::AuthStrategy::Bearer => AuthPlacement::Bearer(secret.to_string()),
        crate::domain::types::AuthStrategy::HeaderApiKey { header_name } => AuthPlacement::Header {
            name: header_name.clone(),
            value: secret.to_string(),
        },
        crate::domain::types::AuthStrategy::QueryApiKey { parameter_name } => AuthPlacement::Query {
            name: parameter_name.clone(),
            value: secret.to_string(),
        },
    }
}

/// The route's request body carries the model in its JSON: the OpenAI and
/// Anthropic routes.
pub open spec fn body_names_model(route: DownstreamRouteKind) -> bool {
    match route {
        DownstreamRouteKind::OpenAiChatCompletions | DownstreamRouteKind::OpenAiResponses
        | DownstreamRouteKind::AnthropicMessages => true,
        _ => false,
    }
}

/// The request body sent to a candidate: on routes whose body names the
/// model, `model` set to the candidate's upstream model and `stream` to
/// true (a `null` body becomes an object holding just those); other
/// bodies unchanged.
pub open spec fn rewritten_body(
    route: DownstreamRouteKind,
    upstream_model: Seq<char>,
    body: crate::schema::JsonView,
) -> crate::schema::JsonView {
    if body_names_model(route) {
        let ms = match body {
            crate::schema::JsonView::Object(ms) => ms,
            _ => seq![],
        };
        crate::schema::JsonView::Object(
            crate::schema::set_key(
                crate::schema::set_key(ms, "model"@, crate::schema::JsonView::Str(upstream_model)),
                "stream"@,
                crate::schema::JsonView::Bool(true),
            ),
        )
    } else {
        body
    }
}

/// The request body for a candidate (see `rewritten_body`). The body is an
/// object or `null` where the route names the model.
pub fn rewrite_request_body(
    route: &DispatchRoute,
    upstream_model: &str,
    body: crate::schema::JsonValue,
) -> (r: crate::schema::JsonValue)
    requires
        body_names_model(route.route_kind) ==> (body is Object || body is Null),
    ensures
        crate::schema::json_view(r) == rewritten_body(
            route.route_kind,
            upstream_model@,
            crate::schema::json_view(body),
        ),
{
    match route.route_kind {
        DownstreamRouteKind::GoogleV1BetaModels | DownstreamRouteKind::GoogleV1Models => body,
        _ => {
            let mut ms = match body {
                crate::schema::JsonValue::Object(ms) => ms,
                _ => {
                    let empty: Vec<crate::schema::JsonMember> = Vec::new();
                    assert(crate::schema::members_view(empty@) =~= Seq::<
                        (Seq<char>, crate::schema::JsonView),
                    >::empty());
                    empty
                },
            };
            crate::schema::set_member(
                &mut ms,
                "model".to_string(),
                crate::schema::JsonValue::Str(upstream_model.to_string()),
            );
            crate::schema::set_member(&mut ms, "stream".to_string(), crate::schema::JsonValue::Bool(true));
            crate::schema::JsonValue::Object(ms)
        },
    }
}


/// Why a request body could not be rewritten for a candidate.
#[derive(Debug, Clone, Copy, PartialEq, Eq, Structural)]
pub enum RewriteError {
    /// The body is not a JSON document (or not UTF-8).
    InvalidJson,
    /// The route names the model in the body, but the body is neither an
    /// object nor `null`.
    NotAnObject,
}

/// The JSON document that `serde_json` reads from request bytes: none when
/// they are not UTF-8 or not JSON.
pub open spec fn body_json(b: Seq<u8>) -> Option<crate::schema::JsonView> {
    if vstd::utf8::valid_utf8(b) {
        crate::codec::json_parse(vstd::utf8::decode_utf8(b))
    } else {
        None
    }
}

/// The route names the model and the body cannot hold it.
pub open spec fn body_unfit(route: DownstreamRouteKind, v: crate::schema::JsonView) -> bool {
    body_names_model(route) && !(v is Object || v is Null)
}

/// The request bytes sent to a candidate: the client's body read as JSON,
/// rewritten (see `rewritten_body`) and written back by `serde_json`.
pub fn rewrite_request_bytes(route: &DispatchRoute, upstream_model: &str, body: &[u8]) -> (r: Result<
    Vec<u8>,
    RewriteError,
>)
    ensures
        match body_json(body@) {
            None => r matches Err(RewriteError::InvalidJson),
            Some(v) => if body_unfit(route.route_kind, v) {
                r matches Err(RewriteError::NotAnObject)
            } else {
                r matches Ok(bytes) && bytes@ == crate::codec::json_bytes(
                    rewritten_body(route.route_kind, upstream_model@, v),
                )
            },
        },
{
    let chars = match crate::adapters::utf8_chars(body) {
        Some(c) => c,
        None => return Err(RewriteError::InvalidJson),
    };
    let text = crate::text::string_from_chars(&chars);
    let value = match crate::codec::parse_json_text(text.as_str()) {
        Some(v) => v,
        None => return Err(RewriteError::InvalidJson),
    };
    let names_model = match route.route_kind {
        DownstreamRouteKind::GoogleV1BetaModels | DownstreamRouteKind::GoogleV1Models => false,
        _ => true,
    };
    let fits = match &value {
        crate::schema::JsonValue::Object(_) | crate::schema::JsonValue::Null => true,
        _ => false,
    };
    if names_model && !fits {
        return Err(RewriteError::NotAnObject);
    }
    let rewritten = rewrite_request_body(route, upstream_model, value);
    Ok(crate::codec::json_to_bytes(rewritten))
}


/// The value of member `k` of an object's members (its first occurrence).
pub open spec fn member_value(ms: Seq<(Seq<char>, crate::schema::JsonView)>, k: Seq<char>) -> Option<
    crate::schema::JsonView,
> {
    match crate::schema::find_key(ms, k) {
        Some(i) => Some(ms[i].1),
        None => None,
    }
}

proof fn lemma_find_key_same_keys(
    a: Seq<(Seq<char>, crate::schema::JsonView)>,
    b: Seq<(Seq<char>, crate::schema::JsonView)>,
    k: Seq<char>,
)
    requires
        a.len() == b.len(),
        forall|j: int| 0 <= j < a.len() ==> (#[trigger] a[j]).0 == b[j].0,
    ensures
        crate::schema::find_key(a, k) == crate::schema::find_key(b, k),
    decreases a.len(),
{
    if a.len() > 0 {
        lemma_find_key_same_keys(a.drop_last(), b.drop_last(), k);
        assert(a.last().0 == b.last().0);
    }
}

proof fn lemma_set_key_member(
    ms: Seq<(Seq<char>, crate::schema::JsonView)>,
    k: Seq<char>,
    v: crate::schema::JsonView,
    k2: Seq<char>,
)
    ensures
        member_value(crate::schema::set_key(ms, k, v), k) == Some(v),
        k2 != k ==> member_value(crate::schema::set_key(ms, k, v), k2) == member_value(ms, k2),
{
    let out = crate::schema::set_key(ms, k, v);
    crate::schema::lemma_find_key_bound(ms, k);
    crate::schema::lemma_find_key_bound(ms, k2);
    match crate::schema::find_key(ms, k) {
        Some(i) => {
            assert forall|j: int| 0 <= j < ms.len() implies (#[trigger] ms[j]).0 == out[j].0 by {}
            lemma_find_key_same_keys(ms, out, k);
            lemma_find_key_same_keys(ms, out, k2);
            crate::schema::lemma_find_key_bound(out, k2);
            if k2 != k {
                match crate::schema::find_key(ms, k2) {
                    Some(i2) => {
                        assert(i2 != i);
                    },
                    None => {},
                }
            }
        },
        None => {
            assert(out.drop_last() =~= ms);
        },
    }
}

/// The request body sent to a candidate names the candidate's upstream
/// model and asks for a stream on the OpenAI Chat Completions, OpenAI
/// Responses and Anthropic Messages routes (for an object or `null` body),
/// keeping every other member of an object body; the Gemini routes send the
/// body unchanged.
pub proof fn law_rewritten_body(
    route: DownstreamRouteKind,
    upstream_model: Seq<char>,
    body: crate::schema::JsonView,
    k: Seq<char>,
)
    ensures
        (route == DownstreamRouteKind::OpenAiChatCompletions || route == DownstreamRouteKind::OpenAiResponses
            || route == DownstreamRouteKind::AnthropicMessages) && (body is Object || body is Null) ==> (
        rewritten_body(route, upstream_model, body) matches crate::schema::JsonView::Object(out) && member_value(
            out,
            "model"@,
        ) == Some(crate::schema::JsonView::Str(upstream_model)) && member_value(out, "stream"@) == Some(
            crate::schema::JsonView::Bool(true),
        ) && (body matches crate::schema::JsonView::Object(ms) ==> (k != "model"@ && k != "stream"@
            ==> member_value(out, k) == member_value(ms, k)))),
        route == DownstreamRouteKind::GoogleV1BetaModels || route == DownstreamRouteKind::GoogleV1Models
            ==> rewritten_body(route, upstream_model, body) == body,
{
    reveal_strlit("model");
    reveal_strlit("stream");
    assert("model"@[0] != "stream"@[0]);
    let ms = match body {
        crate::schema::JsonView::Object(ms) => ms,
        _ => seq![],
    };
    let m1 = crate::schema::set_key(ms, "model"@, crate::schema::JsonView::Str(upstream_model));
    lemma_set_key_member(ms, "model"@, crate::schema::JsonView::Str(upstream_model), k);
    lemma_set_key_member(m1, "stream"@, crate::schema::JsonView::Bool(true), k);
    lemma_set_key_member(m1, "stream"@, crate::schema::JsonView::Bool(true), "model"@);
}


/// A client header (lower-case name) is passed on upstream exactly when it
/// is none of the hop-by-hop headers `connection`, `host`, `keep-alive`,
/// `proxy-authenticate`, `proxy-authorization`, `te`, `trailer`,
/// `transfer-encoding`, `upgrade`, `content-length`, nor `authorization`
/// or `x-api-key` (the candidate's own key replaces those).
pub proof fn law_forwarded_headers(name: Seq<char>)
    ensures
        forwarded_header(name) <==> !(name == "connection"@ || name == "host"@ || name == "keep-alive"@ || name == "proxy-authenticate"@ || name == "proxy-authorization"@ || name == "te"@ || name == "trailer"@ || name == "transfer-encoding"@ || name == "upgrade"@ || name == "content-length"@ || name == "authorization"@ || name == "x-api-key"@),
{
    let hs = hop_by_hop_headers();
    if name == "connection"@ || name == "host"@ || name == "keep-alive"@ || name == "proxy-authenticate"@ || name == "proxy-authorization"@ || name == "te"@ || name == "trailer"@ || name == "transfer-encoding"@ || name == "upgrade"@ || name == "content-length"@ {
        if name == "connection"@ { assert(hs[0] == name); }
        if name == "host"@ { assert(hs[1] == name); }
        if name == "keep-alive"@ { assert(hs[2] == name); }
        if name == "proxy-authenticate"@ { assert(hs[3] == name); }
        if name == "proxy-authorization"@ { assert(hs[4] == name); }
        if name == "te"@ { assert(hs[5] == name); }
        if name == "trailer"@ { assert(hs[6] == name); }
        if name == "transfer-encoding"@ { assert(hs[7] == name); }
        if name == "upgrade"@ { assert(hs[8] == name); }
        if name == "content-length"@ { assert(hs[9] == name); }
    }
    if hs.contains(name) {
        let i = choose|i: int| 0 <= i < hs.len() && hs[i] == name;
        if i == 0 { assert(name == "connection"@); }
        if i == 1 { assert(name == "host"@); }
        if i == 2 { assert(name == "keep-alive"@); }
        if i == 3 { assert(name == "proxy-authenticate"@); }
        if i == 4 { assert(name == "proxy-authorization"@); }
        if i == 5 { assert(name == "te"@); }
        if i == 6 { assert(name == "trailer"@); }
        if i == 7 { assert(name == "transfer-encoding"@); }
        if i == 8 { assert(name == "upgrade"@); }
        if i == 9 { assert(name == "content-length"@); }
    }
}

} // verus!
