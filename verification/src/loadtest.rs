//! The command line of the load-test tool: flags, their values, and the
//! defaults that apply when a flag is absent.
use vstd::prelude::*;

use crate::control::{first_where, lemma_first_where_at, lemma_first_where_none};
use crate::domain::types::KeyValue;
use crate::text::{chars_of, push_str, str_eq, string_from_range, trim, trim_str};

verus! {

/// What a run of the load-test tool is asked to do.
#[derive(Debug)]
pub struct LoadTestArgs {
    pub url: String,
    pub method: String,
    pub requests: usize,
    pub concurrency: usize,
    pub timeout_ms: u64,
    /// Request headers, name and value trimmed, in the order their names
    /// first appear; a later header of the same name (in any ASCII case)
    /// replaces the earlier one's value.
    pub headers: Vec<KeyValue>,
    pub body_file: Option<String>,
}

/// The outcome of reading the command line.
#[derive(Debug)]
pub enum LoadTestCommand {
    Run(LoadTestArgs),
    /// `--help` or `-h`: print the usage and stop.
    Help,
}

/// The text of the error `usize::from_str` reports for `s`.
pub uninterp spec fn usize_parse_error(s: Seq<char>) -> Seq<char>;

/// The text of the error `u64::from_str` reports for `s`.
pub uninterp spec fn u64_parse_error(s: Seq<char>) -> Seq<char>;

/// The number written by the ASCII digits `s`.
pub open spec fn digits_value(s: Seq<char>) -> int
    decreases s.len(),
{
    if s.len() == 0 {
        0
    } else {
        digits_value(s.drop_last()) * 10 + (s.last() as int - '0' as int)
    }
}

/// `s` is a non-empty run of ASCII digits.
pub open spec fn all_digits(s: Seq<char>) -> bool {
    s.len() > 0 && forall|i: int| 0 <= i < s.len() ==> '0' <= #[trigger] s[i] <= '9'
}

/// The value of an optional `+` followed by digits, as unsigned integer
/// parsing reads it; `None` for any other text.
pub open spec fn unsigned_decimal(s: Seq<char>) -> Option<int> {
    let d = if s.len() > 0 && s[0] == '+' {
        s.drop_first()
    } else {
        s
    };
    if all_digits(d) {
        Some(digits_value(d))
    } else {
        None
    }
}

/// `usize::from_str`: an optional `+` and ASCII digits whose value fits;
/// anything else is an error whose text is named `usize_parse_error`.
#[verifier::external_body]
fn parse_usize(s: &str) -> (r: Result<usize, String>)
    ensures
        match unsigned_decimal(s@) {
            Some(v) => if 0 <= v <= usize::MAX {
                r == Ok::<usize, String>(v as usize)
            } else {
                r matches Err(e) && e@ == usize_parse_error(s@)
            },
            None => r matches Err(e) && e@ == usize_parse_error(s@),
        },
{
    match s.parse::<usize>() {
        Ok(n) => Ok(n),
        Err(e) => Err(e.to_string()),
    }
}

/// `u64::from_str`: an optional `+` and ASCII digits whose value fits;
/// anything else is an error whose text is named `u64_parse_error`.
#[verifier::external_body]
fn parse_u64(s: &str) -> (r: Result<u64, String>)
    ensures
        match unsigned_decimal(s@) {
            Some(v) => if 0 <= v <= u64::MAX {
                r == Ok::<u64, String>(v as u64)
            } else {
                r matches Err(e) && e@ == u64_parse_error(s@)
            },
            None => r matches Err(e) && e@ == u64_parse_error(s@),
        },
{
    match s.parse::<u64>() {
        Ok(n) => Ok(n),
        Err(e) => Err(e.to_string()),
    }
}

/// The settings read so far.
pub struct ArgsView {
    pub url: Option<Seq<char>>,
    pub method: Seq<char>,
    pub requests: int,
    pub concurrency: int,
    pub timeout_ms: int,
    pub headers: Seq<(Seq<char>, Seq<char>)>,
    pub body_file: Option<Seq<char>>,
}

/// The settings before any flag is read.
pub open spec fn initial_args() -> ArgsView {
    ArgsView {
        url: None,
        method: "POST"@,
        requests: 100,
        concurrency: 10,
        timeout_ms: 60000,
        headers: seq![],
        body_file: None,
    }
}

/// Where reading the command line stands.
pub enum ReadView {
    /// The settings read so far; reading goes on.
    Next(ArgsView),
    Help,
    Fail(Seq<char>),
}

/// A character HTTP allows in a header name (a token character).
pub open spec fn header_name_char(c: char) -> bool {
    ('a' <= c <= 'z') || ('A' <= c <= 'Z') || ('0' <= c <= '9') || c == '!' || c == '#' || c == '$'
        || c == '%' || c == '&' || c == '\'' || c == '*' || c == '+' || c == '-' || c == '.'
        || c == '^' || c == '_' || c == '`' || c == '|' || c == '~'
}

/// A header name that `HeaderName::from_bytes` accepts: one to 65535
/// token characters.
pub open spec fn header_name_ok(s: Seq<char>) -> bool {
    0 < s.len() <= 65535 && forall|i: int| 0 <= i < s.len() ==> header_name_char(#[trigger] s[i])
}

/// A header value that `HeaderValue::from_str` accepts: no control
/// character but the tab, and no DEL.
pub open spec fn header_value_ok(s: Seq<char>) -> bool {
    forall|i: int| 0 <= i < s.len() ==> (#[trigger] s[i] == '\t' || (' ' <= s[i] && s[i] != '\x7f'))
}

/// `reqwest::header::HeaderName::from_bytes` of the bytes of `name`.
/// Claimed, as `http`'s source shows: it succeeds exactly on a name of one
/// to 65535 bytes, each a token character (see `header_name_ok`).
#[verifier::external_body]
fn header_name_accepted(name: &str) -> (r: bool)
    ensures
        r == header_name_ok(name@),
{
    reqwest::header::HeaderName::from_bytes(name.as_bytes()).is_ok()
}

/// `reqwest::header::HeaderValue::from_str` of `value`. Claimed, as
/// `http`'s source shows: it succeeds exactly when every byte is a tab or
/// at least a space and not DEL, so on every non-ASCII character (see
/// `header_value_ok`).
#[verifier::external_body]
fn header_value_accepted(value: &str) -> (r: bool)
    ensures
        r == header_value_ok(value@),
{
    reqwest::header::HeaderValue::from_str(value).is_ok()
}

/// Position of the first `:` in `s`.
pub open spec fn first_colon(s: Seq<char>) -> Option<int> {
    first_where(s, |c: char| c == ':')
}

/// The value of a numeric flag: it must be present and parse.
pub open spec fn number_step(
    flag: Seq<char>,
    value: Option<Seq<char>>,
    max: int,
    err: Seq<char>,
) -> Result<int, Seq<char>> {
    match value {
        None => Err("missing value for "@ + flag),
        Some(v) => match unsigned_decimal(v) {
            Some(n) => if 0 <= n <= max {
                Ok(n)
            } else {
                Err("failed to parse "@ + flag + ": "@ + err)
            },
            None => Err("failed to parse "@ + flag + ": "@ + err),
        },
    }
}

/// Reading the flag at position `i`; a flag that takes a value consumes
/// the next argument too.
pub open spec fn read_step(args: Seq<Seq<char>>, i: int, a: ArgsView) -> ReadView {
    let arg = args[i];
    let value = if i + 1 < args.len() {
        Some(args[i + 1])
    } else {
        None::<Seq<char>>
    };
    let v = match value {
        Some(x) => x,
        None => seq![],
    };
    if arg == "--url"@ {
        ReadView::Next(ArgsView { url: value, ..a })
    } else if arg == "--method"@ {
        ReadView::Next(
            ArgsView {
                method: match value {
                    Some(m) => m,
                    None => "POST"@,
                },
                ..a
            },
        )
    } else if arg == "--requests"@ {
        match number_step(arg, value, usize::MAX as int, usize_parse_error(v)) {
            Ok(n) => ReadView::Next(ArgsView { requests: n, ..a }),
            Err(m) => ReadView::Fail(m),
        }
    } else if arg == "--concurrency"@ {
        match number_step(arg, value, usize::MAX as int, usize_parse_error(v)) {
            Ok(n) => ReadView::Next(ArgsView { concurrency: n, ..a }),
            Err(m) => ReadView::Fail(m),
        }
    } else if arg == "--timeout-ms"@ {
        match number_step(arg, value, u64::MAX as int, u64_parse_error(v)) {
            Ok(n) => ReadView::Next(ArgsView { timeout_ms: n, ..a }),
            Err(m) => ReadView::Fail(m),
        }
    } else if arg == "--body-file"@ {
        match value {
            None => ReadView::Fail("missing value for --body-file"@),
            Some(p) => ReadView::Next(ArgsView { body_file: Some(p), ..a }),
        }
    } else if arg == "--header"@ {
        match value {
            None => ReadView::Fail("missing value for --header"@),
            Some(raw) => match first_colon(raw) {
                None => ReadView::Fail("invalid header '"@ + raw + "', expected 'name:value'"@),
                Some(c) => {
                    let name = raw.subrange(0, c);
                    let n = trim(name);
                    let v = trim(raw.subrange(c + 1, raw.len() as int));
                    if !header_name_ok(n) {
                        ReadView::Fail("invalid header name '"@ + name + "'"@)
                    } else if !header_value_ok(v) {
                        ReadView::Fail("invalid header value for '"@ + name + "'"@)
                    } else {
                        ReadView::Next(ArgsView { headers: put_header(a.headers, n, v), ..a })
                    }
                },
            },
        }
    } else if arg == "--help"@ || arg == "-h"@ {
        ReadView::Help
    } else {
        ReadView::Fail("unknown argument '"@ + arg + "'"@)
    }
}

/// Reading the arguments from position `i` on: the settings once all are
/// read, or the first request for help or error. Each flag is followed by
/// its value, so reading goes on two positions further.
pub open spec fn read_from(args: Seq<Seq<char>>, i: int, a: ArgsView) -> ReadView
    decreases args.len() + 2 - i,
{
    if i < 0 || i >= args.len() {
        ReadView::Next(a)
    } else {
        match read_step(args, i, a) {
            ReadView::Next(b) => read_from(args, i + 2, b),
            other => other,
        }
    }
}

/// `n`, or 1 when it is 0.
pub open spec fn at_least_one(n: int) -> int {
    if n < 1 {
        1
    } else {
        n
    }
}

/// The views of the arguments.
pub open spec fn args_view(args: Seq<String>) -> Seq<Seq<char>> {
    args.map_values(|s: String| s@)
}

/// Two header names are the same name: equal once ASCII letters are
/// lower-cased.
pub open spec fn same_header_name(a: Seq<char>, b: Seq<char>) -> bool {
    a.len() == b.len() && forall|i: int|
        0 <= i < a.len() ==> crate::control::ascii_lower(#[trigger] a[i]) == crate::control::ascii_lower(b[i])
}

/// Position of the first header named `n` (see `same_header_name`).
pub open spec fn header_slot(hs: Seq<(Seq<char>, Seq<char>)>, n: Seq<char>) -> Option<int>
    decreases hs.len(),
{
    if hs.len() == 0 {
        None
    } else {
        match header_slot(hs.drop_last(), n) {
            Some(i) => Some(i),
            None => if same_header_name(hs.last().0, n) {
                Some(hs.len() - 1)
            } else {
                None
            },
        }
    }
}

/// The headers with `n: v` added, as a header map inserts it: a header of
/// the same name keeps its place and name and takes the value `v`;
/// otherwise the header is added at the end.
pub open spec fn put_header(hs: Seq<(Seq<char>, Seq<char>)>, n: Seq<char>, v: Seq<char>) -> Seq<
    (Seq<char>, Seq<char>),
> {
    match header_slot(hs, n) {
        Some(i) => hs.update(i, (hs[i].0, v)),
        None => hs.push((n, v)),
    }
}

proof fn lemma_header_slot_none(hs: Seq<(Seq<char>, Seq<char>)>, n: Seq<char>)
    ensures
        header_slot(hs, n) is None <==> forall|j: int| 0 <= j < hs.len() ==> !same_header_name(#[trigger] hs[j].0, n),
    decreases hs.len(),
{
    if hs.len() > 0 {
        let d = hs.drop_last();
        lemma_header_slot_none(d, n);
        assert forall|j: int| 0 <= j < d.len() implies #[trigger] d[j] == hs[j] by {}
        if header_slot(hs, n) is Some {
            if header_slot(d, n) is Some {
                let j = choose|j: int| 0 <= j < d.len() && same_header_name(#[trigger] d[j].0, n);
                assert(same_header_name(hs[j].0, n));
            } else {
                assert(same_header_name(hs[hs.len() - 1].0, n));
            }
        } else {
            assert forall|j: int| 0 <= j < hs.len() implies !same_header_name(#[trigger] hs[j].0, n) by {
                if j < d.len() {
                    assert(d[j] == hs[j]);
                    assert(!same_header_name(d[j].0, n));
                } else {
                    assert(hs[j] == hs.last());
                }
            }
        }
    }
}

proof fn lemma_header_slot_first(hs: Seq<(Seq<char>, Seq<char>)>, n: Seq<char>, k: int)
    requires
        0 <= k < hs.len(),
        same_header_name(hs[k].0, n),
        forall|j: int| 0 <= j < k ==> !same_header_name(#[trigger] hs[j].0, n),
    ensures
        header_slot(hs, n) == Some(k),
    decreases hs.len(),
{
    let d = hs.drop_last();
    assert forall|j: int| 0 <= j < d.len() implies #[trigger] d[j] == hs[j] by {}
    if k < hs.len() - 1 {
        lemma_header_slot_first(d, n, k);
    } else {
        lemma_header_slot_none(d, n);
    }
}

/// Whether two header names are the same name (see `same_header_name`).
fn header_names_match(a: &str, b: &str) -> (r: bool)
    ensures
        r == same_header_name(a@, b@),
{
    let va = chars_of(a);
    let vb = chars_of(b);
    if va.len() != vb.len() {
        return false;
    }
    let mut i: usize = 0;
    while i < va.len()
        invariant
            i <= va.len(),
            va.len() == vb.len(),
            va@ == a@,
            vb@ == b@,
            forall|j: int| 0 <= j < i ==> crate::control::ascii_lower(#[trigger] va@[j]) == crate::control::ascii_lower(vb@[j]),
        decreases va.len() - i,
    {
        if crate::control::char_ascii_lower(va[i]) != crate::control::char_ascii_lower(vb[i]) {
            return false;
        }
        i += 1;
    }
    true
}

/// Adds a header as a header map inserts it (see `put_header`).
fn put_header_exec(hs: &mut Vec<KeyValue>, h: KeyValue)
    ensures
        headers_view(final(hs)@) == put_header(headers_view(old(hs)@), h.key@, h.value@),
{
    let ghost hv = headers_view(hs@);
    let mut i: usize = 0;
    while i < hs.len()
        invariant
            i <= hs.len(),
            hs@ == old(hs)@,
            hv == headers_view(hs@),
            hv.len() == hs.len(),
            forall|j: int| 0 <= j < hs.len() ==> #[trigger] hv[j] == (hs@[j].key@, hs@[j].value@),
            forall|j: int| 0 <= j < i ==> !same_header_name(#[trigger] hv[j].0, h.key@),
        decreases hs.len() - i,
    {
        if header_names_match(hs[i].key.as_str(), h.key.as_str()) {
            proof {
                lemma_header_slot_first(hv, h.key@, i as int);
            }
            let key = hs[i].key.clone();
            hs.set(i, KeyValue { key, value: h.value });
            proof {
                assert(headers_view(hs@) =~= hv.update(i as int, (hv[i as int].0, h.value@)));
            }
            return;
        }
        i += 1;
    }
    proof {
        lemma_header_slot_none(hv, h.key@);
    }
    let ghost hk = h.key@;
    let ghost hval = h.value@;
    hs.push(h);
    proof {
        assert(headers_view(hs@) =~= hv.push((hk, hval)));
    }
}

/// The headers' views.
pub open spec fn headers_view(hs: Seq<KeyValue>) -> Seq<(Seq<char>, Seq<char>)> {
    hs.map_values(|h: KeyValue| (h.key@, h.value@))
}

/// The settings held by the loop's variables.
spec fn acc_view(
    url: Option<String>,
    method: String,
    requests: usize,
    concurrency: usize,
    timeout_ms: u64,
    headers: Seq<KeyValue>,
    body_file: Option<String>,
) -> ArgsView {
    ArgsView {
        url: match url {
            Some(u) => Some(u@),
            None => None,
        },
        method: method@,
        requests: requests as int,
        concurrency: concurrency as int,
        timeout_ms: timeout_ms as int,
        headers: headers_view(headers),
        body_file: match body_file {
            Some(b) => Some(b@),
            None => None,
        },
    }
}

/// `prefix`, `mid` and `suffix` joined.
fn joined3(prefix: &str, mid: &str, suffix: &str) -> (r: String)
    ensures
        r@ == prefix@ + mid@ + suffix@,
{
    let mut s = String::new();
    push_str(&mut s, prefix);
    push_str(&mut s, mid);
    push_str(&mut s, suffix);
    assert(s@ =~= prefix@ + mid@ + suffix@);
    s
}

/// `"missing value for <flag>"`.
fn missing_value(flag: &str) -> (r: String)
    ensures
        r@ == "missing value for "@ + flag@,
{
    let mut s = String::new();
    push_str(&mut s, "missing value for ");
    push_str(&mut s, flag);
    assert(s@ =~= "missing value for "@ + flag@);
    s
}

/// `"failed to parse <flag>: <err>"`.
fn parse_failure(flag: &str, err: &str) -> (r: String)
    ensures
        r@ == "failed to parse "@ + flag@ + ": "@ + err@,
{
    let mut s = String::new();
    push_str(&mut s, "failed to parse ");
    push_str(&mut s, flag);
    push_str(&mut s, ": ");
    push_str(&mut s, err);
    assert(s@ =~= "failed to parse "@ + flag@ + ": "@ + err@);
    s
}

/// Reads a numeric flag's `usize` value.
fn usize_flag(flag: &str, value: Option<&String>) -> (r: Result<usize, String>)
    ensures
        match number_step(
            flag@,
            match value {
                Some(v) => Some(v@),
                None => None,
            },
            usize::MAX as int,
            usize_parse_error(
                match value {
                    Some(v) => v@,
                    None => seq![],
                },
            ),
        ) {
            Ok(n) => r == Ok::<usize, String>(n as usize),
            Err(m) => r matches Err(e) && e@ == m,
        },
{
    match value {
        None => Err(missing_value(flag)),
        Some(v) => match parse_usize(v.as_str()) {
            Ok(n) => Ok(n),
            Err(e) => Err(parse_failure(flag, e.as_str())),
        },
    }
}

/// Reads a numeric flag's `u64` value.
fn u64_flag(flag: &str, value: Option<&String>) -> (r: Result<u64, String>)
    ensures
        match number_step(
            flag@,
            match value {
                Some(v) => Some(v@),
                None => None,
            },
            u64::MAX as int,
            u64_parse_error(
                match value {
                    Some(v) => v@,
                    None => seq![],
                },
            ),
        ) {
            Ok(n) => r == Ok::<u64, String>(n as u64),
            Err(m) => r matches Err(e) && e@ == m,
        },
{
    match value {
        None => Err(missing_value(flag)),
        Some(v) => match parse_u64(v.as_str()) {
            Ok(n) => Ok(n),
            Err(e) => Err(parse_failure(flag, e.as_str())),
        },
    }
}

/// Splits `raw` at its first `:` into a trimmed name and value.
fn split_header(raw: &str) -> (r: Option<(String, KeyValue)>)
    ensures
        match first_colon(raw@) {
            None => r.is_none(),
            Some(c) => r matches Some((name, h)) && name@ == raw@.subrange(0, c) && h.key@ == trim(
                raw@.subrange(0, c),
            ) && h.value@ == trim(raw@.subrange(c + 1, raw@.len() as int)),
        },
{
    let v = chars_of(raw);
    let ghost q = |c: char| c == ':';
    let mut j: usize = 0;
    while j < v.len()
        invariant
            j <= v.len(),
            v@ == raw@,
            q == (|c: char| c == ':'),
            forall|k: int| 0 <= k < j ==> !q(#[trigger] v@[k]),
        decreases v.len() - j,
    {
        if v[j] == ':' {
            proof {
                lemma_first_where_at(v@, q, j as int);
            }
            let name = string_from_range(&v, 0, j);
            let value = string_from_range(&v, j + 1, v.len());
            let h = KeyValue { key: trim_str(name.as_str()), value: trim_str(value.as_str()) };
            return Some((name, h));
        }
        j += 1;
    }
    proof {
        lemma_first_where_none(v@, q);
    }
    None
}

/// Reads the load-test tool's arguments (the program name left out).
/// Flags are read in order; a flag that takes a value takes the next
/// argument. `--url` and `--method` without a value leave the URL unset and
/// the method `POST`; a numeric flag needs a value that parses; a header
/// needs a `:` between a name and a value that HTTP accepts; `--help` or
/// `-h` stops reading and asks for the usage; any other argument is an
/// error. The first error is reported. Then the URL is required, and the
/// request count, concurrency and timeout are raised to at least 1.
pub fn parse_load_test_args(args: &Vec<String>) -> (r: Result<LoadTestCommand, String>)
    ensures
        match read_from(args_view(args@), 0, initial_args()) {
            ReadView::Help => r matches Ok(LoadTestCommand::Help),
            ReadView::Fail(m) => r matches Err(e) && e@ == m,
            ReadView::Next(a) => match a.url {
                None => r matches Err(e) && e@ == "missing required --url"@,
                Some(u) => r matches Ok(LoadTestCommand::Run(x)) && x.url@ == u && x.method@
                    == a.method && x.requests == at_least_one(a.requests) && x.concurrency
                    == at_least_one(a.concurrency) && x.timeout_ms == at_least_one(a.timeout_ms)
                    && headers_view(x.headers@) == a.headers && match x.body_file {
                    Some(b) => a.body_file == Some(b@),
                    None => a.body_file.is_none(),
                },
            },
        },
{
    let ghost av = args_view(args@);
    let mut url: Option<String> = None;
    let mut method = "POST".to_string();
    let mut requests: usize = 100;
    let mut concurrency: usize = 10;
    let mut timeout_ms: u64 = 60000;
    let mut headers: Vec<KeyValue> = Vec::new();
    let mut body_file: Option<String> = None;
    proof {
        assert(headers_view(headers@) =~= Seq::<(Seq<char>, Seq<char>)>::empty());
        assert(acc_view(url, method, requests, concurrency, timeout_ms, headers@, body_file)
            == initial_args());
    }
    let mut i: usize = 0;
    while i < args.len()
        invariant
            av == args_view(args@),
            i <= args.len(),
            read_from(av, 0, initial_args()) == read_from(
                av,
                i as int,
                acc_view(url, method, requests, concurrency, timeout_ms, headers@, body_file),
            ),
        decreases args.len() - i,
    {
        let ghost a = acc_view(url, method, requests, concurrency, timeout_ms, headers@, body_file);
        let arg = args[i].as_str();
        let value: Option<&String> = if i + 1 < args.len() {
            Some(&args[i + 1])
        } else {
            None
        };
        proof {
            assert(av[i as int] == arg@);
            if i + 1 < args.len() {
                assert(av[i + 1] == args@[i + 1]@);
            }
        }
        if str_eq(arg, "--url") {
            url = match value {
                Some(v) => Some(v.clone()),
                None => None,
            };
        } else if str_eq(arg, "--method") {
            method = match value {
                Some(v) => v.clone(),
                None => "POST".to_string(),
            };
        } else if str_eq(arg, "--requests") {
            match usize_flag(arg, value) {
                Ok(n) => requests = n,
                Err(e) => return Err(e),
            }
        } else if str_eq(arg, "--concurrency") {
            match usize_flag(arg, value) {
                Ok(n) => concurrency = n,
                Err(e) => return Err(e),
            }
        } else if str_eq(arg, "--timeout-ms") {
            match u64_flag(arg, value) {
                Ok(n) => timeout_ms = n,
                Err(e) => return Err(e),
            }
        } else if str_eq(arg, "--body-file") {
            match value {
                Some(v) => body_file = Some(v.clone()),
                None => return Err("missing value for --body-file".to_string()),
            }
        } else if str_eq(arg, "--header") {
            match value {
                None => return Err("missing value for --header".to_string()),
                Some(raw) => match split_header(raw.as_str()) {
                    Some((name, h)) => {
                        if !header_name_accepted(h.key.as_str()) {
                            return Err(joined3("invalid header name '", name.as_str(), "'"));
                        }
                        if !header_value_accepted(h.value.as_str()) {
                            return Err(joined3("invalid header value for '", name.as_str(), "'"));
                        }
                        put_header_exec(&mut headers, h);
                    },
                    None => return Err(joined3("invalid header '", raw.as_str(), "', expected 'name:value'")),
                },
            }
        } else if str_eq(arg, "--help") || str_eq(arg, "-h") {
            return Ok(LoadTestCommand::Help);
        } else {
            return Err(joined3("unknown argument '", arg, "'"));
        }
        let ghost b = acc_view(url, method, requests, concurrency, timeout_ms, headers@, body_file);
        assert(read_step(av, i as int, a) == ReadView::Next(b));
        let ghost i0 = i as int;
        if i + 1 < args.len() {
            i += 2;
        } else {
            i = args.len();
        }
        assert(read_from(av, i0, a) == read_from(av, i0 + 2, b));
    }
    match url {
        None => Err("missing required --url".to_string()),
        Some(u) => Ok(
            LoadTestCommand::Run(
                LoadTestArgs {
                    url: u,
                    method,
                    requests: if requests < 1 {
                        1
                    } else {
                        requests
                    },
                    concurrency: if concurrency < 1 {
                        1
                    } else {
                        concurrency
                    },
                    timeout_ms: if timeout_ms < 1 {
                        1
                    } else {
                        timeout_ms
                    },
                    headers,
                    body_file,
                },
            ),
        ),
    }
}

} // verus!
