//! Admission of proxied requests: the API key check and the diagnostics
//! switch.
use vstd::prelude::*;

use crate::text::{chars_of, has_prefix, str_eq, trim, trim_str};

verus! {

/// The message of a refused request.
pub open spec fn unauthorized_message() -> Seq<char> {
    "Unauthorized: missing or invalid API key"@
}

/// The token of an `Authorization` value: what follows `Bearer ` (or the
/// whole value without it), trimmed.
pub open spec fn bearer_token(value: Seq<char>) -> Seq<char> {
    if has_prefix(value, "Bearer "@) {
        trim(value.subrange(7, value.len() as int))
    } else {
        trim(value)
    }
}

/// A request is admitted when no key is configured, when its
/// `Authorization` token is the key, or when its `x-api-key` value,
/// trimmed, is the key. Header values are given when they are visible
/// ASCII text.
pub open spec fn admitted(key: Option<Seq<char>>, authorization: Option<Seq<char>>, x_api_key: Option<Seq<char>>) -> bool {
    match key {
        None => true,
        Some(k) => (match authorization {
            Some(a) => bearer_token(a) == k,
            None => false,
        }) || (match x_api_key {
            Some(x) => trim(x) == k,
            None => false,
        }),
    }
}

/// The view of an optional text.
pub open spec fn opt_text(o: Option<&str>) -> Option<Seq<char>> {
    match o {
        Some(s) => Some(s@),
        None => None,
    }
}

/// The token of an `Authorization` header value.
pub fn bearer_token_of(value: &str) -> (r: String)
    ensures
        r@ == bearer_token(value@),
{
    let v = chars_of(value);
    let p = chars_of("Bearer ");
    proof {
        reveal_strlit("Bearer ");
    }
    if crate::text::has_prefix_exec(&v, &p) {
        let rest = crate::text::copy_char_range(&v, 7, v.len());
        let s = crate::text::string_from_chars(&rest);
        trim_str(s.as_str())
    } else {
        trim_str(value)
    }
}

/// Checks the API key of a proxied request (see `admitted`); a refused
/// request gets the message to answer with.
pub fn validate_proxy_auth(
    configured_key: Option<&str>,
    authorization: Option<&str>,
    x_api_key: Option<&str>,
) -> (r: Result<(), String>)
    ensures
        r.is_ok() == admitted(opt_text(configured_key), opt_text(authorization), opt_text(x_api_key)),
        r matches Err(m) ==> m@ == unauthorized_message(),
{
    let key = match configured_key {
        Some(k) => k,
        None => return Ok(()),
    };
    let by_header = match authorization {
        Some(a) => {
            let t = bearer_token_of(a);
            str_eq(t.as_str(), key)
        },
        None => false,
    };
    if by_header {
        return Ok(());
    }
    let by_api_key = match x_api_key {
        Some(x) => {
            let t = trim_str(x);
            str_eq(t.as_str(), key)
        },
        None => false,
    };
    if by_api_key {
        return Ok(());
    }
    Err("Unauthorized: missing or invalid API key".to_string())
}

/// ASCII letters folded to lower case.
pub open spec fn ascii_fold(c: char) -> char {
    if 'A' <= c && c <= 'Z' {
        (((c as u32) + 32) as u8) as char
    } else {
        c
    }
}

/// The diagnostics header asks for diagnostics: its value is `1` or
/// `true` in any ASCII case.
pub open spec fn diagnostics_requested(value: Option<Seq<char>>) -> bool {
    match value {
        Some(v) => v == "1"@ || v.map_values(|c: char| ascii_fold(c)) == "true"@,
        None => false,
    }
}

/// Whether the `x-nyro-race-diagnostics` header value asks for
/// diagnostics.
pub fn diagnostics_enabled(value: Option<&str>) -> (r: bool)
    ensures
        r == diagnostics_requested(opt_text(value)),
{
    let v = match value {
        Some(v) => chars_of(v),
        None => return false,
    };
    proof {
        reveal_strlit("1");
        reveal_strlit("true");
    }
    if v.len() == 1 && v[0] == '1' {
        assert(v@ =~= "1"@);
        return true;
    }
    if v.len() != 4 {
        assert(v@.map_values(|c: char| ascii_fold(c)).len() != "true"@.len());
        return false;
    }
    let a = fold(v[0]);
    let b = fold(v[1]);
    let c = fold(v[2]);
    let d = fold(v[3]);
    let r = a == 't' && b == 'r' && c == 'u' && d == 'e';
    let ghost folded = v@.map_values(|c: char| ascii_fold(c));
    assert(folded[0] == a && folded[1] == b && folded[2] == c && folded[3] == d);
    if r {
        assert(folded =~= "true"@);
    } else {
        assert(folded != "true"@) by {
            if folded == "true"@ {
                assert(folded[0] == 't');
            }
        }
        assert(v@ != "1"@);
    }
    r
}

fn fold(c: char) -> (r: char)
    ensures
        r == ascii_fold(c),
{
    if 'A' <= c && c <= 'Z' {
        let u = c as u32;
        ((u + 32) as u8) as char
    } else {
        c
    }
}

} // verus!
