//! Redaction of secrets and error texts in race diagnostics.
use vstd::prelude::*;

use crate::text::{
    char_is_ws, char_len_utf8, char_utf8_len, chars_of, is_ws, push_char, push_str,
    string_from_range, trim, trim_bounds, utf8_len,
};

verus! {

/// Name of the response header that carries race diagnostics.
pub const RACE_DIAGNOSTICS_HEADER: &'static str = "x-nyro-race-diagnostics";

/// Longest error text, in bytes, kept in diagnostics.
pub const MAX_DIAGNOSTIC_ERROR_CHARS: usize = 240;

proof fn lemma_utf8_step(s: Seq<char>, j: int)
    requires
        0 <= j < s.len(),
    ensures
        utf8_len(s.subrange(0, j + 1)) == utf8_len(s.subrange(0, j)) + char_utf8_len(s[j]),
{
    assert(s.subrange(0, j + 1).drop_last() =~= s.subrange(0, j));
}

proof fn lemma_utf8_strict(s: Seq<char>, i: int, j: int)
    requires
        0 <= i < j <= s.len(),
    ensures
        utf8_len(s.subrange(0, i)) < utf8_len(s.subrange(0, j)),
    decreases j - i,
{
    lemma_utf8_step(s, j - 1);
    if i < j - 1 {
        lemma_utf8_strict(s, i, j - 1);
    }
}

/// The number of leading characters of `v` whose UTF-8 encoding is exactly
/// `n` bytes long, if `n` falls on a character boundary.
fn utf8_prefix(v: &Vec<char>, n: usize) -> (r: Option<usize>)
    requires
        n <= 1_000_000,
    ensures
        match r {
            Some(k) => k <= v.len() && utf8_len(v@.subrange(0, k as int)) == n,
            None => forall|k: int| 0 <= k <= v.len() ==> utf8_len(v@.subrange(0, k)) != n,
        },
{
    let mut acc: usize = 0;
    let mut k: usize = 0;
    assert(v@.subrange(0, 0) =~= Seq::<char>::empty());
    while k < v.len() && acc < n
        invariant
            n <= 1_000_000,
            k <= v.len(),
            acc == utf8_len(v@.subrange(0, k as int)),
            acc <= n + 4,
            k > 0 ==> utf8_len(v@.subrange(0, k - 1)) < n,
        decreases v.len() - k,
    {
        proof {
            lemma_utf8_step(v@, k as int);
        }
        acc = acc + char_len_utf8(v[k]);
        k += 1;
    }
    if acc == n {
        return Some(k);
    }
    proof {
        assert forall|j: int| 0 <= j <= v.len() implies utf8_len(v@.subrange(0, j)) != n by {
            if j < k {
                if j < k - 1 {
                    lemma_utf8_strict(v@, j, k - 1);
                }
            } else if j > k {
                lemma_utf8_strict(v@, k as int, j);
            }
        }
    }
    None
}

/// The first `k` characters of `s` when they take exactly `n` bytes.
pub open spec fn is_byte_prefix(s: Seq<char>, k: int, n: int) -> bool {
    0 <= k <= s.len() && utf8_len(s.subrange(0, k)) == n
}

/// `n` bytes into `s` is a character boundary (or past its end).
pub open spec fn boundary_at(s: Seq<char>, n: int) -> bool {
    utf8_len(s) <= n || exists|k: int| is_byte_prefix(s, k, n)
}

/// A masked key: empty for a blank key, else the first eight bytes of the
/// trimmed key (all of it when shorter) followed by `***`.
pub open spec fn masked(key: Seq<char>, out: Seq<char>) -> bool {
    let t = trim(key);
    if t.len() == 0 {
        out.len() == 0
    } else {
        exists|k: int|
            is_byte_prefix(t, k, if utf8_len(t) < 8 {
                utf8_len(t) as int
            } else {
                8
            }) && out == t.subrange(0, k) + "***"@
    }
}

proof fn lemma_full_prefix(s: Seq<char>)
    ensures
        is_byte_prefix(s, s.len() as int, utf8_len(s) as int),
{
    assert(s.subrange(0, s.len() as int) =~= s);
}

/// Masks a secret for display: its first eight bytes followed by `***`,
/// or nothing when it is blank.
pub fn mask_key(key: &str) -> (r: String)
    requires
        boundary_at(trim(key@), 8),
    ensures
        masked(key@, r@),
{
    let v = chars_of(key);
    let (a, b) = trim_bounds(&v);
    let t = string_from_range(&v, a, b);
    let tv = chars_of(t.as_str());
    if tv.len() == 0 {
        return String::new();
    }
    let ghost ts = tv@;
    match utf8_prefix(&tv, 8) {
        Some(k) => {
            let mut out = string_from_range(&tv, 0, k);
            push_str(&mut out, "***");
            proof {
                lemma_full_prefix(ts);
                if utf8_len(ts) < 8 {
                    if k < ts.len() {
                        lemma_utf8_strict(ts, k as int, ts.len() as int);
                    }
                }
            }
            assert(out@ == ts.subrange(0, k as int) + "***"@);
            out
        },
        None => {
            proof {
                lemma_full_prefix(ts);
            }
            let mut out = string_from_range(&tv, 0, tv.len());
            push_str(&mut out, "***");
            assert(ts.subrange(0, ts.len() as int) =~= ts);
            out
        },
    }
}

/// `s` with each run of whitespace between words replaced by one space and
/// whitespace at both ends removed, reading from position `i` on; `started`
/// tells whether a word was already written and `gap` whether whitespace
/// followed it.
pub open spec fn norm_from(s: Seq<char>, i: int, started: bool, gap: bool) -> Seq<char>
    decreases s.len() - i,
{
    if i < 0 || i >= s.len() {
        seq![]
    } else if is_ws(s[i]) {
        norm_from(s, i + 1, started, started)
    } else {
        (if gap {
            seq![' ']
        } else {
            seq![]
        }) + seq![s[i]] + norm_from(s, i + 1, true, false)
    }
}

/// The words of `s` joined by single spaces (what
/// `split_whitespace().collect::<Vec<_>>().join(" ")` gives).
pub open spec fn normalize_ws(s: Seq<char>) -> Seq<char> {
    norm_from(s, 0, false, false)
}

/// Collapses whitespace: the words of `s` joined by single spaces.
pub fn normalize_whitespace(s: &str) -> (r: String)
    ensures
        r@ == normalize_ws(s@),
{
    let v = chars_of(s);
    let mut out = String::new();
    let mut started = false;
    let mut gap = false;
    let mut i: usize = 0;
    while i < v.len()
        invariant
            i <= v.len(),
            v@ == s@,
            out@ + norm_from(v@, i as int, started, gap) == normalize_ws(v@),
            gap ==> started,
        decreases v.len() - i,
    {
        let c = v[i];
        if char_is_ws(c) {
            gap = started;
        } else {
            if gap {
                push_char(&mut out, ' ');
            }
            push_char(&mut out, c);
            started = true;
            gap = false;
        }
        i += 1;
    }
    assert(out@ =~= normalize_ws(v@));
    out
}

/// The diagnostics form of an error text: whitespace collapsed, then, when
/// longer than 240 bytes, cut to its first 237 bytes and marked with `...`.
pub open spec fn truncated(e: Seq<char>, out: Seq<char>) -> bool {
    let n = normalize_ws(e);
    if utf8_len(n) <= MAX_DIAGNOSTIC_ERROR_CHARS {
        out == n
    } else {
        exists|k: int| is_byte_prefix(n, k, 237) && out == n.subrange(0, k) + "..."@
    }
}

/// Normalizes and shortens an error text for diagnostics; `None` stays
/// `None`. Shortening twice changes nothing
/// (`law_truncate_error_idempotent`).
pub fn truncate_error(error: Option<String>) -> (r: Option<String>)
    requires
        error matches Some(e) ==> (utf8_len(normalize_ws(e@)) > MAX_DIAGNOSTIC_ERROR_CHARS
            ==> boundary_at(normalize_ws(e@), 237)),
    ensures
        error.is_none() == r.is_none(),
        error matches Some(e) ==> truncated(e@, r.unwrap()@),
{
    match error {
        None => None,
        Some(value) => {
            let normalized = normalize_whitespace(value.as_str());
            let nv = chars_of(normalized.as_str());
            let ghost ns = nv@;
            let fits = total_utf8_len_le(&nv, 240);
            if fits {
                assert(truncated(value@, normalized@));
                Some(normalized)
            } else {
                match utf8_prefix(&nv, 237) {
                    Some(k) => {
                        let mut out = string_from_range(&nv, 0, k);
                        push_str(&mut out, "...");
                        assert(is_byte_prefix(ns, k as int, 237));
                        assert(out@ == ns.subrange(0, k as int) + "..."@);
                        assert(truncated(value@, out@));
                        Some(out)
                    },
                    None => {
                        assert(false);
                        None
                    },
                }
            }
        },
    }
}

/// Whether the UTF-8 encoding of `v` takes at most `n` bytes.
fn total_utf8_len_le(v: &Vec<char>, n: usize) -> (r: bool)
    requires
        n <= 1_000_000,
    ensures
        r == (utf8_len(v@) <= n),
{
    let mut acc: usize = 0;
    let mut k: usize = 0;
    while k < v.len()
        invariant
            n <= 1_000_000,
            k <= v.len(),
            acc == utf8_len(v@.subrange(0, k as int)),
            acc <= n,
        decreases v.len() - k,
    {
        proof {
            lemma_utf8_step(v@, k as int);
        }
        let c = char_len_utf8(v[k]);
        if acc + c > n {
            proof {
                if k + 1 < v.len() {
                    lemma_utf8_strict(v@, k + 1, v.len() as int);
                }
                lemma_full_prefix(v@);
            }
            return false;
        }
        acc = acc + c;
        k += 1;
    }
    assert(v@.subrange(0, v.len() as int) =~= v@);
    true
}


// ---------------------------------------------------------------------------
// Shortening twice
// ---------------------------------------------------------------------------

/// Every whitespace character of `o` is a space followed by a character
/// that is not whitespace.
pub open spec fn spaced(o: Seq<char>) -> bool {
    forall|j: int|
        0 <= j < o.len() && is_ws(#[trigger] o[j]) ==> o[j] == ' ' && j + 1 < o.len() && !is_ws(o[j + 1])
}

/// `o` is what collapsing whitespace gives: single spaces between words and
/// none at the ends.
pub open spec fn normal_form(o: Seq<char>) -> bool {
    spaced(o) && (o.len() > 0 ==> !is_ws(o[0]))
}

proof fn lemma_norm_from_spaced(s: Seq<char>, i: int, started: bool, gap: bool)
    requires
        gap ==> started,
    ensures
        spaced(norm_from(s, i, started, gap)),
        !started ==> (norm_from(s, i, started, gap).len() > 0 ==> !is_ws(norm_from(s, i, started, gap)[0])),
        gap ==> (norm_from(s, i, started, gap).len() > 0 ==> norm_from(s, i, started, gap)[0] == ' '
            || !is_ws(norm_from(s, i, started, gap)[0])),
    decreases s.len() - i,
{
    if i < 0 || i >= s.len() {
    } else if is_ws(s[i]) {
        lemma_norm_from_spaced(s, i + 1, started, started);
    } else {
        lemma_norm_from_spaced(s, i + 1, true, false);
        let rest = norm_from(s, i + 1, true, false);
        let o = norm_from(s, i, started, gap);
        let head: Seq<char> = if gap {
            seq![' ']
        } else {
            seq![]
        };
        assert(o == head + seq![s[i]] + rest);
        assert forall|j: int| 0 <= j < o.len() && is_ws(#[trigger] o[j]) implies o[j] == ' ' && j + 1
            < o.len() && !is_ws(o[j + 1]) by {
            if j >= head.len() + 1 {
                assert(o[j] == rest[j - head.len() - 1]);
                assert(is_ws(rest[j - head.len() - 1]));
                assert(o[j + 1] == rest[j - head.len()]);
            }
        }
    }
}

proof fn lemma_normal_form_fixed_tail(s: Seq<char>, i: int)
    requires
        normal_form(s),
        0 <= i < s.len(),
        !is_ws(s[i]),
    ensures
        norm_from(s, i + 1, true, false) == s.subrange(i + 1, s.len() as int),
    decreases s.len() - i,
{
    if i + 1 < s.len() && is_ws(s[i + 1]) {
        assert(s[i + 1] == ' ' && i + 2 < s.len() && !is_ws(s[i + 2]));
        lemma_normal_form_fixed_tail(s, i + 2);
        assert(norm_from(s, i + 1, true, false) == norm_from(s, i + 2, true, true));
        assert(norm_from(s, i + 2, true, true) == seq![' '] + seq![s[i + 2]] + norm_from(s, i + 3, true, false));
        assert(s.subrange(i + 1, s.len() as int) =~= seq![' '] + seq![s[i + 2]] + s.subrange(
            i + 3,
            s.len() as int,
        ));
    } else if i + 1 < s.len() {
        lemma_normal_form_fixed_tail(s, i + 1);
        assert(norm_from(s, i + 1, true, false) == seq![s[i + 1]] + norm_from(s, i + 2, true, false));
        assert(s.subrange(i + 1, s.len() as int) =~= seq![s[i + 1]] + s.subrange(i + 2, s.len() as int));
    } else {
        assert(s.subrange(i + 1, s.len() as int) =~= seq![]);
    }
}

proof fn lemma_utf8_len_concat(a: Seq<char>, b: Seq<char>)
    ensures
        utf8_len(a + b) == utf8_len(a) + utf8_len(b),
    decreases b.len(),
{
    if b.len() > 0 {
        lemma_utf8_len_concat(a, b.drop_last());
        assert((a + b).drop_last() =~= a + b.drop_last());
    } else {
        assert(a + b =~= a);
    }
}

/// Shortening an error text for diagnostics a second time changes nothing:
/// what `truncate_error` gives is already collapsed and at most 240 bytes
/// long, so the only shortening of it is itself.
pub proof fn law_truncate_error_idempotent(e: Seq<char>, out: Seq<char>)
    requires
        truncated(e, out),
    ensures
        normalize_ws(out) == out,
        utf8_len(out) <= MAX_DIAGNOSTIC_ERROR_CHARS,
        forall|o2: Seq<char>| truncated(out, o2) <==> o2 == out,
{
    let n = normalize_ws(e);
    lemma_norm_from_spaced(e, 0, false, false);
    assert(normal_form(n));
    if utf8_len(n) > MAX_DIAGNOSTIC_ERROR_CHARS {
        let k = choose|k: int| is_byte_prefix(n, k, 237) && out == n.subrange(0, k) + "..."@;
        reveal_strlit("...");
        assert(k > 0);
        lemma_utf8_len_concat(n.subrange(0, k), "..."@);
        assert(utf8_len("..."@) == 3) by {
            reveal_with_fuel(utf8_len, 4);
            assert("..."@.drop_last().drop_last().drop_last() =~= seq![]);
            assert("..."@.drop_last().drop_last() =~= seq!['.']);
            assert("..."@.drop_last() =~= seq!['.', '.']);
        }
        assert forall|j: int| 0 <= j < out.len() && is_ws(#[trigger] out[j]) implies out[j] == ' '
            && j + 1 < out.len() && !is_ws(out[j + 1]) by {
            if j < k {
                assert(out[j] == n[j]);
                assert(is_ws(n[j]));
                if j + 1 < k {
                    assert(out[j + 1] == n[j + 1]);
                } else {
                    assert(out[j + 1] == '.');
                }
            }
        }
        assert(out[0] == n[0]);
        assert(normal_form(out));
    }
    assert(normal_form(out));
    if out.len() > 0 {
        lemma_normal_form_fixed_tail(out, 0);
        assert(norm_from(out, 0, false, false) == seq![out[0]] + norm_from(out, 1, true, false));
        assert(out =~= seq![out[0]] + out.subrange(1, out.len() as int));
    } else {
        assert(norm_from(out, 0, false, false) =~= seq![]);
    }
    assert(out.subrange(0, out.len() as int) =~= out);
    assert(normalize_ws(out) == out);
}

} // verus!
