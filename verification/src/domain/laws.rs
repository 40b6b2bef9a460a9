//! What the validators' issue lists say, issue by issue: which issue is
//! reported for which candidate, and how many duplicates are counted.
use vstd::prelude::*;

use crate::domain::types::{CandidateView, EndpointView, GroupView, IssueView, ModelView, ProtocolFamily};
use crate::domain::validate::{
    cand_field, candidate_issues, candidates_issues, duplicate_name_at, duplicate_protocol_at,
    duplicate_protocol_issues, enabled_endpoint_count, group_issues, issue, model_issues,
    timeout_out_of_range,
};
use crate::text::{decimal, digit_char, is_blank};

verus! {

/// Some issue of `issues` has this field and this code.
pub open spec fn has_issue(issues: Seq<IssueView>, field: Seq<char>, code: Seq<char>) -> bool {
    exists|k: int| 0 <= k < issues.len() && (#[trigger] issues[k]).field == field && issues[k].code == code
}

pub(crate) proof fn lemma_has_concat(a: Seq<IssueView>, b: Seq<IssueView>, f: Seq<char>, c: Seq<char>)
    ensures
        has_issue(a + b, f, c) <==> (has_issue(a, f, c) || has_issue(b, f, c)),
{
    if has_issue(a + b, f, c) {
        let k = choose|k: int| 0 <= k < (a + b).len() && (#[trigger] (a + b)[k]).field == f && (a + b)[k].code == c;
        if k < a.len() {
            assert(a[k] == (a + b)[k]);
        } else {
            assert(b[k - a.len()] == (a + b)[k]);
        }
    }
    if has_issue(a, f, c) {
        let k = choose|k: int| 0 <= k < a.len() && (#[trigger] a[k]).field == f && a[k].code == c;
        assert((a + b)[k] == a[k]);
    }
    if has_issue(b, f, c) {
        let k = choose|k: int| 0 <= k < b.len() && (#[trigger] b[k]).field == f && b[k].code == c;
        assert((a + b)[a.len() + k] == b[k]);
    }
}

pub(crate) proof fn lemma_has_when(x: bool, i: IssueView, f: Seq<char>, c: Seq<char>)
    ensures
        has_issue(crate::domain::validate::when(x, i), f, c) <==> (x && i.field == f && i.code == c),
{
    if x {
        assert(crate::domain::validate::when(x, i)[0] == i);
    }
}

proof fn lemma_digit_char_injective(a: nat, b: nat)
    requires
        a < 10,
        b < 10,
        digit_char(a) == digit_char(b),
    ensures
        a == b,
{
}

pub(crate) proof fn lemma_decimal_len(n: nat)
    ensures
        decimal(n).len() >= 1,
        n >= 10 ==> decimal(n).len() >= 2,
    decreases n,
{
    if n >= 10 {
        lemma_decimal_len(n / 10);
    }
}

/// Different numbers are written differently.
pub proof fn lemma_decimal_injective(a: nat, b: nat)
    requires
        decimal(a) == decimal(b),
    ensures
        a == b,
    decreases a,
{
    lemma_decimal_len(a);
    lemma_decimal_len(b);
    if a >= 10 && b >= 10 {
        let da = decimal(a);
        let db = decimal(b);
        assert(da.last() == digit_char(a % 10));
        assert(db.last() == digit_char(b % 10));
        lemma_digit_char_injective(a % 10, b % 10);
        assert(decimal(a / 10) =~= da.drop_last());
        assert(decimal(b / 10) =~= db.drop_last());
        lemma_decimal_injective(a / 10, b / 10);
    } else if a < 10 && b < 10 {
        assert(decimal(a)[0] == digit_char(a));
        assert(decimal(b)[0] == digit_char(b));
        lemma_digit_char_injective(a, b);
    }
}

pub(crate) proof fn lemma_cand_field_injective(i: int, j: int, suffix: Seq<char>)
    requires
        0 <= i,
        0 <= j,
        cand_field(i, suffix) == cand_field(j, suffix),
    ensures
        i == j,
{
    reveal_strlit("candidates[");
    let p = "candidates["@;
    let a = p + decimal(i as nat) + suffix;
    let b = p + decimal(j as nat) + suffix;
    assert(a.len() == b.len());
    assert(decimal(i as nat) =~= a.subrange(p.len() as int, a.len() - suffix.len()));
    assert(decimal(j as nat) =~= b.subrange(p.len() as int, b.len() - suffix.len()));
    lemma_decimal_injective(i as nat, j as nat);
}

pub(crate) proof fn lemma_protocol_issue_codes(
    eps: Seq<EndpointView>,
    k: int,
    prefix: Seq<char>,
    suffix: Seq<char>,
    root: Seq<char>,
    f: Seq<char>,
    c: Seq<char>,
)
    requires
        c != "duplicate_enabled_protocol"@,
    ensures
        !has_issue(duplicate_protocol_issues(eps, k, prefix, suffix, root), f, c),
    decreases k,
{
    if k > 0 {
        lemma_protocol_issue_codes(eps, k - 1, prefix, suffix, root, f, c);
        lemma_has_concat(
            duplicate_protocol_issues(eps, k - 1, prefix, suffix, root),
            crate::domain::validate::when(
                duplicate_protocol_at(eps, k - 1),
                issue(
                    prefix + decimal((k - 1) as nat) + suffix,
                    "duplicate_enabled_protocol"@,
                    root + " cannot contain duplicate enabled protocol_family"@,
                ),
            ),
            f,
            c,
        );
    }
}

/// The field of a candidate's timeout issue.
pub open spec fn timeout_field(i: int) -> Seq<char> {
    cand_field(i, "].response_protection_timeout_ms"@)
}

/// The field of a candidate's name issue.
pub open spec fn name_field(i: int) -> Seq<char> {
    cand_field(i, "].name"@)
}

/// Candidate `i` has a name, and an earlier candidate has the same trimmed
/// name.
pub open spec fn repeats_name(cs: Seq<CandidateView>, i: int) -> bool {
    !is_blank(cs[i].name) && duplicate_name_at(cs, i)
}

proof fn lemma_codes_differ()
    ensures
        "out_of_range"@ != "duplicate_enabled_protocol"@,
        "duplicate_candidate_name"@ != "duplicate_enabled_protocol"@,
        "out_of_range"@ != "duplicate_candidate_name"@,
        "out_of_range"@ != "required"@,
        "duplicate_candidate_name"@ != "required"@,
        "out_of_range"@ != "missing_candidates"@,
        "duplicate_candidate_name"@ != "missing_candidates"@,
        "out_of_range"@ != "too_many_candidates"@,
        "duplicate_candidate_name"@ != "too_many_candidates"@,
        "out_of_range"@ != "missing_enabled_candidate"@,
        "duplicate_candidate_name"@ != "missing_enabled_candidate"@,
{
    reveal_strlit("out_of_range");
    reveal_strlit("duplicate_candidate_name");
    reveal_strlit("duplicate_enabled_protocol");
    reveal_strlit("required");
    reveal_strlit("missing_candidates");
    reveal_strlit("too_many_candidates");
    reveal_strlit("missing_enabled_candidate");
    assert("out_of_range"@[0] != "duplicate_enabled_protocol"@[0]);
    assert("duplicate_candidate_name"@[10] != "duplicate_enabled_protocol"@[10]);
    assert("out_of_range"@[0] != "duplicate_candidate_name"@[0]);
    assert("out_of_range"@[0] != "required"@[0]);
    assert("duplicate_candidate_name"@[0] != "required"@[0]);
    assert("out_of_range"@[0] != "missing_candidates"@[0]);
    assert("duplicate_candidate_name"@[0] != "missing_candidates"@[0]);
    assert("out_of_range"@[0] != "too_many_candidates"@[0]);
    assert("duplicate_candidate_name"@[0] != "too_many_candidates"@[0]);
    assert("out_of_range"@[0] != "missing_enabled_candidate"@[0]);
    assert("duplicate_candidate_name"@[0] != "missing_enabled_candidate"@[0]);
}

pub(crate) proof fn lemma_split5(
    a: Seq<IssueView>,
    b: Seq<IssueView>,
    d: Seq<IssueView>,
    e: Seq<IssueView>,
    p: Seq<IssueView>,
    f: Seq<char>,
    c: Seq<char>,
)
    ensures
        has_issue(a + b + d + e + p, f, c) <==> (has_issue(a, f, c) || has_issue(b, f, c) || has_issue(
            d,
            f,
            c,
        ) || has_issue(e, f, c) || has_issue(p, f, c)),
{
    lemma_has_concat(a + b + d + e, p, f, c);
    lemma_has_concat(a + b + d, e, f, c);
    lemma_has_concat(a + b, d, f, c);
    lemma_has_concat(a, b, f, c);
}

proof fn lemma_candidate_has(cs: Seq<CandidateView>, k: int, i: int)
    requires
        0 <= k < cs.len(),
        0 <= i,
    ensures
        has_issue(candidate_issues(cs, k), timeout_field(i), "out_of_range"@) <==> (k == i
            && timeout_out_of_range(cs[k])),
        has_issue(candidate_issues(cs, k), name_field(i), "duplicate_candidate_name"@) <==> (k == i
            && repeats_name(cs, k)),
{
    lemma_codes_differ();
    let c = cs[k];
    let a = crate::domain::validate::when(
        is_blank(c.id),
        issue(cand_field(k, "].id"@), "required"@, "candidate id cannot be empty"@),
    );
    let b = if is_blank(c.name) {
        seq![issue(cand_field(k, "].name"@), "required"@, "candidate name cannot be empty"@)]
    } else {
        crate::domain::validate::when(
            duplicate_name_at(cs, k),
            issue(
                cand_field(k, "].name"@),
                "duplicate_candidate_name"@,
                "candidate name must be unique inside the group"@,
            ),
        )
    };
    let d = crate::domain::validate::when(
        crate::domain::validate::lacks_model_source(c),
        issue(
            cand_field(k, "].upstream_model"@),
            "required"@,
            "candidate must provide upstream_model or model_id"@,
        ),
    );
    let e = crate::domain::validate::when(
        timeout_out_of_range(c),
        issue(
            cand_field(k, "].response_protection_timeout_ms"@),
            "out_of_range"@,
            "response_protection_timeout_ms must be between 1000 and 120000"@,
        ),
    );
    let p = duplicate_protocol_issues(
        c.inline_endpoint_overrides,
        c.inline_endpoint_overrides.len() as int,
        cand_field(k, "].inline_endpoint_overrides["@),
        "].protocol_family"@,
        cand_field(k, "].inline_endpoint_overrides"@),
    );
    assert(candidate_issues(cs, k) == a + b + d + e + p);
    lemma_split5(a, b, d, e, p, timeout_field(i), "out_of_range"@);
    lemma_split5(a, b, d, e, p, name_field(i), "duplicate_candidate_name"@);
    lemma_protocol_issue_codes(
        c.inline_endpoint_overrides,
        c.inline_endpoint_overrides.len() as int,
        cand_field(k, "].inline_endpoint_overrides["@),
        "].protocol_family"@,
        cand_field(k, "].inline_endpoint_overrides"@),
        timeout_field(i),
        "out_of_range"@,
    );
    lemma_protocol_issue_codes(
        c.inline_endpoint_overrides,
        c.inline_endpoint_overrides.len() as int,
        cand_field(k, "].inline_endpoint_overrides["@),
        "].protocol_family"@,
        cand_field(k, "].inline_endpoint_overrides"@),
        name_field(i),
        "duplicate_candidate_name"@,
    );
    lemma_has_when(is_blank(c.id), issue(cand_field(k, "].id"@), "required"@, "candidate id cannot be empty"@), timeout_field(i), "out_of_range"@);
    lemma_has_when(is_blank(c.id), issue(cand_field(k, "].id"@), "required"@, "candidate id cannot be empty"@), name_field(i), "duplicate_candidate_name"@);
    lemma_has_when(
        crate::domain::validate::lacks_model_source(c),
        issue(cand_field(k, "].upstream_model"@), "required"@, "candidate must provide upstream_model or model_id"@),
        timeout_field(i),
        "out_of_range"@,
    );
    lemma_has_when(
        crate::domain::validate::lacks_model_source(c),
        issue(cand_field(k, "].upstream_model"@), "required"@, "candidate must provide upstream_model or model_id"@),
        name_field(i),
        "duplicate_candidate_name"@,
    );
    lemma_has_when(
        timeout_out_of_range(c),
        issue(
            cand_field(k, "].response_protection_timeout_ms"@),
            "out_of_range"@,
            "response_protection_timeout_ms must be between 1000 and 120000"@,
        ),
        timeout_field(i),
        "out_of_range"@,
    );
    lemma_has_when(
        timeout_out_of_range(c),
        issue(
            cand_field(k, "].response_protection_timeout_ms"@),
            "out_of_range"@,
            "response_protection_timeout_ms must be between 1000 and 120000"@,
        ),
        name_field(i),
        "duplicate_candidate_name"@,
    );
    if is_blank(c.name) {
        assert(b[0].code == "required"@);
        assert(!has_issue(b, timeout_field(i), "out_of_range"@));
        assert(!has_issue(b, name_field(i), "duplicate_candidate_name"@));
    } else {
        lemma_has_when(
            duplicate_name_at(cs, k),
            issue(
                cand_field(k, "].name"@),
                "duplicate_candidate_name"@,
                "candidate name must be unique inside the group"@,
            ),
            timeout_field(i),
            "out_of_range"@,
        );
        lemma_has_when(
            duplicate_name_at(cs, k),
            issue(
                cand_field(k, "].name"@),
                "duplicate_candidate_name"@,
                "candidate name must be unique inside the group"@,
            ),
            name_field(i),
            "duplicate_candidate_name"@,
        );
    }
    if cand_field(k, "].response_protection_timeout_ms"@) == timeout_field(i) {
        lemma_cand_field_injective(k, i, "].response_protection_timeout_ms"@);
    }
    if cand_field(k, "].name"@) == name_field(i) {
        lemma_cand_field_injective(k, i, "].name"@);
    }
}

proof fn lemma_candidates_has(cs: Seq<CandidateView>, n: int, i: int)
    requires
        0 <= n <= cs.len(),
        0 <= i,
    ensures
        has_issue(candidates_issues(cs, n), timeout_field(i), "out_of_range"@) <==> (i < n
            && timeout_out_of_range(cs[i])),
        has_issue(candidates_issues(cs, n), name_field(i), "duplicate_candidate_name"@) <==> (i < n
            && repeats_name(cs, i)),
    decreases n,
{
    if n > 0 {
        lemma_candidates_has(cs, n - 1, i);
        lemma_candidate_has(cs, n - 1, i);
        lemma_has_concat(candidates_issues(cs, n - 1), candidate_issues(cs, n - 1), timeout_field(i), "out_of_range"@);
        lemma_has_concat(
            candidates_issues(cs, n - 1),
            candidate_issues(cs, n - 1),
            name_field(i),
            "duplicate_candidate_name"@,
        );
    }
}

/// Of a group's issues (what `validate_group` reports), candidate `i` has an
/// `out_of_range` issue on its response-protection timeout exactly when the
/// timeout lies outside 1000..=120000 ms, and a `duplicate_candidate_name`
/// issue on its name exactly when its trimmed name is not blank and an
/// earlier candidate has the same trimmed name; whether candidates are
/// enabled plays no part in either.
pub proof fn law_group_candidate_issues(g: GroupView, i: int)
    requires
        0 <= i < g.candidates.len(),
    ensures
        has_issue(group_issues(g), timeout_field(i), "out_of_range"@) <==> timeout_out_of_range(
            g.candidates[i],
        ),
        has_issue(group_issues(g), name_field(i), "duplicate_candidate_name"@) <==> repeats_name(
            g.candidates,
            i,
        ),
{
    lemma_codes_differ();
    let cs = g.candidates;
    lemma_candidates_has(cs, cs.len() as int, i);
    let ci = candidates_issues(cs, cs.len() as int);
    let w1 = crate::domain::validate::when(is_blank(g.id), issue("id"@, "required"@, "group id cannot be empty"@));
    let w2 = crate::domain::validate::when(
        is_blank(g.display_name),
        issue("display_name"@, "required"@, "display_name cannot be empty"@),
    );
    let w3 = crate::domain::validate::when(
        g.candidates.len() == 0,
        issue("candidates"@, "missing_candidates"@, "at least one candidate is required"@),
    );
    let w4 = crate::domain::validate::when(
        g.candidates.len() > crate::domain::validate::MAX_CANDIDATES_PER_GROUP,
        issue("candidates"@, "too_many_candidates"@, "a group can contain at most 8 candidates"@),
    );
    let w5 = crate::domain::validate::when(
        crate::domain::validate::enabled_candidate_count(g.candidates) == 0,
        issue("candidates"@, "missing_enabled_candidate"@, "at least one enabled candidate is required"@),
    );
    assert(group_issues(g) == w1 + w2 + w3 + w4 + w5 + ci);
    lemma_has_concat(w1 + w2 + w3 + w4 + w5, ci, timeout_field(i), "out_of_range"@);
    lemma_has_concat(w1 + w2 + w3 + w4 + w5, ci, name_field(i), "duplicate_candidate_name"@);
    lemma_split5(w1, w2, w3, w4, w5, timeout_field(i), "out_of_range"@);
    lemma_split5(w1, w2, w3, w4, w5, name_field(i), "duplicate_candidate_name"@);
    lemma_has_when(is_blank(g.id), issue("id"@, "required"@, "group id cannot be empty"@), timeout_field(i), "out_of_range"@);
    lemma_has_when(is_blank(g.id), issue("id"@, "required"@, "group id cannot be empty"@), name_field(i), "duplicate_candidate_name"@);
    lemma_has_when(is_blank(g.display_name), issue("display_name"@, "required"@, "display_name cannot be empty"@), timeout_field(i), "out_of_range"@);
    lemma_has_when(is_blank(g.display_name), issue("display_name"@, "required"@, "display_name cannot be empty"@), name_field(i), "duplicate_candidate_name"@);
    lemma_has_when(g.candidates.len() == 0, issue("candidates"@, "missing_candidates"@, "at least one candidate is required"@), timeout_field(i), "out_of_range"@);
    lemma_has_when(g.candidates.len() == 0, issue("candidates"@, "missing_candidates"@, "at least one candidate is required"@), name_field(i), "duplicate_candidate_name"@);
    lemma_has_when(
        g.candidates.len() > crate::domain::validate::MAX_CANDIDATES_PER_GROUP,
        issue("candidates"@, "too_many_candidates"@, "a group can contain at most 8 candidates"@),
        timeout_field(i),
        "out_of_range"@,
    );
    lemma_has_when(
        g.candidates.len() > crate::domain::validate::MAX_CANDIDATES_PER_GROUP,
        issue("candidates"@, "too_many_candidates"@, "a group can contain at most 8 candidates"@),
        name_field(i),
        "duplicate_candidate_name"@,
    );
    lemma_has_when(
        crate::domain::validate::enabled_candidate_count(g.candidates) == 0,
        issue("candidates"@, "missing_enabled_candidate"@, "at least one enabled candidate is required"@),
        timeout_field(i),
        "out_of_range"@,
    );
    lemma_has_when(
        crate::domain::validate::enabled_candidate_count(g.candidates) == 0,
        issue("candidates"@, "missing_enabled_candidate"@, "at least one enabled candidate is required"@),
        name_field(i),
        "duplicate_candidate_name"@,
    );
}


// ---------------------------------------------------------------------------
// Model descriptors
// ---------------------------------------------------------------------------

/// Some issue of `issues` has this field.
pub open spec fn has_field(issues: Seq<IssueView>, field: Seq<char>) -> bool {
    exists|k: int| 0 <= k < issues.len() && (#[trigger] issues[k]).field == field
}

/// Some issue of `issues` has this code.
pub open spec fn has_code(issues: Seq<IssueView>, code: Seq<char>) -> bool {
    exists|k: int| 0 <= k < issues.len() && (#[trigger] issues[k]).code == code
}

/// The number of issues of `issues` with this code.
pub open spec fn code_count(issues: Seq<IssueView>, code: Seq<char>) -> nat
    decreases issues.len(),
{
    if issues.len() == 0 {
        0
    } else {
        code_count(issues.drop_last(), code) + if issues.last().code == code {
            1nat
        } else {
            0nat
        }
    }
}

/// The protocol families of the enabled endpoints.
pub open spec fn enabled_protocols(eps: Seq<EndpointView>) -> Set<ProtocolFamily>
    decreases eps.len(),
{
    if eps.len() == 0 {
        Set::empty()
    } else if eps.last().enabled {
        enabled_protocols(eps.drop_last()).insert(eps.last().protocol_family)
    } else {
        enabled_protocols(eps.drop_last())
    }
}

/// The field of endpoint `i`'s protocol issue.
pub open spec fn protocol_field(i: int) -> Seq<char> {
    "endpoints["@ + decimal(i as nat) + "].protocol_family"@
}

proof fn lemma_concat_facts(a: Seq<IssueView>, b: Seq<IssueView>, f: Seq<char>, c: Seq<char>)
    ensures
        has_field(a + b, f) <==> (has_field(a, f) || has_field(b, f)),
        has_code(a + b, c) <==> (has_code(a, c) || has_code(b, c)),
        code_count(a + b, c) == code_count(a, c) + code_count(b, c),
    decreases b.len(),
{
    if has_field(a + b, f) {
        let k = choose|k: int| 0 <= k < (a + b).len() && (#[trigger] (a + b)[k]).field == f;
        if k < a.len() {
            assert(a[k] == (a + b)[k]);
        } else {
            assert(b[k - a.len()] == (a + b)[k]);
        }
    }
    if has_field(a, f) {
        let k = choose|k: int| 0 <= k < a.len() && (#[trigger] a[k]).field == f;
        assert((a + b)[k] == a[k]);
    }
    if has_field(b, f) {
        let k = choose|k: int| 0 <= k < b.len() && (#[trigger] b[k]).field == f;
        assert((a + b)[a.len() + k] == b[k]);
    }
    if has_code(a + b, c) {
        let k = choose|k: int| 0 <= k < (a + b).len() && (#[trigger] (a + b)[k]).code == c;
        if k < a.len() {
            assert(a[k] == (a + b)[k]);
        } else {
            assert(b[k - a.len()] == (a + b)[k]);
        }
    }
    if has_code(a, c) {
        let k = choose|k: int| 0 <= k < a.len() && (#[trigger] a[k]).code == c;
        assert((a + b)[k] == a[k]);
    }
    if has_code(b, c) {
        let k = choose|k: int| 0 <= k < b.len() && (#[trigger] b[k]).code == c;
        assert((a + b)[a.len() + k] == b[k]);
    }
    if b.len() == 0 {
        assert(a + b =~= a);
    } else {
        lemma_concat_facts(a, b.drop_last(), f, c);
        assert((a + b).drop_last() =~= a + b.drop_last());
    }
}

proof fn lemma_when_facts(x: bool, i: IssueView, f: Seq<char>, c: Seq<char>)
    ensures
        has_field(crate::domain::validate::when(x, i), f) <==> (x && i.field == f),
        has_code(crate::domain::validate::when(x, i), c) <==> (x && i.code == c),
        code_count(crate::domain::validate::when(x, i), c) == if x && i.code == c {
            1nat
        } else {
            0nat
        },
{
    let w = crate::domain::validate::when(x, i);
    if x {
        assert(w[0] == i);
        assert(w.drop_last() =~= Seq::<IssueView>::empty());
        assert(code_count(w.drop_last(), c) == 0);
        assert(w.last() == i);
    } else {
        assert(w.len() == 0);
    }
}

proof fn lemma_indexed_field_injective(p: Seq<char>, i: int, j: int, suffix: Seq<char>)
    requires
        0 <= i,
        0 <= j,
        p + decimal(i as nat) + suffix == p + decimal(j as nat) + suffix,
    ensures
        i == j,
{
    let a = p + decimal(i as nat) + suffix;
    let b = p + decimal(j as nat) + suffix;
    assert(decimal(i as nat) =~= a.subrange(p.len() as int, a.len() - suffix.len()));
    assert(decimal(j as nat) =~= b.subrange(p.len() as int, b.len() - suffix.len()));
    lemma_decimal_injective(i as nat, j as nat);
}

/// The duplicate-protocol issues of the first `k` endpoints: each has the
/// code `duplicate_enabled_protocol`, their fields are those of the
/// duplicates, and their number is the enabled endpoints less the protocol
/// families they cover.
proof fn lemma_protocol_issues(eps: Seq<EndpointView>, k: int, i: int)
    requires
        0 <= k <= eps.len(),
        0 <= i,
    ensures
        enabled_protocols(eps.take(k)).finite(),
        enabled_protocols(eps.take(k)).len() <= enabled_endpoint_count(eps.take(k)),
        code_count(
            duplicate_protocol_issues(eps, k, "endpoints["@, "].protocol_family"@, "endpoints"@),
            "duplicate_enabled_protocol"@,
        ) == enabled_endpoint_count(eps.take(k)) - enabled_protocols(eps.take(k)).len(),
        duplicate_protocol_issues(eps, k, "endpoints["@, "].protocol_family"@, "endpoints"@).len()
            == code_count(
            duplicate_protocol_issues(eps, k, "endpoints["@, "].protocol_family"@, "endpoints"@),
            "duplicate_enabled_protocol"@,
        ),
        has_issue(
            duplicate_protocol_issues(eps, k, "endpoints["@, "].protocol_family"@, "endpoints"@),
            protocol_field(i),
            "duplicate_enabled_protocol"@,
        ) <==> (i < k && duplicate_protocol_at(eps, i)),
        forall|f: Seq<char>|
            #![trigger has_field(duplicate_protocol_issues(eps, k, "endpoints["@, "].protocol_family"@, "endpoints"@), f)]
            has_field(duplicate_protocol_issues(eps, k, "endpoints["@, "].protocol_family"@, "endpoints"@), f)
                ==> f.len() > 0 && f[0] == 'e',
        forall|k2: int| 0 <= k2 < k ==> (eps[k2].enabled && enabled_protocols(eps.take(k)).contains(eps[k2].protocol_family)) || !eps[k2].enabled,
        forall|pf: ProtocolFamily| enabled_protocols(eps.take(k)).contains(pf) <==> exists|j: int|
            0 <= j < k && eps[j].enabled && #[trigger] eps[j].protocol_family == pf,
    decreases k,
{
    reveal_strlit("endpoints[");
    let pre = "endpoints["@;
    let suf = "].protocol_family"@;
    let root = "endpoints"@;
    let d = duplicate_protocol_issues(eps, k, pre, suf, root);
    if k == 0 {
        assert(eps.take(0) =~= Seq::<EndpointView>::empty());
    } else {
        lemma_protocol_issues(eps, k - 1, i);
        assert(eps.take(k).drop_last() =~= eps.take(k - 1));
        let prev = duplicate_protocol_issues(eps, k - 1, pre, suf, root);
        let it = issue(
            pre + decimal((k - 1) as nat) + suf,
            "duplicate_enabled_protocol"@,
            root + " cannot contain duplicate enabled protocol_family"@,
        );
        let w = crate::domain::validate::when(duplicate_protocol_at(eps, k - 1), it);
        assert(d == prev + w);
        lemma_concat_facts(prev, w, protocol_field(i), "duplicate_enabled_protocol"@);
        lemma_when_facts(duplicate_protocol_at(eps, k - 1), it, protocol_field(i), "duplicate_enabled_protocol"@);
        lemma_has_concat(prev, w, protocol_field(i), "duplicate_enabled_protocol"@);
        lemma_has_when(duplicate_protocol_at(eps, k - 1), it, protocol_field(i), "duplicate_enabled_protocol"@);
        if protocol_field(i) == pre + decimal((k - 1) as nat) + suf {
            lemma_indexed_field_injective(pre, i, k - 1, suf);
        }
        assert forall|f: Seq<char>| has_field(d, f) implies f.len() > 0 && f[0] == 'e' by {
            lemma_concat_facts(prev, w, f, "duplicate_enabled_protocol"@);
            lemma_when_facts(duplicate_protocol_at(eps, k - 1), it, f, "duplicate_enabled_protocol"@);
            if w.len() > 0 && f == it.field {
                assert(f[0] == pre[0]);
            }
        }
        let sp = enabled_protocols(eps.take(k - 1));
        let last = eps[k - 1];
        assert(eps.take(k).last() == last);
        if last.enabled {
            if sp.contains(last.protocol_family) {
                let j = choose|j: int| 0 <= j < k - 1 && eps[j].enabled && #[trigger] eps[j].protocol_family == last.protocol_family;
                assert(duplicate_protocol_at(eps, k - 1));
                assert(sp.insert(last.protocol_family) =~= sp);
            } else {
                assert(!duplicate_protocol_at(eps, k - 1)) by {
                    if duplicate_protocol_at(eps, k - 1) {
                        let j = choose|j: int| 0 <= j < k - 1 && eps[j].enabled && eps[j].protocol_family == eps[k - 1].protocol_family;
                        assert(eps[j].protocol_family == last.protocol_family);
                    }
                }
            }
        }
        assert forall|pf: ProtocolFamily| enabled_protocols(eps.take(k)).contains(pf) <==> exists|j: int|
            0 <= j < k && eps[j].enabled && #[trigger] eps[j].protocol_family == pf by {
            if enabled_protocols(eps.take(k)).contains(pf) && !sp.contains(pf) {
                assert(eps[k - 1].enabled && eps[k - 1].protocol_family == pf);
            }
            if exists|j: int| 0 <= j < k && eps[j].enabled && #[trigger] eps[j].protocol_family == pf {
                let j = choose|j: int| 0 <= j < k && eps[j].enabled && #[trigger] eps[j].protocol_family == pf;
                if j < k - 1 {
                    assert(sp.contains(pf));
                }
            }
        }
    }
}

/// Of a model descriptor's issues (what `validate_model_descriptor`
/// reports): the id, display name and upstream model each have an issue
/// exactly when they are blank; `missing_enabled_endpoint` is reported
/// exactly when no endpoint is enabled; endpoint `i` has a
/// `duplicate_enabled_protocol` issue exactly when it is enabled and an
/// earlier enabled endpoint has its protocol family (so a disabled endpoint
/// never does); and the number of such issues is the number of enabled
/// endpoints less the number of protocol families they cover.
pub proof fn law_model_descriptor_issues(m: ModelView, i: int)
    requires
        0 <= i,
    ensures
        has_field(model_issues(m), "id"@) <==> is_blank(m.id),
        has_field(model_issues(m), "display_name"@) <==> is_blank(m.display_name),
        has_field(model_issues(m), "upstream_model"@) <==> is_blank(m.upstream_model),
        has_code(model_issues(m), "missing_enabled_endpoint"@) <==> enabled_endpoint_count(m.endpoints) == 0,
        has_issue(model_issues(m), protocol_field(i), "duplicate_enabled_protocol"@) <==> (i < m.endpoints.len()
            && duplicate_protocol_at(m.endpoints, i)),
        !(i < m.endpoints.len() && m.endpoints[i].enabled) ==> !has_issue(
            model_issues(m),
            protocol_field(i),
            "duplicate_enabled_protocol"@,
        ),
        code_count(model_issues(m), "duplicate_enabled_protocol"@) == enabled_endpoint_count(m.endpoints)
            - enabled_protocols(m.endpoints).len(),
{
    reveal_strlit("id");
    reveal_strlit("display_name");
    reveal_strlit("upstream_model");
    reveal_strlit("endpoints");
    reveal_strlit("required");
    reveal_strlit("missing_enabled_endpoint");
    reveal_strlit("duplicate_enabled_protocol");
    let eps = m.endpoints;
    let n = eps.len() as int;
    lemma_protocol_issues(eps, n, i);
    assert(eps.take(n) =~= eps);
    let w1 = crate::domain::validate::when(is_blank(m.id), issue("id"@, "required"@, "model id cannot be empty"@));
    let w2 = crate::domain::validate::when(
        is_blank(m.display_name),
        issue("display_name"@, "required"@, "display_name cannot be empty"@),
    );
    let w3 = crate::domain::validate::when(
        is_blank(m.upstream_model),
        issue("upstream_model"@, "required"@, "upstream_model cannot be empty"@),
    );
    let w4 = crate::domain::validate::when(
        enabled_endpoint_count(m.endpoints) == 0,
        issue("endpoints"@, "missing_enabled_endpoint"@, "at least one enabled endpoint is required"@),
    );
    let d = duplicate_protocol_issues(eps, n, "endpoints["@, "].protocol_family"@, "endpoints"@);
    assert(model_issues(m) == w1 + w2 + w3 + w4 + d);
    assert("missing_enabled_endpoint"@[0] != "duplicate_enabled_protocol"@[0]);
    assert("required"@[0] != "duplicate_enabled_protocol"@[0]);
    assert("required"@[0] != "missing_enabled_endpoint"@[0]);
    assert("id"@[0] != "display_name"@[0] && "id"@[0] != "upstream_model"@[0] && "id"@[0] != "endpoints"@[0]);
    assert("display_name"@[0] != "upstream_model"@[0] && "display_name"@[0] != "endpoints"@[0]);
    assert("upstream_model"@[0] != "endpoints"@[0]);
    let fs = seq!["id"@, "display_name"@, "upstream_model"@];
    assert forall|t: int| 0 <= t < 3 implies (has_field(model_issues(m), #[trigger] fs[t]) <==> (has_field(w1, fs[t])
        || has_field(w2, fs[t]) || has_field(w3, fs[t]))) by {
        lemma_concat_facts(w1 + w2 + w3 + w4, d, fs[t], "missing_enabled_endpoint"@);
        lemma_concat_facts(w1 + w2 + w3, w4, fs[t], "missing_enabled_endpoint"@);
        lemma_concat_facts(w1 + w2, w3, fs[t], "missing_enabled_endpoint"@);
        lemma_concat_facts(w1, w2, fs[t], "missing_enabled_endpoint"@);
        lemma_when_facts(enabled_endpoint_count(m.endpoints) == 0, issue("endpoints"@, "missing_enabled_endpoint"@, "at least one enabled endpoint is required"@), fs[t], "missing_enabled_endpoint"@);
        if has_field(d, fs[t]) {
            assert(fs[t][0] == 'e');
        }
    }
    assert(fs[0] == "id"@ && fs[1] == "display_name"@ && fs[2] == "upstream_model"@);
    let c = "duplicate_enabled_protocol"@;
    lemma_concat_facts(w1 + w2 + w3 + w4, d, "id"@, c);
    lemma_concat_facts(w1 + w2 + w3, w4, "id"@, c);
    lemma_concat_facts(w1 + w2, w3, "id"@, c);
    lemma_concat_facts(w1, w2, "id"@, c);
    lemma_when_facts(is_blank(m.id), issue("id"@, "required"@, "model id cannot be empty"@), "id"@, c);
    lemma_when_facts(is_blank(m.display_name), issue("display_name"@, "required"@, "display_name cannot be empty"@), "display_name"@, c);
    lemma_when_facts(is_blank(m.upstream_model), issue("upstream_model"@, "required"@, "upstream_model cannot be empty"@), "upstream_model"@, c);
    lemma_when_facts(is_blank(m.id), issue("id"@, "required"@, "model id cannot be empty"@), "display_name"@, c);
    lemma_when_facts(is_blank(m.id), issue("id"@, "required"@, "model id cannot be empty"@), "upstream_model"@, c);
    lemma_when_facts(is_blank(m.display_name), issue("display_name"@, "required"@, "display_name cannot be empty"@), "id"@, c);
    lemma_when_facts(is_blank(m.display_name), issue("display_name"@, "required"@, "display_name cannot be empty"@), "upstream_model"@, c);
    lemma_when_facts(is_blank(m.upstream_model), issue("upstream_model"@, "required"@, "upstream_model cannot be empty"@), "id"@, c);
    lemma_when_facts(is_blank(m.upstream_model), issue("upstream_model"@, "required"@, "upstream_model cannot be empty"@), "display_name"@, c);
    lemma_when_facts(enabled_endpoint_count(m.endpoints) == 0, issue("endpoints"@, "missing_enabled_endpoint"@, "at least one enabled endpoint is required"@), "id"@, c);
    let e = "missing_enabled_endpoint"@;
    lemma_concat_facts(w1 + w2 + w3 + w4, d, "id"@, e);
    lemma_concat_facts(w1 + w2 + w3, w4, "id"@, e);
    lemma_concat_facts(w1 + w2, w3, "id"@, e);
    lemma_concat_facts(w1, w2, "id"@, e);
    lemma_when_facts(is_blank(m.id), issue("id"@, "required"@, "model id cannot be empty"@), "id"@, e);
    lemma_when_facts(is_blank(m.display_name), issue("display_name"@, "required"@, "display_name cannot be empty"@), "id"@, e);
    lemma_when_facts(is_blank(m.upstream_model), issue("upstream_model"@, "required"@, "upstream_model cannot be empty"@), "id"@, e);
    lemma_when_facts(enabled_endpoint_count(m.endpoints) == 0, issue("endpoints"@, "missing_enabled_endpoint"@, "at least one enabled endpoint is required"@), "id"@, e);
    if has_code(d, e) {
        let k = choose|k: int| 0 <= k < d.len() && (#[trigger] d[k]).code == e;
        assert(code_count(d, c) == d.len());
        lemma_all_code(d, c, k);
    }
    let pf = protocol_field(i);
    lemma_split5(w1, w2, w3, w4, d, pf, c);
    lemma_has_when(is_blank(m.id), issue("id"@, "required"@, "model id cannot be empty"@), pf, c);
    lemma_has_when(is_blank(m.display_name), issue("display_name"@, "required"@, "display_name cannot be empty"@), pf, c);
    lemma_has_when(is_blank(m.upstream_model), issue("upstream_model"@, "required"@, "upstream_model cannot be empty"@), pf, c);
    lemma_has_when(enabled_endpoint_count(m.endpoints) == 0, issue("endpoints"@, "missing_enabled_endpoint"@, "at least one enabled endpoint is required"@), pf, c);
}

/// When every issue of `d` is counted under `c`, issue `k` has code `c`.
proof fn lemma_all_code(d: Seq<IssueView>, c: Seq<char>, k: int)
    requires
        code_count(d, c) == d.len(),
        0 <= k < d.len(),
    ensures
        d[k].code == c,
    decreases d.len(),
{
    lemma_code_count_le(d.drop_last(), c);
    if k < d.len() - 1 {
        assert(d.drop_last()[k] == d[k]);
        lemma_all_code(d.drop_last(), c, k);
    }
}

proof fn lemma_code_count_le(d: Seq<IssueView>, c: Seq<char>)
    ensures
        code_count(d, c) <= d.len(),
    decreases d.len(),
{
    if d.len() > 0 {
        lemma_code_count_le(d.drop_last(), c);
    }
}


// ---------------------------------------------------------------------------
// A group's own checks
// ---------------------------------------------------------------------------

proof fn lemma_protocol_issue_shape(
    eps: Seq<EndpointView>,
    k: int,
    prefix: Seq<char>,
    suffix: Seq<char>,
    root: Seq<char>,
    f: Seq<char>,
    c: Seq<char>,
)
    requires
        prefix.len() > 0,
    ensures
        (f.len() == 0 || f[0] != prefix[0]) ==> !has_field(duplicate_protocol_issues(eps, k, prefix, suffix, root), f),
        c != "duplicate_enabled_protocol"@ ==> !has_code(duplicate_protocol_issues(eps, k, prefix, suffix, root), c),
    decreases k,
{
    if k > 0 {
        lemma_protocol_issue_shape(eps, k - 1, prefix, suffix, root, f, c);
        let it = issue(
            prefix + decimal((k - 1) as nat) + suffix,
            "duplicate_enabled_protocol"@,
            root + " cannot contain duplicate enabled protocol_family"@,
        );
        let w = crate::domain::validate::when(duplicate_protocol_at(eps, k - 1), it);
        lemma_concat_facts(duplicate_protocol_issues(eps, k - 1, prefix, suffix, root), w, f, c);
        lemma_when_facts(duplicate_protocol_at(eps, k - 1), it, f, c);
        assert(it.field[0] == prefix[0]);
    }
}

/// A field or code that no candidate issue carries.
spec fn outside_candidates(f: Seq<char>, c: Seq<char>) -> bool {
    &&& f.len() == 0 || f[0] != 'c'
    &&& c != "required"@ && c != "duplicate_candidate_name"@ && c != "out_of_range"@ && c
        != "duplicate_enabled_protocol"@
}

proof fn lemma_candidate_shape(cs: Seq<CandidateView>, k: int, f: Seq<char>, c: Seq<char>)
    requires
        0 <= k < cs.len(),
        outside_candidates(f, c),
    ensures
        !has_field(candidate_issues(cs, k), f),
        !has_code(candidate_issues(cs, k), c),
{
    reveal_strlit("candidates[");
    let cd = cs[k];
    let ia = issue(cand_field(k, "].id"@), "required"@, "candidate id cannot be empty"@);
    let a = crate::domain::validate::when(is_blank(cd.id), ia);
    let bi = issue(cand_field(k, "].name"@), "required"@, "candidate name cannot be empty"@);
    let bd = issue(
        cand_field(k, "].name"@),
        "duplicate_candidate_name"@,
        "candidate name must be unique inside the group"@,
    );
    let b = if is_blank(cd.name) {
        seq![bi]
    } else {
        crate::domain::validate::when(duplicate_name_at(cs, k), bd)
    };
    let di = issue(
        cand_field(k, "].upstream_model"@),
        "required"@,
        "candidate must provide upstream_model or model_id"@,
    );
    let d = crate::domain::validate::when(crate::domain::validate::lacks_model_source(cd), di);
    let ei = issue(
        cand_field(k, "].response_protection_timeout_ms"@),
        "out_of_range"@,
        "response_protection_timeout_ms must be between 1000 and 120000"@,
    );
    let e = crate::domain::validate::when(timeout_out_of_range(cd), ei);
    let pre = cand_field(k, "].inline_endpoint_overrides["@);
    let pp = duplicate_protocol_issues(
        cd.inline_endpoint_overrides,
        cd.inline_endpoint_overrides.len() as int,
        pre,
        "].protocol_family"@,
        cand_field(k, "].inline_endpoint_overrides"@),
    );
    assert(candidate_issues(cs, k) == a + b + d + e + pp);
    lemma_concat_facts(a + b + d + e, pp, f, c);
    lemma_concat_facts(a + b + d, e, f, c);
    lemma_concat_facts(a + b, d, f, c);
    lemma_concat_facts(a, b, f, c);
    lemma_when_facts(is_blank(cd.id), ia, f, c);
    if is_blank(cd.name) {
        lemma_when_facts(true, bi, f, c);
        assert(crate::domain::validate::when(true, bi) == b);
    } else {
        lemma_when_facts(duplicate_name_at(cs, k), bd, f, c);
    }
    lemma_when_facts(crate::domain::validate::lacks_model_source(cd), di, f, c);
    lemma_when_facts(timeout_out_of_range(cd), ei, f, c);
    assert(pre[0] == 'c');
    lemma_protocol_issue_shape(
        cd.inline_endpoint_overrides,
        cd.inline_endpoint_overrides.len() as int,
        pre,
        "].protocol_family"@,
        cand_field(k, "].inline_endpoint_overrides"@),
        f,
        c,
    );
    assert(ia.field[0] == 'c' && bi.field[0] == 'c' && di.field[0] == 'c' && ei.field[0] == 'c');
}

proof fn lemma_candidates_shape(cs: Seq<CandidateView>, n: int, f: Seq<char>, c: Seq<char>)
    requires
        0 <= n <= cs.len(),
        outside_candidates(f, c),
    ensures
        !has_field(candidates_issues(cs, n), f),
        !has_code(candidates_issues(cs, n), c),
    decreases n,
{
    if n > 0 {
        lemma_candidates_shape(cs, n - 1, f, c);
        lemma_candidate_shape(cs, n - 1, f, c);
        lemma_concat_facts(candidates_issues(cs, n - 1), candidate_issues(cs, n - 1), f, c);
    }
}

proof fn lemma_enabled_count_zero(cs: Seq<CandidateView>)
    ensures
        crate::domain::validate::enabled_candidate_count(cs) == 0 <==> forall|i: int|
            0 <= i < cs.len() ==> !(#[trigger] cs[i]).enabled,
    decreases cs.len(),
{
    if cs.len() > 0 {
        lemma_enabled_count_zero(cs.drop_last());
        assert forall|i: int| 0 <= i < cs.len() - 1 implies (#[trigger] cs.drop_last()[i]) == cs[i] by {}
        if crate::domain::validate::enabled_candidate_count(cs) == 0 {
            assert forall|i: int| 0 <= i < cs.len() implies !(#[trigger] cs[i]).enabled by {
                if i < cs.len() - 1 {
                    assert(cs.drop_last()[i] == cs[i]);
                }
            }
        }
    }
}

/// Of a group's issues (what `validate_group` reports): `missing_candidates`
/// exactly when it has no candidate, `too_many_candidates` exactly when it
/// has more than eight, `missing_enabled_candidate` exactly when no
/// candidate is enabled, and an issue on the field `id` (or
/// `display_name`) exactly when the group's id (or display name) is blank.
pub proof fn law_group_issues(g: GroupView)
    ensures
        has_code(group_issues(g), "missing_candidates"@) <==> g.candidates.len() == 0,
        has_code(group_issues(g), "too_many_candidates"@) <==> g.candidates.len()
            > crate::domain::validate::MAX_CANDIDATES_PER_GROUP,
        has_code(group_issues(g), "missing_enabled_candidate"@) <==> forall|i: int|
            0 <= i < g.candidates.len() ==> !(#[trigger] g.candidates[i]).enabled,
        has_field(group_issues(g), "id"@) <==> is_blank(g.id),
        has_field(group_issues(g), "display_name"@) <==> is_blank(g.display_name),
{
    reveal_strlit("id");
    reveal_strlit("display_name");
    reveal_strlit("candidates");
    reveal_strlit("required");
    reveal_strlit("missing_candidates");
    reveal_strlit("too_many_candidates");
    reveal_strlit("missing_enabled_candidate");
    reveal_strlit("duplicate_candidate_name");
    reveal_strlit("out_of_range");
    reveal_strlit("duplicate_enabled_protocol");
    let cs = g.candidates;
    lemma_enabled_count_zero(cs);
    let i1 = issue("id"@, "required"@, "group id cannot be empty"@);
    let i2 = issue("display_name"@, "required"@, "display_name cannot be empty"@);
    let i3 = issue("candidates"@, "missing_candidates"@, "at least one candidate is required"@);
    let i4 = issue("candidates"@, "too_many_candidates"@, "a group can contain at most 8 candidates"@);
    let i5 = issue("candidates"@, "missing_enabled_candidate"@, "at least one enabled candidate is required"@);
    let x1 = is_blank(g.id);
    let x2 = is_blank(g.display_name);
    let x3 = cs.len() == 0;
    let x4 = cs.len() > crate::domain::validate::MAX_CANDIDATES_PER_GROUP;
    let x5 = crate::domain::validate::enabled_candidate_count(cs) == 0;
    let w1 = crate::domain::validate::when(x1, i1);
    let w2 = crate::domain::validate::when(x2, i2);
    let w3 = crate::domain::validate::when(x3, i3);
    let w4 = crate::domain::validate::when(x4, i4);
    let w5 = crate::domain::validate::when(x5, i5);
    let ci = candidates_issues(cs, cs.len() as int);
    assert(group_issues(g) == w1 + w2 + w3 + w4 + w5 + ci);
    let fs = seq!["id"@, "display_name"@, "id"@, "id"@, "id"@];
    let cds = seq!["missing_candidates"@, "too_many_candidates"@, "missing_enabled_candidate"@, "missing_candidates"@, "missing_candidates"@];
    assert("id"@[0] != 'c' && "display_name"@[0] != 'c');
    assert("missing_candidates"@[0] != "required"@[0] && "missing_candidates"@[0] != "duplicate_candidate_name"@[0]
        && "missing_candidates"@[0] != "out_of_range"@[0] && "missing_candidates"@[0] != "duplicate_enabled_protocol"@[0]);
    assert("too_many_candidates"@[0] != "required"@[0] && "too_many_candidates"@[0] != "duplicate_candidate_name"@[0]
        && "too_many_candidates"@[0] != "out_of_range"@[0] && "too_many_candidates"@[0] != "duplicate_enabled_protocol"@[0]);
    assert("missing_enabled_candidate"@[0] != "required"@[0] && "missing_enabled_candidate"@[0] != "duplicate_candidate_name"@[0]
        && "missing_enabled_candidate"@[0] != "out_of_range"@[0] && "missing_enabled_candidate"@[0]
        != "duplicate_enabled_protocol"@[0]);
    assert("missing_candidates"@[8] != "missing_enabled_candidate"@[8]);
    assert("missing_candidates"@[0] != "too_many_candidates"@[0]);
    assert("id"@.len() != "display_name"@.len() && "id"@[0] != "candidates"@[0] && "display_name"@[0] != "candidates"@[0]);
    assert forall|t: int| 0 <= t < 3 implies {
        &&& (has_field(group_issues(g), #[trigger] fs[t]) <==> has_field(w1, fs[t]) || has_field(w2, fs[t]) || has_field(w3, fs[t])
            || has_field(w4, fs[t]) || has_field(w5, fs[t]))
        &&& (has_code(group_issues(g), cds[t]) <==> has_code(w1, cds[t]) || has_code(w2, cds[t]) || has_code(w3, cds[t])
            || has_code(w4, cds[t]) || has_code(w5, cds[t]))
    } by {
        lemma_candidates_shape(cs, cs.len() as int, fs[t], cds[t]);
        lemma_concat_facts(w1 + w2 + w3 + w4 + w5, ci, fs[t], cds[t]);
        lemma_concat_facts(w1 + w2 + w3 + w4, w5, fs[t], cds[t]);
        lemma_concat_facts(w1 + w2 + w3, w4, fs[t], cds[t]);
        lemma_concat_facts(w1 + w2, w3, fs[t], cds[t]);
        lemma_concat_facts(w1, w2, fs[t], cds[t]);
    }
    assert(fs[0] == "id"@ && fs[1] == "display_name"@ && fs[2] == "id"@);
    assert(cds[0] == "missing_candidates"@ && cds[1] == "too_many_candidates"@ && cds[2] == "missing_enabled_candidate"@);
    lemma_when_facts(x1, i1, "id"@, "missing_candidates"@);
    lemma_when_facts(x2, i2, "id"@, "missing_candidates"@);
    lemma_when_facts(x3, i3, "id"@, "missing_candidates"@);
    lemma_when_facts(x4, i4, "id"@, "missing_candidates"@);
    lemma_when_facts(x5, i5, "id"@, "missing_candidates"@);
    lemma_when_facts(x1, i1, "display_name"@, "too_many_candidates"@);
    lemma_when_facts(x2, i2, "display_name"@, "too_many_candidates"@);
    lemma_when_facts(x3, i3, "display_name"@, "too_many_candidates"@);
    lemma_when_facts(x4, i4, "display_name"@, "too_many_candidates"@);
    lemma_when_facts(x5, i5, "display_name"@, "too_many_candidates"@);
    lemma_when_facts(x1, i1, "id"@, "missing_enabled_candidate"@);
    lemma_when_facts(x2, i2, "id"@, "missing_enabled_candidate"@);
    lemma_when_facts(x3, i3, "id"@, "missing_enabled_candidate"@);
    lemma_when_facts(x4, i4, "id"@, "missing_enabled_candidate"@);
    lemma_when_facts(x5, i5, "id"@, "missing_enabled_candidate"@);
}

} // verus!
