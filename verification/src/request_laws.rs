//! What the issues of a submitted group say, issue by issue: the group's
//! own issues come first, and each candidate's model id and inline key
//! pool references get an issue exactly when they do not resolve.
use vstd::prelude::*;

use crate::control::{
    binding_issues, candidate_request_issues, candidates_request_issues, group_request_issues,
    has_model_id, inline_pool_field, inline_ref_issues, key_pool_ref_issues, model_with_id,
    pool_known, unknown_model_issues,
};
use crate::domain::laws::{
    has_issue, lemma_decimal_injective, lemma_has_concat, lemma_has_when, lemma_protocol_issue_codes,
    lemma_split5,
};
use crate::domain::types::{CandidateView, EndpointView, GroupView, IssueView, KeyPoolView, ModelView};
use crate::domain::validate::{
    cand_field, candidate_issues, candidates_issues, duplicate_name_at, duplicate_protocol_issues,
    group_issues, issue, lacks_model_source, timeout_out_of_range,
};
use crate::text::{decimal, is_blank, trim};

verus! {

proof fn lemma_decimal_digits(n: nat)
    ensures
        forall|t: int| 0 <= t < decimal(n).len() ==> '0' <= #[trigger] decimal(n)[t] <= '9',
    decreases n,
{
    if n >= 10 {
        lemma_decimal_digits(n / 10);
        assert forall|t: int| 0 <= t < decimal(n).len() implies '0' <= #[trigger] decimal(n)[t] <= '9' by {
            if t < decimal(n / 10).len() {
                assert(decimal(n)[t] == decimal(n / 10)[t]);
            }
        }
    }
}

/// A text made of `p`, a number and a rest that starts with `]` tells the
/// number and the rest apart.
proof fn lemma_index_split(p: Seq<char>, a: nat, b: nat, s1: Seq<char>, s2: Seq<char>)
    requires
        s1.len() > 0,
        s2.len() > 0,
        s1[0] == ']',
        s2[0] == ']',
        p + decimal(a) + s1 == p + decimal(b) + s2,
    ensures
        a == b,
        s1 == s2,
{
    let da = decimal(a);
    let db = decimal(b);
    let x = p + da + s1;
    let y = p + db + s2;
    lemma_decimal_digits(a);
    lemma_decimal_digits(b);
    if da.len() < db.len() {
        assert(x[(p.len() + da.len()) as int] == s1[0]);
        assert(y[(p.len() + da.len()) as int] == db[da.len() as int]);
    } else if db.len() < da.len() {
        assert(y[(p.len() + db.len()) as int] == s2[0]);
        assert(x[(p.len() + db.len()) as int] == da[db.len() as int]);
    } else {
        assert(da =~= x.subrange(p.len() as int, (p.len() + da.len()) as int));
        assert(db =~= y.subrange(p.len() as int, (p.len() + db.len()) as int));
        lemma_decimal_injective(a, b);
        assert(s1 =~= x.subrange((p.len() + da.len()) as int, x.len() as int));
        assert(s2 =~= y.subrange((p.len() + db.len()) as int, y.len() as int));
    }
}

/// The field of the key pool of inline endpoint `j` of candidate `i` names
/// that candidate and that endpoint alone.
proof fn lemma_inline_pool_field_injective(i: int, j: int, k: int, l: int)
    requires
        0 <= i,
        0 <= j,
        0 <= k,
        0 <= l,
        inline_pool_field(i, j) == inline_pool_field(k, l),
    ensures
        i == k,
        j == l,
{
    reveal_strlit("candidates[");
    reveal_strlit("].inline_endpoint_overrides[");
    reveal_strlit("].key_pool_id");
    let p = "candidates["@;
    let mid = "].inline_endpoint_overrides["@;
    let suf = "].key_pool_id"@;
    let s1 = mid + decimal(j as nat) + suf;
    let s2 = mid + decimal(l as nat) + suf;
    assert(inline_pool_field(i, j) =~= p + decimal(i as nat) + s1);
    assert(inline_pool_field(k, l) =~= p + decimal(k as nat) + s2);
    assert(s1[0] == ']');
    assert(s2[0] == ']');
    lemma_index_split(p, i as nat, k as nat, s1, s2);
    assert(decimal(j as nat) =~= s1.subrange(mid.len() as int, s1.len() - suf.len()));
    assert(decimal(l as nat) =~= s2.subrange(mid.len() as int, s2.len() - suf.len()));
    lemma_decimal_injective(j as nat, l as nat);
}

/// An inline key pool field is no field of a candidate's own issues.
proof fn lemma_inline_field_not_candidate_field(i: int, j: int, k: int, sfx: Seq<char>)
    requires
        0 <= i,
        0 <= j,
        0 <= k,
        sfx == "].id"@ || sfx == "].name"@ || sfx == "].upstream_model"@ || sfx == "].model_id"@,
    ensures
        inline_pool_field(i, j) != cand_field(k, sfx),
{
    reveal_strlit("candidates[");
    reveal_strlit("].inline_endpoint_overrides[");
    reveal_strlit("].key_pool_id");
    reveal_strlit("].id");
    reveal_strlit("].name");
    reveal_strlit("].upstream_model");
    reveal_strlit("].model_id");
    let p = "candidates["@;
    let mid = "].inline_endpoint_overrides["@;
    let s1 = mid + decimal(j as nat) + "].key_pool_id"@;
    assert(inline_pool_field(i, j) =~= p + decimal(i as nat) + s1);
    if inline_pool_field(i, j) == cand_field(k, sfx) {
        assert(s1[0] == ']');
        lemma_index_split(p, i as nat, k as nat, s1, sfx);
        assert(s1[2] == 'i' && s1[3] == 'n');
        assert(sfx[2] != 'i' || sfx[3] != 'n');
    }
}


proof fn lemma_has_single(x: IssueView, f: Seq<char>, c: Seq<char>)
    ensures
        has_issue(seq![x], f, c) <==> (x.field == f && x.code == c),
{
    assert(seq![x][0] == x);
}

proof fn lemma_has_empty(f: Seq<char>, c: Seq<char>)
    ensures
        !has_issue(Seq::<IssueView>::empty(), f, c),
{
}

proof fn lemma_request_codes()
    ensures
        "unknown_model"@ != "required"@,
        "unknown_key_pool"@ != "required"@,
        "unknown_model"@ != "unknown_key_pool"@,
        "unknown_model"@ != "unresolved_candidate_target"@,
        "unknown_key_pool"@ != "unresolved_candidate_target"@,
        "required"@ != "unresolved_candidate_target"@,
        "unknown_model"@ != "ambiguous_upstream_model"@,
        "unknown_key_pool"@ != "ambiguous_upstream_model"@,
        "required"@ != "ambiguous_upstream_model"@,
        "unknown_model"@ != "out_of_range"@,
        "unknown_key_pool"@ != "out_of_range"@,
        "required"@ != "out_of_range"@,
        "unknown_model"@ != "duplicate_candidate_name"@,
        "unknown_key_pool"@ != "duplicate_candidate_name"@,
        "required"@ != "duplicate_candidate_name"@,
        "unknown_model"@ != "duplicate_enabled_protocol"@,
        "unknown_key_pool"@ != "duplicate_enabled_protocol"@,
        "required"@ != "duplicate_enabled_protocol"@,
        "unknown_model"@ != "missing_candidates"@,
        "unknown_key_pool"@ != "missing_candidates"@,
        "required"@ != "missing_candidates"@,
        "unknown_model"@ != "too_many_candidates"@,
        "unknown_key_pool"@ != "too_many_candidates"@,
        "required"@ != "too_many_candidates"@,
        "unknown_model"@ != "missing_enabled_candidate"@,
        "unknown_key_pool"@ != "missing_enabled_candidate"@,
        "required"@ != "missing_enabled_candidate"@,
{
    reveal_strlit("unknown_model");
    reveal_strlit("unknown_key_pool");
    reveal_strlit("required");
    reveal_strlit("unresolved_candidate_target");
    reveal_strlit("ambiguous_upstream_model");
    reveal_strlit("out_of_range");
    reveal_strlit("duplicate_candidate_name");
    reveal_strlit("duplicate_enabled_protocol");
    reveal_strlit("missing_candidates");
    reveal_strlit("too_many_candidates");
    reveal_strlit("missing_enabled_candidate");
    assert("unknown_model"@[0] != "required"@[0]);
    assert("unknown_key_pool"@[0] != "required"@[0]);
    assert("unknown_model"@[8] != "unknown_key_pool"@[8]);
    assert("unknown_model"@[2] != "unresolved_candidate_target"@[2]);
    assert("unknown_key_pool"@[2] != "unresolved_candidate_target"@[2]);
    assert("required"@[0] != "unresolved_candidate_target"@[0]);
    assert("unknown_model"@[0] != "ambiguous_upstream_model"@[0]);
    assert("unknown_key_pool"@[0] != "ambiguous_upstream_model"@[0]);
    assert("required"@[0] != "ambiguous_upstream_model"@[0]);
    assert("unknown_model"@[0] != "out_of_range"@[0]);
    assert("unknown_key_pool"@[0] != "out_of_range"@[0]);
    assert("required"@[0] != "out_of_range"@[0]);
    assert("unknown_model"@[0] != "duplicate_candidate_name"@[0]);
    assert("unknown_key_pool"@[0] != "duplicate_candidate_name"@[0]);
    assert("required"@[0] != "duplicate_candidate_name"@[0]);
    assert("unknown_model"@[0] != "duplicate_enabled_protocol"@[0]);
    assert("unknown_key_pool"@[0] != "duplicate_enabled_protocol"@[0]);
    assert("required"@[0] != "duplicate_enabled_protocol"@[0]);
    assert("unknown_model"@[0] != "missing_candidates"@[0]);
    assert("unknown_key_pool"@[0] != "missing_candidates"@[0]);
    assert("required"@[0] != "missing_candidates"@[0]);
    assert("unknown_model"@[0] != "too_many_candidates"@[0]);
    assert("unknown_key_pool"@[0] != "too_many_candidates"@[0]);
    assert("required"@[0] != "too_many_candidates"@[0]);
    assert("unknown_model"@[0] != "missing_enabled_candidate"@[0]);
    assert("unknown_key_pool"@[0] != "missing_enabled_candidate"@[0]);
    assert("required"@[0] != "missing_enabled_candidate"@[0]);
}

/// A field and code that no issue of a group's own validation carries.
pub open spec fn foreign_to_group(f: Seq<char>, c: Seq<char>) -> bool {
    &&& c != "out_of_range"@
    &&& c != "duplicate_candidate_name"@
    &&& c != "duplicate_enabled_protocol"@
    &&& c != "missing_candidates"@
    &&& c != "too_many_candidates"@
    &&& c != "missing_enabled_candidate"@
    &&& c == "required"@ ==> f != "id"@ && f != "display_name"@ && forall|k: int|
        0 <= k ==> f != #[trigger] cand_field(k, "].id"@) && f != cand_field(k, "].name"@) && f
            != cand_field(k, "].upstream_model"@)
}

proof fn lemma_candidate_lacks(cs: Seq<CandidateView>, k: int, f: Seq<char>, c: Seq<char>)
    requires
        0 <= k < cs.len(),
        foreign_to_group(f, c),
    ensures
        !has_issue(candidate_issues(cs, k), f, c),
{
    let cd = cs[k];
    let a = crate::domain::validate::when(
        is_blank(cd.id),
        issue(cand_field(k, "].id"@), "required"@, "candidate id cannot be empty"@),
    );
    let bi = issue(cand_field(k, "].name"@), "required"@, "candidate name cannot be empty"@);
    let bd = issue(
        cand_field(k, "].name"@),
        "duplicate_candidate_name"@,
        "candidate name must be unique inside the group"@,
    );
    let b = if is_blank(cd.name) {
        seq![bi]
    } else {
        crate::domain::validate::when(duplicate_name_at(cs, k), bd)
    };
    let di = issue(
        cand_field(k, "].upstream_model"@),
        "required"@,
        "candidate must provide upstream_model or model_id"@,
    );
    let d = crate::domain::validate::when(lacks_model_source(cd), di);
    let ei = issue(
        cand_field(k, "].response_protection_timeout_ms"@),
        "out_of_range"@,
        "response_protection_timeout_ms must be between 1000 and 120000"@,
    );
    let e = crate::domain::validate::when(timeout_out_of_range(cd), ei);
    let pp = duplicate_protocol_issues(
        cd.inline_endpoint_overrides,
        cd.inline_endpoint_overrides.len() as int,
        cand_field(k, "].inline_endpoint_overrides["@),
        "].protocol_family"@,
        cand_field(k, "].inline_endpoint_overrides"@),
    );
    assert(candidate_issues(cs, k) == a + b + d + e + pp);
    lemma_split5(a, b, d, e, pp, f, c);
    lemma_has_when(is_blank(cd.id), issue(cand_field(k, "].id"@), "required"@, "candidate id cannot be empty"@), f, c);
    if is_blank(cd.name) {
        lemma_has_single(bi, f, c);
    } else {
        lemma_has_when(duplicate_name_at(cs, k), bd, f, c);
    }
    lemma_has_when(lacks_model_source(cd), di, f, c);
    lemma_has_when(timeout_out_of_range(cd), ei, f, c);
    lemma_protocol_issue_codes(
        cd.inline_endpoint_overrides,
        cd.inline_endpoint_overrides.len() as int,
        cand_field(k, "].inline_endpoint_overrides["@),
        "].protocol_family"@,
        cand_field(k, "].inline_endpoint_overrides"@),
        f,
        c,
    );
    if c == "required"@ {
        assert(f != cand_field(k, "].id"@));
    }
}

proof fn lemma_candidates_lack(cs: Seq<CandidateView>, n: int, f: Seq<char>, c: Seq<char>)
    requires
        0 <= n <= cs.len(),
        foreign_to_group(f, c),
    ensures
        !has_issue(candidates_issues(cs, n), f, c),
    decreases n,
{
    if n > 0 {
        lemma_candidates_lack(cs, n - 1, f, c);
        lemma_candidate_lacks(cs, n - 1, f, c);
        lemma_has_concat(candidates_issues(cs, n - 1), candidate_issues(cs, n - 1), f, c);
    }
}

proof fn lemma_group_lacks(g: GroupView, f: Seq<char>, c: Seq<char>)
    requires
        foreign_to_group(f, c),
    ensures
        !has_issue(group_issues(g), f, c),
{
    let cs = g.candidates;
    lemma_candidates_lack(cs, cs.len() as int, f, c);
    let i1 = issue("id"@, "required"@, "group id cannot be empty"@);
    let i2 = issue("display_name"@, "required"@, "display_name cannot be empty"@);
    let i3 = issue("candidates"@, "missing_candidates"@, "at least one candidate is required"@);
    let i4 = issue("candidates"@, "too_many_candidates"@, "a group can contain at most 8 candidates"@);
    let i5 = issue("candidates"@, "missing_enabled_candidate"@, "at least one enabled candidate is required"@);
    let w1 = crate::domain::validate::when(is_blank(g.id), i1);
    let w2 = crate::domain::validate::when(is_blank(g.display_name), i2);
    let w3 = crate::domain::validate::when(cs.len() == 0, i3);
    let w4 = crate::domain::validate::when(cs.len() > crate::domain::validate::MAX_CANDIDATES_PER_GROUP, i4);
    let w5 = crate::domain::validate::when(crate::domain::validate::enabled_candidate_count(cs) == 0, i5);
    let ci = candidates_issues(cs, cs.len() as int);
    assert(group_issues(g) == w1 + w2 + w3 + w4 + w5 + ci);
    lemma_has_concat(w1 + w2 + w3 + w4 + w5, ci, f, c);
    lemma_split5(w1, w2, w3, w4, w5, f, c);
    lemma_has_when(is_blank(g.id), i1, f, c);
    lemma_has_when(is_blank(g.display_name), i2, f, c);
    lemma_has_when(cs.len() == 0, i3, f, c);
    lemma_has_when(cs.len() > crate::domain::validate::MAX_CANDIDATES_PER_GROUP, i4, f, c);
    lemma_has_when(crate::domain::validate::enabled_candidate_count(cs) == 0, i5, f, c);
}


/// Inline endpoint `j` of a candidate: its trimmed key pool id is blank.
pub open spec fn pool_ref_blank(eps: Seq<EndpointView>, j: int) -> bool {
    trim(eps[j].key_pool_id).len() == 0
}

/// Inline endpoint `j` of a candidate: its trimmed key pool id is not blank
/// and no key pool has it.
pub open spec fn pool_ref_unknown(eps: Seq<EndpointView>, j: int, pools: Seq<KeyPoolView>) -> bool {
    trim(eps[j].key_pool_id).len() > 0 && !pool_known(pools, trim(eps[j].key_pool_id))
}

proof fn lemma_inline_has(eps: Seq<EndpointView>, k: int, pools: Seq<KeyPoolView>, m: int, i: int, j: int, f: Seq<char>)
    requires
        0 <= m <= eps.len(),
        0 <= k,
        0 <= i,
        0 <= j,
    ensures
        has_issue(inline_ref_issues(eps, k, pools, m), inline_pool_field(i, j), "required"@) <==> (k == i && j
            < m && pool_ref_blank(eps, j)),
        has_issue(inline_ref_issues(eps, k, pools, m), inline_pool_field(i, j), "unknown_key_pool"@) <==> (k
            == i && j < m && pool_ref_unknown(eps, j, pools)),
        !has_issue(inline_ref_issues(eps, k, pools, m), f, "unknown_model"@),
        (forall|l: int| 0 <= l ==> f != #[trigger] inline_pool_field(k, l)) ==> !has_issue(
            inline_ref_issues(eps, k, pools, m),
            f,
            "required"@,
        ),
    decreases m,
{
    lemma_request_codes();
    if m > 0 {
        lemma_inline_has(eps, k, pools, m - 1, i, j, f);
        let fld = inline_pool_field(k, m - 1);
        let id = trim(eps[m - 1].key_pool_id);
        let last = key_pool_ref_issues(fld, id, pools);
        let prev = inline_ref_issues(eps, k, pools, m - 1);
        assert(inline_ref_issues(eps, k, pools, m) == prev + last);
        let targets = seq![
            (inline_pool_field(i, j), "required"@),
            (inline_pool_field(i, j), "unknown_key_pool"@),
            (f, "unknown_model"@),
            (f, "required"@),
        ];
        assert forall|t: int| 0 <= t < 4 implies (has_issue(prev + last, (#[trigger] targets[t]).0, targets[t].1)
            <==> has_issue(prev, targets[t].0, targets[t].1) || has_issue(last, targets[t].0, targets[t].1)) by {
            lemma_has_concat(prev, last, targets[t].0, targets[t].1);
        }
        assert(targets[0] == (inline_pool_field(i, j), "required"@));
        assert(targets[1] == (inline_pool_field(i, j), "unknown_key_pool"@));
        assert(targets[2] == (f, "unknown_model"@));
        assert(targets[3] == (f, "required"@));
        let x1 = issue(fld, "required"@, "key_pool_id cannot be empty"@);
        let x2 = issue(fld, "unknown_key_pool"@, "key pool '"@ + id + "' does not exist"@);
        if id.len() == 0 {
            lemma_has_single(x1, inline_pool_field(i, j), "required"@);
            lemma_has_single(x1, inline_pool_field(i, j), "unknown_key_pool"@);
            lemma_has_single(x1, f, "unknown_model"@);
            lemma_has_single(x1, f, "required"@);
        } else if !pool_known(pools, id) {
            lemma_has_single(x2, inline_pool_field(i, j), "required"@);
            lemma_has_single(x2, inline_pool_field(i, j), "unknown_key_pool"@);
            lemma_has_single(x2, f, "unknown_model"@);
            lemma_has_single(x2, f, "required"@);
        } else {
            assert(last.len() == 0);
        }
        if fld == inline_pool_field(i, j) {
            lemma_inline_pool_field_injective(k, m - 1, i, j);
        }
    }
}

/// Candidate `i`'s model id is given, not blank, and names no model.
pub open spec fn model_id_unknown(c: CandidateView, models: Seq<ModelView>) -> bool {
    match c.model_id {
        Some(m) => !is_blank(m) && model_with_id(models, trim(m)).is_none(),
        None => false,
    }
}

proof fn lemma_candidate_request_has(
    c: CandidateView,
    k: int,
    models: Seq<ModelView>,
    pools: Seq<KeyPoolView>,
    i: int,
    j: int,
)
    requires
        0 <= k,
        0 <= i,
        0 <= j,
    ensures
        has_issue(candidate_request_issues(c, k, models, pools), cand_field(i, "].model_id"@), "unknown_model"@)
            <==> (k == i && model_id_unknown(c, models)),
        has_issue(candidate_request_issues(c, k, models, pools), inline_pool_field(i, j), "required"@) <==> (k
            == i && j < c.inline_endpoint_overrides.len() && pool_ref_blank(c.inline_endpoint_overrides, j)),
        has_issue(candidate_request_issues(c, k, models, pools), inline_pool_field(i, j), "unknown_key_pool"@)
            <==> (k == i && j < c.inline_endpoint_overrides.len() && pool_ref_unknown(
            c.inline_endpoint_overrides,
            j,
            pools,
        )),
{
    lemma_request_codes();
    let eps = c.inline_endpoint_overrides;
    let u = unknown_model_issues(c, k, models);
    let ri = issue(
        cand_field(k, "].upstream_model"@),
        "required"@,
        "candidate must provide upstream_model or bind a model_id"@,
    );
    let r = if is_blank(c.upstream_model) && !has_model_id(c) {
        seq![ri]
    } else {
        Seq::<IssueView>::empty()
    };
    let b = binding_issues(c, k, models);
    let inl = inline_ref_issues(eps, k, pools, eps.len() as int);
    assert(candidate_request_issues(c, k, models, pools) == u + r + b + inl);
    let um = cand_field(i, "].model_id"@);
    let rq = inline_pool_field(i, j);
    lemma_inline_has(eps, k, pools, eps.len() as int, i, j, um);
    lemma_inline_field_not_candidate_field(i, j, k, "].upstream_model"@);
    lemma_inline_field_not_candidate_field(i, j, k, "].model_id"@);
    assert forall|l: int| 0 <= l implies um != #[trigger] inline_pool_field(k, l) by {
        lemma_inline_field_not_candidate_field(k, l, i, "].model_id"@);
    }
    let codes = seq!["unknown_model"@, "required"@, "unknown_key_pool"@];
    let fields = seq![um, rq, rq];
    assert forall|t: int| 0 <= t < 3 implies (has_issue(u + r + b + inl, #[trigger] fields[t], codes[t]) <==> (
    has_issue(u, fields[t], codes[t]) || has_issue(r, fields[t], codes[t]) || has_issue(b, fields[t], codes[t])
        || has_issue(inl, fields[t], codes[t]))) by {
        lemma_has_concat(u + r + b, inl, fields[t], codes[t]);
        lemma_has_concat(u + r, b, fields[t], codes[t]);
        lemma_has_concat(u, r, fields[t], codes[t]);
    }
    assert(fields[0] == um && codes[0] == "unknown_model"@);
    assert(fields[1] == rq && codes[1] == "required"@);
    assert(fields[2] == rq && codes[2] == "unknown_key_pool"@);
    // the unknown model issue
    match c.model_id {
        Some(m) => if !is_blank(m) && model_with_id(models, trim(m)).is_none() {
            let x = issue(cand_field(k, "].model_id"@), "unknown_model"@, "model '"@ + trim(m) + "' does not exist"@);
            assert(u == seq![x]);
            lemma_has_single(x, um, "unknown_model"@);
            lemma_has_single(x, rq, "required"@);
            lemma_has_single(x, rq, "unknown_key_pool"@);
            if cand_field(k, "].model_id"@) == um {
                crate::domain::laws::lemma_cand_field_injective(k, i, "].model_id"@);
            }
        } else {
            assert(u.len() == 0);
        },
        None => {
            assert(u.len() == 0);
        },
    }
    // the missing model source issue
    if is_blank(c.upstream_model) && !has_model_id(c) {
        lemma_has_single(ri, um, "unknown_model"@);
        lemma_has_single(ri, rq, "required"@);
        lemma_has_single(ri, rq, "unknown_key_pool"@);
    }
    // the binding issues
    lemma_binding_lacks(c, k, models, um, "unknown_model"@);
    lemma_binding_lacks(c, k, models, rq, "required"@);
    lemma_binding_lacks(c, k, models, rq, "unknown_key_pool"@);
}

proof fn lemma_binding_lacks(c: CandidateView, k: int, models: Seq<ModelView>, f: Seq<char>, code: Seq<char>)
    requires
        code == "unknown_model"@ || code == "required"@ || code == "unknown_key_pool"@,
    ensures
        !has_issue(binding_issues(c, k, models), f, code),
{
    lemma_request_codes();
    let b = binding_issues(c, k, models);
    if b.len() > 0 {
        assert(b.len() == 1);
        assert(b[0].code == "unresolved_candidate_target"@ || b[0].code == "ambiguous_upstream_model"@);
    }
}


proof fn lemma_candidates_request_has(
    cs: Seq<CandidateView>,
    models: Seq<ModelView>,
    pools: Seq<KeyPoolView>,
    n: int,
    i: int,
    j: int,
)
    requires
        0 <= n <= cs.len(),
        0 <= i,
        0 <= j,
    ensures
        has_issue(candidates_request_issues(cs, models, pools, n), cand_field(i, "].model_id"@), "unknown_model"@)
            <==> (i < n && model_id_unknown(cs[i], models)),
        has_issue(candidates_request_issues(cs, models, pools, n), inline_pool_field(i, j), "required"@) <==> (i
            < n && j < cs[i].inline_endpoint_overrides.len() && pool_ref_blank(cs[i].inline_endpoint_overrides, j)),
        has_issue(candidates_request_issues(cs, models, pools, n), inline_pool_field(i, j), "unknown_key_pool"@)
            <==> (i < n && j < cs[i].inline_endpoint_overrides.len() && pool_ref_unknown(
            cs[i].inline_endpoint_overrides,
            j,
            pools,
        )),
    decreases n,
{
    if n > 0 {
        lemma_candidates_request_has(cs, models, pools, n - 1, i, j);
        lemma_candidate_request_has(cs[n - 1], n - 1, models, pools, i, j);
        let prev = candidates_request_issues(cs, models, pools, n - 1);
        let last = candidate_request_issues(cs[n - 1], n - 1, models, pools);
        lemma_has_concat(prev, last, cand_field(i, "].model_id"@), "unknown_model"@);
        lemma_has_concat(prev, last, inline_pool_field(i, j), "required"@);
        lemma_has_concat(prev, last, inline_pool_field(i, j), "unknown_key_pool"@);
    }
}

/// Of the issues of a submitted group (what `validate_group_request`
/// reports): the group's own issues come first; candidate `i` has an
/// `unknown_model` issue on its model id exactly when that id is given, not
/// blank, and names no model of the catalog; and inline endpoint `j` of
/// candidate `i` has a `required` issue on its key pool exactly when its
/// trimmed key pool id is blank, and an `unknown_key_pool` one exactly when
/// it is not blank and no key pool of the catalog has it.
pub proof fn law_group_request_issues(
    g: GroupView,
    models: Seq<ModelView>,
    pools: Seq<KeyPoolView>,
    i: int,
    j: int,
)
    requires
        0 <= i < g.candidates.len(),
        0 <= j,
    ensures
        group_request_issues(g, models, pools).take(group_issues(g).len() as int) == group_issues(g),
        has_issue(group_request_issues(g, models, pools), cand_field(i, "].model_id"@), "unknown_model"@)
            <==> model_id_unknown(g.candidates[i], models),
        has_issue(group_request_issues(g, models, pools), inline_pool_field(i, j), "required"@) <==> (j
            < g.candidates[i].inline_endpoint_overrides.len() && pool_ref_blank(
            g.candidates[i].inline_endpoint_overrides,
            j,
        )),
        has_issue(group_request_issues(g, models, pools), inline_pool_field(i, j), "unknown_key_pool"@) <==> (j
            < g.candidates[i].inline_endpoint_overrides.len() && pool_ref_unknown(
            g.candidates[i].inline_endpoint_overrides,
            j,
            pools,
        )),
{
    lemma_request_codes();
    let cs = g.candidates;
    let gi = group_issues(g);
    let ri = candidates_request_issues(cs, models, pools, cs.len() as int);
    assert(group_request_issues(g, models, pools) == gi + ri);
    assert((gi + ri).take(gi.len() as int) =~= gi);
    lemma_candidates_request_has(cs, models, pools, cs.len() as int, i, j);
    let um = cand_field(i, "].model_id"@);
    let rq = inline_pool_field(i, j);
    reveal_strlit("id");
    reveal_strlit("display_name");
    reveal_strlit("candidates[");
    assert(rq[0] == 'c');
    assert(rq != "id"@ && rq != "display_name"@) by {
        assert("id"@[0] != 'c');
        assert("display_name"@[0] != 'c');
    }
    assert forall|k: int| 0 <= k implies rq != #[trigger] cand_field(k, "].id"@) && rq != cand_field(k, "].name"@)
        && rq != cand_field(k, "].upstream_model"@) by {
        lemma_inline_field_not_candidate_field(i, j, k, "].id"@);
        lemma_inline_field_not_candidate_field(i, j, k, "].name"@);
        lemma_inline_field_not_candidate_field(i, j, k, "].upstream_model"@);
    }
    lemma_group_lacks(g, um, "unknown_model"@);
    lemma_group_lacks(g, rq, "required"@);
    lemma_group_lacks(g, rq, "unknown_key_pool"@);
    lemma_has_concat(gi, ri, um, "unknown_model"@);
    lemma_has_concat(gi, ri, rq, "required"@);
    lemma_has_concat(gi, ri, rq, "unknown_key_pool"@);
}

} // verus!
