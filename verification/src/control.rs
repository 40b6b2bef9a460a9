//! Administration rules over the configuration catalog: validation of
//! submitted models and groups against what the catalog holds, references
//! that block a deletion, normalization of submitted groups, and masking of
//! secrets in responses.
use vstd::prelude::*;

use crate::domain::resolve::{
    model_binding, models_view, resolve_error_message, resolve_model_for_candidate,
    ModelBinding,
};
use crate::domain::types::{
    candidates_view, endpoints_view, issues_view, keys_view, CandidateView, EndpointView,
    GroupView, IssueView, KeyPoolView, KeyView, ModelView, ProtocolFamily, RaceCandidate,
    RaceGroup, RaceGroupSummary, RaceKey, RaceKeyPool, RaceModelDescriptor, ValidationErrorResponse,
    ValidationIssue,
};
use crate::domain::summary::{
    enabled_protocol_set, mark_enabled_protocols, protocols_from_flags, sorted_protocols,
    strings_view,
};
use crate::domain::validate::{
    enabled_candidate_count, protocol_index,
    cand_field, group_issues, issue, model_issues, validate_group, validate_model_descriptor,
    ValidationBuilder,
};
use crate::group::diagnostics::{boundary_at, is_byte_prefix, mask_key, masked};
use crate::text::{
    chars_of, contains_seq, decimal, indexed_field, is_blank, push_char, push_decimal, push_str, str_eq,
    occurs_at, str_is_blank, trim, trim_str, utf8_len,
};

verus! {

// ---------------------------------------------------------------------------
// Key pool references
// ---------------------------------------------------------------------------

/// The views of a list of key pools.
pub open spec fn pools_view(v: Seq<RaceKeyPool>) -> Seq<KeyPoolView> {
    v.map_values(|p: RaceKeyPool| p@)
}

/// Some pool of `pools` has the id `id`.
pub open spec fn pool_known(pools: Seq<KeyPoolView>, id: Seq<char>) -> bool {
    exists|j: int| 0 <= j < pools.len() && (#[trigger] pools[j]).id == id
}

/// The issue of a key pool reference at `field`: a blank id is required, an
/// id that no pool has is unknown.
pub open spec fn key_pool_ref_issues(field: Seq<char>, id: Seq<char>, pools: Seq<KeyPoolView>) -> Seq<
    IssueView,
> {
    if id.len() == 0 {
        seq![issue(field, "required"@, "key_pool_id cannot be empty"@)]
    } else if !pool_known(pools, id) {
        seq![issue(field, "unknown_key_pool"@, "key pool '"@ + id + "' does not exist"@)]
    } else {
        seq![]
    }
}

/// Whether a pool with the id `id` exists.
pub fn key_pool_exists(pools: &Vec<RaceKeyPool>, id: &str) -> (r: bool)
    ensures
        r == pool_known(pools_view(pools@), id@),
{
    let ghost pv = pools_view(pools@);
    let mut j: usize = 0;
    while j < pools.len()
        invariant
            j <= pools.len(),
            pv == pools_view(pools@),
            forall|k: int| 0 <= k < j ==> (#[trigger] pv[k]).id != id@,
        decreases pools.len() - j,
    {
        assert(pv[j as int] == pools@[j as int]@);
        if str_eq(pools[j].id.as_str(), id) {
            assert(pv[j as int].id == id@);
            return true;
        }
        j += 1;
    }
    false
}

/// Checks one key pool reference (already trimmed) against the catalog.
pub fn validate_key_pool_reference(
    builder: &mut ValidationBuilder,
    field: &str,
    key_pool_id: &str,
    pools: &Vec<RaceKeyPool>,
)
    ensures
        final(builder).spec_issues() == old(builder).spec_issues() + key_pool_ref_issues(
            field@,
            key_pool_id@,
            pools_view(pools@),
        ),
{
    if key_pool_id.unicode_len() == 0 {
        builder.push(field, "required", "key_pool_id cannot be empty");
        return ;
    }
    if !key_pool_exists(pools, key_pool_id) {
        let mut message = String::new();
        push_str(&mut message, "key pool '");
        push_str(&mut message, key_pool_id);
        push_str(&mut message, "' does not exist");
        builder.push(field, "unknown_key_pool", message.as_str());
        assert(message@ =~= "key pool '"@ + key_pool_id@ + "' does not exist"@);
    }
}

// ---------------------------------------------------------------------------
// Model requests
// ---------------------------------------------------------------------------

/// The field of the key pool of endpoint `i`.
pub open spec fn endpoint_pool_field(i: int) -> Seq<char> {
    "endpoints["@ + decimal(i as nat) + "].key_pool_id"@
}

/// The key pool reference issues of the first `k` endpoints.
pub open spec fn endpoint_ref_issues(eps: Seq<EndpointView>, pools: Seq<KeyPoolView>, k: int) -> Seq<
    IssueView,
>
    decreases k,
{
    if k <= 0 {
        seq![]
    } else {
        endpoint_ref_issues(eps, pools, k - 1) + key_pool_ref_issues(
            endpoint_pool_field(k - 1),
            trim(eps[k - 1].key_pool_id),
            pools,
        )
    }
}

/// `other` is another model (neither the submitted id nor the id it
/// replaces) with the same upstream model.
pub open spec fn upstream_conflict(m: ModelView, previous: Option<Seq<char>>, other: ModelView) -> bool {
    other.id != m.id && Some(other.id) != previous && other.upstream_model == m.upstream_model
}

/// Index of the first model of `models` that conflicts with `m`.
pub open spec fn first_upstream_conflict(
    m: ModelView,
    previous: Option<Seq<char>>,
    models: Seq<ModelView>,
) -> Option<int>
    decreases models.len(),
{
    if models.len() == 0 {
        None
    } else {
        match first_upstream_conflict(m, previous, models.drop_last()) {
            Some(i) => Some(i),
            None => if upstream_conflict(m, previous, models.last()) {
                Some(models.len() - 1)
            } else {
                None
            },
        }
    }
}

/// The issues of a submitted model: those of the descriptor itself, then
/// one per endpoint whose key pool is blank or unknown, then one when
/// another model already uses its upstream model.
pub open spec fn model_request_issues(
    m: ModelView,
    previous: Option<Seq<char>>,
    models: Seq<ModelView>,
    pools: Seq<KeyPoolView>,
) -> Seq<IssueView> {
    model_issues(m) + endpoint_ref_issues(m.endpoints, pools, m.endpoints.len() as int) + match first_upstream_conflict(
        m,
        previous,
        models,
    ) {
        Some(i) => seq![
            issue(
                "upstream_model"@,
                "duplicate_upstream_model"@,
                "upstream_model '"@ + m.upstream_model + "' is already used by model '"@
                    + models[i].id + "'"@,
            ),
        ],
        None => seq![],
    }
}

proof fn lemma_first_upstream_conflict(m: ModelView, previous: Option<Seq<char>>, models: Seq<ModelView>, k: int)
    requires
        0 <= k <= models.len(),
    ensures
        first_upstream_conflict(m, previous, models.subrange(0, k)) is Some ==> first_upstream_conflict(
            m,
            previous,
            models,
        ) == first_upstream_conflict(m, previous, models.subrange(0, k)),
        first_upstream_conflict(m, previous, models.subrange(0, k)) matches Some(i) ==> 0 <= i < k
            && upstream_conflict(m, previous, models[i]),
    decreases models.len() - k,
{
    if k < models.len() {
        assert(models.subrange(0, k + 1).drop_last() =~= models.subrange(0, k));
        lemma_first_upstream_conflict(m, previous, models, k + 1);
    } else {
        assert(models.subrange(0, k) =~= models);
    }
    lemma_conflict_bound(m, previous, models.subrange(0, k));
}

proof fn lemma_conflict_bound(m: ModelView, previous: Option<Seq<char>>, models: Seq<ModelView>)
    ensures
        first_upstream_conflict(m, previous, models) matches Some(i) ==> 0 <= i < models.len()
            && upstream_conflict(m, previous, models[i]),
    decreases models.len(),
{
    if models.len() > 0 {
        lemma_conflict_bound(m, previous, models.drop_last());
    }
}

/// Appends `extra` to the issues of `v`, keeping `valid` exactly when there
/// is no issue.
fn add_issues(v: &mut ValidationErrorResponse, extra: ValidationErrorResponse)
    ensures
        issues_view(final(v).issues@) == issues_view(old(v).issues@) + issues_view(extra.issues@),
        final(v).valid == (final(v).issues@.len() == 0),
{
    let mut more = extra.issues;
    v.issues.append(&mut more);
    v.valid = v.issues.len() == 0;
    assert(issues_view(v.issues@) =~= issues_view(old(v).issues@) + issues_view(extra.issues@));
}

/// Validates a submitted model against the catalog: the descriptor's own
/// rules, each endpoint's key pool (trimmed) must be set and known, and no
/// other model (than the one being replaced, `previous_model_id`) may have
/// the same upstream model. Valid exactly when there is no issue.
pub fn validate_model_request(
    model: &RaceModelDescriptor,
    previous_model_id: Option<&str>,
    models: &Vec<RaceModelDescriptor>,
    pools: &Vec<RaceKeyPool>,
) -> (r: ValidationErrorResponse)
    ensures
        issues_view(r.issues@) == model_request_issues(
            model@,
            match previous_model_id {
                Some(p) => Some(p@),
                None => None,
            },
            models_view(models@),
            pools_view(pools@),
        ),
        r.valid == (r.issues@.len() == 0),
{
    let ghost prev = match previous_model_id {
        Some(p) => Some(p@),
        None => None,
    };
    let ghost mv = models_view(models@);
    let mut validation = validate_model_descriptor(model);
    let mut builder = ValidationBuilder::new();
    let ghost ev = endpoints_view(model.endpoints@);
    let ghost pv = pools_view(pools@);
    let mut i: usize = 0;
    while i < model.endpoints.len()
        invariant
            i <= model.endpoints.len(),
            ev == endpoints_view(model.endpoints@),
            ev == model@.endpoints,
            pv == pools_view(pools@),
            builder.spec_issues() == endpoint_ref_issues(ev, pv, i as int),
        decreases model.endpoints.len() - i,
    {
        let field = indexed_field("endpoints[", i, "].key_pool_id");
        let id = trim_str(model.endpoints[i].key_pool_id.as_str());
        assert(ev[i as int] == model.endpoints@[i as int]@);
        validate_key_pool_reference(&mut builder, field.as_str(), id.as_str(), pools);
        i += 1;
    }
    let mut j: usize = 0;
    let mut conflict: Option<usize> = None;
    while j < models.len()
        invariant
            j <= models.len(),
            mv == models_view(models@),
            prev == match previous_model_id {
                Some(p) => Some(p@),
                None => None,
            },
            match conflict {
                Some(k) => k < j && first_upstream_conflict(model@, prev, mv.subrange(0, j as int))
                    == Some(k as int),
                None => first_upstream_conflict(model@, prev, mv.subrange(0, j as int)).is_none(),
            },
        decreases models.len() - j,
    {
        assert(mv.subrange(0, j + 1).drop_last() =~= mv.subrange(0, j as int));
        assert(mv[j as int] == models@[j as int]@);
        if conflict.is_none() {
            let other = &models[j];
            let same_id = str_eq(other.id.as_str(), model.id.as_str());
            let is_previous = match previous_model_id {
                Some(p) => str_eq(other.id.as_str(), p),
                None => false,
            };
            let same_upstream = str_eq(other.upstream_model.as_str(), model.upstream_model.as_str());
            if !same_id && !is_previous && same_upstream {
                conflict = Some(j);
            }
        }
        j += 1;
    }
    assert(mv.subrange(0, models.len() as int) =~= mv);
    match conflict {
        Some(k) => {
            proof {
                lemma_conflict_bound(model@, prev, mv);
            }
            let mut message = String::new();
            push_str(&mut message, "upstream_model '");
            push_str(&mut message, model.upstream_model.as_str());
            push_str(&mut message, "' is already used by model '");
            push_str(&mut message, models[k].id.as_str());
            push_str(&mut message, "'");
            assert(mv[k as int] == models@[k as int]@);
            assert(message@ =~= "upstream_model '"@ + model@.upstream_model
                + "' is already used by model '"@ + mv[k as int].id + "'"@);
            builder.push("upstream_model", "duplicate_upstream_model", message.as_str());
        },
        None => {},
    }
    let extra = builder.finish();
    add_issues(&mut validation, extra);
    assert(issues_view(validation.issues@) =~= model_request_issues(model@, prev, mv, pv));
    validation
}

// ---------------------------------------------------------------------------
// References that block a deletion
// ---------------------------------------------------------------------------

/// Candidate `c` refers to the model `model_id` whose upstream model is
/// `up`: by id, or (with no id) by its trimmed, non-blank upstream model.
pub open spec fn candidate_refers_to_model(c: CandidateView, model_id: Seq<char>, up: Seq<char>) -> bool {
    c.model_id == Some(model_id) || (c.model_id.is_none() && !is_blank(c.upstream_model) && trim(
        c.upstream_model,
    ) == up)
}

/// Index of the first model of `models` whose id is `id`.
pub open spec fn model_with_id(models: Seq<ModelView>, id: Seq<char>) -> Option<int>
    decreases models.len(),
{
    if models.len() == 0 {
        None
    } else {
        match model_with_id(models.drop_last(), id) {
            Some(i) => Some(i),
            None => if models.last().id == id {
                Some(models.len() - 1)
            } else {
                None
            },
        }
    }
}

proof fn lemma_model_with_id(models: Seq<ModelView>, id: Seq<char>, k: int)
    requires
        0 <= k <= models.len(),
    ensures
        model_with_id(models.subrange(0, k), id) is Some ==> model_with_id(models, id)
            == model_with_id(models.subrange(0, k), id),
        model_with_id(models.subrange(0, k), id) matches Some(i) ==> 0 <= i < k && models[i].id
            == id,
        model_with_id(models.subrange(0, k), id) is None ==> forall|j: int|
            0 <= j < k ==> models[j].id != id,
    decreases models.len() - k,
{
    if k < models.len() {
        assert(models.subrange(0, k + 1).drop_last() =~= models.subrange(0, k));
        lemma_model_with_id(models, id, k + 1);
    } else {
        assert(models.subrange(0, k) =~= models);
    }
    lemma_model_with_id_prefix(models.subrange(0, k), id);
    assert(forall|j: int| 0 <= j < k ==> models.subrange(0, k)[j] == models[j]);
}

proof fn lemma_model_with_id_prefix(models: Seq<ModelView>, id: Seq<char>)
    ensures
        model_with_id(models, id) matches Some(i) ==> 0 <= i < models.len() && models[i].id == id,
        model_with_id(models, id) is None ==> forall|j: int| 0 <= j < models.len() ==> models[j].id != id,
    decreases models.len(),
{
    if models.len() > 0 {
        let d = models.drop_last();
        lemma_model_with_id_prefix(d, id);
        assert(forall|j: int| 0 <= j < d.len() ==> d[j] == models[j]);
    }
}

/// Position of the model `model_id` in the catalog, if any.
pub fn find_model_index(models: &Vec<RaceModelDescriptor>, model_id: &str) -> (r: Option<usize>)
    ensures
        match r {
            Some(i) => model_with_id(models_view(models@), model_id@) == Some(i as int),
            None => model_with_id(models_view(models@), model_id@).is_none(),
        },
{
    let ghost mv = models_view(models@);
    let mut i: usize = 0;
    while i < models.len()
        invariant
            i <= models.len(),
            mv == models_view(models@),
            model_with_id(mv.subrange(0, i as int), model_id@).is_none(),
        decreases models.len() - i,
    {
        assert(mv.subrange(0, i + 1).drop_last() =~= mv.subrange(0, i as int));
        assert(mv[i as int] == models@[i as int]@);
        if str_eq(models[i].id.as_str(), model_id) {
            proof {
                lemma_model_with_id(mv, model_id@, i + 1);
            }
            return Some(i);
        }
        i += 1;
    }
    assert(mv.subrange(0, models.len() as int) =~= mv);
    None
}


// ---------------------------------------------------------------------------
// First matches
// ---------------------------------------------------------------------------

/// Index of the first element of `s` that satisfies `p`.
pub open spec fn first_where<A>(s: Seq<A>, p: spec_fn(A) -> bool) -> Option<int>
    decreases s.len(),
{
    if s.len() == 0 {
        None
    } else {
        match first_where(s.drop_last(), p) {
            Some(i) => Some(i),
            None => if p(s.last()) {
                Some(s.len() - 1)
            } else {
                None
            },
        }
    }
}

/// `first_where` finds the first satisfying element, or none when no
/// element satisfies `p`.
pub proof fn lemma_first_where<A>(s: Seq<A>, p: spec_fn(A) -> bool)
    ensures
        match first_where(s, p) {
            Some(i) => 0 <= i < s.len() && p(s[i]) && forall|j: int| 0 <= j < i ==> !p(s[j]),
            None => forall|j: int| 0 <= j < s.len() ==> !p(s[j]),
        },
    decreases s.len(),
{
    if s.len() > 0 {
        let d = s.drop_last();
        lemma_first_where(d, p);
        assert(forall|j: int| 0 <= j < d.len() ==> d[j] == s[j]);
    }
}

/// The first satisfying element is at `i` when `s[i]` satisfies `p` and no
/// element before it does.
pub proof fn lemma_first_where_at<A>(s: Seq<A>, p: spec_fn(A) -> bool, i: int)
    requires
        0 <= i < s.len(),
        p(s[i]),
        forall|j: int| 0 <= j < i ==> !p(s[j]),
    ensures
        first_where(s, p) == Some(i),
{
    lemma_first_where(s, p);
    match first_where(s, p) {
        Some(k) => {
            if k < i {
                assert(!p(s[k]));
            } else if k > i {
                assert(!p(s[i]));
            }
        },
        None => {
            assert(!p(s[i]));
        },
    }
}

/// No element satisfies `p`: there is no first one.
pub proof fn lemma_first_where_none<A>(s: Seq<A>, p: spec_fn(A) -> bool)
    requires
        forall|j: int| 0 <= j < s.len() ==> !p(s[j]),
    ensures
        first_where(s, p).is_none(),
{
    lemma_first_where(s, p);
    if first_where(s, p) is Some {
        let i = first_where(s, p)->0;
        assert(!p(s[i]));
    }
}

/// Candidate `c` refers to the model `model_id` whose upstream model is
/// `up`.
pub open spec fn refers_to_model(model_id: Seq<char>, up: Seq<char>) -> spec_fn(CandidateView) -> bool {
    |c: CandidateView| candidate_refers_to_model(c, model_id, up)
}

/// Some candidate of the group refers to the model.
pub open spec fn group_refers_to_model(model_id: Seq<char>, up: Seq<char>) -> spec_fn(GroupView) -> bool {
    |g: GroupView| first_where(g.candidates, refers_to_model(model_id, up)) is Some
}

/// The first (group id, candidate name) that refers to the model
/// `model_id`, groups and candidates in order; none when the model is not
/// in the catalog.
pub open spec fn model_reference(
    models: Seq<ModelView>,
    groups: Seq<GroupView>,
    model_id: Seq<char>,
) -> Option<(Seq<char>, Seq<char>)> {
    match model_with_id(models, model_id) {
        None => None,
        Some(m) => {
            let up = models[m].upstream_model;
            match first_where(groups, group_refers_to_model(model_id, up)) {
                None => None,
                Some(g) => {
                    let c = first_where(groups[g].candidates, refers_to_model(model_id, up))->0;
                    Some((groups[g].id, groups[g].candidates[c].name))
                },
            }
        },
    }
}

/// The views of a list of groups.
pub open spec fn groups_view(v: Seq<RaceGroup>) -> Seq<GroupView> {
    v.map_values(|g: RaceGroup| g@)
}

fn candidate_refers(c: &RaceCandidate, model_id: &str, up: &str) -> (r: bool)
    ensures
        r == candidate_refers_to_model(c@, model_id@, up@),
{
    match &c.model_id {
        Some(m) => str_eq(m.as_str(), model_id),
        None => {
            let t = trim_str(c.upstream_model.as_str());
            t.as_str().unicode_len() > 0 && str_eq(t.as_str(), up)
        },
    }
}

/// Position of the first candidate of `cs` that refers to the model.
fn first_referring_candidate(cs: &Vec<RaceCandidate>, model_id: &str, up: &str) -> (r: Option<usize>)
    ensures
        match r {
            Some(i) => first_where(candidates_view(cs@), refers_to_model(model_id@, up@)) == Some(
                i as int,
            ) && i < cs.len(),
            None => first_where(candidates_view(cs@), refers_to_model(model_id@, up@)).is_none(),
        },
{
    let ghost cv = candidates_view(cs@);
    let ghost p = refers_to_model(model_id@, up@);
    let mut i: usize = 0;
    while i < cs.len()
        invariant
            i <= cs.len(),
            cv == candidates_view(cs@),
            p == refers_to_model(model_id@, up@),
            forall|j: int| 0 <= j < i ==> !p(cv[j]),
        decreases cs.len() - i,
    {
        assert(cv[i as int] == cs@[i as int]@);
        if candidate_refers(&cs[i], model_id, up) {
            proof {
                lemma_first_where_at(cv, p, i as int);
            }
            return Some(i);
        }
        i += 1;
    }
    proof {
        lemma_first_where_none(cv, p);
    }
    None
}

/// The group and candidate that still refer to model `model_id`, which
/// blocks its deletion: the first group (in catalog order) with a candidate
/// bound to the model by id, or, without an id, by the model's upstream
/// model; `None` when nothing refers to it or the model is unknown.
pub fn find_model_reference(
    models: &Vec<RaceModelDescriptor>,
    groups: &Vec<RaceGroup>,
    model_id: &str,
) -> (r: Option<(String, String)>)
    ensures
        match r {
            Some((g, c)) => model_reference(models_view(models@), groups_view(groups@), model_id@)
                == Some((g@, c@)),
            None => model_reference(models_view(models@), groups_view(groups@), model_id@).is_none(),
        },
{
    let ghost mv = models_view(models@);
    let ghost gv = groups_view(groups@);
    let m = match find_model_index(models, model_id) {
        Some(m) => m,
        None => return None,
    };
    proof {
        lemma_model_with_id_prefix(mv, model_id@);
    }
    assert(mv[m as int] == models@[m as int]@);
    let up = models[m].upstream_model.as_str();
    let ghost gp = group_refers_to_model(model_id@, up@);
    let mut i: usize = 0;
    while i < groups.len()
        invariant
            i <= groups.len(),
            gv == groups_view(groups@),
            mv == models_view(models@),
            m < models.len(),
            model_with_id(mv, model_id@) == Some(m as int),
            mv[m as int].upstream_model == up@,
            gp == group_refers_to_model(model_id@, up@),
            forall|j: int| 0 <= j < i ==> !gp(gv[j]),
        decreases groups.len() - i,
    {
        assert(gv[i as int] == groups@[i as int]@);
        match first_referring_candidate(&groups[i].candidates, model_id, up) {
            Some(c) => {
                proof {
                    lemma_first_where_at(gv, gp, i as int);
                }
                assert(gv[i as int].candidates[c as int] == groups@[i as int].candidates@[c as int]@);
                assert(gv[i as int].candidates == candidates_view(groups@[i as int].candidates@));
                assert(first_where(gv[i as int].candidates, refers_to_model(model_id@, up@)) == Some(
                    c as int,
                ));
                assert(model_with_id(mv, model_id@) == Some(m as int));
                assert(mv[m as int].upstream_model == up@);
                let gid = groups[i].id.clone();
                let cname = groups[i].candidates[c].name.clone();
                assert(gid@ == gv[i as int].id);
                assert(cname@ == gv[i as int].candidates[c as int].name);
                assert(model_reference(mv, gv, model_id@) == Some((gid@, cname@)));
                return Some((gid, cname));
            },
            None => {},
        }
        i += 1;
    }
    proof {
        lemma_first_where_none(gv, gp);
    }
    None
}

// ---------------------------------------------------------------------------
// Key pool references that block a deletion
// ---------------------------------------------------------------------------

/// The name `{:?}` gives a protocol family.
pub open spec fn protocol_debug_name(p: ProtocolFamily) -> Seq<char> {
    match p {
        ProtocolFamily::OpenAi => "OpenAi"@,
        ProtocolFamily::Anthropic => "Anthropic"@,
        ProtocolFamily::Google => "Google"@,
    }
}

fn push_protocol_debug_name(out: &mut String, p: ProtocolFamily)
    ensures
        final(out)@ == old(out)@ + protocol_debug_name(p),
{
    match p {
        ProtocolFamily::OpenAi => push_str(out, "OpenAi"),
        ProtocolFamily::Anthropic => push_str(out, "Anthropic"),
        ProtocolFamily::Google => push_str(out, "Google"),
    }
}

/// The endpoint uses the key pool `id`.
pub open spec fn uses_pool(id: Seq<char>) -> spec_fn(EndpointView) -> bool {
    |e: EndpointView| e.key_pool_id == id
}

/// The model has an endpoint that uses the key pool.
pub open spec fn model_uses_pool(id: Seq<char>) -> spec_fn(ModelView) -> bool {
    |m: ModelView| first_where(m.endpoints, uses_pool(id)) is Some
}

/// The candidate has an inline endpoint that uses the key pool.
pub open spec fn candidate_uses_pool(id: Seq<char>) -> spec_fn(CandidateView) -> bool {
    |c: CandidateView| first_where(c.inline_endpoint_overrides, uses_pool(id)) is Some
}

/// The group has a candidate that uses the key pool.
pub open spec fn group_uses_pool(id: Seq<char>) -> spec_fn(GroupView) -> bool {
    |g: GroupView| first_where(g.candidates, candidate_uses_pool(id)) is Some
}

/// The message for a key pool still used by an endpoint of a model.
pub open spec fn model_pool_message(id: Seq<char>, model: Seq<char>, p: ProtocolFamily) -> Seq<char> {
    "Key 池 '"@ + id + "' 仍被模型 '"@ + model + "' 的 "@ + protocol_debug_name(p)
        + " 端点引用，请先解除引用后再删除"@
}

/// The message for a key pool still used by an inline endpoint of a
/// candidate.
pub open spec fn candidate_pool_message(
    id: Seq<char>,
    group: Seq<char>,
    candidate: Seq<char>,
    p: ProtocolFamily,
) -> Seq<char> {
    "Key 池 '"@ + id + "' 仍被竞速组 '"@ + group + "' 的候选 '"@ + candidate + "' 覆盖端点 "@
        + protocol_debug_name(p) + " 引用，请先解除引用后再删除"@
}

/// What blocks deleting key pool `id`: the first model (in order) with an
/// endpoint on it, else the first group candidate with an inline endpoint
/// on it.
pub open spec fn key_pool_reference(
    models: Seq<ModelView>,
    groups: Seq<GroupView>,
    id: Seq<char>,
) -> Option<Seq<char>> {
    match first_where(models, model_uses_pool(id)) {
        Some(m) => {
            let e = first_where(models[m].endpoints, uses_pool(id))->0;
            Some(model_pool_message(id, models[m].id, models[m].endpoints[e].protocol_family))
        },
        None => match first_where(groups, group_uses_pool(id)) {
            Some(g) => {
                let c = first_where(groups[g].candidates, candidate_uses_pool(id))->0;
                let cand = groups[g].candidates[c];
                let e = first_where(cand.inline_endpoint_overrides, uses_pool(id))->0;
                Some(
                    candidate_pool_message(
                        id,
                        groups[g].id,
                        cand.name,
                        cand.inline_endpoint_overrides[e].protocol_family,
                    ),
                )
            },
            None => None,
        },
    }
}

/// Position of the first endpoint that uses key pool `id`.
fn first_endpoint_on_pool(eps: &Vec<crate::domain::types::RaceTargetEndpoint>, id: &str) -> (r: Option<usize>)
    ensures
        match r {
            Some(i) => first_where(endpoints_view(eps@), uses_pool(id@)) == Some(i as int) && i
                < eps.len(),
            None => first_where(endpoints_view(eps@), uses_pool(id@)).is_none(),
        },
{
    let ghost ev = endpoints_view(eps@);
    let ghost p = uses_pool(id@);
    let mut i: usize = 0;
    while i < eps.len()
        invariant
            i <= eps.len(),
            ev == endpoints_view(eps@),
            p == uses_pool(id@),
            forall|j: int| 0 <= j < i ==> !p(ev[j]),
        decreases eps.len() - i,
    {
        assert(ev[i as int] == eps@[i as int]@);
        if str_eq(eps[i].key_pool_id.as_str(), id) {
            proof {
                lemma_first_where_at(ev, p, i as int);
            }
            return Some(i);
        }
        i += 1;
    }
    proof {
        lemma_first_where_none(ev, p);
    }
    None
}

/// Position of the first candidate with an inline endpoint on key pool
/// `id`, with the position of that endpoint.
fn first_candidate_on_pool(cs: &Vec<RaceCandidate>, id: &str) -> (r: Option<(usize, usize)>)
    ensures
        match r {
            Some((i, e)) => first_where(candidates_view(cs@), candidate_uses_pool(id@)) == Some(
                i as int,
            ) && i < cs.len() && first_where(
                endpoints_view(cs@[i as int].inline_endpoint_overrides@),
                uses_pool(id@),
            ) == Some(e as int) && e < cs@[i as int].inline_endpoint_overrides.len(),
            None => first_where(candidates_view(cs@), candidate_uses_pool(id@)).is_none(),
        },
{
    let ghost cv = candidates_view(cs@);
    let ghost p = candidate_uses_pool(id@);
    let mut i: usize = 0;
    while i < cs.len()
        invariant
            i <= cs.len(),
            cv == candidates_view(cs@),
            p == candidate_uses_pool(id@),
            forall|j: int| 0 <= j < i ==> !p(cv[j]),
        decreases cs.len() - i,
    {
        assert(cv[i as int] == cs@[i as int]@);
        match first_endpoint_on_pool(&cs[i].inline_endpoint_overrides, id) {
            Some(e) => {
                proof {
                    lemma_first_where_at(cv, p, i as int);
                }
                return Some((i, e));
            },
            None => {},
        }
        i += 1;
    }
    proof {
        lemma_first_where_none(cv, p);
    }
    None
}

/// What still uses key pool `key_pool_id` and so blocks its deletion: a
/// message naming the first model with an endpoint on the pool, else the
/// first group candidate with an inline endpoint on it; `None` when nothing
/// uses it.
pub fn find_key_pool_reference(
    models: &Vec<RaceModelDescriptor>,
    groups: &Vec<RaceGroup>,
    key_pool_id: &str,
) -> (r: Option<String>)
    ensures
        match r {
            Some(s) => key_pool_reference(models_view(models@), groups_view(groups@), key_pool_id@)
                == Some(s@),
            None => key_pool_reference(models_view(models@), groups_view(groups@), key_pool_id@).is_none(),
        },
{
    let ghost mv = models_view(models@);
    let ghost gv = groups_view(groups@);
    let ghost mp = model_uses_pool(key_pool_id@);
    let mut i: usize = 0;
    while i < models.len()
        invariant
            i <= models.len(),
            mv == models_view(models@),
            mp == model_uses_pool(key_pool_id@),
            forall|j: int| 0 <= j < i ==> !mp(mv[j]),
        decreases models.len() - i,
    {
        assert(mv[i as int] == models@[i as int]@);
        match first_endpoint_on_pool(&models[i].endpoints, key_pool_id) {
            Some(e) => {
                proof {
                    lemma_first_where_at(mv, mp, i as int);
                }
                let mut out = String::new();
                push_str(&mut out, "Key 池 '");
                push_str(&mut out, key_pool_id);
                push_str(&mut out, "' 仍被模型 '");
                push_str(&mut out, models[i].id.as_str());
                push_str(&mut out, "' 的 ");
                push_protocol_debug_name(&mut out, models[i].endpoints[e].protocol_family);
                push_str(&mut out, " 端点引用，请先解除引用后再删除");
                assert(mv[i as int].endpoints[e as int] == models@[i as int].endpoints@[e as int]@);
                assert(out@ =~= model_pool_message(
                    key_pool_id@,
                    mv[i as int].id,
                    mv[i as int].endpoints[e as int].protocol_family,
                ));
                return Some(out);
            },
            None => {},
        }
        i += 1;
    }
    proof {
        lemma_first_where_none(mv, mp);
    }
    let ghost gp = group_uses_pool(key_pool_id@);
    let mut g: usize = 0;
    while g < groups.len()
        invariant
            g <= groups.len(),
            gv == groups_view(groups@),
            mv == models_view(models@),
            gp == group_uses_pool(key_pool_id@),
            first_where(mv, model_uses_pool(key_pool_id@)).is_none(),
            forall|j: int| 0 <= j < g ==> !gp(gv[j]),
        decreases groups.len() - g,
    {
        assert(gv[g as int] == groups@[g as int]@);
        match first_candidate_on_pool(&groups[g].candidates, key_pool_id) {
            Some((c, e)) => {
                proof {
                    lemma_first_where_at(gv, gp, g as int);
                }
                let cand = &groups[g].candidates[c];
                let mut out = String::new();
                push_str(&mut out, "Key 池 '");
                push_str(&mut out, key_pool_id);
                push_str(&mut out, "' 仍被竞速组 '");
                push_str(&mut out, groups[g].id.as_str());
                push_str(&mut out, "' 的候选 '");
                push_str(&mut out, cand.name.as_str());
                push_str(&mut out, "' 覆盖端点 ");
                push_protocol_debug_name(&mut out, cand.inline_endpoint_overrides[e].protocol_family);
                push_str(&mut out, " 引用，请先解除引用后再删除");
                assert(gv[g as int].candidates[c as int] == cand@);
                assert(cand@.inline_endpoint_overrides[e as int]
                    == cand.inline_endpoint_overrides@[e as int]@);
                assert(out@ =~= candidate_pool_message(
                    key_pool_id@,
                    gv[g as int].id,
                    cand@.name,
                    cand@.inline_endpoint_overrides[e as int].protocol_family,
                ));
                return Some(out);
            },
            None => {},
        }
        g += 1;
    }
    proof {
        lemma_first_where_none(gv, gp);
    }
    None
}


// ---------------------------------------------------------------------------
// Candidate ids
// ---------------------------------------------------------------------------

/// An ASCII letter or digit.
pub open spec fn is_ascii_alnum(c: char) -> bool {
    ('0' <= c && c <= '9') || ('a' <= c && c <= 'z') || ('A' <= c && c <= 'Z')
}

/// `c` with ASCII upper case letters turned to lower case.
pub open spec fn ascii_lower(c: char) -> char {
    if 'A' <= c && c <= 'Z' {
        (((c as u32) + 32) as u8) as char
    } else {
        c
    }
}

/// The slug of the first `k` characters of `name`: its runs of ASCII
/// letters and digits, lower-cased, joined by `-`.
pub open spec fn slug_prefix(name: Seq<char>, k: int) -> Seq<char>
    decreases k,
{
    if k <= 0 {
        seq![]
    } else {
        let prev = slug_prefix(name, k - 1);
        let c = name[k - 1];
        if !is_ascii_alnum(c) {
            prev
        } else if k >= 2 && is_ascii_alnum(name[k - 2]) {
            prev.push(ascii_lower(c))
        } else if prev.len() == 0 {
            prev.push(ascii_lower(c))
        } else {
            prev.push('-').push(ascii_lower(c))
        }
    }
}

/// The slug of a candidate name.
pub open spec fn slug(name: Seq<char>) -> Seq<char> {
    slug_prefix(name, name.len() as int)
}

/// The id generated for candidate `index` of group `group_id`: the group
/// id and the slug of the name, or, for a name without letters or digits,
/// the group id and the candidate's 1-based position.
pub open spec fn generated_id(group_id: Seq<char>, name: Seq<char>, index: nat) -> Seq<char> {
    if slug(name).len() == 0 {
        group_id + "-candidate-"@ + decimal(index + 1)
    } else {
        group_id + "-"@ + slug(name)
    }
}

fn char_is_ascii_alnum(c: char) -> (r: bool)
    ensures
        r == is_ascii_alnum(c),
{
    ('0' <= c && c <= '9') || ('a' <= c && c <= 'z') || ('A' <= c && c <= 'Z')
}

pub(crate) fn char_ascii_lower(c: char) -> (r: char)
    ensures
        r == ascii_lower(c),
{
    if 'A' <= c && c <= 'Z' {
        let u = c as u32;
        ((u + 32) as u8) as char
    } else {
        c
    }
}

/// An id for a candidate submitted without one (see `generated_id`).
pub fn generated_candidate_id(group_id: &str, candidate_name: &str, index: usize) -> (r: String)
    requires
        index < usize::MAX,
    ensures
        r@ == generated_id(group_id@, candidate_name@, index as nat),
{
    let name = chars_of(candidate_name);
    let mut slug_s = String::new();
    let mut i: usize = 0;
    while i < name.len()
        invariant
            i <= name.len(),
            slug_s@ == slug_prefix(name@, i as int),
        decreases name.len() - i,
    {
        let c = name[i];
        if char_is_ascii_alnum(c) {
            let lower = char_ascii_lower(c);
            if i >= 1 && char_is_ascii_alnum(name[i - 1]) {
                push_char(&mut slug_s, lower);
            } else if slug_s.as_str().unicode_len() == 0 {
                push_char(&mut slug_s, lower);
            } else {
                push_char(&mut slug_s, '-');
                push_char(&mut slug_s, lower);
            }
        }
        i += 1;
    }
    let mut out = String::new();
    push_str(&mut out, group_id);
    if slug_s.as_str().unicode_len() == 0 {
        push_str(&mut out, "-candidate-");
        push_decimal(&mut out, index + 1);
        assert(out@ =~= group_id@ + "-candidate-"@ + decimal((index + 1) as nat));
    } else {
        push_str(&mut out, "-");
        push_str(&mut out, slug_s.as_str());
        assert(out@ =~= group_id@ + "-"@ + slug_s@);
    }
    out
}


// ---------------------------------------------------------------------------
// Group requests
// ---------------------------------------------------------------------------

/// The candidate names a model id that is not blank.
pub open spec fn has_model_id(c: CandidateView) -> bool {
    match c.model_id {
        Some(m) => !is_blank(m),
        None => false,
    }
}

/// The issue of a candidate whose (trimmed, non-blank) model id is not in
/// the catalog.
pub open spec fn unknown_model_issues(c: CandidateView, i: int, models: Seq<ModelView>) -> Seq<IssueView> {
    match c.model_id {
        Some(m) => if !is_blank(m) && model_with_id(models, trim(m)).is_none() {
            seq![
                issue(
                    cand_field(i, "].model_id"@),
                    "unknown_model"@,
                    "model '"@ + trim(m) + "' does not exist"@,
                ),
            ]
        } else {
            seq![]
        },
        None => seq![],
    }
}

/// The issues of binding candidate `i` to a model of the catalog: none when
/// it binds; when it binds to none, one if it has only an upstream model
/// and no inline endpoint; when binding fails, one carrying the reason.
pub open spec fn binding_issues(c: CandidateView, i: int, models: Seq<ModelView>) -> Seq<IssueView> {
    match model_binding(c, models) {
        ModelBinding::Bound(_) => seq![],
        ModelBinding::Unbound => if c.inline_endpoint_overrides.len() == 0 && !is_blank(
            c.upstream_model,
        ) && !has_model_id(c) {
            seq![
                issue(
                    cand_field(i, "].upstream_model"@),
                    "unresolved_candidate_target"@,
                    "candidate upstream_model does not match any model descriptor and no inline endpoint override is configured"@,
                ),
            ]
        } else {
            seq![]
        },
        ModelBinding::Failed(e) => seq![
            issue(
                cand_field(i, "].upstream_model"@),
                "ambiguous_upstream_model"@,
                resolve_error_message(e),
            ),
        ],
    }
}

/// The field of the key pool of inline endpoint `j` of candidate `i`.
pub open spec fn inline_pool_field(i: int, j: int) -> Seq<char> {
    cand_field(i, "].inline_endpoint_overrides["@) + decimal(j as nat) + "].key_pool_id"@
}

/// The key pool reference issues of the first `k` inline endpoints of
/// candidate `i`.
pub open spec fn inline_ref_issues(
    eps: Seq<EndpointView>,
    i: int,
    pools: Seq<KeyPoolView>,
    k: int,
) -> Seq<IssueView>
    decreases k,
{
    if k <= 0 {
        seq![]
    } else {
        inline_ref_issues(eps, i, pools, k - 1) + key_pool_ref_issues(
            inline_pool_field(i, k - 1),
            trim(eps[k - 1].key_pool_id),
            pools,
        )
    }
}

/// The catalog issues of candidate `i`: an unknown model id, a missing
/// model source, a failed binding, then its inline endpoints' key pools.
pub open spec fn candidate_request_issues(
    c: CandidateView,
    i: int,
    models: Seq<ModelView>,
    pools: Seq<KeyPoolView>,
) -> Seq<IssueView> {
    unknown_model_issues(c, i, models) + (if is_blank(c.upstream_model) && !has_model_id(c) {
        seq![
            issue(
                cand_field(i, "].upstream_model"@),
                "required"@,
                "candidate must provide upstream_model or bind a model_id"@,
            ),
        ]
    } else {
        seq![]
    }) + binding_issues(c, i, models) + inline_ref_issues(
        c.inline_endpoint_overrides,
        i,
        pools,
        c.inline_endpoint_overrides.len() as int,
    )
}

/// The catalog issues of the first `k` candidates.
pub open spec fn candidates_request_issues(
    cs: Seq<CandidateView>,
    models: Seq<ModelView>,
    pools: Seq<KeyPoolView>,
    k: int,
) -> Seq<IssueView>
    decreases k,
{
    if k <= 0 {
        seq![]
    } else {
        candidates_request_issues(cs, models, pools, k - 1) + candidate_request_issues(
            cs[k - 1],
            k - 1,
            models,
            pools,
        )
    }
}

/// The issues of a submitted group: those of the group itself, then each
/// candidate's issues against the catalog.
pub open spec fn group_request_issues(g: GroupView, models: Seq<ModelView>, pools: Seq<KeyPoolView>) -> Seq<
    IssueView,
> {
    group_issues(g) + candidates_request_issues(g.candidates, models, pools, g.candidates.len() as int)
}

fn candidate_has_model_id(c: &RaceCandidate) -> (r: bool)
    ensures
        r == has_model_id(c@),
{
    match &c.model_id {
        Some(m) => !str_is_blank(m.as_str()),
        None => false,
    }
}

/// Records the catalog issues of candidate `i` of `cs`.
fn validate_candidate_request(
    builder: &mut ValidationBuilder,
    cs: &Vec<RaceCandidate>,
    i: usize,
    models: &Vec<RaceModelDescriptor>,
    pools: &Vec<RaceKeyPool>,
)
    requires
        i < cs.len(),
    ensures
        final(builder).spec_issues() == old(builder).spec_issues() + candidate_request_issues(
            cs@[i as int]@,
            i as int,
            models_view(models@),
            pools_view(pools@),
        ),
{
    let c = &cs[i];
    let ghost mv = models_view(models@);
    let ghost pv = pools_view(pools@);
    let ghost start = builder.spec_issues();
    let has_mid = candidate_has_model_id(c);
    match &c.model_id {
        Some(m) => {
            if has_mid {
                let t = trim_str(m.as_str());
                if find_model_index(models, t.as_str()).is_none() {
                    let field = indexed_field("candidates[", i, "].model_id");
                    let mut message = String::new();
                    push_str(&mut message, "model '");
                    push_str(&mut message, t.as_str());
                    push_str(&mut message, "' does not exist");
                    assert(message@ =~= "model '"@ + t@ + "' does not exist"@);
                    builder.push(field.as_str(), "unknown_model", message.as_str());
                }
            }
        },
        None => {},
    }
    assert(builder.spec_issues() =~= start + unknown_model_issues(c@, i as int, mv));
    let ghost after_unknown = builder.spec_issues();
    let has_inline = c.inline_endpoint_overrides.len() > 0;
    let has_up = !str_is_blank(c.upstream_model.as_str());
    if !has_up && !has_mid {
        let field = indexed_field("candidates[", i, "].upstream_model");
        builder.push(
            field.as_str(),
            "required",
            "candidate must provide upstream_model or bind a model_id",
        );
    }
    let ghost after_required = builder.spec_issues();
    match resolve_model_for_candidate(c, models) {
        Ok(Some(_)) => {},
        Ok(None) => {
            if !has_inline && has_up && !has_mid {
                let field = indexed_field("candidates[", i, "].upstream_model");
                builder.push(
                    field.as_str(),
                    "unresolved_candidate_target",
                    "candidate upstream_model does not match any model descriptor and no inline endpoint override is configured",
                );
            }
        },
        Err(e) => {
            let field = indexed_field("candidates[", i, "].upstream_model");
            let message = e.message();
            builder.push(field.as_str(), "ambiguous_upstream_model", message.as_str());
        },
    }
    assert(builder.spec_issues() =~= after_required + binding_issues(c@, i as int, mv));
    let ghost after_binding = builder.spec_issues();
    let ghost ev = endpoints_view(c.inline_endpoint_overrides@);
    let mut j: usize = 0;
    while j < c.inline_endpoint_overrides.len()
        invariant
            j <= c.inline_endpoint_overrides.len(),
            ev == endpoints_view(c.inline_endpoint_overrides@),
            ev == c@.inline_endpoint_overrides,
            pv == pools_view(pools@),
            builder.spec_issues() == after_binding + inline_ref_issues(ev, i as int, pv, j as int),
        decreases c.inline_endpoint_overrides.len() - j,
    {
        let mut field = indexed_field("candidates[", i, "].inline_endpoint_overrides[");
        push_decimal(&mut field, j);
        push_str(&mut field, "].key_pool_id");
        assert(field@ =~= inline_pool_field(i as int, j as int));
        let id = trim_str(c.inline_endpoint_overrides[j].key_pool_id.as_str());
        assert(ev[j as int] == c.inline_endpoint_overrides@[j as int]@);
        validate_key_pool_reference(builder, field.as_str(), id.as_str(), pools);
        assert(builder.spec_issues() =~= after_binding + inline_ref_issues(
            ev,
            i as int,
            pv,
            j + 1,
        ));
        j += 1;
    }
    assert(builder.spec_issues() =~= start + candidate_request_issues(c@, i as int, mv, pv));
}

/// Validates a submitted group against the catalog: the group's own rules,
/// then for each candidate a model id the catalog lacks, a missing model
/// source, a binding that fails or (with only an upstream model and no
/// inline endpoint) binds to no model, and each inline endpoint's key pool.
/// Valid exactly when there is no issue. What the issues say, candidate by
/// candidate, is proved in `request_laws::law_group_request_issues`.
pub fn validate_group_request(
    group: &RaceGroup,
    models: &Vec<RaceModelDescriptor>,
    pools: &Vec<RaceKeyPool>,
) -> (r: ValidationErrorResponse)
    ensures
        issues_view(r.issues@) == group_request_issues(
            group@,
            models_view(models@),
            pools_view(pools@),
        ),
        r.valid == (r.issues@.len() == 0),
{
    let mut validation = validate_group(group);
    let mut builder = ValidationBuilder::new();
    let ghost cv = candidates_view(group.candidates@);
    let ghost mv = models_view(models@);
    let ghost pv = pools_view(pools@);
    let mut i: usize = 0;
    while i < group.candidates.len()
        invariant
            i <= group.candidates.len(),
            cv == candidates_view(group.candidates@),
            mv == models_view(models@),
            pv == pools_view(pools@),
            builder.spec_issues() == candidates_request_issues(cv, mv, pv, i as int),
        decreases group.candidates.len() - i,
    {
        validate_candidate_request(&mut builder, &group.candidates, i, models, pools);
        assert(cv[i as int] == group.candidates@[i as int]@);
        i += 1;
    }
    let extra = builder.finish();
    add_issues(&mut validation, extra);
    assert(issues_view(validation.issues@) =~= group_request_issues(group@, mv, pv));
    validation
}


// ---------------------------------------------------------------------------
// Normalizing submitted groups
// ---------------------------------------------------------------------------

/// The upstream model a candidate takes from its model: when it names a
/// model id, has a blank upstream model, and the catalog has that id.
pub open spec fn inherited_upstream(c: CandidateView, models: Seq<ModelView>) -> Option<Seq<char>> {
    match c.model_id {
        Some(m) => if is_blank(c.upstream_model) {
            match model_with_id(models, m) {
                Some(k) => Some(trim(models[k].upstream_model)),
                None => None,
            }
        } else {
            None
        },
        None => None,
    }
}

/// Candidate `i` of group `group_id` once normalized: it belongs to the
/// group, gets a generated id when its id is blank, and takes its model's
/// upstream model when it has none of its own.
pub open spec fn normalized_candidate(
    c: CandidateView,
    group_id: Seq<char>,
    i: int,
    models: Seq<ModelView>,
) -> CandidateView {
    CandidateView {
        group_id: group_id,
        id: if is_blank(c.id) {
            generated_id(group_id, c.name, i as nat)
        } else {
            c.id
        },
        upstream_model: match inherited_upstream(c, models) {
            Some(u) => u,
            None => c.upstream_model,
        },
        ..c
    }
}

/// Normalizes a submitted group (see `normalized_candidate`); nothing
/// else changes.
pub fn normalize_group_request(group: &mut RaceGroup, models: &Vec<RaceModelDescriptor>)
    ensures
        final(group)@ == (GroupView {
            candidates: Seq::new(
                old(group)@.candidates.len(),
                |i: int|
                    normalized_candidate(
                        old(group)@.candidates[i],
                        old(group)@.id,
                        i,
                        models_view(models@),
                    ),
            ),
            ..old(group)@
        }),
{
    let ghost mv = models_view(models@);
    let ghost oc = old(group)@.candidates;
    let mut out: Vec<RaceCandidate> = Vec::new();
    let mut i: usize = 0;
    while i < group.candidates.len()
        invariant
            i <= group.candidates.len(),
            mv == models_view(models@),
            oc == candidates_view(group.candidates@),
            out.len() == i,
            forall|k: int|
                0 <= k < i ==> (#[trigger] out@[k])@ == normalized_candidate(
                    oc[k],
                    group@.id,
                    k,
                    mv,
                ),
        decreases group.candidates.len() - i,
    {
        let mut c = group.candidates[i].clone();
        assert(c@ == oc[i as int]);
        c.group_id = group.id.clone();
        if str_is_blank(c.id.as_str()) {
            c.id = generated_candidate_id(group.id.as_str(), c.name.as_str(), i);
        }
        let inherited: Option<String> = match &c.model_id {
            Some(m) => {
                if str_is_blank(c.upstream_model.as_str()) {
                    match find_model_index(models, m.as_str()) {
                        Some(k) => {
                            proof {
                                lemma_model_with_id_prefix(mv, m@);
                            }
                            assert(mv[k as int] == models@[k as int]@);
                            Some(trim_str(models[k].upstream_model.as_str()))
                        },
                        None => None,
                    }
                } else {
                    None
                }
            },
            None => None,
        };
        match inherited {
            Some(u) => {
                c.upstream_model = u;
            },
            None => {},
        }
        assert(c@ == normalized_candidate(oc[i as int], group@.id, i as int, mv));
        out.push(c);
        i += 1;
    }
    group.candidates = out;
    assert(final(group)@.candidates =~= Seq::new(
        oc.len(),
        |i: int| normalized_candidate(oc[i], old(group)@.id, i, mv),
    ));
}

// ---------------------------------------------------------------------------
// Secrets in key pools
// ---------------------------------------------------------------------------

/// The pool with every secret masked (see `masked`); the rest unchanged.
pub open spec fn masked_pool(before: KeyPoolView, after: KeyPoolView) -> bool {
    &&& after.id == before.id
    &&& after.display_name == before.display_name
    &&& after.auth_strategy == before.auth_strategy
    &&& after.selection_strategy == before.selection_strategy
    &&& after.enabled == before.enabled
    &&& after.keys.len() == before.keys.len()
    &&& forall|k: int|
        0 <= k < before.keys.len() ==> {
            &&& (#[trigger] after.keys[k]) == (KeyView { secret: after.keys[k].secret, ..before.keys[k] })
            &&& masked(before.keys[k].secret, after.keys[k].secret)
        }
}

/// The pool as shown in responses: every secret masked.
pub fn mask_key_pool_for_response(pool: RaceKeyPool) -> (r: RaceKeyPool)
    requires
        forall|k: int| 0 <= k < pool.keys.len() ==> boundary_at(trim((#[trigger] pool.keys@[k]).secret@), 8),
    ensures
        masked_pool(pool@, r@),
{
    let mut keys: Vec<RaceKey> = Vec::new();
    let mut i: usize = 0;
    while i < pool.keys.len()
        invariant
            i <= pool.keys.len(),
            forall|k: int| 0 <= k < pool.keys.len() ==> boundary_at(trim((#[trigger] pool.keys@[k]).secret@), 8),
            keys.len() == i,
            forall|k: int|
                0 <= k < i ==> {
                    &&& (#[trigger] keys@[k])@ == (KeyView { secret: keys@[k]@.secret, ..pool.keys@[k]@ })
                    &&& masked(pool.keys@[k]@.secret, keys@[k]@.secret)
                },
        decreases pool.keys.len() - i,
    {
        let mut k = pool.keys[i].clone();
        k.secret = mask_key(pool.keys[i].secret.as_str());
        keys.push(k);
        i += 1;
    }
    let r = RaceKeyPool {
        id: pool.id,
        display_name: pool.display_name,
        auth_strategy: pool.auth_strategy,
        selection_strategy: pool.selection_strategy,
        enabled: pool.enabled,
        keys,
    };
    assert forall|k: int| 0 <= k < pool@.keys.len() implies {
        &&& (#[trigger] r@.keys[k]) == (KeyView { secret: r@.keys[k].secret, ..pool@.keys[k] })
        &&& masked(pool@.keys[k].secret, r@.keys[k].secret)
    } by {
        assert(r@.keys[k] == r.keys@[k]@);
        assert(pool@.keys[k] == pool.keys@[k]@);
    }
    r
}

/// The secret submitted for a key is a placeholder: blank, or a masked
/// value.
pub open spec fn placeholder_secret(s: Seq<char>) -> bool {
    is_blank(s) || contains_seq(s, "***"@)
}

/// Key `k` of a submitted pool `pool_id` once its stored secret is
/// restored: it belongs to the pool, and a placeholder secret is replaced
/// by the stored secret of the key with the same id, when there is one.
pub open spec fn restored_key(k: KeyView, pool_id: Seq<char>, stored: Option<KeyPoolView>) -> KeyView {
    let secret = if placeholder_secret(k.secret) {
        match stored {
            Some(p) => match first_where(p.keys, |x: KeyView| x.id == k.id) {
                Some(j) => p.keys[j].secret,
                None => k.secret,
            },
            None => k.secret,
        }
    } else {
        k.secret
    };
    KeyView { key_pool_id: pool_id, secret: secret, ..k }
}

/// The view of an optional stored pool.
pub open spec fn stored_pool_view(stored: Option<&RaceKeyPool>) -> Option<KeyPoolView> {
    match stored {
        Some(p) => Some(p@),
        None => None,
    }
}

/// Every key of a submitted pool once restored (see `restored_key`).
pub open spec fn restored_keys(keys: Seq<KeyView>, pool_id: Seq<char>, stored: Option<KeyPoolView>) -> Seq<
    KeyView,
> {
    Seq::new(keys.len(), |k: int| restored_key(keys[k], pool_id, stored))
}

/// A masked secret is always a placeholder.
proof fn lemma_masked_is_placeholder(secret: Seq<char>, out: Seq<char>)
    requires
        masked(secret, out),
    ensures
        placeholder_secret(out),
{
    if trim(secret).len() == 0 {
        assert(trim(out).len() == 0);
    } else {
        let t = trim(secret);
        let k = choose|k: int|
            is_byte_prefix(t, k, if utf8_len(t) < 8 {
                utf8_len(t) as int
            } else {
                8
            }) && out == t.subrange(0, k) + "***"@;
        let pre = t.subrange(0, k);
        reveal_strlit("***");
        assert(out.subrange(pre.len() as int, pre.len() + 3int) =~= "***"@);
        assert(occurs_at(out, "***"@, pre.len() as int));
    }
}

/// A pool shown with its secrets masked, submitted back unchanged, gets
/// every stored secret back: restoring it against the stored pool gives the
/// stored keys, as long as the stored keys have distinct ids and name the
/// pool they belong to.
pub proof fn law_restore_undoes_mask(stored: KeyPoolView, shown: KeyPoolView)
    requires
        masked_pool(stored, shown),
        forall|i: int, j: int|
            0 <= i < j < stored.keys.len() ==> (#[trigger] stored.keys[i]).id != (#[trigger] stored.keys[j]).id,
        forall|k: int| 0 <= k < stored.keys.len() ==> (#[trigger] stored.keys[k]).key_pool_id == stored.id,
    ensures
        restored_keys(shown.keys, shown.id, Some(stored)) == stored.keys,
{
    assert forall|k: int| 0 <= k < stored.keys.len() implies restored_key(
        shown.keys[k],
        shown.id,
        Some(stored),
    ) == stored.keys[k] by {
        let sk = shown.keys[k];
        assert(sk == (KeyView { secret: sk.secret, ..stored.keys[k] }));
        lemma_masked_is_placeholder(stored.keys[k].secret, sk.secret);
        let q = |x: KeyView| x.id == sk.id;
        assert forall|j: int| 0 <= j < k implies !q(stored.keys[j]) by {
            assert(stored.keys[j].id != stored.keys[k].id);
        }
        lemma_first_where_at(stored.keys, q, k);
    }
    assert(restored_keys(shown.keys, shown.id, Some(stored)) =~= stored.keys);
}

/// Position of the first key with the id `id`.
fn find_key_index(keys: &Vec<RaceKey>, id: &str) -> (r: Option<usize>)
    ensures
        match r {
            Some(j) => first_where(keys_view(keys@), |x: KeyView| x.id == id@) == Some(j as int) && j
                < keys.len(),
            None => first_where(keys_view(keys@), |x: KeyView| x.id == id@).is_none(),
        },
{
    let ghost kv = keys_view(keys@);
    let ghost q = |x: KeyView| x.id == id@;
    let mut j: usize = 0;
    while j < keys.len()
        invariant
            j <= keys.len(),
            kv == keys_view(keys@),
            q == (|x: KeyView| x.id == id@),
            forall|m: int| 0 <= m < j ==> !q(kv[m]),
        decreases keys.len() - j,
    {
        assert(kv[j as int] == keys@[j as int]@);
        if str_eq(keys[j].id.as_str(), id) {
            proof {
                lemma_first_where_at(kv, q, j as int);
            }
            return Some(j);
        }
        j += 1;
    }
    proof {
        lemma_first_where_none(kv, q);
    }
    None
}

/// Binds every key of a submitted pool to the pool and gives back the
/// stored secret of keys submitted with a placeholder (blank or masked).
pub fn restore_key_secrets(pool: &mut RaceKeyPool, stored: Option<&RaceKeyPool>)
    ensures
        final(pool)@ == (KeyPoolView {
            keys: restored_keys(old(pool)@.keys, old(pool)@.id, stored_pool_view(stored)),
            ..old(pool)@
        }),
{
    let ghost sv = stored_pool_view(stored);
    let ghost ok = old(pool)@.keys;
    let stars = chars_of("***");
    let mut out: Vec<RaceKey> = Vec::new();
    let mut i: usize = 0;
    while i < pool.keys.len()
        invariant
            i <= pool.keys.len(),
            ok == keys_view(pool.keys@),
            *pool == *old(pool),
            stars@ == "***"@,
            sv == stored_pool_view(stored),
            out.len() == i,
            forall|k: int| 0 <= k < i ==> (#[trigger] out@[k])@ == restored_key(ok[k], pool@.id, sv),
        decreases pool.keys.len() - i,
    {
        let mut k = pool.keys[i].clone();
        assert(k@ == ok[i as int]);
        k.key_pool_id = pool.id.clone();
        let secret_chars = chars_of(k.secret.as_str());
        let placeholder = str_is_blank(k.secret.as_str()) || crate::text::contains_chars(
            &secret_chars,
            &stars,
        );
        if placeholder {
            match stored {
                Some(p) => {
                    match find_key_index(&p.keys, k.id.as_str()) {
                        Some(j) => {
                            assert(keys_view(p.keys@)[j as int] == p.keys@[j as int]@);
                            k.secret = p.keys[j].secret.clone();
                        },
                        None => {},
                    }
                },
                None => {},
            }
        }
        assert(k@ == restored_key(ok[i as int], pool@.id, sv));
        out.push(k);
        i += 1;
    }
    let ghost id0 = pool@.id;
    pool.keys = out;
    assert(keys_view(pool.keys@) =~= restored_keys(ok, id0, sv));
}


// ---------------------------------------------------------------------------
// Group listings
// ---------------------------------------------------------------------------

/// The protocol families that a candidate of `cs` can be raced on: those of
/// its enabled inline endpoints, and those of the enabled endpoints of the
/// model it binds to in `models`.
pub open spec fn reachable_protocol_set(cs: Seq<CandidateView>, models: Seq<ModelView>) -> Set<
    ProtocolFamily,
> {
    Set::new(
        |p: ProtocolFamily|
            exists|i: int|
                0 <= i < cs.len() && (enabled_protocol_set(
                    (#[trigger] cs[i]).inline_endpoint_overrides,
                ).contains(p) || bound_model_has(cs[i], models, p)),
    )
}

/// The candidate binds to a model with an enabled endpoint of protocol `p`.
pub open spec fn bound_model_has(c: CandidateView, models: Seq<ModelView>, p: ProtocolFamily) -> bool {
    match model_binding(c, models) {
        ModelBinding::Bound(m) => enabled_protocol_set(m.endpoints).contains(p),
        _ => false,
    }
}

/// A group's listing as the administration shows it: like its own
/// summary, but the protocol families also count the models that its
/// candidates bind to in `models` (sorted, without duplicates).
pub fn summarize_group_from_cache(group: &RaceGroup, models: &Vec<RaceModelDescriptor>) -> (r:
    RaceGroupSummary)
    ensures
        r.id == group.id,
        r.display_name == group.display_name,
        r.enabled == group.enabled,
        r.candidate_count == group.candidates.len(),
        r.enabled_candidate_count == enabled_candidate_count(candidates_view(group.candidates@)),
        r.protocol_families@ == sorted_protocols(
            reachable_protocol_set(candidates_view(group.candidates@), models_view(models@)),
        ),
        strings_view(r.candidate_names@) == candidates_view(group.candidates@).map_values(
            |c: CandidateView| c.name,
        ),
{
    let ghost cv = candidates_view(group.candidates@);
    let ghost mv = models_view(models@);
    let mut seen: [bool; 3] = [false, false, false];
    let mut i: usize = 0;
    while i < group.candidates.len()
        invariant
            i <= group.candidates.len(),
            cv == candidates_view(group.candidates@),
            mv == models_view(models@),
            forall|p: ProtocolFamily|
                #![trigger protocol_index(p)]
                seen@[protocol_index(p) as int] == exists|j: int|
                    0 <= j < i && (enabled_protocol_set(
                        (#[trigger] cv[j]).inline_endpoint_overrides,
                    ).contains(p) || bound_model_has(cv[j], mv, p)),
        decreases group.candidates.len() - i,
    {
        let c = &group.candidates[i];
        assert(cv[i as int] == c@);
        let ghost before = seen@;
        mark_enabled_protocols(&mut seen, &c.inline_endpoint_overrides);
        let ghost mid = seen@;
        let bound = resolve_model_for_candidate(c, models);
        match &bound {
            Ok(Some(m)) => {
                mark_enabled_protocols(&mut seen, &m.endpoints);
            },
            _ => {},
        }
        proof {
            assert forall|p: ProtocolFamily|
                #![trigger protocol_index(p)]
                seen@[protocol_index(p) as int] == exists|j: int|
                    0 <= j < i + 1 && (enabled_protocol_set(
                        (#[trigger] cv[j]).inline_endpoint_overrides,
                    ).contains(p) || bound_model_has(cv[j], mv, p)) by {
                if enabled_protocol_set(cv[i as int].inline_endpoint_overrides).contains(p)
                    || bound_model_has(cv[i as int], mv, p) {
                    assert(0 <= i < i + 1);
                }
            }
        }
        i += 1;
    }
    let protocol_families = protocols_from_flags(&seen);
    proof {
        assert(Set::new(|p: ProtocolFamily| seen@[protocol_index(p) as int]) =~= reachable_protocol_set(
            cv,
            mv,
        ));
    }
    let mut summary = group.summary();
    summary.protocol_families = protocol_families;
    summary
}


// ---------------------------------------------------------------------------
// Updating a group under an id
// ---------------------------------------------------------------------------

/// What an update of the group at a path does with the ids.
#[derive(Debug)]
pub enum GroupPut {
    /// Save the group under `id`, replacing the group at `previous_id`.
    Proceed { previous_id: String, id: String },
    /// The group is renamed, but no group is stored at the path.
    NotFound { previous_id: String },
    /// The group is renamed to an id another group already has.
    Conflict { id: String },
}

/// The id a group update saves under: the submitted id, or the (trimmed)
/// path id when the submitted one is blank.
pub open spec fn put_target_id(path_id: Seq<char>, submitted_id: Seq<char>) -> Seq<char> {
    if is_blank(submitted_id) {
        trim(path_id)
    } else {
        submitted_id
    }
}

/// Decides an update of the group at `path_id` submitted with the id
/// `submitted_id`: a blank submitted id keeps the path's; a rename needs a
/// group at the path and no group under the new id.
pub fn check_group_put(cache: &crate::catalog::ConfigSnapshotCache, path_id: &str, submitted_id: &str) -> (r:
    GroupPut)
    requires
        cache.wf(),
    ensures
        ({
            let prev = trim(path_id@);
            let id = put_target_id(path_id@, submitted_id@);
            let groups = cache@.groups.dom();
            match r {
                GroupPut::Proceed { previous_id, id: target } => previous_id@ == prev && target@ == id && (prev
                    != id ==> groups.contains(prev) && !groups.contains(id)),
                GroupPut::NotFound { previous_id } => previous_id@ == prev && prev != id && !groups.contains(prev),
                GroupPut::Conflict { id: target } => target@ == id && prev != id && groups.contains(prev)
                    && groups.contains(id),
            }
        }),
{
    let previous_id = trim_str(path_id);
    let id = if str_is_blank(submitted_id) {
        previous_id.clone()
    } else {
        submitted_id.to_string()
    };
    if !str_eq(previous_id.as_str(), id.as_str()) {
        if cache.get_group(previous_id.as_str()).is_none() {
            return GroupPut::NotFound { previous_id };
        }
        if cache.get_group(id.as_str()).is_some() {
            return GroupPut::Conflict { id };
        }
    }
    GroupPut::Proceed { previous_id, id }
}

} // verus!
