//! Structural validation of model descriptors, race groups and key pools.
//!
//! Each validator returns every issue it finds, in a fixed order, and the
//! result is valid exactly when no issue was found.
use vstd::prelude::*;

use crate::domain::types::{
    candidates_view, endpoints_view, issues_view, keys_view, CandidateView, EndpointView,
    GroupView, IssueView, KeyPoolView, KeyView, ModelView, ProtocolFamily, RaceCandidate, RaceGroup,
    RaceKey, RaceKeyPool, RaceModelDescriptor, RaceTargetEndpoint, ValidationErrorResponse,
    ValidationIssue,
};
use crate::text::{
    chars_eq, chars_of, decimal, indexed_field, is_blank, push_str, str_is_blank, trim, trim_bounds,
};

verus! {

/// Smallest accepted candidate response-protection timeout.
pub const MIN_RESPONSE_PROTECTION_TIMEOUT_MS: u64 = 1_000;

/// Largest accepted candidate response-protection timeout.
pub const MAX_RESPONSE_PROTECTION_TIMEOUT_MS: u64 = 120_000;

/// Largest number of candidates in one group.
pub const MAX_CANDIDATES_PER_GROUP: usize = 8;

/// An issue made of three texts.
pub open spec fn issue(field: Seq<char>, code: Seq<char>, message: Seq<char>) -> IssueView {
    IssueView { field, code, message }
}

/// `x` when `c` holds, nothing otherwise.
pub open spec fn when(c: bool, x: IssueView) -> Seq<IssueView> {
    if c {
        seq![x]
    } else {
        seq![]
    }
}

/// Collects validation issues in the order they are found.
pub struct ValidationBuilder {
    issues: Vec<ValidationIssue>,
}

impl ValidationBuilder {
    /// The issues collected so far.
    pub closed spec fn spec_issues(&self) -> Seq<IssueView> {
        issues_view(self.issues@)
    }

    /// A builder with no issue.
    pub fn new() -> (r: Self)
        ensures
            r.spec_issues() == Seq::<IssueView>::empty(),
    {
        let r = ValidationBuilder { issues: Vec::new() };
        assert(r.spec_issues() =~= Seq::<IssueView>::empty());
        r
    }

    /// Records one issue after those collected so far.
    pub fn push(&mut self, field: &str, code: &str, message: &str)
        ensures
            final(self).spec_issues() == old(self).spec_issues().push(
                issue(field@, code@, message@),
            ),
    {
        let i = ValidationIssue {
            field: field.to_owned(),
            code: code.to_owned(),
            message: message.to_owned(),
        };
        self.issues.push(i);
        assert(final(self).spec_issues() =~= old(self).spec_issues().push(
            issue(field@, code@, message@),
        ));
    }

    /// The collected issues, valid exactly when there are none.
    pub fn finish(self) -> (r: ValidationErrorResponse)
        ensures
            issues_view(r.issues@) == self.spec_issues(),
            r.valid == (self.spec_issues().len() == 0),
    {
        let valid = self.issues.len() == 0;
        ValidationErrorResponse { valid, issues: self.issues }
    }
}

impl Default for ValidationBuilder {
    fn default() -> (r: Self)
        ensures
            r.spec_issues() == Seq::<IssueView>::empty(),
    {
        ValidationBuilder::new()
    }
}

/// Number of enabled endpoints among `eps`.
pub open spec fn enabled_endpoint_count(eps: Seq<EndpointView>) -> nat
    decreases eps.len(),
{
    if eps.len() == 0 {
        0
    } else {
        enabled_endpoint_count(eps.drop_last()) + if eps.last().enabled {
            1nat
        } else {
            0nat
        }
    }
}

/// Endpoint `i` is enabled and an earlier enabled endpoint has its protocol.
pub open spec fn duplicate_protocol_at(eps: Seq<EndpointView>, i: int) -> bool {
    eps[i].enabled && exists|j: int|
        0 <= j < i && eps[j].enabled && eps[j].protocol_family == eps[i].protocol_family
}

/// The duplicate-protocol issues of the first `k` endpoints; the field of
/// endpoint `i` is `prefix`, `i`, `suffix`.
pub open spec fn duplicate_protocol_issues(
    eps: Seq<EndpointView>,
    k: int,
    prefix: Seq<char>,
    suffix: Seq<char>,
    root: Seq<char>,
) -> Seq<IssueView>
    decreases k,
{
    if k <= 0 {
        seq![]
    } else {
        duplicate_protocol_issues(eps, k - 1, prefix, suffix, root) + when(
            duplicate_protocol_at(eps, k - 1),
            issue(
                prefix + decimal((k - 1) as nat) + suffix,
                "duplicate_enabled_protocol"@,
                root + " cannot contain duplicate enabled protocol_family"@,
            ),
        )
    }
}

/// No two enabled endpoints of `eps` share a protocol family.
pub open spec fn enabled_protocols_unique(eps: Seq<EndpointView>) -> bool {
    forall|i: int, j: int|
        0 <= j < i < eps.len() && eps[i].enabled && eps[j].enabled ==> eps[i].protocol_family
            != eps[j].protocol_family
}

proof fn lemma_duplicate_issues_empty(
    eps: Seq<EndpointView>,
    k: int,
    prefix: Seq<char>,
    suffix: Seq<char>,
    root: Seq<char>,
)
    requires
        0 <= k <= eps.len(),
    ensures
        duplicate_protocol_issues(eps, k, prefix, suffix, root).len() == 0 <==> forall|i: int|
            0 <= i < k ==> !#[trigger] duplicate_protocol_at(eps, i),
    decreases k,
{
    if k > 0 {
        lemma_duplicate_issues_empty(eps, k - 1, prefix, suffix, root);
    }
}

proof fn lemma_unique_iff(eps: Seq<EndpointView>)
    ensures
        enabled_protocols_unique(eps) <==> forall|i: int|
            0 <= i < eps.len() ==> !#[trigger] duplicate_protocol_at(eps, i),
{
    if enabled_protocols_unique(eps) {
        assert forall|i: int| 0 <= i < eps.len() implies !#[trigger] duplicate_protocol_at(
            eps,
            i,
        ) by {
            if duplicate_protocol_at(eps, i) {
                let j = choose|j: int|
                    0 <= j < i && eps[j].enabled && eps[j].protocol_family
                        == eps[i].protocol_family;
                assert(false);
            }
        }
    }
    if forall|i: int| 0 <= i < eps.len() ==> !#[trigger] duplicate_protocol_at(eps, i) {
        assert forall|i: int, j: int|
            0 <= j < i < eps.len() && eps[i].enabled && eps[j].enabled implies eps[i].protocol_family
            != eps[j].protocol_family by {
            assert(!duplicate_protocol_at(eps, i));
        }
    }
}

fn protocol_slot(p: ProtocolFamily) -> (r: usize)
    ensures
        r < 3,
        r == protocol_index(p),
{
    match p {
        ProtocolFamily::OpenAi => 0,
        ProtocolFamily::Anthropic => 1,
        ProtocolFamily::Google => 2,
    }
}

/// A distinct number for each protocol family.
pub open spec fn protocol_index(p: ProtocolFamily) -> nat {
    match p {
        ProtocolFamily::OpenAi => 0,
        ProtocolFamily::Anthropic => 1,
        ProtocolFamily::Google => 2,
    }
}

/// Records an issue for every enabled endpoint whose protocol family an
/// earlier enabled endpoint already has.
pub fn validate_endpoint_uniqueness(
    builder: &mut ValidationBuilder,
    eps: &Vec<RaceTargetEndpoint>,
    prefix: &str,
    suffix: &str,
    root: &str,
)
    ensures
        final(builder).spec_issues() == old(builder).spec_issues() + duplicate_protocol_issues(
            endpoints_view(eps@),
            eps@.len() as int,
            prefix@,
            suffix@,
            root@,
        ),
{
    let ghost ev = endpoints_view(eps@);
    let mut seen: [bool; 3] = [false, false, false];
    let mut i: usize = 0;
    let mut message = String::new();
    push_str(&mut message, root);
    push_str(&mut message, " cannot contain duplicate enabled protocol_family");
    while i < eps.len()
        invariant
            i <= eps.len(),
            ev == endpoints_view(eps@),
            message@ == root@ + " cannot contain duplicate enabled protocol_family"@,
            forall|p: ProtocolFamily|
                #![trigger protocol_index(p)]
                seen@[protocol_index(p) as int] == exists|j: int|
                    0 <= j < i && ev[j].enabled && ev[j].protocol_family == p,
            builder.spec_issues() == old(builder).spec_issues() + duplicate_protocol_issues(
                ev,
                i as int,
                prefix@,
                suffix@,
                root@,
            ),
        decreases eps.len() - i,
    {
        let ghost prev = builder.spec_issues();
        let e = &eps[i];
        let slot = protocol_slot(e.protocol_family);
        assert(ev[i as int] == e@);
        if e.enabled {
            if seen[slot] {
                let field = indexed_field(prefix, i, suffix);
                builder.push(field.as_str(), "duplicate_enabled_protocol", message.as_str());
            } else {
                seen[slot] = true;
            }
        }
        proof {
            assert(duplicate_protocol_at(ev, i as int) == (e.enabled && old(builder).spec_issues()
                .len() >= 0 && exists|j: int|
                0 <= j < i && ev[j].enabled && ev[j].protocol_family == e.protocol_family));
            assert forall|p: ProtocolFamily|
                #![trigger protocol_index(p)]
                seen@[protocol_index(p) as int] == exists|j: int|
                    0 <= j < i + 1 && ev[j].enabled && ev[j].protocol_family == p by {
                if p == e.protocol_family && e.enabled {
                    assert(ev[i as int].enabled && ev[i as int].protocol_family == p);
                }
                if protocol_index(p) != slot {
                    assert(p != e.protocol_family);
                }
            }
            assert(builder.spec_issues() =~= old(builder).spec_issues() + duplicate_protocol_issues(
                ev,
                i + 1,
                prefix@,
                suffix@,
                root@,
            ));
        }
        i += 1;
    }
}

// ---------------------------------------------------------------------------
// Model descriptors
// ---------------------------------------------------------------------------

/// The issues of a model descriptor, in the order they are reported.
pub open spec fn model_issues(m: ModelView) -> Seq<IssueView> {
    when(is_blank(m.id), issue("id"@, "required"@, "model id cannot be empty"@)) + when(
        is_blank(m.display_name),
        issue("display_name"@, "required"@, "display_name cannot be empty"@),
    ) + when(
        is_blank(m.upstream_model),
        issue("upstream_model"@, "required"@, "upstream_model cannot be empty"@),
    ) + when(
        enabled_endpoint_count(m.endpoints) == 0,
        issue(
            "endpoints"@,
            "missing_enabled_endpoint"@,
            "at least one enabled endpoint is required"@,
        ),
    ) + duplicate_protocol_issues(
        m.endpoints,
        m.endpoints.len() as int,
        "endpoints["@,
        "].protocol_family"@,
        "endpoints"@,
    )
}

/// A model descriptor is valid: it has an id, a display name and an upstream
/// model, at least one enabled endpoint, and no two enabled endpoints of the
/// same protocol family.
pub open spec fn model_is_valid(m: ModelView) -> bool {
    &&& !is_blank(m.id)
    &&& !is_blank(m.display_name)
    &&& !is_blank(m.upstream_model)
    &&& enabled_endpoint_count(m.endpoints) > 0
    &&& enabled_protocols_unique(m.endpoints)
}

/// Number of enabled endpoints of `eps`.
pub fn count_enabled_endpoints(eps: &Vec<RaceTargetEndpoint>) -> (r: usize)
    ensures
        r == enabled_endpoint_count(endpoints_view(eps@)),
{
    let mut n: usize = 0;
    let mut i: usize = 0;
    while i < eps.len()
        invariant
            i <= eps.len(),
            n <= i,
            n == enabled_endpoint_count(endpoints_view(eps@.subrange(0, i as int))),
        decreases eps.len() - i,
    {
        assert(endpoints_view(eps@.subrange(0, i + 1)).drop_last() =~= endpoints_view(
            eps@.subrange(0, i as int),
        ));
        if eps[i].enabled {
            n += 1;
        }
        i += 1;
    }
    assert(eps@.subrange(0, eps.len() as int) =~= eps@);
    n
}

/// Checks a model descriptor: id, display name and upstream model must not
/// be blank, at least one endpoint must be enabled, and no two enabled
/// endpoints may share a protocol family. What the issues say, and how many
/// duplicates are counted, is proved in
/// `domain::laws::law_model_descriptor_issues`.
pub fn validate_model_descriptor(model: &RaceModelDescriptor) -> (r: ValidationErrorResponse)
    ensures
        issues_view(r.issues@) == model_issues(model@),
        r.valid == (r.issues@.len() == 0),
        r.valid == model_is_valid(model@),
{
    let mut builder = ValidationBuilder::new();
    if str_is_blank(model.id.as_str()) {
        builder.push("id", "required", "model id cannot be empty");
    }
    if str_is_blank(model.display_name.as_str()) {
        builder.push("display_name", "required", "display_name cannot be empty");
    }
    if str_is_blank(model.upstream_model.as_str()) {
        builder.push("upstream_model", "required", "upstream_model cannot be empty");
    }
    if count_enabled_endpoints(&model.endpoints) == 0 {
        builder.push(
            "endpoints",
            "missing_enabled_endpoint",
            "at least one enabled endpoint is required",
        );
    }
    validate_endpoint_uniqueness(
        &mut builder,
        &model.endpoints,
        "endpoints[",
        "].protocol_family",
        "endpoints",
    );
    proof {
        let m = model@;
        assert(builder.spec_issues() =~= model_issues(m));
        lemma_duplicate_issues_empty(
            m.endpoints,
            m.endpoints.len() as int,
            "endpoints["@,
            "].protocol_family"@,
            "endpoints"@,
        );
        lemma_unique_iff(m.endpoints);
    }
    builder.finish()
}

// ---------------------------------------------------------------------------
// Race groups
// ---------------------------------------------------------------------------

/// Number of enabled candidates among `cs`.
pub open spec fn enabled_candidate_count(cs: Seq<CandidateView>) -> nat
    decreases cs.len(),
{
    if cs.len() == 0 {
        0
    } else {
        enabled_candidate_count(cs.drop_last()) + if cs.last().enabled {
            1nat
        } else {
            0nat
        }
    }
}

/// Candidate `i`'s trimmed name is not blank and equals the trimmed name of
/// an earlier candidate.
pub open spec fn duplicate_name_at(cs: Seq<CandidateView>, i: int) -> bool {
    exists|j: int|
        0 <= j < i && !is_blank(cs[j].name) && trim(cs[j].name) == trim(cs[i].name)
}

/// The candidate names neither a model id nor an upstream model.
pub open spec fn lacks_model_source(c: CandidateView) -> bool {
    &&& match c.model_id {
        Some(id) => is_blank(id),
        None => true,
    }
    &&& is_blank(c.upstream_model)
}

/// The candidate's response-protection timeout is outside the accepted range.
pub open spec fn timeout_out_of_range(c: CandidateView) -> bool {
    c.response_protection_timeout_ms < MIN_RESPONSE_PROTECTION_TIMEOUT_MS
        || c.response_protection_timeout_ms > MAX_RESPONSE_PROTECTION_TIMEOUT_MS
}

/// `candidates[i]` followed by `suffix`.
pub open spec fn cand_field(i: int, suffix: Seq<char>) -> Seq<char> {
    "candidates["@ + decimal(i as nat) + suffix
}

/// The issues of candidate `i` of `cs`, in the order they are reported.
pub open spec fn candidate_issues(cs: Seq<CandidateView>, i: int) -> Seq<IssueView> {
    let c = cs[i];
    when(
        is_blank(c.id),
        issue(cand_field(i, "].id"@), "required"@, "candidate id cannot be empty"@),
    ) + (if is_blank(c.name) {
        seq![issue(cand_field(i, "].name"@), "required"@, "candidate name cannot be empty"@)]
    } else {
        when(
            duplicate_name_at(cs, i),
            issue(
                cand_field(i, "].name"@),
                "duplicate_candidate_name"@,
                "candidate name must be unique inside the group"@,
            ),
        )
    }) + when(
        lacks_model_source(c),
        issue(
            cand_field(i, "].upstream_model"@),
            "required"@,
            "candidate must provide upstream_model or model_id"@,
        ),
    ) + when(
        timeout_out_of_range(c),
        issue(
            cand_field(i, "].response_protection_timeout_ms"@),
            "out_of_range"@,
            "response_protection_timeout_ms must be between 1000 and 120000"@,
        ),
    ) + duplicate_protocol_issues(
        c.inline_endpoint_overrides,
        c.inline_endpoint_overrides.len() as int,
        cand_field(i, "].inline_endpoint_overrides["@),
        "].protocol_family"@,
        cand_field(i, "].inline_endpoint_overrides"@),
    )
}

/// The issues of the first `k` candidates.
pub open spec fn candidates_issues(cs: Seq<CandidateView>, k: int) -> Seq<IssueView>
    decreases k,
{
    if k <= 0 {
        seq![]
    } else {
        candidates_issues(cs, k - 1) + candidate_issues(cs, k - 1)
    }
}

/// The issues of a group, in the order they are reported.
pub open spec fn group_issues(g: GroupView) -> Seq<IssueView> {
    when(is_blank(g.id), issue("id"@, "required"@, "group id cannot be empty"@)) + when(
        is_blank(g.display_name),
        issue("display_name"@, "required"@, "display_name cannot be empty"@),
    ) + when(
        g.candidates.len() == 0,
        issue("candidates"@, "missing_candidates"@, "at least one candidate is required"@),
    ) + when(
        g.candidates.len() > MAX_CANDIDATES_PER_GROUP,
        issue(
            "candidates"@,
            "too_many_candidates"@,
            "a group can contain at most 8 candidates"@,
        ),
    ) + when(
        enabled_candidate_count(g.candidates) == 0,
        issue(
            "candidates"@,
            "missing_enabled_candidate"@,
            "at least one enabled candidate is required"@,
        ),
    ) + candidates_issues(g.candidates, g.candidates.len() as int)
}

/// One candidate of a group is acceptable.
pub open spec fn candidate_is_valid(c: CandidateView) -> bool {
    &&& !is_blank(c.id)
    &&& !is_blank(c.name)
    &&& !lacks_model_source(c)
    &&& !timeout_out_of_range(c)
    &&& enabled_protocols_unique(c.inline_endpoint_overrides)
}

/// A group is valid: it has an id and a display name, between one and
/// eight candidates of which at least one is enabled, every candidate is
/// acceptable, and no two candidates have the same trimmed name.
pub open spec fn group_is_valid(g: GroupView) -> bool {
    &&& !is_blank(g.id)
    &&& !is_blank(g.display_name)
    &&& 1 <= g.candidates.len() <= MAX_CANDIDATES_PER_GROUP
    &&& enabled_candidate_count(g.candidates) > 0
    &&& forall|i: int| 0 <= i < g.candidates.len() ==> candidate_is_valid(#[trigger] g.candidates[i])
    &&& forall|i: int, j: int|
        0 <= j < i < g.candidates.len() ==> trim(#[trigger] g.candidates[i].name) != trim(
            #[trigger] g.candidates[j].name,
        )
}

proof fn lemma_candidate_issues_empty(cs: Seq<CandidateView>, i: int)
    requires
        0 <= i < cs.len(),
    ensures
        candidate_issues(cs, i).len() == 0 <==> (candidate_is_valid(cs[i]) && !duplicate_name_at(
            cs,
            i,
        )),
{
    let c = cs[i];
    lemma_duplicate_issues_empty(
        c.inline_endpoint_overrides,
        c.inline_endpoint_overrides.len() as int,
        cand_field(i, "].inline_endpoint_overrides["@),
        "].protocol_family"@,
        cand_field(i, "].inline_endpoint_overrides"@),
    );
    lemma_unique_iff(c.inline_endpoint_overrides);
}

proof fn lemma_candidates_issues_empty(cs: Seq<CandidateView>, k: int)
    requires
        0 <= k <= cs.len(),
    ensures
        candidates_issues(cs, k).len() == 0 <==> forall|i: int|
            0 <= i < k ==> candidate_is_valid(#[trigger] cs[i]) && !duplicate_name_at(cs, i),
    decreases k,
{
    if k > 0 {
        lemma_candidates_issues_empty(cs, k - 1);
        lemma_candidate_issues_empty(cs, k - 1);
    }
}

proof fn lemma_group_valid(g: GroupView)
    ensures
        (group_issues(g).len() == 0) == group_is_valid(g),
{
    let cs = g.candidates;
    lemma_candidates_issues_empty(cs, cs.len() as int);
    if group_issues(g).len() == 0 {
        assert forall|i: int, j: int|
            0 <= j < i < cs.len() implies trim(#[trigger] cs[i].name) != trim(#[trigger] cs[j].name) by {
            assert(candidate_is_valid(cs[i]) && !duplicate_name_at(cs, i));
            assert(candidate_is_valid(cs[j]));
        }
    }
    if group_is_valid(g) {
        assert forall|i: int| 0 <= i < cs.len() implies candidate_is_valid(#[trigger] cs[i])
            && !duplicate_name_at(cs, i) by {
            if duplicate_name_at(cs, i) {
                let j = choose|j: int|
                    0 <= j < i && !is_blank(cs[j].name) && trim(cs[j].name) == trim(cs[i].name);
                assert(trim(cs[i].name) != trim(cs[j].name));
            }
        }
    }
}

/// Number of enabled candidates of `cs`.
pub fn count_enabled_candidates(cs: &Vec<RaceCandidate>) -> (r: usize)
    ensures
        r == enabled_candidate_count(candidates_view(cs@)),
{
    let mut n: usize = 0;
    let mut i: usize = 0;
    while i < cs.len()
        invariant
            i <= cs.len(),
            n <= i,
            n == enabled_candidate_count(candidates_view(cs@.subrange(0, i as int))),
        decreases cs.len() - i,
    {
        assert(candidates_view(cs@.subrange(0, i + 1)).drop_last() =~= candidates_view(
            cs@.subrange(0, i as int),
        ));
        if cs[i].enabled {
            n += 1;
        }
        i += 1;
    }
    assert(cs@.subrange(0, cs.len() as int) =~= cs@);
    n
}

/// Trimmed characters of `s`.
fn trimmed_chars(s: &str) -> (r: Vec<char>)
    ensures
        r@ == trim(s@),
{
    let v = chars_of(s);
    let (a, b) = trim_bounds(&v);
    copy_chars(&v, a, b)
}

/// Whether a candidate before `index` has a non-blank name whose trimmed
/// form is `name`.
fn earlier_candidate_named(cs: &Vec<RaceCandidate>, index: usize, name: &Vec<char>) -> (r: bool)
    requires
        index <= cs.len(),
    ensures
        r == exists|j: int|
            0 <= j < index && !is_blank(cs@[j].name@) && trim(cs@[j].name@) == name@,
{
    let mut j: usize = 0;
    while j < index
        invariant
            j <= index <= cs.len(),
            forall|t: int|
                0 <= t < j ==> !(!is_blank(cs@[t].name@) && trim(cs@[t].name@) == name@),
        decreases index - j,
    {
        let t = trimmed_chars(cs[j].name.as_str());
        if t.len() > 0 && chars_eq(&t, name) {
            return true;
        }
        j += 1;
    }
    false
}

/// Whether a key before `index` has a non-blank id whose trimmed form is
/// `id`.
fn earlier_key_with_id(ks: &Vec<RaceKey>, index: usize, id: &Vec<char>) -> (r: bool)
    requires
        index <= ks.len(),
    ensures
        r == exists|j: int| 0 <= j < index && !is_blank(ks@[j].id@) && trim(ks@[j].id@) == id@,
{
    let mut j: usize = 0;
    while j < index
        invariant
            j <= index <= ks.len(),
            forall|t: int| 0 <= t < j ==> !(!is_blank(ks@[t].id@) && trim(ks@[t].id@) == id@),
        decreases index - j,
    {
        let t = trimmed_chars(ks[j].id.as_str());
        if t.len() > 0 && chars_eq(&t, id) {
            return true;
        }
        j += 1;
    }
    false
}

/// Records the issues of candidate `index`: its name and model-source
/// checks.
fn validate_candidate_name(builder: &mut ValidationBuilder, cs: &Vec<RaceCandidate>, index: usize)
    requires
        index < cs.len(),
    ensures
        final(builder).spec_issues() == old(builder).spec_issues() + (if is_blank(
            cs@[index as int].name@,
        ) {
            seq![issue(cand_field(index as int, "].name"@), "required"@, "candidate name cannot be empty"@)]
        } else {
            when(
                duplicate_name_at(candidates_view(cs@), index as int),
                issue(
                    cand_field(index as int, "].name"@),
                    "duplicate_candidate_name"@,
                    "candidate name must be unique inside the group"@,
                ),
            )
        }),
{
    let ghost cv = candidates_view(cs@);
    let c = &cs[index];
    let trimmed = trimmed_chars(c.name.as_str());
    if trimmed.len() == 0 {
        let f = indexed_field("candidates[", index, "].name");
        builder.push(f.as_str(), "required", "candidate name cannot be empty");
        assert(final(builder).spec_issues() =~= old(builder).spec_issues() + seq![
            issue(cand_field(index as int, "].name"@), "required"@, "candidate name cannot be empty"@)]);
    } else {
        let dup = earlier_candidate_named(cs, index, &trimmed);
        proof {
            assert(dup == duplicate_name_at(cv, index as int)) by {
                if dup {
                    let j = choose|j: int|
                        0 <= j < index && !is_blank(cs@[j].name@) && trim(cs@[j].name@)
                            == trimmed@;
                    assert(cv[j] == cs@[j]@);
                }
                if duplicate_name_at(cv, index as int) {
                    let j = choose|j: int|
                        0 <= j < index && !is_blank(cv[j].name) && trim(cv[j].name) == trim(
                            cv[index as int].name,
                        );
                    assert(cv[j] == cs@[j]@);
                }
            }
        }
        if dup {
            let f = indexed_field("candidates[", index, "].name");
            builder.push(
                f.as_str(),
                "duplicate_candidate_name",
                "candidate name must be unique inside the group",
            );
        }
        assert(final(builder).spec_issues() =~= old(builder).spec_issues() + when(
            duplicate_name_at(cv, index as int),
            issue(
                cand_field(index as int, "].name"@),
                "duplicate_candidate_name"@,
                "candidate name must be unique inside the group"@,
            ),
        ));
    }
}

/// Checks one candidate, recording its issues.
#[verifier::rlimit(30)]
fn validate_candidate(builder: &mut ValidationBuilder, cs: &Vec<RaceCandidate>, index: usize)
    requires
        index < cs.len(),
    ensures
        final(builder).spec_issues() == old(builder).spec_issues() + candidate_issues(
            candidates_view(cs@),
            index as int,
        ),
{
    let ghost cv = candidates_view(cs@);
    let c = &cs[index];
    assert(cv[index as int] == c@);
    if str_is_blank(c.id.as_str()) {
        let f = indexed_field("candidates[", index, "].id");
        builder.push(f.as_str(), "required", "candidate id cannot be empty");
    }
    let ghost s1 = builder.spec_issues();
    validate_candidate_name(builder, cs, index);
    let ghost s2 = builder.spec_issues();
    let model_blank = match &c.model_id {
        Some(id) => str_is_blank(id.as_str()),
        None => true,
    };
    if model_blank && str_is_blank(c.upstream_model.as_str()) {
        let f = indexed_field("candidates[", index, "].upstream_model");
        builder.push(
            f.as_str(),
            "required",
            "candidate must provide upstream_model or model_id",
        );
    }
    if c.response_protection_timeout_ms < MIN_RESPONSE_PROTECTION_TIMEOUT_MS
        || c.response_protection_timeout_ms > MAX_RESPONSE_PROTECTION_TIMEOUT_MS {
        let f = indexed_field("candidates[", index, "].response_protection_timeout_ms");
        builder.push(
            f.as_str(),
            "out_of_range",
            "response_protection_timeout_ms must be between 1000 and 120000",
        );
    }
    let prefix = indexed_field("candidates[", index, "].inline_endpoint_overrides[");
    let root = indexed_field("candidates[", index, "].inline_endpoint_overrides");
    validate_endpoint_uniqueness(
        builder,
        &c.inline_endpoint_overrides,
        prefix.as_str(),
        "].protocol_family",
        root.as_str(),
    );
    proof {
        assert(builder.spec_issues() =~= old(builder).spec_issues() + candidate_issues(
            cv,
            index as int,
        ));
    }
}

/// Copies `v[from..to]` into a new vector.
pub fn copy_chars(v: &Vec<char>, from: usize, to: usize) -> (r: Vec<char>)
    requires
        from <= to <= v.len(),
    ensures
        r@ == v@.subrange(from as int, to as int),
{
    let mut out: Vec<char> = Vec::new();
    let mut i = from;
    while i < to
        invariant
            from <= i <= to <= v.len(),
            out@ == v@.subrange(from as int, i as int),
        decreases to - i,
    {
        out.push(v[i]);
        i += 1;
        assert(out@ =~= v@.subrange(from as int, i as int));
    }
    out
}

/// Checks a race group: id and display name must not be blank; there must
/// be between one and eight candidates, at least one enabled; every
/// candidate needs an id, a name unique in the group, a model id or an
/// upstream model, a response-protection timeout between 1 and 120 seconds,
/// and no duplicate enabled protocol among its inline endpoint overrides.
/// What the issues say, code by code and candidate by candidate, is proved
/// in `domain::laws::law_group_issues` and `law_group_candidate_issues`.
pub fn validate_group(group: &RaceGroup) -> (r: ValidationErrorResponse)
    ensures
        issues_view(r.issues@) == group_issues(group@),
        r.valid == (r.issues@.len() == 0),
        r.valid == group_is_valid(group@),
{
    let mut builder = ValidationBuilder::new();
    if str_is_blank(group.id.as_str()) {
        builder.push("id", "required", "group id cannot be empty");
    }
    if str_is_blank(group.display_name.as_str()) {
        builder.push("display_name", "required", "display_name cannot be empty");
    }
    if group.candidates.len() == 0 {
        builder.push("candidates", "missing_candidates", "at least one candidate is required");
    }
    if group.candidates.len() > MAX_CANDIDATES_PER_GROUP {
        builder.push(
            "candidates",
            "too_many_candidates",
            "a group can contain at most 8 candidates",
        );
    }
    if count_enabled_candidates(&group.candidates) == 0 {
        builder.push(
            "candidates",
            "missing_enabled_candidate",
            "at least one enabled candidate is required",
        );
    }
    let ghost header = builder.spec_issues();
    let ghost cv = candidates_view(group.candidates@);
    let mut i: usize = 0;
    while i < group.candidates.len()
        invariant
            i <= group.candidates.len(),
            cv == candidates_view(group.candidates@),
            builder.spec_issues() == header + candidates_issues(cv, i as int),
        decreases group.candidates.len() - i,
    {
        validate_candidate(&mut builder, &group.candidates, i);
        assert(builder.spec_issues() =~= header + candidates_issues(cv, i + 1));
        i += 1;
    }
    proof {
        assert(builder.spec_issues() =~= group_issues(group@));
        lemma_group_valid(group@);
    }
    builder.finish()
}

// ---------------------------------------------------------------------------
// Key pools
// ---------------------------------------------------------------------------

/// Number of enabled keys among `ks`.
pub open spec fn enabled_key_count(ks: Seq<KeyView>) -> nat
    decreases ks.len(),
{
    if ks.len() == 0 {
        0
    } else {
        enabled_key_count(ks.drop_last()) + if ks.last().enabled {
            1nat
        } else {
            0nat
        }
    }
}

/// Key `i`'s trimmed id equals that of an earlier key with a non-blank id.
pub open spec fn duplicate_key_id_at(ks: Seq<KeyView>, i: int) -> bool {
    exists|j: int| 0 <= j < i && !is_blank(ks[j].id) && trim(ks[j].id) == trim(ks[i].id)
}

/// `keys[i]` followed by `suffix`.
pub open spec fn key_field(i: int, suffix: Seq<char>) -> Seq<char> {
    "keys["@ + decimal(i as nat) + suffix
}

/// The issues of key `i`.
pub open spec fn key_issues(ks: Seq<KeyView>, i: int) -> Seq<IssueView> {
    (if is_blank(ks[i].id) {
        seq![issue(key_field(i, "].id"@), "required"@, "key id cannot be empty"@)]
    } else {
        when(
            duplicate_key_id_at(ks, i),
            issue(
                key_field(i, "].id"@),
                "duplicate_key_id"@,
                "key id must be unique inside the pool"@,
            ),
        )
    }) + when(
        is_blank(ks[i].secret),
        issue(key_field(i, "].secret"@), "required"@, "key secret cannot be empty"@),
    )
}

/// The issues of the first `k` keys.
pub open spec fn keys_issues(ks: Seq<KeyView>, k: int) -> Seq<IssueView>
    decreases k,
{
    if k <= 0 {
        seq![]
    } else {
        keys_issues(ks, k - 1) + key_issues(ks, k - 1)
    }
}

/// The issues of a key pool, in the order they are reported.
pub open spec fn key_pool_issues(p: KeyPoolView) -> Seq<IssueView> {
    when(is_blank(p.id), issue("id"@, "required"@, "key pool id cannot be empty"@)) + when(
        is_blank(p.display_name),
        issue("display_name"@, "required"@, "display_name cannot be empty"@),
    ) + when(
        enabled_key_count(p.keys) == 0,
        issue("keys"@, "missing_enabled_key"@, "at least one enabled key is required"@),
    ) + keys_issues(p.keys, p.keys.len() as int)
}

/// A key pool is valid: it has an id and a display name, at least one
/// enabled key, every key has an id and a secret, and no two keys have the
/// same trimmed id.
pub open spec fn key_pool_is_valid(p: KeyPoolView) -> bool {
    &&& !is_blank(p.id)
    &&& !is_blank(p.display_name)
    &&& enabled_key_count(p.keys) > 0
    &&& forall|i: int|
        0 <= i < p.keys.len() ==> !is_blank((#[trigger] p.keys[i]).id) && !is_blank(
            p.keys[i].secret,
        )
    &&& forall|i: int, j: int|
        0 <= j < i < p.keys.len() ==> trim(#[trigger] p.keys[i].id) != trim(
            #[trigger] p.keys[j].id,
        )
}

proof fn lemma_keys_issues_empty(ks: Seq<KeyView>, k: int)
    requires
        0 <= k <= ks.len(),
    ensures
        keys_issues(ks, k).len() == 0 <==> forall|i: int|
            0 <= i < k ==> !is_blank((#[trigger] ks[i]).id) && !is_blank(ks[i].secret)
                && !duplicate_key_id_at(ks, i),
    decreases k,
{
    if k > 0 {
        lemma_keys_issues_empty(ks, k - 1);
    }
}

proof fn lemma_key_pool_valid(p: KeyPoolView)
    ensures
        (key_pool_issues(p).len() == 0) == key_pool_is_valid(p),
{
    let ks = p.keys;
    lemma_keys_issues_empty(ks, ks.len() as int);
    if key_pool_issues(p).len() == 0 {
        assert forall|i: int, j: int|
            0 <= j < i < ks.len() implies trim(#[trigger] ks[i].id) != trim(#[trigger] ks[j].id) by {
            assert(!duplicate_key_id_at(ks, i));
            assert(!is_blank(ks[j].id));
        }
    }
    if key_pool_is_valid(p) {
        assert forall|i: int| 0 <= i < ks.len() implies !is_blank((#[trigger] ks[i]).id)
            && !is_blank(ks[i].secret) && !duplicate_key_id_at(ks, i) by {
            if duplicate_key_id_at(ks, i) {
                let j = choose|j: int|
                    0 <= j < i && !is_blank(ks[j].id) && trim(ks[j].id) == trim(ks[i].id);
                assert(trim(ks[i].id) != trim(ks[j].id));
            }
        }
    }
}

/// Number of enabled keys of `ks`.
pub fn count_enabled_keys(ks: &Vec<RaceKey>) -> (r: usize)
    ensures
        r == enabled_key_count(keys_view(ks@)),
{
    let mut n: usize = 0;
    let mut i: usize = 0;
    while i < ks.len()
        invariant
            i <= ks.len(),
            n <= i,
            n == enabled_key_count(keys_view(ks@.subrange(0, i as int))),
        decreases ks.len() - i,
    {
        assert(keys_view(ks@.subrange(0, i + 1)).drop_last() =~= keys_view(
            ks@.subrange(0, i as int),
        ));
        if ks[i].enabled {
            n += 1;
        }
        i += 1;
    }
    assert(ks@.subrange(0, ks.len() as int) =~= ks@);
    n
}

/// Checks a key pool: id and display name must not be blank, at least one
/// key must be enabled, and every key needs a unique id and a secret.
pub fn validate_key_pool(pool: &RaceKeyPool) -> (r: ValidationErrorResponse)
    ensures
        issues_view(r.issues@) == key_pool_issues(pool@),
        r.valid == (r.issues@.len() == 0),
        r.valid == key_pool_is_valid(pool@),
{
    let mut builder = ValidationBuilder::new();
    if str_is_blank(pool.id.as_str()) {
        builder.push("id", "required", "key pool id cannot be empty");
    }
    if str_is_blank(pool.display_name.as_str()) {
        builder.push("display_name", "required", "display_name cannot be empty");
    }
    if count_enabled_keys(&pool.keys) == 0 {
        builder.push("keys", "missing_enabled_key", "at least one enabled key is required");
    }
    let ghost header = builder.spec_issues();
    let ghost kv = keys_view(pool.keys@);
    let mut i: usize = 0;
    while i < pool.keys.len()
        invariant
            i <= pool.keys.len(),
            kv == keys_view(pool.keys@),
            builder.spec_issues() == header + keys_issues(kv, i as int),
        decreases pool.keys.len() - i,
    {
        let k = &pool.keys[i];
        assert(kv[i as int] == k@);
        let trimmed = trimmed_chars(k.id.as_str());
        if trimmed.len() == 0 {
            let f = indexed_field("keys[", i, "].id");
            builder.push(f.as_str(), "required", "key id cannot be empty");
        } else {
            let dup = earlier_key_with_id(&pool.keys, i, &trimmed);
            proof {
                assert(dup == duplicate_key_id_at(kv, i as int)) by {
                    if dup {
                        let j = choose|j: int|
                            0 <= j < i && !is_blank(pool.keys@[j].id@) && trim(pool.keys@[j].id@)
                                == trimmed@;
                        assert(kv[j] == pool.keys@[j]@);
                    }
                    if duplicate_key_id_at(kv, i as int) {
                        let j = choose|j: int|
                            0 <= j < i && !is_blank(kv[j].id) && trim(kv[j].id) == trim(
                                kv[i as int].id,
                            );
                        assert(kv[j] == pool.keys@[j]@);
                    }
                }
            }
            if dup {
                let f = indexed_field("keys[", i, "].id");
                builder.push(
                    f.as_str(),
                    "duplicate_key_id",
                    "key id must be unique inside the pool",
                );
            }
        }
        if str_is_blank(k.secret.as_str()) {
            let f = indexed_field("keys[", i, "].secret");
            builder.push(f.as_str(), "required", "key secret cannot be empty");
        }
        assert(builder.spec_issues() =~= header + keys_issues(kv, i + 1));
        i += 1;
    }
    proof {
        assert(builder.spec_issues() =~= key_pool_issues(pool@));
        lemma_key_pool_valid(pool@);
    }
    builder.finish()
}

} // verus!
