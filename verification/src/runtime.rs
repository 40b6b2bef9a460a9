//! What the administration shows of a group at run time: the protocols each
//! candidate can be raced on and how many enabled candidates each protocol
//! has.
use vstd::prelude::*;

use crate::control::{bound_model_has, first_where, lemma_first_where, lemma_first_where_at, lemma_first_where_none};
use crate::domain::resolve::{
    candidate_effective_upstream_model, effective_upstream, model_binding, models_view,
    protocol_label, protocol_name, resolve_model_for_candidate, ModelBinding,
};
use crate::domain::summary::{
    enabled_protocol_set, mark_enabled_protocols, protocols_from_flags, sorted_protocols,
};
use crate::domain::types::{
    candidates_view, CandidateView, ModelView, ProtocolFamily, RaceCandidate, RaceGroup,
    RaceModelDescriptor,
};
use crate::domain::validate::protocol_index;
use crate::text::str_eq;

verus! {

/// What a candidate resolves to: the upstream model it is sent with and
/// the protocols it can be raced on.
#[derive(Debug)]
pub struct CandidateResolvedView {
    pub effective_upstream_model: String,
    pub eligible_protocol_families: Vec<ProtocolFamily>,
}

/// The protocols a candidate can be raced on: those of its enabled inline
/// endpoints and of the enabled endpoints of the model it binds to.
pub open spec fn eligible_set(c: CandidateView, models: Seq<ModelView>) -> Set<ProtocolFamily> {
    Set::new(
        |p: ProtocolFamily|
            enabled_protocol_set(c.inline_endpoint_overrides).contains(p) || bound_model_has(
                c,
                models,
                p,
            ),
    )
}

/// The model a candidate binds to, if it binds.
pub open spec fn bound_model(c: CandidateView, models: Seq<ModelView>) -> Option<ModelView> {
    match model_binding(c, models) {
        ModelBinding::Bound(m) => Some(m),
        _ => None,
    }
}

/// The protocols a candidate can be raced on, sorted.
pub fn eligible_protocols(candidate: &RaceCandidate, models: &Vec<RaceModelDescriptor>) -> (r: Vec<
    ProtocolFamily,
>)
    ensures
        r@ == sorted_protocols(eligible_set(candidate@, models_view(models@))),
{
    let mut seen: [bool; 3] = [false, false, false];
    mark_enabled_protocols(&mut seen, &candidate.inline_endpoint_overrides);
    match resolve_model_for_candidate(candidate, models) {
        Ok(Some(m)) => {
            mark_enabled_protocols(&mut seen, &m.endpoints);
        },
        _ => {},
    }
    let r = protocols_from_flags(&seen);
    assert(Set::new(|p: ProtocolFamily| seen@[protocol_index(p) as int]) =~= eligible_set(
        candidate@,
        models_view(models@),
    ));
    r
}

/// What candidate `c` resolves to: its effective upstream model (with the
/// model it binds to) and its eligible protocols.
pub fn resolve_candidate_view(candidate: &RaceCandidate, models: &Vec<RaceModelDescriptor>) -> (r:
    CandidateResolvedView)
    ensures
        r.effective_upstream_model@ == effective_upstream(
            candidate@,
            bound_model(candidate@, models_view(models@)),
        ),
        r.eligible_protocol_families@ == sorted_protocols(
            eligible_set(candidate@, models_view(models@)),
        ),
{
    let bound = resolve_model_for_candidate(candidate, models);
    let up = match &bound {
        Ok(Some(m)) => candidate_effective_upstream_model(candidate, Some(m)),
        _ => candidate_effective_upstream_model(candidate, None),
    };
    CandidateResolvedView {
        effective_upstream_model: up,
        eligible_protocol_families: eligible_protocols(candidate, models),
    }
}

/// The resolved view of every candidate of the group, in order.
pub fn build_candidate_resolved_views(group: &RaceGroup, models: &Vec<RaceModelDescriptor>) -> (r:
    Vec<CandidateResolvedView>)
    ensures
        r.len() == group.candidates.len(),
        forall|i: int|
            0 <= i < r.len() ==> {
                let c = group.candidates@[i]@;
                &&& (#[trigger] r@[i]).effective_upstream_model@ == effective_upstream(
                    c,
                    bound_model(c, models_view(models@)),
                )
                &&& r@[i].eligible_protocol_families@ == sorted_protocols(
                    eligible_set(c, models_view(models@)),
                )
            },
{
    let mut out: Vec<CandidateResolvedView> = Vec::new();
    let mut i: usize = 0;
    while i < group.candidates.len()
        invariant
            i <= group.candidates.len(),
            out.len() == i,
            forall|k: int|
                0 <= k < i ==> {
                    let c = group.candidates@[k]@;
                    &&& (#[trigger] out@[k]).effective_upstream_model@ == effective_upstream(
                        c,
                        bound_model(c, models_view(models@)),
                    )
                    &&& out@[k].eligible_protocol_families@ == sorted_protocols(
                        eligible_set(c, models_view(models@)),
                    )
                },
        decreases group.candidates.len() - i,
    {
        out.push(resolve_candidate_view(&group.candidates[i], models));
        i += 1;
    }
    out
}

/// The candidate whose view a lookup by the id of candidate `i` finds: the
/// last candidate with that id.
pub open spec fn view_owner(cs: Seq<CandidateView>, i: int) -> int {
    let rev_pos = first_where(cs.reverse(), |c: CandidateView| c.id == cs[i].id)->0;
    cs.len() - 1 - rev_pos
}

/// Candidate `i` counts for protocol `p`: it is enabled and the view found
/// by its id lists `p`.
pub open spec fn counts_for(cs: Seq<CandidateView>, models: Seq<ModelView>, p: ProtocolFamily, i: int) -> bool {
    cs[i].enabled && eligible_set(cs[view_owner(cs, i)], models).contains(p)
}

/// The number of candidates among the first `k` that count for `p`.
pub open spec fn eligible_count(cs: Seq<CandidateView>, models: Seq<ModelView>, p: ProtocolFamily, k: int) -> nat
    decreases k,
{
    if k <= 0 {
        0
    } else {
        eligible_count(cs, models, p, k - 1) + if counts_for(cs, models, p, k - 1) {
            1nat
        } else {
            0nat
        }
    }
}

/// The number of enabled candidates of a protocol.
#[derive(Debug)]
pub struct ProtocolCount {
    pub protocol: String,
    pub count: usize,
}

/// Position of the last candidate of `cs` with the id `id`.
fn last_with_id(cs: &Vec<RaceCandidate>, i: usize) -> (r: usize)
    requires
        i < cs.len(),
    ensures
        r as int == view_owner(candidates_view(cs@), i as int),
        r < cs.len(),
        cs@[r as int].id@ == cs@[i as int].id@,
{
    let ghost cv = candidates_view(cs@);
    let ghost rv = cv.reverse();
    let ghost p = |c: CandidateView| c.id == cv[i as int].id;
    let mut k: usize = cs.len();
    while k > 0
        invariant
            k <= cs.len(),
            i < cs.len(),
            cv == candidates_view(cs@),
            rv == cv.reverse(),
            p == (|c: CandidateView| c.id == cv[i as int].id),
            forall|j: int| 0 <= j < cs.len() - k ==> !p(rv[j]),
        decreases k,
    {
        assert(rv[cs.len() - k] == cv[k - 1]);
        assert(cv[k - 1] == cs@[k - 1]@);
        assert(cv[i as int] == cs@[i as int]@);
        if str_eq(cs[k - 1].id.as_str(), cs[i].id.as_str()) {
            proof {
                lemma_first_where_at(rv, p, cs.len() - k);
            }
            return k - 1;
        }
        k -= 1;
    }
    proof {
        assert(rv[cs.len() - 1 - i] == cv[i as int]);
        assert(p(rv[cs.len() - 1 - i]));
    }
    0
}

/// How many enabled candidates of the group each protocol has, protocols
/// in the order of their labels (`anthropic`, `google`, `openai`); a
/// candidate counts for the protocols of the view found by its id.
pub fn eligible_counts(group: &RaceGroup, views: &Vec<CandidateResolvedView>, models: &Vec<RaceModelDescriptor>) -> (r: Vec<ProtocolCount>)
    requires
        views.len() == group.candidates.len(),
        forall|i: int|
            0 <= i < views.len() ==> (#[trigger] views@[i]).eligible_protocol_families@
                == sorted_protocols(eligible_set(group.candidates@[i]@, models_view(models@))),
    ensures
        r.len() == 3,
        r@[0].protocol@ == "anthropic"@ && r@[0].count == eligible_count(
            candidates_view(group.candidates@),
            models_view(models@),
            ProtocolFamily::Anthropic,
            group.candidates.len() as int,
        ),
        r@[1].protocol@ == "google"@ && r@[1].count == eligible_count(
            candidates_view(group.candidates@),
            models_view(models@),
            ProtocolFamily::Google,
            group.candidates.len() as int,
        ),
        r@[2].protocol@ == "openai"@ && r@[2].count == eligible_count(
            candidates_view(group.candidates@),
            models_view(models@),
            ProtocolFamily::OpenAi,
            group.candidates.len() as int,
        ),
{
    let mut out: Vec<ProtocolCount> = Vec::new();
    let a = count_eligible(group, views, models, ProtocolFamily::Anthropic);
    out.push(ProtocolCount { protocol: protocol_label(ProtocolFamily::Anthropic).to_string(), count: a });
    let g = count_eligible(group, views, models, ProtocolFamily::Google);
    out.push(ProtocolCount { protocol: protocol_label(ProtocolFamily::Google).to_string(), count: g });
    let o = count_eligible(group, views, models, ProtocolFamily::OpenAi);
    out.push(ProtocolCount { protocol: protocol_label(ProtocolFamily::OpenAi).to_string(), count: o });
    out
}

fn protocols_contain(ps: &Vec<ProtocolFamily>, p: ProtocolFamily) -> (r: bool)
    ensures
        r == ps@.contains(p),
{
    let mut i: usize = 0;
    while i < ps.len()
        invariant
            i <= ps.len(),
            forall|j: int| 0 <= j < i ==> ps@[j] != p,
        decreases ps.len() - i,
    {
        if ps[i] == p {
            assert(ps@[i as int] == p);
            return true;
        }
        i += 1;
    }
    false
}

fn count_eligible(
    group: &RaceGroup,
    views: &Vec<CandidateResolvedView>,
    models: &Vec<RaceModelDescriptor>,
    p: ProtocolFamily,
) -> (r: usize)
    requires
        views.len() == group.candidates.len(),
        forall|i: int|
            0 <= i < views.len() ==> (#[trigger] views@[i]).eligible_protocol_families@
                == sorted_protocols(eligible_set(group.candidates@[i]@, models_view(models@))),
    ensures
        r == eligible_count(
            candidates_view(group.candidates@),
            models_view(models@),
            p,
            group.candidates.len() as int,
        ),
{
    let ghost cv = candidates_view(group.candidates@);
    let ghost mv = models_view(models@);
    let mut n: usize = 0;
    let mut i: usize = 0;
    while i < group.candidates.len()
        invariant
            i <= group.candidates.len(),
            views.len() == group.candidates.len(),
            forall|k: int|
                0 <= k < views.len() ==> (#[trigger] views@[k]).eligible_protocol_families@
                    == sorted_protocols(eligible_set(group.candidates@[k]@, models_view(models@))),
            cv == candidates_view(group.candidates@),
            mv == models_view(models@),
            n <= i,
            n == eligible_count(cv, mv, p, i as int),
        decreases group.candidates.len() - i,
    {
        let owner = last_with_id(&group.candidates, i);
        assert(cv[i as int] == group.candidates@[i as int]@);
        assert(cv[owner as int] == group.candidates@[owner as int]@);
        let listed = protocols_contain(&views[owner].eligible_protocol_families, p);
        proof {
            crate::domain::summary::lemma_sorted_protocols_contains(eligible_set(cv[owner as int], mv), p);
        }
        if group.candidates[i].enabled && listed {
            n = n + 1;
        }
        i += 1;
    }
    n
}

} // verus!
