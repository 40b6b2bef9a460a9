//! Resolution of race candidates to concrete upstream endpoints.
//!
//! A candidate is bound to a model descriptor either explicitly by
//! `model_id` or implicitly by its upstream model name. For a protocol
//! family, an enabled inline endpoint override of the candidate wins over
//! the endpoints of its model.
use vstd::prelude::*;

use crate::domain::types::{
    candidates_view, endpoints_view, CandidateView, EndpointView, ModelView, ProtocolFamily,
    RaceCandidate, RaceGroup, RaceModelDescriptor, RaceTargetEndpoint, ResolvedCandidateTarget,
    ResolvedEndpointSource,
};
use crate::text::{chars_of, is_blank, push_str, str_eq, trim, trim_str};

verus! {

/// Why a candidate or a group could not be resolved.
#[derive(Debug, PartialEq, Eq)]
pub enum ResolveError {
    /// The candidate names a `model_id` that the catalog does not hold.
    MissingModel { candidate: String, model_id: String },
    /// The candidate's upstream model matches more than one model descriptor.
    AmbiguousUpstreamModel { candidate: String, upstream_model: String },
    /// No enabled candidate of the group resolves for the protocol.
    NoCandidateForProtocol { group: String, protocol: ProtocolFamily },
}

/// The abstract value of a resolution error.
pub enum ResolveErrorView {
    MissingModel { candidate: Seq<char>, model_id: Seq<char> },
    AmbiguousUpstreamModel { candidate: Seq<char>, upstream_model: Seq<char> },
    NoCandidateForProtocol { group: Seq<char>, protocol: ProtocolFamily },
}

impl View for ResolveError {
    type V = ResolveErrorView;

    open spec fn view(&self) -> ResolveErrorView {
        match self {
            ResolveError::MissingModel { candidate, model_id } => ResolveErrorView::MissingModel {
                candidate: candidate@,
                model_id: model_id@,
            },
            ResolveError::AmbiguousUpstreamModel { candidate, upstream_model } =>
                ResolveErrorView::AmbiguousUpstreamModel {
                candidate: candidate@,
                upstream_model: upstream_model@,
            },
            ResolveError::NoCandidateForProtocol { group, protocol } =>
                ResolveErrorView::NoCandidateForProtocol { group: group@, protocol: *protocol },
        }
    }
}

/// The lower-case name of a protocol family.
pub open spec fn protocol_name(p: ProtocolFamily) -> Seq<char> {
    match p {
        ProtocolFamily::OpenAi => "openai"@,
        ProtocolFamily::Anthropic => "anthropic"@,
        ProtocolFamily::Google => "google"@,
    }
}

/// The lower-case name of a protocol family (`openai`, `anthropic`,
/// `google`).
pub fn protocol_label(p: ProtocolFamily) -> (r: &'static str)
    ensures
        r@ == protocol_name(p),
{
    match p {
        ProtocolFamily::OpenAi => "openai",
        ProtocolFamily::Anthropic => "anthropic",
        ProtocolFamily::Google => "google",
    }
}

/// The message text of a resolution error.
pub open spec fn resolve_error_message(e: ResolveErrorView) -> Seq<char> {
    match e {
        ResolveErrorView::MissingModel { candidate, model_id } => "candidate '"@ + candidate
            + "' references missing model '"@ + model_id + "'"@,
        ResolveErrorView::AmbiguousUpstreamModel { candidate, upstream_model } => "candidate '"@
            + candidate + "' upstream model '"@ + upstream_model
            + "' matches multiple model descriptors; please bind model_id explicitly"@,
        ResolveErrorView::NoCandidateForProtocol { group, protocol } => "group '"@ + group
            + "' does not have any enabled candidate for protocol '"@ + protocol_name(protocol)
            + "'"@,
    }
}

impl ResolveError {
    /// The human-readable message of the error.
    pub fn message(&self) -> (r: String)
        ensures
            r@ == resolve_error_message(self@),
    {
        let mut out = String::new();
        match self {
            ResolveError::MissingModel { candidate, model_id } => {
                push_str(&mut out, "candidate '");
                push_str(&mut out, candidate.as_str());
                push_str(&mut out, "' references missing model '");
                push_str(&mut out, model_id.as_str());
                push_str(&mut out, "'");
            },
            ResolveError::AmbiguousUpstreamModel { candidate, upstream_model } => {
                push_str(&mut out, "candidate '");
                push_str(&mut out, candidate.as_str());
                push_str(&mut out, "' upstream model '");
                push_str(&mut out, upstream_model.as_str());
                push_str(
                    &mut out,
                    "' matches multiple model descriptors; please bind model_id explicitly",
                );
            },
            ResolveError::NoCandidateForProtocol { group, protocol } => {
                push_str(&mut out, "group '");
                push_str(&mut out, group.as_str());
                push_str(&mut out, "' does not have any enabled candidate for protocol '");
                push_str(&mut out, protocol_label(*protocol));
                push_str(&mut out, "'");
            },
        }
        assert(out@ =~= resolve_error_message(self@));
        out
    }
}

/// Index of the first enabled endpoint of `eps` with protocol `p`.
pub open spec fn first_matching_endpoint(eps: Seq<EndpointView>, p: ProtocolFamily) -> Option<
    int,
>
    decreases eps.len(),
{
    if eps.len() == 0 {
        None
    } else {
        match first_matching_endpoint(eps.drop_last(), p) {
            Some(i) => Some(i),
            None => if eps.last().enabled && eps.last().protocol_family == p {
                Some(eps.len() - 1)
            } else {
                None
            },
        }
    }
}

proof fn lemma_first_matching_endpoint(eps: Seq<EndpointView>, p: ProtocolFamily)
    ensures
        match first_matching_endpoint(eps, p) {
            Some(i) => 0 <= i < eps.len() && eps[i].enabled && eps[i].protocol_family == p
                && forall|j: int|
                0 <= j < i ==> !(eps[j].enabled && eps[j].protocol_family == p),
            None => forall|j: int|
                0 <= j < eps.len() ==> !(eps[j].enabled && eps[j].protocol_family == p),
        },
    decreases eps.len(),
{
    if eps.len() > 0 {
        let d = eps.drop_last();
        lemma_first_matching_endpoint(d, p);
        assert(forall|j: int| 0 <= j < d.len() ==> d[j] == eps[j]);
    }
}

/// The first enabled endpoint of `endpoints` that speaks protocol `p`.
pub fn find_matching_endpoint(endpoints: &Vec<RaceTargetEndpoint>, p: ProtocolFamily) -> (r:
    Option<RaceTargetEndpoint>)
    ensures
        match first_matching_endpoint(endpoints_view(endpoints@), p) {
            Some(i) => r.is_some() && r.unwrap()@ == endpoints@[i]@,
            None => r.is_none(),
        },
{
    let ghost ev = endpoints_view(endpoints@);
    proof {
        lemma_first_matching_endpoint(ev, p);
    }
    let mut i: usize = 0;
    while i < endpoints.len()
        invariant
            i <= endpoints.len(),
            ev == endpoints_view(endpoints@),
            forall|j: int| 0 <= j < i ==> !(ev[j].enabled && ev[j].protocol_family == p),
        decreases endpoints.len() - i,
    {
        let e = &endpoints[i];
        assert(ev[i as int] == e@);
        if e.enabled && e.protocol_family == p {
            let r = e.clone();
            proof {
                lemma_first_matching_endpoint(ev, p);
                assert(ev[i as int].enabled && ev[i as int].protocol_family == p);
                match first_matching_endpoint(ev, p) {
                    Some(k) => {
                        if k < i {
                            assert(!(ev[k].enabled && ev[k].protocol_family == p));
                        } else if k > i {
                            assert(!(ev[i as int].enabled && ev[i as int].protocol_family == p));
                        }
                        assert(k == i);
                    },
                    None => {
                        assert(!(ev[i as int].enabled && ev[i as int].protocol_family == p));
                    },
                }
            }
            return Some(r);
        }
        i += 1;
    }
    None
}

/// Index of the first model of `models` whose id is `id`.
pub open spec fn model_index(models: Seq<ModelView>, id: Seq<char>) -> Option<int>
    decreases models.len(),
{
    if models.len() == 0 {
        None
    } else {
        match model_index(models.drop_last(), id) {
            Some(i) => Some(i),
            None => if models.last().id == id {
                Some(models.len() - 1)
            } else {
                None
            },
        }
    }
}

proof fn lemma_model_index(models: Seq<ModelView>, id: Seq<char>)
    ensures
        match model_index(models, id) {
            Some(i) => 0 <= i < models.len() && models[i].id == id && forall|j: int|
                0 <= j < i ==> models[j].id != id,
            None => forall|j: int| 0 <= j < models.len() ==> models[j].id != id,
        },
    decreases models.len(),
{
    if models.len() > 0 {
        let d = models.drop_last();
        lemma_model_index(d, id);
        assert(forall|j: int| 0 <= j < d.len() ==> d[j] == models[j]);
    }
}

/// Number of models of `models` whose upstream model is `up`.
pub open spec fn upstream_match_count(models: Seq<ModelView>, up: Seq<char>) -> nat
    decreases models.len(),
{
    if models.len() == 0 {
        0
    } else {
        upstream_match_count(models.drop_last(), up) + if models.last().upstream_model == up {
            1nat
        } else {
            0nat
        }
    }
}

/// Index of the last model whose upstream model is `up` (the only one when
/// the count is one).
pub open spec fn upstream_match_index(models: Seq<ModelView>, up: Seq<char>) -> int
    decreases models.len(),
{
    if models.len() == 0 {
        -1
    } else if models.last().upstream_model == up {
        models.len() - 1
    } else {
        upstream_match_index(models.drop_last(), up)
    }
}

/// The views of a model catalog.
pub open spec fn models_view(models: Seq<RaceModelDescriptor>) -> Seq<ModelView> {
    models.map_values(|m: RaceModelDescriptor| m@)
}

/// The outcome of binding a candidate to a model descriptor.
pub enum ModelBinding {
    Bound(ModelView),
    Unbound,
    Failed(ResolveErrorView),
}

/// Which model descriptor a candidate is bound to: by `model_id` when it has
/// one (an unknown id is an error), else by its trimmed upstream model when
/// exactly one descriptor has that upstream model (several is an error).
pub open spec fn model_binding(c: CandidateView, models: Seq<ModelView>) -> ModelBinding {
    match c.model_id {
        Some(id) => match model_index(models, id) {
            Some(i) => ModelBinding::Bound(models[i]),
            None => ModelBinding::Failed(
                ResolveErrorView::MissingModel { candidate: c.name, model_id: id },
            ),
        },
        None => {
            let up = trim(c.upstream_model);
            if up.len() == 0 {
                ModelBinding::Unbound
            } else if upstream_match_count(models, up) == 0 {
                ModelBinding::Unbound
            } else if upstream_match_count(models, up) == 1 {
                ModelBinding::Bound(models[upstream_match_index(models, up)])
            } else {
                ModelBinding::Failed(
                    ResolveErrorView::AmbiguousUpstreamModel { candidate: c.name, upstream_model: up },
                )
            }
        },
    }
}

/// The model catalog is keyed by model id: looks up `model_id`, or binds by
/// upstream model name. `Ok(None)` when the candidate is bound to no model.
pub fn resolve_model_for_candidate(candidate: &RaceCandidate, models: &Vec<RaceModelDescriptor>) -> (r:
    Result<Option<RaceModelDescriptor>, ResolveError>)
    ensures
        match model_binding(candidate@, models_view(models@)) {
            ModelBinding::Bound(m) => r.is_ok() && r.unwrap().is_some() && r.unwrap().unwrap()@ == m,
            ModelBinding::Unbound => r.is_ok() && r.unwrap().is_none(),
            ModelBinding::Failed(e) => r.is_err() && r.unwrap_err()@ == e,
        },
{
    let ghost mv = models_view(models@);
    match &candidate.model_id {
        Some(model_id) => {
            assert(candidate@.model_id == Some(model_id@));
            proof {
                lemma_model_index(mv, model_id@);
            }
            let mut i: usize = 0;
            while i < models.len()
                invariant
                    i <= models.len(),
                    mv == models_view(models@),
                    candidate@.model_id == Some(model_id@),
                    forall|j: int| 0 <= j < i ==> mv[j].id != model_id@,
                decreases models.len() - i,
            {
                assert(mv[i as int] == models@[i as int]@);
                if str_eq(models[i].id.as_str(), model_id.as_str()) {
                    proof {
                        lemma_model_index(mv, model_id@);
                        assert(mv[i as int].id == model_id@);
                        match model_index(mv, model_id@) {
                            Some(k) => {
                                if k < i {
                                    assert(mv[k].id != model_id@);
                                } else if k > i {
                                    assert(mv[i as int].id != model_id@);
                                }
                                assert(k == i);
                            },
                            None => {
                                assert(mv[i as int].id != model_id@);
                            },
                        }
                    }
                    let m = models[i].clone();
                    assert(m@ == mv[i as int]);
                    assert(model_index(mv, model_id@) == Some(i as int));
                    assert(model_binding(candidate@, mv) == ModelBinding::Bound(mv[i as int]));
                    return Ok(Some(m));
                }
                i += 1;
            }
            Err(
                ResolveError::MissingModel {
                    candidate: candidate.name.clone(),
                    model_id: model_id.clone(),
                },
            )
        },
        None => {
            let up = trim_str(candidate.upstream_model.as_str());
            if up.as_str().unicode_len() == 0 {
                return Ok(None);
            }
            let mut count: usize = 0;
            let mut last: usize = 0;
            let mut i: usize = 0;
            while i < models.len()
                invariant
                    i <= models.len(),
                    mv == models_view(models@),
                    count <= i,
                    count == upstream_match_count(mv.subrange(0, i as int), up@),
                    count > 0 ==> last < i && last as int == upstream_match_index(
                        mv.subrange(0, i as int),
                        up@,
                    ),
                decreases models.len() - i,
            {
                assert(mv.subrange(0, i + 1).drop_last() =~= mv.subrange(0, i as int));
                assert(mv[i as int] == models@[i as int]@);
                if str_eq(models[i].upstream_model.as_str(), up.as_str()) {
                    count += 1;
                    last = i;
                }
                i += 1;
            }
            assert(mv.subrange(0, models.len() as int) =~= mv);
            if count == 0 {
                Ok(None)
            } else if count == 1 {
                assert(mv[last as int] == models@[last as int]@);
                Ok(Some(models[last].clone()))
            } else {
                Err(
                    ResolveError::AmbiguousUpstreamModel {
                        candidate: candidate.name.clone(),
                        upstream_model: up,
                    },
                )
            }
        },
    }
}

/// The upstream model a candidate is sent with: its own, trimmed, when not
/// blank, else its model's, trimmed, else empty.
pub open spec fn effective_upstream(c: CandidateView, m: Option<ModelView>) -> Seq<char> {
    if !is_blank(c.upstream_model) {
        trim(c.upstream_model)
    } else {
        match m {
            Some(m) => trim(m.upstream_model),
            None => Seq::empty(),
        }
    }
}

/// The upstream model a candidate is sent with.
pub fn candidate_effective_upstream_model(
    candidate: &RaceCandidate,
    resolved_model: Option<&RaceModelDescriptor>,
) -> (r: String)
    ensures
        r@ == effective_upstream(
            candidate@,
            match resolved_model {
                Some(m) => Some(m@),
                None => None,
            },
        ),
{
    let up = trim_str(candidate.upstream_model.as_str());
    if up.as_str().unicode_len() > 0 {
        return up;
    }
    match resolved_model {
        Some(m) => trim_str(m.upstream_model.as_str()),
        None => String::new(),
    }
}

/// The abstract value of a resolved target.
pub struct ResolvedTargetView {
    pub candidate: CandidateView,
    pub endpoint: EndpointView,
    pub endpoint_source: ResolvedEndpointSource,
    pub key_pool_id: Seq<char>,
}

impl View for ResolvedCandidateTarget {
    type V = ResolvedTargetView;

    open spec fn view(&self) -> ResolvedTargetView {
        ResolvedTargetView {
            candidate: self.candidate@,
            endpoint: self.endpoint@,
            endpoint_source: self.endpoint_source,
            key_pool_id: self.key_pool_id@,
        }
    }
}

impl Clone for ResolvedCandidateTarget {
    fn clone(&self) -> (r: Self)
        ensures
            r@ == self@,
    {
        ResolvedCandidateTarget {
            candidate: self.candidate.clone(),
            endpoint: self.endpoint.clone(),
            endpoint_source: self.endpoint_source,
            key_pool_id: self.key_pool_id.clone(),
        }
    }
}

/// `c` with its upstream model replaced.
pub open spec fn with_upstream(c: CandidateView, up: Seq<char>) -> CandidateView {
    CandidateView { upstream_model: up, ..c }
}

/// A target for candidate `c` on endpoint `e`.
pub open spec fn target(c: CandidateView, e: EndpointView, source: ResolvedEndpointSource) -> ResolvedTargetView {
    ResolvedTargetView { candidate: c, endpoint: e, endpoint_source: source, key_pool_id: e.key_pool_id }
}

/// What resolving candidate `c` for protocol `p` yields: nothing for a
/// disabled candidate or one without an effective upstream model; the
/// candidate's own matching inline endpoint when it has one; else its bound
/// model's matching endpoint when that model is enabled.
pub open spec fn resolve_single(c: CandidateView, models: Seq<ModelView>, p: ProtocolFamily) -> Result<
    Option<ResolvedTargetView>,
    ResolveErrorView,
> {
    if !c.enabled {
        Ok(None)
    } else {
        match model_binding(c, models) {
            ModelBinding::Failed(e) => Err(e),
            binding => {
                let m = match binding {
                    ModelBinding::Bound(m) => Some(m),
                    _ => None,
                };
                let up = effective_upstream(c, m);
                let rc = with_upstream(c, up);
                if up.len() == 0 {
                    Ok(None)
                } else {
                    match first_matching_endpoint(c.inline_endpoint_overrides, p) {
                        Some(i) => Ok(
                            Some(
                                target(
                                    rc,
                                    c.inline_endpoint_overrides[i],
                                    ResolvedEndpointSource::CandidateInlineOverride,
                                ),
                            ),
                        ),
                        None => match m {
                            None => Ok(None),
                            Some(m) => if !m.enabled {
                                Ok(None)
                            } else {
                                match first_matching_endpoint(m.endpoints, p) {
                                    Some(j) => Ok(
                                        Some(
                                            target(
                                                rc,
                                                m.endpoints[j],
                                                ResolvedEndpointSource::ModelDescriptor,
                                            ),
                                        ),
                                    ),
                                    None => Ok(None),
                                }
                            },
                        },
                    }
                }
            },
        }
    }
}

/// The view of a resolution result.
pub open spec fn single_result_view(r: Result<Option<ResolvedCandidateTarget>, ResolveError>) -> Result<
    Option<ResolvedTargetView>,
    ResolveErrorView,
> {
    match r {
        Ok(Some(t)) => Ok(Some(t@)),
        Ok(None) => Ok(None),
        Err(e) => Err(e@),
    }
}

/// Resolves one candidate for protocol `p` against the model catalog.
pub fn resolve_single_candidate(
    candidate: &RaceCandidate,
    models: &Vec<RaceModelDescriptor>,
    p: ProtocolFamily,
) -> (r: Result<Option<ResolvedCandidateTarget>, ResolveError>)
    requires
        crate::catalog::ids_unique(models@),
    ensures
        single_result_view(r) == resolve_single(candidate@, models_view(models@), p),
{
    if !candidate.enabled {
        return Ok(None);
    }
    let ghost mv = models_view(models@);
    let ghost cv = candidate@;
    let resolved_model = match resolve_model_for_candidate(candidate, models) {
        Ok(m) => m,
        Err(e) => return Err(e),
    };
    let ghost mopt: Option<ModelView> = match &resolved_model {
        Some(m) => Some(m@),
        None => None,
    };
    assert(match model_binding(cv, mv) {
        ModelBinding::Bound(m) => mopt == Some(m),
        ModelBinding::Unbound => mopt.is_none(),
        ModelBinding::Failed(_) => false,
    });
    let up = candidate_effective_upstream_model(
        candidate,
        match &resolved_model {
            Some(m) => Some(m),
            None => None,
        },
    );
    assert(up@ == effective_upstream(cv, mopt));
    let mut rc = candidate.clone();
    rc.upstream_model = up;
    assert(rc@ == with_upstream(cv, effective_upstream(cv, mopt)));
    if rc.upstream_model.as_str().unicode_len() == 0 {
        return Ok(None);
    }
    match find_matching_endpoint(&candidate.inline_endpoint_overrides, p) {
        Some(endpoint) => {
            let key_pool_id = endpoint.key_pool_id.clone();
            let t = ResolvedCandidateTarget {
                candidate: rc,
                endpoint,
                endpoint_source: ResolvedEndpointSource::CandidateInlineOverride,
                key_pool_id,
            };
            proof {
                lemma_first_matching_endpoint(cv.inline_endpoint_overrides, p);
                let k = first_matching_endpoint(cv.inline_endpoint_overrides, p).unwrap();
                assert(cv.inline_endpoint_overrides[k] == t.endpoint@);
                assert(t@ == target(
                    with_upstream(cv, effective_upstream(cv, mopt)),
                    cv.inline_endpoint_overrides[k],
                    ResolvedEndpointSource::CandidateInlineOverride,
                ));
            }
            return Ok(Some(t));
        },
        None => {},
    }
    let model = match resolved_model {
        Some(m) => m,
        None => return Ok(None),
    };
    if !model.enabled {
        return Ok(None);
    }
    match find_matching_endpoint(&model.endpoints, p) {
        Some(endpoint) => {
            let key_pool_id = endpoint.key_pool_id.clone();
            let t = ResolvedCandidateTarget {
                candidate: rc,
                endpoint,
                endpoint_source: ResolvedEndpointSource::ModelDescriptor,
                key_pool_id,
            };
            proof {
                let mm = mopt.unwrap();
                assert(mm == model@);
                lemma_first_matching_endpoint(mm.endpoints, p);
                let k = first_matching_endpoint(mm.endpoints, p).unwrap();
                assert(mm.endpoints[k] == t.endpoint@);
            }
            Ok(Some(t))
        },
        None => Ok(None),
    }
}

/// Resolving the first `k` candidates: the first error, or the targets of
/// those that resolve, in order.
pub open spec fn resolve_prefix(cs: Seq<CandidateView>, models: Seq<ModelView>, p: ProtocolFamily, k: int) -> Result<
    Seq<ResolvedTargetView>,
    ResolveErrorView,
>
    decreases k,
{
    if k <= 0 {
        Ok(seq![])
    } else {
        match resolve_prefix(cs, models, p, k - 1) {
            Err(e) => Err(e),
            Ok(ts) => match resolve_single(cs[k - 1], models, p) {
                Err(e) => Err(e),
                Ok(Some(t)) => Ok(ts.push(t)),
                Ok(None) => Ok(ts),
            },
        }
    }
}

/// The targets a group races on for protocol `p`: those of its enabled
/// candidates that resolve, in candidate order; an error when a candidate
/// fails to resolve or when none resolves.
pub open spec fn resolve_group(g_id: Seq<char>, cs: Seq<CandidateView>, models: Seq<ModelView>, p: ProtocolFamily) -> Result<
    Seq<ResolvedTargetView>,
    ResolveErrorView,
> {
    match resolve_prefix(cs, models, p, cs.len() as int) {
        Err(e) => Err(e),
        Ok(ts) => if ts.len() == 0 {
            Err(ResolveErrorView::NoCandidateForProtocol { group: g_id, protocol: p })
        } else {
            Ok(ts)
        },
    }
}

/// The views of a list of targets.
pub open spec fn targets_view(ts: Seq<ResolvedCandidateTarget>) -> Seq<ResolvedTargetView> {
    ts.map_values(|t: ResolvedCandidateTarget| t@)
}

proof fn lemma_resolve_prefix_err(
    cs: Seq<CandidateView>,
    models: Seq<ModelView>,
    p: ProtocolFamily,
    k0: int,
    k: int,
)
    requires
        0 < k0 <= k,
        resolve_prefix(cs, models, p, k0).is_err(),
    ensures
        resolve_prefix(cs, models, p, k) == resolve_prefix(cs, models, p, k0),
    decreases k - k0,
{
    if k > k0 {
        lemma_resolve_prefix_err(cs, models, p, k0, k - 1);
    }
}

/// Resolves every enabled candidate of `group` for protocol `p`. What a
/// success holds and when it fails is proved in `law_resolve_group`.
pub fn resolve_candidates_for_protocol(
    group: &RaceGroup,
    models: &Vec<RaceModelDescriptor>,
    p: ProtocolFamily,
) -> (r: Result<Vec<ResolvedCandidateTarget>, ResolveError>)
    requires
        crate::catalog::ids_unique(models@),
    ensures
        match resolve_group(group.id@, candidates_view(group.candidates@), models_view(models@), p) {
            Ok(ts) => r.is_ok() && targets_view(r.unwrap()@) == ts,
            Err(e) => r.is_err() && r.unwrap_err()@ == e,
        },
{
    let ghost cv = candidates_view(group.candidates@);
    let ghost mv = models_view(models@);
    let mut resolved: Vec<ResolvedCandidateTarget> = Vec::new();
    assert(targets_view(resolved@) =~= Seq::<ResolvedTargetView>::empty());
    let mut i: usize = 0;
    while i < group.candidates.len()
        invariant
            i <= group.candidates.len(),
            cv == candidates_view(group.candidates@),
            mv == models_view(models@),
            crate::catalog::ids_unique(models@),
            resolve_prefix(cv, mv, p, i as int) == Ok::<Seq<ResolvedTargetView>, ResolveErrorView>(
                targets_view(resolved@),
            ),
        decreases group.candidates.len() - i,
    {
        let c = &group.candidates[i];
        assert(cv[i as int] == c@);
        if c.enabled {
            match resolve_single_candidate(c, models, p) {
                Ok(Some(t)) => {
                    let ghost before = resolved@;
                    let ghost tv = t@;
                    resolved.push(t);
                    assert(targets_view(resolved@) =~= targets_view(before).push(tv));
                },
                Ok(None) => {},
                Err(e) => {
                    proof {
                        lemma_resolve_prefix_err(cv, mv, p, i as int + 1, group.candidates.len() as int);
                    }
                    return Err(e);
                },
            }
        }
        i += 1;
    }
    assert(cv.len() == group.candidates.len());
    if resolved.len() == 0 {
        return Err(
            ResolveError::NoCandidateForProtocol { group: group.id.clone(), protocol: p },
        );
    }
    Ok(resolved)
}

/// A target can be raced on for protocol `p`: its candidate is enabled and
/// has a non-empty upstream model, its endpoint is enabled and speaks `p`,
/// and its key pool is the endpoint's.
pub open spec fn usable_target(t: ResolvedTargetView, p: ProtocolFamily) -> bool {
    &&& t.candidate.enabled
    &&& t.candidate.upstream_model.len() > 0
    &&& t.endpoint.enabled
    &&& t.endpoint.protocol_family == p
    &&& t.key_pool_id == t.endpoint.key_pool_id
}

proof fn lemma_single_usable(c: CandidateView, models: Seq<ModelView>, p: ProtocolFamily)
    ensures
        resolve_single(c, models, p) matches Ok(Some(t)) ==> usable_target(t, p),
{
    lemma_first_matching_endpoint(c.inline_endpoint_overrides, p);
    match model_binding(c, models) {
        ModelBinding::Bound(m) => lemma_first_matching_endpoint(m.endpoints, p),
        _ => {},
    }
}

proof fn lemma_prefix_usable(cs: Seq<CandidateView>, models: Seq<ModelView>, p: ProtocolFamily, k: int)
    requires
        0 <= k <= cs.len(),
    ensures
        resolve_prefix(cs, models, p, k) matches Ok(ts) ==> forall|i: int|
            0 <= i < ts.len() ==> usable_target(#[trigger] ts[i], p),
    decreases k,
{
    if k > 0 {
        lemma_prefix_usable(cs, models, p, k - 1);
        lemma_single_usable(cs[k - 1], models, p);
    }
}

/// Every target a group resolves to can be raced on: its candidate is
/// enabled with a non-empty upstream model, and its endpoint is enabled,
/// speaks the requested protocol and names the key pool used. A successful
/// resolution holds at least one target.
pub proof fn lemma_resolved_targets_usable(
    g_id: Seq<char>,
    cs: Seq<CandidateView>,
    models: Seq<ModelView>,
    p: ProtocolFamily,
)
    ensures
        resolve_group(g_id, cs, models, p) matches Ok(ts) ==> ts.len() > 0 && forall|i: int|
            0 <= i < ts.len() ==> usable_target(#[trigger] ts[i], p),
{
    lemma_prefix_usable(cs, models, p, cs.len() as int);
}

/// An enabled inline endpoint override of the requested protocol wins over
/// the endpoints of the candidate's model: whenever the candidate resolves
/// to a target and has such an override, the target is its first such
/// override.
pub proof fn lemma_inline_override_wins(c: CandidateView, models: Seq<ModelView>, p: ProtocolFamily, i: int)
    requires
        0 <= i < c.inline_endpoint_overrides.len(),
        c.inline_endpoint_overrides[i].enabled,
        c.inline_endpoint_overrides[i].protocol_family == p,
    ensures
        resolve_single(c, models, p) matches Ok(Some(t)) ==> t.endpoint_source
            == ResolvedEndpointSource::CandidateInlineOverride && exists|j: int|
            0 <= j <= i && t.endpoint == c.inline_endpoint_overrides[j],
{
    lemma_first_matching_endpoint(c.inline_endpoint_overrides, p);
}


/// Candidate `c` resolves to a target for protocol `p`.
pub open spec fn resolves_to_target(c: CandidateView, models: Seq<ModelView>, p: ProtocolFamily) -> bool {
    resolve_single(c, models, p) matches Ok(Some(_))
}

/// Candidate `c` is enabled and its model cannot be found: its model id is
/// unknown, or its upstream model names several descriptors.
pub open spec fn binding_fails(c: CandidateView, models: Seq<ModelView>) -> bool {
    c.enabled && model_binding(c, models) is Failed
}

/// `s` gives, for each target of `ts`, the position of its candidate in
/// `cs`: increasing, each an enabled candidate with the target's id.
pub open spec fn picks(ts: Seq<ResolvedTargetView>, cs: Seq<CandidateView>, s: Seq<int>) -> bool {
    &&& s.len() == ts.len()
    &&& forall|t: int|
        0 <= t < s.len() ==> 0 <= #[trigger] s[t] < cs.len() && cs[s[t]].enabled && ts[t].candidate.id
            == cs[s[t]].id
    &&& forall|t1: int, t2: int| 0 <= t1 < t2 < s.len() ==> #[trigger] s[t1] < #[trigger] s[t2]
}

proof fn lemma_prefix_shape(cs: Seq<CandidateView>, models: Seq<ModelView>, p: ProtocolFamily, k: int)
    requires
        0 <= k <= cs.len(),
    ensures
        resolve_prefix(cs, models, p, k) is Err <==> exists|i: int|
            0 <= i < k && #[trigger] binding_fails(cs[i], models),
        resolve_prefix(cs, models, p, k) matches Ok(ts) ==> ((ts.len() > 0 <==> exists|i: int|
            0 <= i < k && #[trigger] resolves_to_target(cs[i], models, p)) && exists|s: Seq<int>|
            picks(ts, cs, s) && forall|t: int| 0 <= t < s.len() ==> s[t] < k),
    decreases k,
{
    if k == 0 {
        assert(picks(Seq::<ResolvedTargetView>::empty(), cs, Seq::<int>::empty()));
    } else {
        lemma_prefix_shape(cs, models, p, k - 1);
        let c = cs[k - 1];
        assert(resolve_single(c, models, p) is Err <==> binding_fails(c, models));
        match resolve_prefix(cs, models, p, k - 1) {
            Err(_) => {},
            Ok(ts) => {
                let s = choose|s: Seq<int>| picks(ts, cs, s) && forall|t: int| 0 <= t < s.len() ==> s[t] < k - 1;
                match resolve_single(c, models, p) {
                    Err(_) => {},
                    Ok(Some(t)) => {
                        let s2 = s.push(k - 1);
                        assert(t.candidate.id == c.id && c.enabled);
                        assert(picks(ts.push(t), cs, s2)) by {
                            assert forall|t1: int, t2: int| 0 <= t1 < t2 < s2.len() implies #[trigger] s2[t1]
                                < #[trigger] s2[t2] by {
                                if t2 == s2.len() - 1 {
                                    assert(s2[t1] == s[t1]);
                                } else {
                                    assert(s2[t1] == s[t1] && s2[t2] == s[t2]);
                                }
                            }
                            assert forall|t1: int| 0 <= t1 < s2.len() implies 0 <= #[trigger] s2[t1] < cs.len()
                                && cs[s2[t1]].enabled && ts.push(t)[t1].candidate.id == cs[s2[t1]].id by {
                                if t1 < s.len() {
                                    assert(s2[t1] == s[t1]);
                                    assert(ts.push(t)[t1] == ts[t1]);
                                }
                            }
                        }
                        assert(resolves_to_target(cs[k - 1], models, p));
                        assert(forall|t1: int| 0 <= t1 < s2.len() ==> s2[t1] < k);
                        assert(resolve_prefix(cs, models, p, k) == Ok::<Seq<ResolvedTargetView>, ResolveErrorView>(ts.push(t)));
                    },
                    Ok(None) => {
                        assert(!resolves_to_target(cs[k - 1], models, p));
                        assert(picks(ts, cs, s) && forall|t: int| 0 <= t < s.len() ==> s[t] < k);
                        if ts.len() > 0 {
                            let i = choose|i: int| 0 <= i < k - 1 && #[trigger] resolves_to_target(cs[i], models, p);
                            assert(0 <= i < k && resolves_to_target(cs[i], models, p));
                        }
                        if exists|i: int| 0 <= i < k && #[trigger] resolves_to_target(cs[i], models, p) {
                            let i = choose|i: int| 0 <= i < k && #[trigger] resolves_to_target(cs[i], models, p);
                            assert(i < k - 1);
                            assert(ts.len() > 0);
                        }
                        assert(resolve_prefix(cs, models, p, k) == Ok::<Seq<ResolvedTargetView>, ResolveErrorView>(ts));
                    },
                }
            },
        }
    }
}

/// What resolving a group for protocol `p` gives: on success a non-empty
/// list of usable targets whose candidates are enabled candidates of the
/// group, each once, in group order; an error exactly when an enabled
/// candidate's model cannot be found or no candidate resolves to a target.
pub proof fn law_resolve_group(g_id: Seq<char>, cs: Seq<CandidateView>, models: Seq<ModelView>, p: ProtocolFamily)
    ensures
        resolve_group(g_id, cs, models, p) matches Ok(ts) ==> ts.len() > 0 && (forall|i: int|
            0 <= i < ts.len() ==> usable_target(#[trigger] ts[i], p)) && exists|s: Seq<int>| picks(ts, cs, s),
        resolve_group(g_id, cs, models, p) is Err <==> ((exists|i: int|
            0 <= i < cs.len() && #[trigger] binding_fails(cs[i], models)) || (forall|i: int|
            0 <= i < cs.len() ==> !#[trigger] resolves_to_target(cs[i], models, p))),
{
    lemma_resolved_targets_usable(g_id, cs, models, p);
    lemma_prefix_shape(cs, models, p, cs.len() as int);
    match resolve_prefix(cs, models, p, cs.len() as int) {
        Ok(ts) => {
            let s = choose|s: Seq<int>| picks(ts, cs, s) && forall|t: int| 0 <= t < s.len() ==> s[t] < cs.len();
            assert(picks(ts, cs, s));
        },
        Err(_) => {},
    }
}


/// A candidate's own upstream model wins: when it is not blank, the
/// candidate is sent with it (trimmed), whatever model it is bound to, and
/// a target it resolves to carries it. Only a blank one gives way to the
/// bound model's upstream model (trimmed), and without a model to nothing.
pub proof fn law_candidate_upstream_wins(c: CandidateView, m: Option<ModelView>, models: Seq<ModelView>, p: ProtocolFamily)
    ensures
        !is_blank(c.upstream_model) ==> effective_upstream(c, m) == trim(c.upstream_model),
        is_blank(c.upstream_model) ==> effective_upstream(c, m) == match m {
            Some(md) => trim(md.upstream_model),
            None => Seq::<char>::empty(),
        },
        !is_blank(c.upstream_model) ==> (resolve_single(c, models, p) matches Ok(Some(t))
            ==> t.candidate.upstream_model == trim(c.upstream_model)),
{
}

} // verus!
