//! Choosing who races for a proxied request: the group, its candidates
//! that can serve the route's protocol, and a key for each.
use vstd::prelude::*;

use crate::adapters::{adapter_for_route, RaceProtocolAdapter};
use crate::catalog::{ids_unique, keyed, reached_models, CacheView, ConfigSnapshotCache};
use crate::domain::resolve::{
    models_view, resolve_candidates_for_protocol, resolve_group, targets_view, ResolveError,
    ResolveErrorView, ResolvedTargetView,
};
use crate::domain::types::{
    candidates_view, keys_view, DownstreamRouteKind, GroupView, KeyPoolView, ProtocolFamily,
    RaceGroup, RaceKey, RaceModelDescriptor, RaceSettings, ResolvedCandidateTarget,
};
use crate::group::race::{RaceExecutionSettings, MAX_BUFFER_BYTES};
use crate::key_pool::{usable_key, usable_key_indices, KeyPoolError, KeyPoolSelector, RandomKeyPoolSelector};
use crate::text::push_str;

verus! {

/// Why a race could not be set up.
#[derive(Debug)]
pub enum RunnerError {
    GroupNotFound(String),
    GroupDisabled(String),
    Resolve(ResolveError),
    KeyPoolNotFound(String),
    KeyPool(KeyPoolError),
}

impl RunnerError {
    /// The error's message.
    pub fn message(&self) -> (r: String)
        ensures
            match self {
                RunnerError::GroupNotFound(g) => r@ == "group '"@ + g@ + "' not found"@,
                RunnerError::GroupDisabled(g) => r@ == "group '"@ + g@ + "' is disabled"@,
                RunnerError::Resolve(e) => r@ == crate::domain::resolve::resolve_error_message(e@),
                RunnerError::KeyPoolNotFound(p) => r@ == "key pool '"@ + p@ + "' not found"@,
                RunnerError::KeyPool(KeyPoolError::Disabled { pool }) => r@ == "key pool '"@ + pool@
                    + "' is disabled"@,
                RunnerError::KeyPool(KeyPoolError::NoEnabledKey { pool }) => r@ == "key pool '"@ + pool@
                    + "' does not contain any enabled key"@,
            },
    {
        match self {
            RunnerError::GroupNotFound(g) => {
                let mut s = String::new();
                push_str(&mut s, "group '");
                push_str(&mut s, g.as_str());
                push_str(&mut s, "' not found");
                assert(s@ =~= "group '"@ + g@ + "' not found"@);
                s
            },
            RunnerError::GroupDisabled(g) => {
                let mut s = String::new();
                push_str(&mut s, "group '");
                push_str(&mut s, g.as_str());
                push_str(&mut s, "' is disabled");
                assert(s@ =~= "group '"@ + g@ + "' is disabled"@);
                s
            },
            RunnerError::Resolve(e) => e.message(),
            RunnerError::KeyPoolNotFound(p) => {
                let mut s = String::new();
                push_str(&mut s, "key pool '");
                push_str(&mut s, p.as_str());
                push_str(&mut s, "' not found");
                assert(s@ =~= "key pool '"@ + p@ + "' not found"@);
                s
            },
            RunnerError::KeyPool(e) => e.message(),
        }
    }
}

/// A resolved target and the key chosen for it.
#[derive(Debug)]
pub struct SelectedTarget {
    pub target: ResolvedCandidateTarget,
    pub key: RaceKey,
}

/// Everything a race needs from the catalog.
#[derive(Debug)]
pub struct RaceSelection {
    pub group: RaceGroup,
    pub adapter: RaceProtocolAdapter,
    pub settings: RaceSettings,
    pub execution: RaceExecutionSettings,
    pub diagnostics_enabled: bool,
    pub models: Vec<RaceModelDescriptor>,
    pub picks: Vec<SelectedTarget>,
}

/// A key can be chosen from pool `id`: the catalog has it, it is enabled,
/// and it holds a usable key.
pub open spec fn pool_ready(v: CacheView, id: Seq<char>) -> bool {
    &&& v.key_pools.dom().contains(id)
    &&& v.key_pools[id].enabled
    &&& usable_key_indices(v.key_pools[id].keys, v.key_pools[id].keys.len() as int).len() > 0
}

/// The protocol family an adapter's route speaks.
pub open spec fn route_protocol(route: DownstreamRouteKind) -> ProtocolFamily {
    match route {
        DownstreamRouteKind::OpenAiChatCompletions | DownstreamRouteKind::OpenAiResponses =>
            ProtocolFamily::OpenAi,
        DownstreamRouteKind::AnthropicMessages => ProtocolFamily::Anthropic,
        _ => ProtocolFamily::Google,
    }
}

/// The models handed to resolution: each model that the group's
/// candidates reach, once.
pub open spec fn reached_catalog(v: CacheView, g: GroupView, m: Seq<RaceModelDescriptor>) -> bool {
    ids_unique(m) && keyed(m) == v.models.restrict(reached_models(g.candidates, v))
}

/// What the group's candidates resolve to for the route, against models `m`.
pub open spec fn race_targets(v: CacheView, group_id: Seq<char>, m: Seq<RaceModelDescriptor>, route: DownstreamRouteKind) -> Result<
    Seq<ResolvedTargetView>,
    ResolveErrorView,
> {
    let g = v.groups[group_id];
    resolve_group(g.id, g.candidates, models_view(m), route_protocol(route))
}

/// Target `k` of `ts` uses pool `p`, which is not ready, while the pools of
/// the targets before it are.
pub open spec fn first_unready(v: CacheView, ts: Seq<ResolvedTargetView>, k: int, p: Seq<char>) -> bool {
    &&& 0 <= k < ts.len()
    &&& ts[k].key_pool_id == p
    &&& !pool_ready(v, p)
    &&& forall|j: int| 0 <= j < k ==> pool_ready(v, #[trigger] ts[j].key_pool_id)
}

/// Against the models `m` that group `gid` reaches, its candidates resolve
/// and key selection stops at target `k`, whose pool `p` is not ready.
pub open spec fn pool_fails_at(
    v: CacheView,
    gid: Seq<char>,
    m: Seq<RaceModelDescriptor>,
    route: DownstreamRouteKind,
    k: int,
    p: Seq<char>,
) -> bool {
    &&& v.groups.dom().contains(gid)
    &&& reached_catalog(v, v.groups[gid], m)
    &&& race_targets(v, gid, m, route) is Ok
    &&& first_unready(v, race_targets(v, gid, m, route)->Ok_0, k, p)
}

/// Key selection for some group stops at a target whose pool `p` is not
/// ready (see `pool_fails_at`).
pub open spec fn pool_failure(v: CacheView, route: DownstreamRouteKind, p: Seq<char>) -> bool {
    exists|gid: Seq<char>, m: Seq<RaceModelDescriptor>, k: int| #[trigger] pool_fails_at(v, gid, m, route, k, p)
}

/// A race can be set up: the group exists and is enabled, and against any
/// list of the models its candidates reach they resolve to targets whose
/// key pools are all ready.
pub open spec fn race_possible(v: CacheView, group_id: Seq<char>, route: DownstreamRouteKind) -> bool {
    &&& v.groups.dom().contains(group_id)
    &&& v.groups[group_id].enabled
    &&& forall|m: Seq<RaceModelDescriptor>|
        #[trigger] reached_catalog(v, v.groups[group_id], m) ==> all_pools_ready(
            v,
            race_targets(v, group_id, m, route),
        )
}

/// The resolution succeeded and every target's key pool is ready.
pub open spec fn all_pools_ready(v: CacheView, r: Result<Seq<ResolvedTargetView>, ResolveErrorView>) -> bool {
    &&& r is Ok
    &&& forall|k: int| 0 <= k < r->Ok_0.len() ==> pool_ready(v, #[trigger] r->Ok_0[k].key_pool_id)
}

/// Sets up a race for the request on `route_kind` to group `group_id`: the
/// group must exist and be enabled; its candidates are resolved for the
/// route's protocol against the models they reach; then, target by target,
/// a usable key is drawn at random from the target's key pool. The first
/// failure is reported. The buffering limits come from the catalog's
/// settings, and the diagnostics header is sent when both the settings and
/// the request ask for it.
pub fn select_race(
    cache: &ConfigSnapshotCache,
    group_id: &str,
    route_kind: DownstreamRouteKind,
    diagnostics_requested: bool,
) -> (r: Result<
    RaceSelection,
    RunnerError,
>)
    requires
        cache.wf(),
    ensures
        match r {
            Ok(sel) => {
                &&& cache@.groups.dom().contains(group_id@)
                &&& sel.group@ == cache@.groups[group_id@]
                &&& sel.group.enabled
                &&& sel.adapter.route() == route_kind
                &&& sel.settings == cache@.settings
                &&& sel.execution == (RaceExecutionSettings {
                    max_buffer_events: cache@.settings.max_buffer_events,
                    max_buffer_bytes: MAX_BUFFER_BYTES,
                    buffer_backpressure_timeout_ms: cache@.settings.buffer_backpressure_timeout_ms,
                })
                &&& sel.diagnostics_enabled == (cache@.settings.enable_race_diagnostics_header
                    && diagnostics_requested)
                &&& reached_catalog(cache@, sel.group@, sel.models@)
                &&& resolve_group(
                    sel.group@.id,
                    sel.group@.candidates,
                    models_view(sel.models@),
                    route_protocol(route_kind),
                ) == Ok::<Seq<ResolvedTargetView>, ResolveErrorView>(
                    sel.picks@.map_values(|p: SelectedTarget| p.target@),
                )
                &&& forall|i: int|
                    0 <= i < sel.picks.len() ==> {
                        let t = #[trigger] sel.picks@[i].target@;
                        let pool = cache@.key_pools[t.key_pool_id];
                        &&& pool_ready(cache@, t.key_pool_id)
                        &&& exists|j: int|
                            0 <= j < pool.keys.len() && pool.keys[j] == sel.picks@[i].key@
                                && usable_key(pool.keys[j])
                    }
            },
            Err(RunnerError::GroupNotFound(g)) => g@ == group_id@ && !cache@.groups.dom().contains(
                group_id@,
            ),
            Err(RunnerError::GroupDisabled(g)) => cache@.groups.dom().contains(group_id@)
                && !cache@.groups[group_id@].enabled && g@ == cache@.groups[group_id@].id,
            Err(RunnerError::Resolve(e)) => cache@.groups.dom().contains(group_id@)
                && cache@.groups[group_id@].enabled && exists|m: Seq<RaceModelDescriptor>|
                reached_catalog(cache@, cache@.groups[group_id@], m) && resolve_group(
                    cache@.groups[group_id@].id,
                    cache@.groups[group_id@].candidates,
                    models_view(m),
                    route_protocol(route_kind),
                ) == Err::<Seq<ResolvedTargetView>, ResolveErrorView>(e@),
            Err(RunnerError::KeyPoolNotFound(p)) => pool_failure(cache@, route_kind, p@)
                && !cache@.key_pools.dom().contains(p@),
            Err(RunnerError::KeyPool(KeyPoolError::Disabled { pool })) => pool_failure(
                cache@,
                route_kind,
                pool@,
            ) && cache@.key_pools.dom().contains(pool@) && !cache@.key_pools[pool@].enabled,
            Err(RunnerError::KeyPool(KeyPoolError::NoEnabledKey { pool })) => pool_failure(
                cache@,
                route_kind,
                pool@,
            ) && cache@.key_pools.dom().contains(pool@) && cache@.key_pools[pool@].enabled
                && usable_key_indices(
                cache@.key_pools[pool@].keys,
                cache@.key_pools[pool@].keys.len() as int,
            ).len() == 0,
        },
        race_possible(cache@, group_id@, route_kind) ==> r.is_ok(),
{
    let group = match cache.get_group(group_id) {
        Some(g) => g,
        None => return Err(RunnerError::GroupNotFound(group_id.to_string())),
    };
    if !group.enabled {
        return Err(RunnerError::GroupDisabled(group.id.clone()));
    }
    let settings = cache.get_settings();
    let models = cache.models_for_candidates(&group.candidates);
    let adapter = adapter_for_route(route_kind);
    let protocol = adapter.protocol_family();
    assert(protocol == route_protocol(route_kind));
    let resolved = match resolve_candidates_for_protocol(&group, &models, protocol) {
        Ok(ts) => ts,
        Err(e) => {
            assert(reached_catalog(cache@, cache@.groups[group_id@], models@));
            return Err(RunnerError::Resolve(e));
        },
    };
    let ghost tv = targets_view(resolved@);
    proof {
        assert(reached_catalog(cache@, cache@.groups[group_id@], models@));
        assert(race_targets(cache@, group_id@, models@, route_kind) == Ok::<
            Seq<ResolvedTargetView>,
            ResolveErrorView,
        >(tv));
    }
    let selector = RandomKeyPoolSelector;
    let mut picks: Vec<SelectedTarget> = Vec::new();
    let mut i: usize = 0;
    while i < resolved.len()
        invariant
            i <= resolved.len(),
            cache.wf(),
            tv == targets_view(resolved@),
            cache@.groups.dom().contains(group_id@),
            reached_catalog(cache@, cache@.groups[group_id@], models@),
            race_targets(cache@, group_id@, models@, route_kind) == Ok::<
                Seq<ResolvedTargetView>,
                ResolveErrorView,
            >(tv),
            picks.len() == i,
            forall|k: int| 0 <= k < i ==> (#[trigger] picks@[k]).target@ == tv[k],
            forall|k: int|
                0 <= k < i ==> {
                    let t = #[trigger] picks@[k].target@;
                    let pool = cache@.key_pools[t.key_pool_id];
                    &&& pool_ready(cache@, t.key_pool_id)
                    &&& exists|j: int|
                        0 <= j < pool.keys.len() && pool.keys[j] == picks@[k].key@ && usable_key(
                            pool.keys[j],
                        )
                },
        decreases resolved.len() - i,
    {
        let t = &resolved[i];
        assert(tv[i as int] == t@);
        assert forall|j: int| 0 <= j < i implies pool_ready(cache@, #[trigger] tv[j].key_pool_id) by {
            assert(picks@[j].target@ == tv[j]);
        }
        let pool = match cache.get_key_pool(t.key_pool_id.as_str()) {
            Some(p) => p,
            None => {
                let p = t.key_pool_id.clone();
                proof {
                    assert(first_unready(cache@, tv, i as int, p@));
                    assert(pool_fails_at(cache@, group_id@, models@, route_kind, i as int, p@));
                }
                return Err(RunnerError::KeyPoolNotFound(p));
            },
        };
        let chosen = selector.select_key(&pool, None);
        let key = match chosen {
            Ok(k) => k.clone(),
            Err(e) => {
                proof {
                    assert(pool@ == cache@.key_pools[t.key_pool_id@]);
                    assert(first_unready(cache@, tv, i as int, t.key_pool_id@));
                    assert(pool_fails_at(cache@, group_id@, models@, route_kind, i as int, t.key_pool_id@));
                }
                return Err(RunnerError::KeyPool(e));
            },
        };
        proof {
            let pv = cache@.key_pools[t.key_pool_id@];
            assert(pool@ == pv);
            assert(keys_view(pool.keys@) == pv.keys);
            let j = choose|j: int|
                0 <= j < pool.keys@.len() && *chosen.unwrap() == pool.keys@[j] && usable_key(
                    pool.keys@[j]@,
                );
            assert(pv.keys[j] == key@);
        }
        picks.push(SelectedTarget { target: t.clone(), key });
        i += 1;
    }
    assert(picks@.map_values(|p: SelectedTarget| p.target@) =~= tv);
    let execution = RaceExecutionSettings {
        max_buffer_events: settings.max_buffer_events,
        max_buffer_bytes: MAX_BUFFER_BYTES,
        buffer_backpressure_timeout_ms: settings.buffer_backpressure_timeout_ms,
    };
    let diagnostics_enabled = settings.enable_race_diagnostics_header && diagnostics_requested;
    Ok(RaceSelection { group, adapter, settings, execution, diagnostics_enabled, models, picks })
}

} // verus!
