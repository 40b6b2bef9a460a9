//! Cleaning up a configuration read from a bootstrap file before it is
//! stored.
use vstd::prelude::*;

use crate::control::{groups_view, pools_view};
use crate::domain::resolve::models_view;
use crate::domain::types::{
    candidates_view, endpoints_view, keys_view, BootstrapData, CandidateView, EndpointView,
    GroupView, KeyPoolView, KeyView, ModelView, RaceCandidate, RaceGroup, RaceKey, RaceKeyPool,
    RaceModelDescriptor, RaceTargetEndpoint,
};
use crate::text::{chars_of, string_from_range, trim, trim_str};

verus! {

/// `s` without its trailing `/` characters.
pub open spec fn strip_trailing_slashes(s: Seq<char>) -> Seq<char>
    decreases s.len(),
{
    if s.len() > 0 && s.last() == '/' {
        strip_trailing_slashes(s.drop_last())
    } else {
        s
    }
}

/// `str::trim` then `str::trim_end_matches('/')`.
pub fn trim_url(s: &str) -> (r: String)
    ensures
        r@ == strip_trailing_slashes(trim(s@)),
{
    let t = trim_str(s);
    let v = chars_of(t.as_str());
    let mut n = v.len();
    assert(v@.subrange(0, v.len() as int) =~= v@);
    while n > 0 && v[n - 1] == '/'
        invariant
            n <= v.len(),
            strip_trailing_slashes(v@.subrange(0, n as int)) == strip_trailing_slashes(v@),
        decreases n,
    {
        assert(v@.subrange(0, n as int).drop_last() =~= v@.subrange(0, n - 1));
        n -= 1;
    }
    string_from_range(&v, 0, n)
}

/// An endpoint once cleaned: base URL trimmed without trailing slashes, key
/// pool id trimmed.
pub open spec fn clean_endpoint(e: EndpointView) -> EndpointView {
    EndpointView {
        base_url: strip_trailing_slashes(trim(e.base_url)),
        key_pool_id: trim(e.key_pool_id),
        ..e
    }
}

/// A model once cleaned: identity texts trimmed, endpoints cleaned.
pub open spec fn clean_model(m: ModelView) -> ModelView {
    ModelView {
        id: trim(m.id),
        display_name: trim(m.display_name),
        upstream_model: trim(m.upstream_model),
        endpoints: m.endpoints.map_values(|e: EndpointView| clean_endpoint(e)),
        ..m
    }
}

/// A candidate once cleaned: texts trimmed, a blank model id dropped,
/// inline endpoints cleaned.
pub open spec fn clean_candidate(c: CandidateView) -> CandidateView {
    CandidateView {
        id: trim(c.id),
        group_id: trim(c.group_id),
        name: trim(c.name),
        model_id: match c.model_id {
            Some(m) => if trim(m).len() > 0 {
                Some(trim(m))
            } else {
                None
            },
            None => None,
        },
        upstream_model: trim(c.upstream_model),
        inline_endpoint_overrides: c.inline_endpoint_overrides.map_values(
            |e: EndpointView| clean_endpoint(e),
        ),
        ..c
    }
}

/// A group once cleaned: id and name trimmed, candidates cleaned.
pub open spec fn clean_group(g: GroupView) -> GroupView {
    GroupView {
        id: trim(g.id),
        display_name: trim(g.display_name),
        candidates: g.candidates.map_values(|c: CandidateView| clean_candidate(c)),
        ..g
    }
}

/// A key once cleaned: id, pool id and secret trimmed.
pub open spec fn clean_key(k: KeyView) -> KeyView {
    KeyView { id: trim(k.id), key_pool_id: trim(k.key_pool_id), secret: trim(k.secret), ..k }
}

/// A key pool once cleaned: id and name trimmed, keys cleaned.
pub open spec fn clean_pool(p: KeyPoolView) -> KeyPoolView {
    KeyPoolView {
        id: trim(p.id),
        display_name: trim(p.display_name),
        keys: p.keys.map_values(|k: KeyView| clean_key(k)),
        ..p
    }
}

fn clean_endpoints(v: &Vec<RaceTargetEndpoint>) -> (r: Vec<RaceTargetEndpoint>)
    ensures
        endpoints_view(r@) == endpoints_view(v@).map_values(|e: EndpointView| clean_endpoint(e)),
{
    let mut out: Vec<RaceTargetEndpoint> = Vec::new();
    let mut i: usize = 0;
    while i < v.len()
        invariant
            i <= v.len(),
            out.len() == i,
            forall|k: int| 0 <= k < i ==> (#[trigger] out@[k])@ == clean_endpoint(v@[k]@),
        decreases v.len() - i,
    {
        let mut e = v[i].clone();
        e.base_url = trim_url(v[i].base_url.as_str());
        e.key_pool_id = trim_str(v[i].key_pool_id.as_str());
        out.push(e);
        i += 1;
    }
    assert(endpoints_view(out@) =~= endpoints_view(v@).map_values(
        |e: EndpointView| clean_endpoint(e),
    ));
    out
}

fn clean_model_exec(m: &RaceModelDescriptor) -> (r: RaceModelDescriptor)
    ensures
        r@ == clean_model(m@),
{
    let mut out = m.clone();
    out.id = trim_str(m.id.as_str());
    out.display_name = trim_str(m.display_name.as_str());
    out.upstream_model = trim_str(m.upstream_model.as_str());
    out.endpoints = clean_endpoints(&m.endpoints);
    out
}

fn clean_candidate_exec(c: &RaceCandidate) -> (r: RaceCandidate)
    ensures
        r@ == clean_candidate(c@),
{
    let mut out = c.clone();
    out.id = trim_str(c.id.as_str());
    out.group_id = trim_str(c.group_id.as_str());
    out.name = trim_str(c.name.as_str());
    out.model_id = match &c.model_id {
        Some(m) => {
            let t = trim_str(m.as_str());
            if t.as_str().unicode_len() > 0 {
                Some(t)
            } else {
                None
            }
        },
        None => None,
    };
    out.upstream_model = trim_str(c.upstream_model.as_str());
    out.inline_endpoint_overrides = clean_endpoints(&c.inline_endpoint_overrides);
    out
}

fn clean_group_exec(g: &RaceGroup) -> (r: RaceGroup)
    ensures
        r@ == clean_group(g@),
{
    let mut candidates: Vec<RaceCandidate> = Vec::new();
    let mut i: usize = 0;
    while i < g.candidates.len()
        invariant
            i <= g.candidates.len(),
            candidates.len() == i,
            forall|k: int| 0 <= k < i ==> (#[trigger] candidates@[k])@ == clean_candidate(g.candidates@[k]@),
        decreases g.candidates.len() - i,
    {
        candidates.push(clean_candidate_exec(&g.candidates[i]));
        i += 1;
    }
    let r = RaceGroup {
        id: trim_str(g.id.as_str()),
        display_name: trim_str(g.display_name.as_str()),
        fallback_ratio_bits: g.fallback_ratio_bits,
        decay_factor_bits: g.decay_factor_bits,
        penalty_rate_bits: g.penalty_rate_bits,
        recovery_rate_bits: g.recovery_rate_bits,
        race_max_wait_time_ms: g.race_max_wait_time_ms,
        enabled: g.enabled,
        candidates,
    };
    assert(r@.candidates =~= g@.candidates.map_values(|c: CandidateView| clean_candidate(c)));
    r
}

fn clean_pool_exec(p: &RaceKeyPool) -> (r: RaceKeyPool)
    ensures
        r@ == clean_pool(p@),
{
    let mut keys: Vec<RaceKey> = Vec::new();
    let mut i: usize = 0;
    while i < p.keys.len()
        invariant
            i <= p.keys.len(),
            keys.len() == i,
            forall|k: int| 0 <= k < i ==> (#[trigger] keys@[k])@ == clean_key(p.keys@[k]@),
        decreases p.keys.len() - i,
    {
        let mut k = p.keys[i].clone();
        k.id = trim_str(p.keys[i].id.as_str());
        k.key_pool_id = trim_str(p.keys[i].key_pool_id.as_str());
        k.secret = trim_str(p.keys[i].secret.as_str());
        keys.push(k);
        i += 1;
    }
    let r = RaceKeyPool {
        id: trim_str(p.id.as_str()),
        display_name: trim_str(p.display_name.as_str()),
        auth_strategy: p.auth_strategy.clone(),
        selection_strategy: p.selection_strategy,
        enabled: p.enabled,
        keys,
    };
    assert(r@.keys =~= p@.keys.map_values(|k: KeyView| clean_key(k)));
    r
}

/// A bootstrap configuration cleaned up: ids, names, upstream models, key
/// pool ids and secrets trimmed, base URLs trimmed without trailing
/// slashes, blank candidate model ids dropped; settings unchanged.
pub fn normalize_bootstrap_data(data: BootstrapData) -> (r: BootstrapData)
    ensures
        models_view(r.models@) == models_view(data.models@).map_values(|m: ModelView| clean_model(m)),
        groups_view(r.groups@) == groups_view(data.groups@).map_values(|g: GroupView| clean_group(g)),
        pools_view(r.key_pools@) == pools_view(data.key_pools@).map_values(
            |p: KeyPoolView| clean_pool(p),
        ),
        r.settings == data.settings,
{
    let mut models: Vec<RaceModelDescriptor> = Vec::new();
    let mut i: usize = 0;
    while i < data.models.len()
        invariant
            i <= data.models.len(),
            models.len() == i,
            forall|k: int| 0 <= k < i ==> (#[trigger] models@[k])@ == clean_model(data.models@[k]@),
        decreases data.models.len() - i,
    {
        models.push(clean_model_exec(&data.models[i]));
        i += 1;
    }
    let mut groups: Vec<RaceGroup> = Vec::new();
    let mut i: usize = 0;
    while i < data.groups.len()
        invariant
            i <= data.groups.len(),
            groups.len() == i,
            forall|k: int| 0 <= k < i ==> (#[trigger] groups@[k])@ == clean_group(data.groups@[k]@),
        decreases data.groups.len() - i,
    {
        groups.push(clean_group_exec(&data.groups[i]));
        i += 1;
    }
    let mut key_pools: Vec<RaceKeyPool> = Vec::new();
    let mut i: usize = 0;
    while i < data.key_pools.len()
        invariant
            i <= data.key_pools.len(),
            key_pools.len() == i,
            forall|k: int| 0 <= k < i ==> (#[trigger] key_pools@[k])@ == clean_pool(data.key_pools@[k]@),
        decreases data.key_pools.len() - i,
    {
        key_pools.push(clean_pool_exec(&data.key_pools[i]));
        i += 1;
    }
    assert(models_view(models@) =~= models_view(data.models@).map_values(|m: ModelView| clean_model(m)));
    assert(groups_view(groups@) =~= groups_view(data.groups@).map_values(|g: GroupView| clean_group(g)));
    assert(pools_view(key_pools@) =~= pools_view(data.key_pools@).map_values(
        |p: KeyPoolView| clean_pool(p),
    ));
    BootstrapData { models, groups, key_pools, settings: data.settings }
}

/// An endpoint once references to key pool `previous` are moved to `new`.
pub open spec fn rebound_endpoint(e: EndpointView, previous: Seq<char>, new: Seq<char>) -> EndpointView {
    if e.key_pool_id == previous {
        EndpointView { key_pool_id: new, ..e }
    } else {
        e
    }
}

/// Moves the endpoints that use key pool `previous` to key pool `new`, as a
/// renamed pool requires of the endpoints stored with a candidate; tells
/// whether any endpoint changed.
pub fn rebind_endpoint_key_pools(endpoints: &mut Vec<RaceTargetEndpoint>, previous: &str, new: &str) -> (changed: bool)
    ensures
        endpoints_view(final(endpoints)@) == endpoints_view(old(endpoints)@).map_values(
            |e: EndpointView| rebound_endpoint(e, previous@, new@),
        ),
        changed == exists|i: int|
            0 <= i < old(endpoints)@.len() && (#[trigger] old(endpoints)@[i]).key_pool_id@ == previous@,
{
    let ghost before = endpoints_view(endpoints@);
    let mut changed = false;
    let mut i: usize = 0;
    while i < endpoints.len()
        invariant
            i <= endpoints.len(),
            before.len() == endpoints.len(),
            forall|k: int|
                0 <= k < i ==> (#[trigger] endpoints@[k])@ == rebound_endpoint(before[k], previous@, new@),
            forall|k: int| i <= k < endpoints.len() ==> (#[trigger] endpoints@[k])@ == before[k],
            changed == exists|k: int| 0 <= k < i && (#[trigger] before[k]).key_pool_id == previous@,
        decreases endpoints.len() - i,
    {
        if crate::text::str_eq(endpoints[i].key_pool_id.as_str(), previous) {
            let mut e = endpoints[i].clone();
            e.key_pool_id = new.to_string();
            endpoints.set(i, e);
            changed = true;
            assert(before[i as int].key_pool_id == previous@);
        }
        i += 1;
    }
    proof {
        assert(endpoints_view(endpoints@) =~= before.map_values(
            |e: EndpointView| rebound_endpoint(e, previous@, new@),
        ));
        if changed {
            let k = choose|k: int| 0 <= k < endpoints@.len() && (#[trigger] before[k]).key_pool_id == previous@;
            assert(old(endpoints)@[k]@ == before[k]);
        }
        if exists|k: int| 0 <= k < old(endpoints)@.len() && (#[trigger] old(endpoints)@[k]).key_pool_id@ == previous@ {
            let k = choose|k: int| 0 <= k < old(endpoints)@.len() && (#[trigger] old(endpoints)@[k]).key_pool_id@ == previous@;
            assert(before[k].key_pool_id == previous@);
        }
    }
    changed
}

} // verus!
