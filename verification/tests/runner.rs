use race_gateway::catalog::ConfigSnapshotCache;
use race_gateway::domain::resolve::ResolveError;
use race_gateway::domain::types::{
    AuthStrategy, DownstreamRouteKind, KeySelectionStrategy, ProtocolFamily, RaceCandidate,
    RaceGroup, RaceKey, RaceKeyPool, RaceModelDescriptor, RaceSettings, RaceTargetEndpoint,
};
use race_gateway::group::race::MAX_BUFFER_BYTES;
use race_gateway::key_pool::KeyPoolError;
use race_gateway::runner::{select_race, RunnerError};

fn endpoint(protocol: ProtocolFamily, pool: &str) -> RaceTargetEndpoint {
    RaceTargetEndpoint {
        protocol_family: protocol,
        base_url: "https://upstream.example".to_string(),
        auth_strategy: AuthStrategy::Bearer,
        key_pool_id: pool.to_string(),
        request_timeout_ms: None,
        extra_headers: vec![],
        extra_query: vec![],
        enabled: true,
    }
}

fn model(id: &str, pool: &str) -> RaceModelDescriptor {
    RaceModelDescriptor {
        id: id.to_string(),
        display_name: id.to_string(),
        upstream_model: format!("vendor/{}", id),
        description: String::new(),
        enabled: true,
        endpoints: vec![endpoint(ProtocolFamily::OpenAi, pool)],
        metadata: "{}".to_string(),
    }
}

fn candidate(name: &str, model_id: &str) -> RaceCandidate {
    RaceCandidate {
        id: name.to_string(),
        group_id: "g".to_string(),
        name: name.to_string(),
        model_id: Some(model_id.to_string()),
        upstream_model: String::new(),
        inline_endpoint_overrides: vec![],
        initial_weight_bits: 1.0f64.to_bits(),
        response_protection_timeout_ms: 1_000,
        enabled: true,
        metadata: "{}".to_string(),
    }
}

fn group(enabled: bool, candidates: Vec<RaceCandidate>) -> RaceGroup {
    RaceGroup {
        id: "g".to_string(),
        display_name: "G".to_string(),
        fallback_ratio_bits: 0,
        decay_factor_bits: 0,
        penalty_rate_bits: 0,
        recovery_rate_bits: 0,
        race_max_wait_time_ms: None,
        enabled,
        candidates,
    }
}

fn key(id: &str, pool: &str, enabled: bool) -> RaceKey {
    RaceKey {
        id: id.to_string(),
        key_pool_id: pool.to_string(),
        secret: format!("secret-{}", id),
        enabled,
        metadata: "{}".to_string(),
    }
}

fn pool(id: &str, enabled: bool, keys: Vec<RaceKey>) -> RaceKeyPool {
    RaceKeyPool {
        id: id.to_string(),
        display_name: id.to_string(),
        auth_strategy: AuthStrategy::Bearer,
        selection_strategy: KeySelectionStrategy::Random,
        enabled,
        keys,
    }
}

fn catalog(group_enabled: bool, p: Option<RaceKeyPool>) -> ConfigSnapshotCache {
    let mut cache = ConfigSnapshotCache::new(RaceSettings::default());
    cache.put_model(model("m1", "p"));
    cache.put_group(group(group_enabled, vec![candidate("A", "m1")]));
    if let Some(p) = p {
        cache.put_key_pool(p);
    }
    cache
}

#[test]
fn race_is_set_up_with_a_usable_key_per_target() {
    let cache = catalog(true, Some(pool("p", true, vec![key("k0", "p", false), key("k1", "p", true)])));
    let sel = select_race(&cache, "g", DownstreamRouteKind::OpenAiChatCompletions, true)
        .unwrap_or_else(|e| panic!("{}", e.message()));
    assert_eq!(sel.group.id, "g");
    assert_eq!(sel.models.len(), 1);
    assert_eq!(sel.picks.len(), 1);
    assert_eq!(sel.picks[0].target.candidate.name, "A");
    assert_eq!(sel.picks[0].target.key_pool_id, "p");
    assert_eq!(sel.picks[0].key.id, "k1");
    assert_eq!(sel.execution.max_buffer_events, RaceSettings::default().max_buffer_events);
    assert_eq!(sel.execution.max_buffer_bytes, MAX_BUFFER_BYTES);
    assert_eq!(
        sel.diagnostics_enabled,
        RaceSettings::default().enable_race_diagnostics_header
    );
}

#[test]
fn diagnostics_need_the_request_to_ask() {
    let cache = catalog(true, Some(pool("p", true, vec![key("k1", "p", true)])));
    let sel = select_race(&cache, "g", DownstreamRouteKind::OpenAiResponses, false).unwrap();
    assert!(!sel.diagnostics_enabled);
}

#[test]
fn unknown_group_is_reported() {
    let cache = catalog(true, None);
    match select_race(&cache, "nope", DownstreamRouteKind::OpenAiChatCompletions, false) {
        Err(e @ RunnerError::GroupNotFound(_)) => {
            assert_eq!(e.message(), "group 'nope' not found")
        }
        other => panic!("unexpected {:?}", other.map(|s| s.group.id)),
    }
}

#[test]
fn disabled_group_is_reported() {
    let cache = catalog(false, None);
    match select_race(&cache, "g", DownstreamRouteKind::OpenAiChatCompletions, false) {
        Err(e @ RunnerError::GroupDisabled(_)) => {
            assert_eq!(e.message(), "group 'g' is disabled")
        }
        other => panic!("unexpected {:?}", other.map(|s| s.group.id)),
    }
}

#[test]
fn no_candidate_for_the_routes_protocol() {
    let cache = catalog(true, Some(pool("p", true, vec![key("k1", "p", true)])));
    match select_race(&cache, "g", DownstreamRouteKind::AnthropicMessages, false) {
        Err(RunnerError::Resolve(ResolveError::NoCandidateForProtocol { group, protocol })) => {
            assert_eq!(group, "g");
            assert_eq!(protocol, ProtocolFamily::Anthropic);
        }
        other => panic!("unexpected {:?}", other.map(|s| s.group.id)),
    }
}

#[test]
fn missing_key_pool_is_reported() {
    let cache = catalog(true, None);
    match select_race(&cache, "g", DownstreamRouteKind::OpenAiChatCompletions, false) {
        Err(e @ RunnerError::KeyPoolNotFound(_)) => {
            assert_eq!(e.message(), "key pool 'p' not found")
        }
        other => panic!("unexpected {:?}", other.map(|s| s.group.id)),
    }
}

#[test]
fn disabled_key_pool_is_reported() {
    let cache = catalog(true, Some(pool("p", false, vec![key("k1", "p", true)])));
    match select_race(&cache, "g", DownstreamRouteKind::OpenAiChatCompletions, false) {
        Err(RunnerError::KeyPool(KeyPoolError::Disabled { pool })) => assert_eq!(pool, "p"),
        other => panic!("unexpected {:?}", other.map(|s| s.group.id)),
    }
}

#[test]
fn pool_without_usable_key_is_reported() {
    let cache = catalog(true, Some(pool("p", true, vec![key("k1", "p", false)])));
    match select_race(&cache, "g", DownstreamRouteKind::OpenAiChatCompletions, false) {
        Err(RunnerError::KeyPool(KeyPoolError::NoEnabledKey { pool })) => assert_eq!(pool, "p"),
        other => panic!("unexpected {:?}", other.map(|s| s.group.id)),
    }
}
