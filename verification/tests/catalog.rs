use race_gateway::catalog::ConfigSnapshotCache;
use race_gateway::control::{check_group_put, GroupPut};
use race_gateway::domain::types::{
    AuthStrategy, KeySelectionStrategy, ProtocolFamily, RaceCandidate, RaceGroup, RaceKeyPool,
    RaceModelDescriptor, RaceSettings, RaceTargetEndpoint,
};

fn model(id: &str, upstream: &str) -> RaceModelDescriptor {
    RaceModelDescriptor {
        id: id.to_string(),
        display_name: id.to_uppercase(),
        upstream_model: upstream.to_string(),
        description: String::new(),
        enabled: true,
        endpoints: vec![RaceTargetEndpoint {
            protocol_family: ProtocolFamily::OpenAi,
            base_url: "https://x".to_string(),
            auth_strategy: AuthStrategy::Bearer,
            key_pool_id: "p".to_string(),
            request_timeout_ms: None,
            extra_headers: vec![],
            extra_query: vec![],
            enabled: true,
        }],
        metadata: "{}".to_string(),
    }
}

fn candidate(name: &str, model_id: Option<&str>, upstream: &str) -> RaceCandidate {
    RaceCandidate {
        id: name.to_lowercase(),
        group_id: "g".to_string(),
        name: name.to_string(),
        model_id: model_id.map(|s| s.to_string()),
        upstream_model: upstream.to_string(),
        inline_endpoint_overrides: vec![],
        initial_weight_bits: 1.0f64.to_bits(),
        response_protection_timeout_ms: 1_000,
        enabled: true,
        metadata: "{}".to_string(),
    }
}

fn group(id: &str, name: &str) -> RaceGroup {
    RaceGroup {
        id: id.to_string(),
        display_name: name.to_string(),
        fallback_ratio_bits: 0,
        decay_factor_bits: 0,
        penalty_rate_bits: 0,
        recovery_rate_bits: 0,
        race_max_wait_time_ms: Some(1),
        enabled: true,
        candidates: vec![candidate("A", None, "vendor/a")],
    }
}

fn pool(id: &str) -> RaceKeyPool {
    RaceKeyPool {
        id: id.to_string(),
        display_name: id.to_string(),
        auth_strategy: AuthStrategy::Bearer,
        selection_strategy: KeySelectionStrategy::Random,
        enabled: true,
        keys: vec![],
    }
}

#[test]
fn group_read_after_write_and_delete() {
    let mut cache = ConfigSnapshotCache::new(RaceSettings::default());
    assert!(cache.get_group("g").is_none());
    cache.put_group(group("g", "First"));
    cache.put_group(group("h", "Other"));
    cache.put_group(group("g", "Second"));
    assert_eq!(cache.get_group("g").unwrap().display_name, "Second");
    assert_eq!(cache.get_group("h").unwrap().display_name, "Other");
    assert_eq!(cache.list_groups().len(), 2);
    cache.delete_group("g");
    assert!(cache.get_group("g").is_none());
    assert_eq!(cache.list_groups().len(), 1);
}

#[test]
fn model_index_follows_puts_and_deletes() {
    let mut cache = ConfigSnapshotCache::new(RaceSettings::default());
    cache.put_model(model("m1", "vendor/a"));
    cache.put_model(model("m2", "vendor/b"));
    let reached = cache.models_for_candidates(&vec![
        candidate("A", None, " vendor/a "),
        candidate("B", Some("m2"), ""),
        candidate("C", Some("zz"), "vendor/b"),
        candidate("D", None, "vendor/b"),
    ]);
    let mut ids: Vec<String> = reached.iter().map(|m| m.id.clone()).collect();
    ids.sort();
    assert_eq!(ids, vec!["m1".to_string(), "m2".to_string()]);
    cache.put_model(model("m1", "vendor/c"));
    assert!(cache.models_for_candidates(&vec![candidate("A", None, "vendor/a")]).is_empty());
    assert_eq!(cache.models_for_candidates(&vec![candidate("A", None, "vendor/c")]).len(), 1);
    cache.delete_model("m1");
    assert!(cache.get_model("m1").is_none());
    assert!(cache.models_for_candidates(&vec![candidate("A", None, "vendor/c")]).is_empty());
    assert_eq!(cache.list_models().len(), 1);
}

#[test]
fn load_keeps_the_last_value_per_id() {
    let mut g2 = group("g", "Later");
    g2.enabled = false;
    let cache = ConfigSnapshotCache::load(
        vec![group("g", "Earlier"), g2],
        vec![model("m", "vendor/m")],
        vec![pool("p"), pool("q")],
        RaceSettings { enable_race_diagnostics_header: true, max_buffer_events: 5, buffer_backpressure_timeout_ms: 6 },
    );
    assert_eq!(cache.get_group("g").unwrap().display_name, "Later");
    assert_eq!(cache.list_key_pools().len(), 2);
    assert!(cache.get_key_pool("q").is_some());
    assert_eq!(cache.get_settings().max_buffer_events, 5);
    let groups = vec![group("x", "X")];
    assert!(cache.models_for_groups(&groups).is_empty());
    let mut g = group("y", "Y");
    g.candidates = vec![candidate("A", None, "vendor/m")];
    assert_eq!(cache.models_for_groups(&vec![g]).len(), 1);
}

#[test]
fn key_pools_and_settings_round_trip() {
    let mut cache = ConfigSnapshotCache::new(RaceSettings::default());
    cache.put_key_pool(pool("p"));
    assert_eq!(cache.get_key_pool("p").unwrap().id, "p");
    cache.delete_key_pool("p");
    assert!(cache.get_key_pool("p").is_none());
    let s = RaceSettings { enable_race_diagnostics_header: true, max_buffer_events: 9, buffer_backpressure_timeout_ms: 3 };
    cache.put_settings(s);
    assert_eq!(cache.get_settings(), s);
}

#[test]
fn group_update_ids_are_checked() {
    let mut cache = ConfigSnapshotCache::new(RaceSettings::default());
    cache.put_group(group("g", "First"));
    cache.put_group(group("h", "Other"));
    match check_group_put(&cache, " g ", "  ") {
        GroupPut::Proceed { previous_id, id } => assert_eq!((previous_id.as_str(), id.as_str()), ("g", "g")),
        other => panic!("unexpected {:?}", other),
    }
    match check_group_put(&cache, "g", "new") {
        GroupPut::Proceed { previous_id, id } => assert_eq!((previous_id.as_str(), id.as_str()), ("g", "new")),
        other => panic!("unexpected {:?}", other),
    }
    assert!(matches!(check_group_put(&cache, "missing", "new"), GroupPut::NotFound { previous_id } if previous_id == "missing"));
    assert!(matches!(check_group_put(&cache, "g", "h"), GroupPut::Conflict { id } if id == "h"));
    assert!(matches!(check_group_put(&cache, "missing", "missing"), GroupPut::Proceed { .. }));
}
