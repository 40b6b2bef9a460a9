use race_gateway::control::{
    find_key_pool_reference, find_model_reference, generated_candidate_id,
    mask_key_pool_for_response, normalize_group_request, restore_key_secrets,
    summarize_group_from_cache, validate_group_request, validate_model_request,
};
use race_gateway::domain::types::{
    AuthStrategy, KeySelectionStrategy, ProtocolFamily, RaceCandidate, RaceGroup, RaceKey,
    RaceKeyPool, RaceModelDescriptor, RaceTargetEndpoint,
};

fn endpoint(p: ProtocolFamily, pool: &str) -> RaceTargetEndpoint {
    RaceTargetEndpoint {
        protocol_family: p,
        base_url: "https://up.example".to_string(),
        auth_strategy: AuthStrategy::Bearer,
        key_pool_id: pool.to_string(),
        request_timeout_ms: None,
        extra_headers: vec![],
        extra_query: vec![],
        enabled: true,
    }
}

fn model(id: &str, upstream: &str, endpoints: Vec<RaceTargetEndpoint>) -> RaceModelDescriptor {
    RaceModelDescriptor {
        id: id.to_string(),
        display_name: id.to_uppercase(),
        upstream_model: upstream.to_string(),
        description: String::new(),
        enabled: true,
        endpoints,
        metadata: "{}".to_string(),
    }
}

fn candidate(id: &str, name: &str, model_id: Option<&str>, upstream: &str) -> RaceCandidate {
    RaceCandidate {
        id: id.to_string(),
        group_id: String::new(),
        name: name.to_string(),
        model_id: model_id.map(|s| s.to_string()),
        upstream_model: upstream.to_string(),
        inline_endpoint_overrides: vec![],
        initial_weight_bits: 100.0f64.to_bits(),
        response_protection_timeout_ms: 5_000,
        enabled: true,
        metadata: "{}".to_string(),
    }
}

fn group(id: &str, candidates: Vec<RaceCandidate>) -> RaceGroup {
    RaceGroup {
        id: id.to_string(),
        display_name: "Group".to_string(),
        fallback_ratio_bits: 0.5f64.to_bits(),
        decay_factor_bits: 0.8f64.to_bits(),
        penalty_rate_bits: 1.0f64.to_bits(),
        recovery_rate_bits: 1.0f64.to_bits(),
        race_max_wait_time_ms: None,
        enabled: true,
        candidates,
    }
}

fn pool(id: &str, secrets: &[(&str, &str)]) -> RaceKeyPool {
    RaceKeyPool {
        id: id.to_string(),
        display_name: id.to_uppercase(),
        auth_strategy: AuthStrategy::Bearer,
        selection_strategy: KeySelectionStrategy::Random,
        enabled: true,
        keys: secrets
            .iter()
            .map(|(k, s)| RaceKey {
                id: k.to_string(),
                key_pool_id: id.to_string(),
                secret: s.to_string(),
                enabled: true,
                metadata: "{}".to_string(),
            })
            .collect(),
    }
}

#[test]
fn model_request_checks_pools_and_upstream() {
    let pools = vec![pool("pool-a", &[("k", "s")])];
    let existing = vec![model("other", "vendor/m", vec![endpoint(ProtocolFamily::OpenAi, "pool-a")])];
    let submitted = model(
        "m",
        "vendor/m",
        vec![endpoint(ProtocolFamily::OpenAi, " pool-x "), endpoint(ProtocolFamily::Google, "  ")],
    );
    let r = validate_model_request(&submitted, None, &existing, &pools);
    assert!(!r.valid);
    let codes: Vec<(&str, &str)> = r.issues.iter().map(|i| (i.field.as_str(), i.code.as_str())).collect();
    assert_eq!(
        codes,
        vec![
            ("endpoints[0].key_pool_id", "unknown_key_pool"),
            ("endpoints[1].key_pool_id", "required"),
            ("upstream_model", "duplicate_upstream_model"),
        ]
    );
    assert_eq!(r.issues[0].message, "key pool 'pool-x' does not exist");
    assert_eq!(r.issues[2].message, "upstream_model 'vendor/m' is already used by model 'other'");
    let ok = model("m", "vendor/m", vec![endpoint(ProtocolFamily::OpenAi, "pool-a")]);
    assert!(validate_model_request(&ok, Some("other"), &existing, &pools).valid);
}

#[test]
fn group_request_checks_catalog() {
    let pools = vec![pool("pool-a", &[("k", "s")])];
    let models = vec![
        model("m1", "vendor/shared", vec![]),
        model("m2", "vendor/shared", vec![]),
    ];
    let mut inline = candidate("c3", "C", None, "vendor/none");
    inline.inline_endpoint_overrides = vec![endpoint(ProtocolFamily::OpenAi, "pool-zz")];
    let g = group(
        "g",
        vec![
            candidate("c1", "A", Some(" ghost "), ""),
            candidate("c2", "B", None, "vendor/shared"),
            inline,
            candidate("c4", "D", None, "vendor/unknown"),
        ],
    );
    let r = validate_group_request(&g, &models, &pools);
    let codes: Vec<(&str, &str)> = r.issues.iter().map(|i| (i.field.as_str(), i.code.as_str())).collect();
    assert_eq!(
        codes,
        vec![
            ("candidates[0].model_id", "unknown_model"),
            ("candidates[0].upstream_model", "ambiguous_upstream_model"),
            ("candidates[1].upstream_model", "ambiguous_upstream_model"),
            ("candidates[2].inline_endpoint_overrides[0].key_pool_id", "unknown_key_pool"),
            ("candidates[3].upstream_model", "unresolved_candidate_target"),
        ]
    );
    assert_eq!(r.issues[0].message, "model 'ghost' does not exist");
    assert!(!r.valid);
}

#[test]
fn references_block_deletion() {
    let models = vec![
        model("m1", "vendor/one", vec![endpoint(ProtocolFamily::Anthropic, "pool-a")]),
        model("m2", "vendor/two", vec![]),
    ];
    let mut c = candidate("c", "Cand", None, " vendor/two ");
    c.inline_endpoint_overrides = vec![endpoint(ProtocolFamily::Google, "pool-b")];
    let groups = vec![group("g", vec![c])];
    assert_eq!(find_model_reference(&models, &groups, "m2"), Some(("g".to_string(), "Cand".to_string())));
    assert_eq!(find_model_reference(&models, &groups, "m1"), None);
    assert_eq!(find_model_reference(&models, &groups, "nope"), None);
    assert_eq!(
        find_key_pool_reference(&models, &groups, "pool-a"),
        Some("Key 池 'pool-a' 仍被模型 'm1' 的 Anthropic 端点引用，请先解除引用后再删除".to_string())
    );
    assert_eq!(
        find_key_pool_reference(&models, &groups, "pool-b"),
        Some("Key 池 'pool-b' 仍被竞速组 'g' 的候选 'Cand' 覆盖端点 Google 引用，请先解除引用后再删除".to_string())
    );
    assert_eq!(find_key_pool_reference(&models, &groups, "pool-c"), None);
}

#[test]
fn generated_ids() {
    assert_eq!(generated_candidate_id("grp", "My Model--v2!", 0), "grp-my-model-v2");
    assert_eq!(generated_candidate_id("grp", "***", 2), "grp-candidate-3");
    assert_eq!(generated_candidate_id("grp", "", 0), "grp-candidate-1");
}

#[test]
fn normalization_fills_ids_and_upstreams() {
    let models = vec![model("m", "  vendor/m  ", vec![])];
    let mut g = group(
        "grp",
        vec![
            candidate("  ", "Fast One", Some("m"), " "),
            candidate("keep", "B", Some("missing"), ""),
        ],
    );
    normalize_group_request(&mut g, &models);
    assert_eq!(g.candidates[0].id, "grp-fast-one");
    assert_eq!(g.candidates[0].group_id, "grp");
    assert_eq!(g.candidates[0].upstream_model, "vendor/m");
    assert_eq!(g.candidates[1].id, "keep");
    assert_eq!(g.candidates[1].upstream_model, "");
    assert_eq!(g.candidates[1].group_id, "grp");
}

#[test]
fn secrets_masked_and_restored() {
    let stored = pool("p", &[("k1", "secret-one"), ("k2", "secret-two")]);
    let masked = mask_key_pool_for_response(pool("p", &[("k1", "secret-one"), ("k2", "  ")]));
    assert_eq!(masked.keys[0].secret, "secret-o***");
    assert_eq!(masked.keys[1].secret, "");
    let mut submitted = pool("p2", &[("k1", "secret-o***"), ("k2", "new"), ("k3", "")]);
    restore_key_secrets(&mut submitted, Some(&stored));
    assert_eq!(submitted.keys[0].secret, "secret-one");
    assert_eq!(submitted.keys[1].secret, "new");
    assert_eq!(submitted.keys[2].secret, "");
    assert!(submitted.keys.iter().all(|k| k.key_pool_id == "p2"));
}

#[test]
fn cached_group_summary_counts_bound_models() {
    let models = vec![model("m", "vendor/m", vec![endpoint(ProtocolFamily::Google, "p")])];
    let mut c = candidate("c", "C", None, "vendor/m");
    c.inline_endpoint_overrides = vec![endpoint(ProtocolFamily::OpenAi, "p")];
    let g = group("g", vec![c, candidate("d", "D", Some("m"), "")]);
    let s = summarize_group_from_cache(&g, &models);
    assert_eq!(s.protocol_families, vec![ProtocolFamily::OpenAi, ProtocolFamily::Google]);
    assert_eq!(s.candidate_count, 2);
    assert_eq!(s.candidate_names, vec!["C".to_string(), "D".to_string()]);
}

#[test]
fn masked_pool_submitted_back_keeps_its_secrets() {
    let stored = pool("p", &[("k1", "sk-1234567890"), ("k2", "x"), ("k3", " ")]);
    let mut shown = mask_key_pool_for_response(pool("p", &[("k1", "sk-1234567890"), ("k2", "x"), ("k3", " ")]));
    assert_eq!(shown.keys[0].secret, "sk-12345***");
    assert_eq!(shown.keys[1].secret, "x***");
    restore_key_secrets(&mut shown, Some(&stored));
    assert_eq!(shown, stored);
}

#[test]
fn group_request_issues_start_with_group_issues() {
    let pools = vec![pool("pool-a", &[("k", "s")])];
    let models = vec![model("m1", "vendor/one", vec![endpoint(ProtocolFamily::OpenAi, "pool-a")])];
    let mut inline = candidate("c2", "B", Some("m1"), "");
    inline.inline_endpoint_overrides = vec![
        endpoint(ProtocolFamily::OpenAi, "  "),
        endpoint(ProtocolFamily::Google, "pool-a"),
        endpoint(ProtocolFamily::Anthropic, "pool-b"),
    ];
    let g = group("", vec![candidate("c1", "A", Some("m1"), ""), inline]);
    let own = race_gateway::domain::validate::validate_group(&g);
    let r = validate_group_request(&g, &models, &pools);
    let pairs: Vec<(&str, &str)> = r.issues.iter().map(|i| (i.field.as_str(), i.code.as_str())).collect();
    assert_eq!(pairs[0], ("id", "required"));
    assert_eq!(r.issues.len(), own.issues.len() + 2);
    assert_eq!(
        &pairs[own.issues.len()..],
        &[
            ("candidates[1].inline_endpoint_overrides[0].key_pool_id", "required"),
            ("candidates[1].inline_endpoint_overrides[2].key_pool_id", "unknown_key_pool"),
        ]
    );
    assert!(!pairs.iter().any(|(_, c)| *c == "unknown_model"));
}
