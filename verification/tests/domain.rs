use race_gateway::domain::resolve::{
    candidate_effective_upstream_model, find_matching_endpoint, protocol_label,
    resolve_candidates_for_protocol, resolve_model_for_candidate, resolve_single_candidate,
    ResolveError,
};
use race_gateway::domain::types::{
    AuthStrategy, BootstrapData, KeySelectionStrategy, ProtocolFamily, RaceCandidate, RaceGroup,
    RaceKey, RaceKeyPool, RaceModelDescriptor, RaceSettings, RaceTargetEndpoint,
    ResolvedEndpointSource,
};
use race_gateway::domain::validate::{
    validate_endpoint_uniqueness, validate_group, validate_key_pool, validate_model_descriptor,
    ValidationBuilder,
};

fn endpoint(protocol_family: ProtocolFamily, base_url: &str) -> RaceTargetEndpoint {
    RaceTargetEndpoint {
        protocol_family,
        base_url: base_url.to_string(),
        auth_strategy: AuthStrategy::Bearer,
        key_pool_id: "pool-a".to_string(),
        request_timeout_ms: Some(30_000),
        extra_headers: Default::default(),
        extra_query: Default::default(),
        enabled: true,
    }
}

fn candidate(name: &str, model_id: Option<&str>, upstream: &str, weight: f64) -> RaceCandidate {
    RaceCandidate {
        id: format!("cand-{}", name.to_lowercase()),
        group_id: "group-a".to_string(),
        name: name.to_string(),
        model_id: model_id.map(|s| s.to_string()),
        upstream_model: upstream.to_string(),
        inline_endpoint_overrides: vec![],
        initial_weight_bits: weight.to_bits(),
        response_protection_timeout_ms: 5_000,
        enabled: true,
        metadata: "{}".to_string(),
    }
}

fn model(id: &str, name: &str, upstream: &str, endpoints: Vec<RaceTargetEndpoint>) -> RaceModelDescriptor {
    RaceModelDescriptor {
        id: id.to_string(),
        display_name: name.to_string(),
        upstream_model: upstream.to_string(),
        description: String::new(),
        enabled: true,
        endpoints,
        metadata: "{}".to_string(),
    }
}

fn group(id: &str, candidates: Vec<RaceCandidate>) -> RaceGroup {
    RaceGroup {
        id: id.to_string(),
        display_name: id.to_uppercase(),
        fallback_ratio_bits: 0.5f64.to_bits(),
        decay_factor_bits: 0.8f64.to_bits(),
        penalty_rate_bits: 1.0f64.to_bits(),
        recovery_rate_bits: 1.0f64.to_bits(),
        race_max_wait_time_ms: None,
        enabled: true,
        candidates,
    }
}

#[test]
fn inline_override_wins_over_model_endpoint() {
    let mut candidate = candidate("A", Some("model-a"), "vendor/model-a", 100.0);
    candidate.id = "cand-a".to_string();
    candidate.inline_endpoint_overrides = vec![endpoint(ProtocolFamily::OpenAi, "https://inline.example")];
    let model = model(
        "model-a",
        "Model A",
        "vendor/model-a",
        vec![endpoint(ProtocolFamily::OpenAi, "https://model.example")],
    );
    let resolved = resolve_single_candidate(&candidate, &vec![model], ProtocolFamily::OpenAi)
        .expect("resolve candidate")
        .expect("resolved target");
    assert_eq!(resolved.endpoint.base_url, "https://inline.example");
    assert_eq!(
        resolved.endpoint_source,
        ResolvedEndpointSource::CandidateInlineOverride
    );
}

#[test]
fn group_resolution_skips_candidates_without_protocol_endpoint() {
    let mut g = group(
        "group-a",
        vec![
            candidate("A", Some("model-a"), "vendor/model-a", 100.0),
            candidate("B", Some("model-b"), "vendor/model-b", 90.0),
        ],
    );
    g.display_name = "Group A".to_string();
    g.penalty_rate_bits = 5.0f64.to_bits();
    g.recovery_rate_bits = 0.1f64.to_bits();
    let models = vec![
        model(
            "model-a",
            "Model A",
            "vendor/model-a",
            vec![endpoint(ProtocolFamily::Anthropic, "https://anthropic.example")],
        ),
        model(
            "model-b",
            "Model B",
            "vendor/model-b",
            vec![endpoint(ProtocolFamily::OpenAi, "https://openai.example")],
        ),
    ];
    let resolved =
        resolve_candidates_for_protocol(&g, &models, ProtocolFamily::OpenAi).expect("resolve group");
    assert_eq!(resolved.len(), 1);
    assert_eq!(resolved[0].candidate.name, "B");
}

#[test]
fn candidate_without_model_id_can_resolve_model_by_upstream_model() {
    let candidate = candidate("A", None, "vendor/model-a", 100.0);
    let model = model(
        "model-a",
        "Model A",
        "vendor/model-a",
        vec![endpoint(ProtocolFamily::OpenAi, "https://model.example")],
    );
    let resolved = resolve_single_candidate(&candidate, &vec![model], ProtocolFamily::OpenAi)
        .expect("resolve candidate")
        .expect("resolved target");
    assert_eq!(resolved.endpoint.base_url, "https://model.example");
    assert_eq!(resolved.candidate.upstream_model, "vendor/model-a");
}

#[test]
fn candidate_with_blank_upstream_model_uses_bound_model_upstream() {
    let candidate = candidate("A", Some("model-a"), "", 100.0);
    let model = model(
        "model-a",
        "Model A",
        "vendor/model-a",
        vec![endpoint(ProtocolFamily::OpenAi, "https://model.example")],
    );
    let resolved = resolve_single_candidate(&candidate, &vec![model], ProtocolFamily::OpenAi)
        .expect("resolve candidate")
        .expect("resolved target");
    assert_eq!(resolved.candidate.upstream_model, "vendor/model-a");
}

#[test]
fn candidate_upstream_model_lookup_rejects_ambiguous_match() {
    let candidate = candidate("A", None, "vendor/shared", 100.0);
    let model_a = model(
        "model-a",
        "Model A",
        "vendor/shared",
        vec![endpoint(ProtocolFamily::OpenAi, "https://a.example")],
    );
    let model_b = model(
        "model-b",
        "Model B",
        "vendor/shared",
        vec![endpoint(ProtocolFamily::OpenAi, "https://b.example")],
    );
    let error = resolve_single_candidate(&candidate, &vec![model_a, model_b], ProtocolFamily::OpenAi)
        .expect_err("ambiguous upstream model should fail");
    assert!(error.message().contains("matches multiple model descriptors"));
}

#[test]
fn group_validation_rejects_duplicate_candidate_names() {
    let mut a = candidate("dup", None, "m", 100.0);
    a.id = "a".to_string();
    a.group_id = "g".to_string();
    a.response_protection_timeout_ms = 2_000;
    let mut b = candidate("dup", None, "m", 90.0);
    b.id = "b".to_string();
    b.group_id = "g".to_string();
    b.response_protection_timeout_ms = 2_000;
    let mut g = group("g", vec![a, b]);
    g.display_name = "G".to_string();
    let result = validate_group(&g);
    assert!(!result.valid);
    assert!(result.issues.iter().any(|issue| issue.code == "duplicate_candidate_name"));
}

#[test]
fn key_pool_validation_requires_enabled_key() {
    let pool = RaceKeyPool {
        id: "pool".to_string(),
        display_name: "Pool".to_string(),
        auth_strategy: AuthStrategy::Bearer,
        selection_strategy: KeySelectionStrategy::Random,
        enabled: true,
        keys: vec![RaceKey {
            id: "k1".to_string(),
            key_pool_id: "pool".to_string(),
            secret: "secret".to_string(),
            enabled: false,
            metadata: "{}".to_string(),
        }],
    };
    let result = validate_key_pool(&pool);
    assert!(!result.valid);
    assert!(result.issues.iter().any(|issue| issue.code == "missing_enabled_key"));
}

#[test]
fn model_validation_rejects_duplicate_enabled_protocols() {
    let mut one = endpoint(ProtocolFamily::OpenAi, "https://one.example");
    one.key_pool_id = "pool".to_string();
    one.request_timeout_ms = None;
    let mut two = endpoint(ProtocolFamily::OpenAi, "https://two.example");
    two.key_pool_id = "pool".to_string();
    two.request_timeout_ms = None;
    let model = model("m", "M", "vendor/m", vec![one, two]);
    let result = validate_model_descriptor(&model);
    assert!(!result.valid);
    assert!(result.issues.iter().any(|issue| issue.code == "duplicate_enabled_protocol"));
}

#[test]
fn group_validation_requires_candidate_model_source() {
    let mut a = candidate("A", None, "", 100.0);
    a.id = "a".to_string();
    a.group_id = "g".to_string();
    a.response_protection_timeout_ms = 2_000;
    let mut g = group("g", vec![a]);
    g.display_name = "G".to_string();
    let result = validate_group(&g);
    assert!(!result.valid);
    assert!(result.issues.iter().any(|issue| issue.code == "required"));
}

#[test]
fn bootstrap_default_contains_settings() {
    let bootstrap = BootstrapData::default();
    assert_eq!(bootstrap.settings, Some(RaceSettings::default()));
}

#[test]
fn settings_normalization_raises_limits_once() {
    let s = RaceSettings {
        enable_race_diagnostics_header: true,
        max_buffer_events: 0,
        buffer_backpressure_timeout_ms: 0,
    };
    let n = s.normalized();
    assert_eq!(n.max_buffer_events, 1);
    assert_eq!(n.buffer_backpressure_timeout_ms, 1);
    assert!(n.enable_race_diagnostics_header);
    assert_eq!(n.normalized(), n);
    let d = RaceSettings::default();
    assert_eq!(d.max_buffer_events, 100_000);
    assert_eq!(d.buffer_backpressure_timeout_ms, 100);
}

#[test]
fn validation_builder_collects_in_order() {
    let mut b = ValidationBuilder::new();
    b.push("a", "x", "first");
    b.push("b", "y", "second");
    let r = b.finish();
    assert!(!r.valid);
    assert_eq!(r.issues.len(), 2);
    assert_eq!(r.issues[0].field, "a");
    assert_eq!(r.issues[1].message, "second");
    assert!(ValidationBuilder::default().finish().valid);
}

#[test]
fn endpoint_uniqueness_ignores_disabled_duplicates() {
    let mut b = ValidationBuilder::new();
    let mut off = endpoint(ProtocolFamily::OpenAi, "https://b");
    off.enabled = false;
    validate_endpoint_uniqueness(
        &mut b,
        &vec![endpoint(ProtocolFamily::OpenAi, "https://a"), off],
        "endpoints[",
        "].protocol_family",
        "endpoints",
    );
    assert!(b.finish().valid);
}

#[test]
fn resolution_errors_and_labels() {
    let missing = candidate("A", Some("nope"), "", 1.0);
    let err = resolve_model_for_candidate(&missing, &vec![]).unwrap_err();
    assert!(matches!(err, ResolveError::MissingModel { .. }));
    assert!(err.message().contains("nope"));
    let unbound = candidate("A", None, "   ", 1.0);
    assert!(resolve_model_for_candidate(&unbound, &vec![]).unwrap().is_none());
    assert_eq!(protocol_label(ProtocolFamily::Google), "google");
    let g = group("g", vec![candidate("A", None, "vendor/x", 1.0)]);
    let err = resolve_candidates_for_protocol(&g, &vec![], ProtocolFamily::Anthropic).unwrap_err();
    assert!(matches!(err, ResolveError::NoCandidateForProtocol { .. }));
    let eps = vec![endpoint(ProtocolFamily::Google, "https://g")];
    assert!(find_matching_endpoint(&eps, ProtocolFamily::Google).is_some());
    assert!(find_matching_endpoint(&eps, ProtocolFamily::OpenAi).is_none());
    let c = candidate("A", None, "  vendor/own  ", 1.0);
    assert_eq!(candidate_effective_upstream_model(&c, None), "vendor/own");
}

#[test]
fn summaries_sort_and_count() {
    let mut c = candidate("A", None, "x", 1.0);
    c.inline_endpoint_overrides = vec![
        endpoint(ProtocolFamily::Google, "https://g"),
        endpoint(ProtocolFamily::OpenAi, "https://o"),
    ];
    let mut d = candidate("B", None, "y", 1.0);
    d.enabled = false;
    let g = group("g", vec![c, d]);
    let s = g.summary();
    assert_eq!(s.candidate_count, 2);
    assert_eq!(s.enabled_candidate_count, 1);
    assert_eq!(s.protocol_families, vec![ProtocolFamily::OpenAi, ProtocolFamily::Google]);
    assert_eq!(s.candidate_names, vec!["A".to_string(), "B".to_string()]);
    let m = model(
        "m",
        "M",
        "u",
        vec![endpoint(ProtocolFamily::Anthropic, "https://a"), endpoint(ProtocolFamily::OpenAi, "https://o")],
    );
    let ms = m.summary();
    assert_eq!(ms.protocol_families, vec![ProtocolFamily::OpenAi, ProtocolFamily::Anthropic]);
    assert_eq!(ms.key_pool_ids, vec!["pool-a".to_string()]);
}

#[test]
fn group_issue_per_candidate_ignores_enabled_flag() {
    let mut a = candidate("Alpha", None, "vendor/a", 1.0);
    a.response_protection_timeout_ms = 999;
    a.enabled = false;
    let mut b = candidate(" Alpha ", None, "vendor/b", 1.0);
    b.id = "cand-b".to_string();
    b.response_protection_timeout_ms = 120_000;
    let mut c = candidate("Gamma", None, "vendor/c", 1.0);
    c.response_protection_timeout_ms = 120_001;
    let g = group("g", vec![a, b, c]);
    let r = validate_group(&g);
    let pairs: Vec<(String, String)> = r.issues.iter().map(|i| (i.field.clone(), i.code.clone())).collect();
    let has = |f: &str, c: &str| pairs.iter().any(|(pf, pc)| pf == f && pc == c);
    assert!(has("candidates[0].response_protection_timeout_ms", "out_of_range"));
    assert!(!has("candidates[1].response_protection_timeout_ms", "out_of_range"));
    assert!(has("candidates[2].response_protection_timeout_ms", "out_of_range"));
    assert!(!has("candidates[0].name", "duplicate_candidate_name"));
    assert!(has("candidates[1].name", "duplicate_candidate_name"));
    assert!(!has("candidates[2].name", "duplicate_candidate_name"));
}

#[test]
fn model_duplicate_protocol_issues_count_enabled_repeats() {
    let mut off = endpoint(ProtocolFamily::OpenAi, "https://off.example");
    off.enabled = false;
    let m = model(
        "m",
        "M",
        "vendor/m",
        vec![
            endpoint(ProtocolFamily::OpenAi, "https://a.example"),
            off,
            endpoint(ProtocolFamily::OpenAi, "https://b.example"),
            endpoint(ProtocolFamily::Google, "https://c.example"),
            endpoint(ProtocolFamily::OpenAi, "https://d.example"),
        ],
    );
    let r = validate_model_descriptor(&m);
    let dups: Vec<&str> = r
        .issues
        .iter()
        .filter(|i| i.code == "duplicate_enabled_protocol")
        .map(|i| i.field.as_str())
        .collect();
    // four enabled endpoints covering two protocol families
    assert_eq!(dups, vec!["endpoints[2].protocol_family", "endpoints[4].protocol_family"]);
    assert!(!r.issues.iter().any(|i| i.field == "id" || i.code == "missing_enabled_endpoint"));
    let blank = model(" ", "M", "vendor/m", vec![]);
    let r = validate_model_descriptor(&blank);
    assert!(r.issues.iter().any(|i| i.field == "id"));
    assert!(r.issues.iter().any(|i| i.code == "missing_enabled_endpoint"));
    assert!(!r.valid);
}

#[test]
fn group_resolution_keeps_enabled_candidates_in_order() {
    let models = vec![
        model("m-open", "Open", "vendor/open", vec![endpoint(ProtocolFamily::OpenAi, "https://o.example")]),
        model("m-goog", "Goog", "vendor/goog", vec![endpoint(ProtocolFamily::Google, "https://g.example")]),
    ];
    let mut off = candidate("Off", Some("m-open"), "", 1.0);
    off.enabled = false;
    let g = group(
        "g",
        vec![
            candidate("First", Some("m-open"), "", 1.0),
            off,
            candidate("Skip", Some("m-goog"), "", 1.0),
            candidate("Last", Some("m-open"), "", 1.0),
        ],
    );
    let targets = resolve_candidates_for_protocol(&g, &models, ProtocolFamily::OpenAi).expect("resolves");
    let ids: Vec<&str> = targets.iter().map(|t| t.candidate.id.as_str()).collect();
    assert_eq!(ids, vec!["cand-first", "cand-last"]);
    assert!(targets.iter().all(|t| t.endpoint.enabled && t.endpoint.protocol_family == ProtocolFamily::OpenAi));
    assert!(targets.iter().all(|t| t.key_pool_id == t.endpoint.key_pool_id));
    let mut broken = candidate("Broken", Some("m-none"), "", 1.0);
    broken.enabled = true;
    let failing = group("g2", vec![candidate("First", Some("m-open"), "", 1.0), broken]);
    assert!(resolve_candidates_for_protocol(&failing, &models, ProtocolFamily::OpenAi).is_err());
}
