use race_gateway::config::{AppConfig, EnvOverrides};
use race_gateway::domain::types::{
    AuthStrategy, BootstrapData, KeySelectionStrategy, ProtocolFamily, RaceCandidate, RaceGroup,
    RaceKey, RaceKeyPool, RaceModelDescriptor, RaceSettings, RaceTargetEndpoint,
};
use race_gateway::gemini::{
    append_google_tool_call_metadata, is_gemini_unsupported_schema_keyword,
    lookup_google_tool_call_thought_signature, GoogleEncoder, ToolCallMetadataEntry,
};
use race_gateway::proxy::{bearer_token_of, diagnostics_enabled, validate_proxy_auth};
use race_gateway::runtime::{build_candidate_resolved_views, eligible_counts, eligible_protocols};
use race_gateway::storage::{normalize_bootstrap_data, rebind_endpoint_key_pools, trim_url};

fn endpoint(p: ProtocolFamily, url: &str, pool: &str) -> RaceTargetEndpoint {
    RaceTargetEndpoint {
        protocol_family: p,
        base_url: url.to_string(),
        auth_strategy: AuthStrategy::Bearer,
        key_pool_id: pool.to_string(),
        request_timeout_ms: None,
        extra_headers: vec![],
        extra_query: vec![],
        enabled: true,
    }
}

fn candidate(id: &str, model_id: Option<&str>, upstream: &str) -> RaceCandidate {
    RaceCandidate {
        id: id.to_string(),
        group_id: " g ".to_string(),
        name: format!(" {id} "),
        model_id: model_id.map(|s| s.to_string()),
        upstream_model: upstream.to_string(),
        inline_endpoint_overrides: vec![],
        initial_weight_bits: 1.0f64.to_bits(),
        response_protection_timeout_ms: 1_000,
        enabled: true,
        metadata: "{}".to_string(),
    }
}

#[test]
fn bootstrap_data_is_trimmed() {
    let mut c = candidate(" c1 ", Some("   "), " vendor/x ");
    c.inline_endpoint_overrides = vec![endpoint(ProtocolFamily::Google, " https://i.example// ", " p ")];
    let data = BootstrapData {
        models: vec![RaceModelDescriptor {
            id: " m ".to_string(),
            display_name: " M ".to_string(),
            upstream_model: " vendor/m ".to_string(),
            description: " keep ".to_string(),
            enabled: true,
            endpoints: vec![endpoint(ProtocolFamily::OpenAi, " https://api.example/v1/ ", " pool ")],
            metadata: "{}".to_string(),
        }],
        groups: vec![RaceGroup {
            id: " g ".to_string(),
            display_name: " G ".to_string(),
            fallback_ratio_bits: 0,
            decay_factor_bits: 0,
            penalty_rate_bits: 0,
            recovery_rate_bits: 0,
            race_max_wait_time_ms: None,
            enabled: true,
            candidates: vec![c, candidate("c2", Some(" m "), "")],
        }],
        key_pools: vec![RaceKeyPool {
            id: " p ".to_string(),
            display_name: " P ".to_string(),
            auth_strategy: AuthStrategy::Bearer,
            selection_strategy: KeySelectionStrategy::Random,
            enabled: true,
            keys: vec![RaceKey {
                id: " k ".to_string(),
                key_pool_id: " p ".to_string(),
                secret: " s ".to_string(),
                enabled: true,
                metadata: "{}".to_string(),
            }],
        }],
        settings: Some(RaceSettings::default()),
    };
    let n = normalize_bootstrap_data(data);
    assert_eq!(n.models[0].id, "m");
    assert_eq!(n.models[0].description, " keep ");
    assert_eq!(n.models[0].endpoints[0].base_url, "https://api.example/v1");
    assert_eq!(n.models[0].endpoints[0].key_pool_id, "pool");
    let c = &n.groups[0].candidates[0];
    assert_eq!(c.id, "c1");
    assert_eq!(c.group_id, "g");
    assert_eq!(c.name, "c1");
    assert_eq!(c.model_id, None);
    assert_eq!(c.upstream_model, "vendor/x");
    assert_eq!(c.inline_endpoint_overrides[0].base_url, "https://i.example");
    assert_eq!(n.groups[0].candidates[1].model_id, Some("m".to_string()));
    assert_eq!(n.key_pools[0].keys[0].secret, "s");
    assert_eq!(n.key_pools[0].id, "p");
    assert_eq!(n.settings, Some(RaceSettings::default()));
    assert_eq!(trim_url("  ///  "), "");
}

#[test]
fn config_defaults_and_overrides() {
    let d = AppConfig::default();
    assert_eq!(d.proxy_bind_addr, "127.0.0.1:2090");
    assert_eq!(d.admin_bind_addr, "127.0.0.1:2091");
    assert_eq!(d.database_url, "sqlite://race-gateway.db");
    assert!(d.bootstrap_json_path.is_none());
    let c = AppConfig::from_env_values(&EnvOverrides {
        proxy_bind_addr: Some(" 0.0.0.0:80 ".to_string()),
        admin_bind_addr: Some("   ".to_string()),
        database_url: None,
        bootstrap_json_path: Some(" /etc/boot.json ".to_string()),
    });
    assert_eq!(c.proxy_bind_addr, "0.0.0.0:80");
    assert_eq!(c.admin_bind_addr, "127.0.0.1:2091");
    assert_eq!(c.database_url, "sqlite://race-gateway.db");
    assert_eq!(c.bootstrap_json_path, Some("/etc/boot.json".to_string()));
}

#[test]
fn proxy_auth_rules() {
    assert!(validate_proxy_auth(None, None, None).is_ok());
    assert!(validate_proxy_auth(Some("k"), Some("Bearer  k "), None).is_ok());
    assert!(validate_proxy_auth(Some("k"), Some(" k"), None).is_ok());
    assert!(validate_proxy_auth(Some("k"), None, Some(" k ")).is_ok());
    let e = validate_proxy_auth(Some("k"), Some("Bearer x"), Some("y")).unwrap_err();
    assert_eq!(e, "Unauthorized: missing or invalid API key");
    assert_eq!(bearer_token_of("bearer k"), "bearer k");
    assert!(diagnostics_enabled(Some("TRUE")));
    assert!(diagnostics_enabled(Some("1")));
    assert!(!diagnostics_enabled(Some("yes")));
    assert!(!diagnostics_enabled(None));
}

#[test]
fn gemini_paths_and_keywords() {
    assert_eq!(
        GoogleEncoder.egress_path("gemini-pro", true),
        "/v1beta/models/gemini-pro:streamGenerateContent?alt=sse"
    );
    assert_eq!(GoogleEncoder.egress_path("gemini-pro", false), "/v1beta/models/gemini-pro:generateContent");
    assert!(is_gemini_unsupported_schema_keyword("$ref"));
    assert!(is_gemini_unsupported_schema_keyword("exclusiveMaximum"));
    assert!(!is_gemini_unsupported_schema_keyword("type"));
}

#[test]
fn thought_signatures_are_remembered() {
    let mut entries: Option<Vec<ToolCallMetadataEntry>> = None;
    append_google_tool_call_metadata(&mut entries, 0, "call-1", "lookup", Some("  "));
    assert!(entries.is_none());
    append_google_tool_call_metadata(&mut entries, 0, "call-1", "lookup", Some(" sig-1 "));
    append_google_tool_call_metadata(&mut entries, 1, "call-2", "search", Some("sig-2"));
    let es = entries.as_ref();
    assert_eq!(
        lookup_google_tool_call_thought_signature(es, None, Some(" call-2 "), None),
        Some("sig-2".to_string())
    );
    assert_eq!(
        lookup_google_tool_call_thought_signature(es, Some(0), Some("other"), None),
        Some("sig-1".to_string())
    );
    assert_eq!(
        lookup_google_tool_call_thought_signature(es, None, None, Some("search")),
        Some("sig-2".to_string())
    );
    assert_eq!(lookup_google_tool_call_thought_signature(es, Some(7), None, Some(" ")), None);
    assert_eq!(lookup_google_tool_call_thought_signature(None, Some(0), None, None), None);
}

#[test]
fn runtime_eligibility() {
    let models = vec![RaceModelDescriptor {
        id: "m".to_string(),
        display_name: "M".to_string(),
        upstream_model: "vendor/m".to_string(),
        description: String::new(),
        enabled: true,
        endpoints: vec![endpoint(ProtocolFamily::Anthropic, "https://a", "p")],
        metadata: "{}".to_string(),
    }];
    let mut a = candidate("a", Some("m"), "");
    a.inline_endpoint_overrides = vec![endpoint(ProtocolFamily::Google, "https://g", "p")];
    let mut b = candidate("b", None, "vendor/m");
    b.enabled = false;
    assert_eq!(eligible_protocols(&a, &models), vec![ProtocolFamily::Anthropic, ProtocolFamily::Google]);
    let g = RaceGroup {
        id: "g".to_string(),
        display_name: "G".to_string(),
        fallback_ratio_bits: 0,
        decay_factor_bits: 0,
        penalty_rate_bits: 0,
        recovery_rate_bits: 0,
        race_max_wait_time_ms: None,
        enabled: true,
        candidates: vec![a, b],
    };
    let views = build_candidate_resolved_views(&g, &models);
    assert_eq!(views[0].effective_upstream_model, "vendor/m");
    assert_eq!(views[1].eligible_protocol_families, vec![ProtocolFamily::Anthropic]);
    let counts = eligible_counts(&g, &views, &models);
    let pairs: Vec<(String, usize)> = counts.iter().map(|c| (c.protocol.clone(), c.count)).collect();
    assert_eq!(
        pairs,
        vec![("anthropic".to_string(), 1), ("google".to_string(), 1), ("openai".to_string(), 0)]
    );
}

#[test]
fn renamed_pool_is_rebound_in_endpoints() {
    let ep = |pool: &str| RaceTargetEndpoint {
        protocol_family: ProtocolFamily::OpenAi,
        base_url: "https://x".to_string(),
        auth_strategy: AuthStrategy::Bearer,
        key_pool_id: pool.to_string(),
        request_timeout_ms: None,
        extra_headers: vec![],
        extra_query: vec![],
        enabled: true,
    };
    let mut eps = vec![ep("pool-a"), ep("pool-c"), ep("pool-a")];
    assert!(rebind_endpoint_key_pools(&mut eps, "pool-a", "pool-b"));
    let ids: Vec<&str> = eps.iter().map(|e| e.key_pool_id.as_str()).collect();
    assert_eq!(ids, vec!["pool-b", "pool-c", "pool-b"]);
    assert!(!rebind_endpoint_key_pools(&mut eps, "pool-a", "pool-z"));
    assert_eq!(eps[1].key_pool_id, "pool-c");
}
