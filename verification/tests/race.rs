use race_gateway::domain::types::{
    AuthStrategy, KeySelectionStrategy, ProtocolFamily, RaceCandidate, RaceKey, RaceKeyPool,
};
use race_gateway::group::diagnostics::{
    mask_key, normalize_whitespace, truncate_error, MAX_DIAGNOSTIC_ERROR_CHARS,
    RACE_DIAGNOSTICS_HEADER,
};
use race_gateway::group::race::{
    collect_errors, decide_winner, first_usable_candidate, has_usable_content,
    higher_priority_candidate_still_protected, loop_snapshot, next_winner_recheck_delay,
    race_max_wait_ms, record_queued_event, record_send_failure, CandidateLoopSnapshot,
    CandidateState, CandidateWeightSnapshot, ErrorProbe, RaceExecutionSettings, WinnerDecision,
};
use race_gateway::group::stats::{NamedMillis, RaceStats};
use race_gateway::key_pool::{snapshot, KeyPoolError, KeyPoolSelector, RandomKeyPoolSelector};

fn pool() -> RaceKeyPool {
    RaceKeyPool {
        id: "pool-a".to_string(),
        display_name: "Pool A".to_string(),
        auth_strategy: AuthStrategy::Bearer,
        selection_strategy: KeySelectionStrategy::Random,
        enabled: true,
        keys: vec![
            RaceKey {
                id: "key-a".to_string(),
                key_pool_id: "pool-a".to_string(),
                secret: "secret-a".to_string(),
                enabled: false,
                metadata: "{}".to_string(),
            },
            RaceKey {
                id: "key-b".to_string(),
                key_pool_id: "pool-a".to_string(),
                secret: "secret-b".to_string(),
                enabled: true,
                metadata: "{}".to_string(),
            },
        ],
    }
}

#[test]
fn selector_skips_disabled_keys() {
    let selector = RandomKeyPoolSelector;
    let pool = pool();
    let selected = selector.select_key(&pool, Some(42)).expect("select key");
    assert_eq!(selected.id, "key-b");
}

#[test]
fn snapshot_masks_enabled_keys() {
    let snapshot = snapshot(&pool());
    assert_eq!(snapshot.key_count, 1);
    assert_eq!(snapshot.masked_keys, vec!["secret-b***"]);
}

#[test]
fn selector_errors() {
    let mut p = pool();
    p.enabled = false;
    let e = RandomKeyPoolSelector.select_key(&p, None).unwrap_err();
    assert!(matches!(e, KeyPoolError::Disabled { .. }));
    assert_eq!(e.message(), "key pool 'pool-a' is disabled");
    let mut p = pool();
    p.keys[1].enabled = false;
    let e = RandomKeyPoolSelector.select_key(&p, Some(1)).unwrap_err();
    assert_eq!(e.message(), "key pool 'pool-a' does not contain any enabled key");
    let p = pool();
    assert_eq!(RandomKeyPoolSelector.select_key(&p, None).unwrap().id, "key-b");
}

#[test]
fn masking_and_truncation_are_applied() {
    assert_eq!(mask_key("sk-1234567890"), "sk-12345***");
    let error = truncate_error(Some("x ".repeat(200)));
    assert!(error.as_deref().expect("error").len() <= MAX_DIAGNOSTIC_ERROR_CHARS);
}

#[test]
fn diagnostics_text_rules() {
    assert_eq!(mask_key("   "), "");
    assert_eq!(mask_key(" abc "), "abc***");
    assert_eq!(normalize_whitespace("  a \n\t b  "), "a b");
    assert_eq!(truncate_error(None), None);
    let long = truncate_error(Some("y".repeat(300))).unwrap();
    assert_eq!(long.len(), 240);
    assert!(long.ends_with("..."));
    assert_eq!(truncate_error(Some(" short  text ".to_string())), Some("short text".to_string()));
    assert_eq!(RACE_DIAGNOSTICS_HEADER, "x-nyro-race-diagnostics");
}

fn state(name: &str) -> CandidateState {
    CandidateState::new(
        RaceCandidate {
            id: format!("cand-{name}"),
            group_id: "g".to_string(),
            name: name.to_string(),
            model_id: None,
            upstream_model: "vendor/x".to_string(),
            inline_endpoint_overrides: vec![],
            initial_weight_bits: 100.0f64.to_bits(),
            response_protection_timeout_ms: 1_000,
            enabled: true,
            metadata: "{}".to_string(),
        },
        "secret***".to_string(),
        0,
        CandidateWeightSnapshot {
            initial_weight_bits: 100.0f64.to_bits(),
            effective_weight_bits: 100.0f64.to_bits(),
            weight_deviation_bits: 0.0f64.to_bits(),
            status: "normal".to_string(),
        },
    )
}

fn snap(name: &str, launched: Option<u128>, first: Option<u128>, failed: bool, ended: bool) -> CandidateLoopSnapshot {
    CandidateLoopSnapshot {
        name: name.to_string(),
        launched_at: launched,
        first_content_at: first,
        failed,
        ended,
        usable: first.is_some(),
    }
}

const MS: u128 = 1_000_000;

#[test]
fn higher_ranked_candidate_protects_its_lead() {
    let timeouts = vec![5_000u64, 5_000];
    let snaps = vec![
        snap("high", Some(0), None, false, false),
        snap("low", Some(0), Some(20 * MS), false, false),
    ];
    assert!(higher_priority_candidate_still_protected(&timeouts, &snaps, 1, 100 * MS));
    assert_eq!(decide_winner(&timeouts, &snaps, 100 * MS, 15_000 * MS), WinnerDecision::Wait(4_900 * MS));
    assert_eq!(next_winner_recheck_delay(&timeouts, &snaps, 100 * MS), Some(4_900 * MS));
    assert_eq!(decide_winner(&timeouts, &snaps, 5_100 * MS, 15_000 * MS), WinnerDecision::Winner(1));
}

#[test]
fn failed_candidates_and_time_limit() {
    let timeouts = vec![5_000u64, 5_000];
    let failed = vec![
        snap("a", Some(0), None, true, true),
        snap("b", Some(0), None, true, true),
    ];
    assert_eq!(decide_winner(&timeouts, &failed, MS, 15_000 * MS), WinnerDecision::AllFailed);
    let late = vec![
        snap("a", Some(0), None, false, false),
        snap("b", Some(0), Some(10), true, false),
    ];
    assert_eq!(first_usable_candidate(&late), Some(1));
    assert_eq!(decide_winner(&timeouts, &late, 16_000 * MS, 15_000 * MS), WinnerDecision::Winner(1));
    assert_eq!(race_max_wait_ms(None, &timeouts), 15_000);
    assert_eq!(race_max_wait_ms(Some(300), &timeouts), 300);
    assert_eq!(race_max_wait_ms(None, &vec![]), 3_000);
}

#[test]
fn queued_events_count_against_budgets() {
    let settings = RaceExecutionSettings { max_buffer_events: 10, max_buffer_bytes: 32, buffer_backpressure_timeout_ms: 100 };
    let mut s = state("a");
    let out = record_queued_event(&mut s, true, 7, 8, Some((0, 0)), settings);
    assert!(out.accepted);
    assert!(out.notify);
    assert_eq!(s.first_content_at, Some(7));
    assert!(has_usable_content(&s));
    let out = record_queued_event(&mut s, true, 9, 128, Some((1, 8)), settings);
    assert!(!out.accepted);
    assert!(s.failed);
    assert_eq!(s.error.as_deref(), Some("buffer bytes overflow"));
    let snapshot = loop_snapshot(&s);
    assert_eq!(snapshot.first_content_at, Some(7));
    let mut w = state("w");
    w.winner_selected = true;
    let out = record_queued_event(&mut w, false, 3, 10_000, None, settings);
    assert!(out.accepted);
    record_send_failure(&mut w, "closed".to_string());
    assert!(w.ended);
    assert!(!w.failed);
    let mut l = state("l");
    record_send_failure(&mut l, "closed".to_string());
    assert!(l.failed);
    assert_eq!(l.error.as_deref(), Some("closed"));
}

#[test]
fn error_report_lists_failures_or_everyone() {
    let probes = vec![
        ErrorProbe { name: "a".to_string(), failed: true, error: None },
        ErrorProbe { name: "b".to_string(), failed: false, error: Some("boom".to_string()) },
        ErrorProbe { name: "c".to_string(), failed: false, error: None },
    ];
    let errors = collect_errors(&probes);
    assert_eq!(errors.len(), 2);
    assert_eq!(errors[0].key, "a");
    assert_eq!(errors[0].value, "no content");
    assert_eq!(errors[1].value, "boom");
    let quiet = vec![ErrorProbe { name: "x".to_string(), failed: false, error: None }];
    let errors = collect_errors(&quiet);
    assert_eq!(errors.len(), 1);
    assert_eq!(errors[0].value, "no content");
}

#[test]
fn snapshot_groups_by_protocol() {
    let mut stats = RaceStats::new(10);
    stats.add(
        "g".to_string(),
        ProtocolFamily::Anthropic,
        Some("A".to_string()),
        100,
        4,
        vec!["A".to_string(), "B".to_string()],
        vec![],
        true,
        vec![],
    );
    stats.add(
        "g".to_string(),
        ProtocolFamily::OpenAi,
        None,
        200,
        8,
        vec!["A".to_string(), "B".to_string()],
        vec![],
        false,
        vec![race_gateway::domain::types::KeyValue {
            key: "A".to_string(),
            value: "timeout".to_string(),
        }],
    );
    let snapshot = stats.snapshot();
    assert_eq!(snapshot.total_races, 2);
    let anthropic = snapshot
        .protocol_distribution
        .iter()
        .find(|c| c.name == "anthropic")
        .map(|c| c.count);
    assert_eq!(anthropic, Some(1));
    assert_eq!(
        snapshot
            .by_protocol
            .iter()
            .find(|p| p.protocol == "openai")
            .expect("openai stats")
            .all_failed_count,
        1
    );
}

#[test]
fn stats_log_is_bounded_newest_first() {
    let mut stats = RaceStats::new(2);
    for i in 0..3u64 {
        stats.add(
            "g".to_string(),
            ProtocolFamily::Google,
            Some(format!("w{}", i % 2)),
            10 * (i + 1),
            i,
            vec![],
            vec![NamedMillis { name: "w0".to_string(), millis: i }],
            false,
            vec![],
        );
    }
    assert_eq!(stats.next_id(), 4);
    let recent: Vec<u64> = stats.recent_races().iter().map(|r| r.id).collect();
    assert_eq!(recent, vec![3, 2]);
    let s = stats.snapshot();
    assert_eq!(s.total_races, 2);
    assert_eq!(s.total_race_duration_ms, 50);
    assert_eq!(s.total_buffer_events, 3);
    let mut wins: Vec<(String, u64)> = s.winner_distribution.iter().map(|c| (c.name.clone(), c.count)).collect();
    wins.sort();
    assert_eq!(wins, vec![("w0".to_string(), 1), ("w1".to_string(), 1)]);
    assert_eq!(s.protocol_distribution.len(), 1);
    assert_eq!(s.by_protocol[0].protocol, "google");
    assert_eq!(s.by_protocol[0].total, 2);
    let empty = RaceStats::default().snapshot();
    assert_eq!(empty.total_races, 0);
    assert!(empty.protocol_distribution.is_empty());
}

#[test]
fn seeded_selection_is_repeatable() {
    let mut p = pool();
    p.keys.push(RaceKey {
        id: "key-c".to_string(),
        key_pool_id: "pool-a".to_string(),
        secret: "secret-c".to_string(),
        enabled: true,
        metadata: "{}".to_string(),
    });
    for seed in [0u64, 7, 42, 1_000_003] {
        let first = RandomKeyPoolSelector.select_key(&p, Some(seed)).unwrap().id.clone();
        let second = RandomKeyPoolSelector.select_key(&p, Some(seed)).unwrap().id.clone();
        assert_eq!(first, second);
        assert!(first == "key-b" || first == "key-c");
    }
    for _ in 0..20 {
        let any = RandomKeyPoolSelector.select_key(&p, None).unwrap();
        assert!(any.id == "key-b" || any.id == "key-c");
    }
}

#[test]
fn higher_ranked_candidate_blocks_within_protection_window() {
    let timeouts = vec![5_000u64, 5_000];
    let snaps = vec![
        snap("high", Some(0), None, false, false),
        snap("low", Some(10 * MS), Some(20 * MS), false, false),
    ];
    assert!(higher_priority_candidate_still_protected(&timeouts, &snaps, 1, 100 * MS));
    assert!(!higher_priority_candidate_still_protected(&timeouts, &snaps, 1, 5_100 * MS));
}

#[test]
fn failed_but_usable_content_can_still_win_on_timeout() {
    let timeouts = vec![5_000u64, 5_000];
    let mut high = state("high");
    high.launched_at = Some(0);
    high.first_content_at = Some(300 * MS);
    high.failed = true;
    high.error = Some("connection reset".to_string());
    let low = state("low");
    let snaps = vec![loop_snapshot(&high), loop_snapshot(&low)];
    let max_ns = race_max_wait_ms(Some(15_000), &timeouts) as u128 * MS;
    match decide_winner(&timeouts, &snaps, 16_000 * MS, max_ns) {
        WinnerDecision::Winner(i) => assert_eq!(snaps[i].name, "high"),
        other => panic!("unexpected {:?}", other),
    }
}

#[test]
fn oversized_buffered_event_is_rejected_by_byte_cap() {
    let settings = RaceExecutionSettings {
        max_buffer_events: 10,
        max_buffer_bytes: 32,
        buffer_backpressure_timeout_ms: 100,
    };
    let mut s = state("winner");
    let outcome = record_queued_event(&mut s, false, 1, 128, Some((0, 0)), settings);
    assert!(!outcome.accepted);
    assert!(s.failed);
    assert_eq!(s.error.as_deref(), Some("buffer bytes overflow"));
}

#[test]
fn truncating_twice_changes_nothing() {
    for text in [" a \n\t b  ".to_string(), "word ".repeat(100), format!("x{}", "é".repeat(200)), "z".repeat(240)] {
        let once = truncate_error(Some(text)).unwrap();
        let twice = truncate_error(Some(once.clone())).unwrap();
        assert_eq!(twice, once);
        assert!(once.len() <= MAX_DIAGNOSTIC_ERROR_CHARS);
    }
}

#[test]
fn error_report_follows_name_order() {
    let probes = vec![
        ErrorProbe { name: "ab".to_string(), failed: true, error: Some("x".to_string()) },
        ErrorProbe { name: "abc".to_string(), failed: false, error: None },
        ErrorProbe { name: "b".to_string(), failed: true, error: None },
    ];
    let errors = collect_errors(&probes);
    let keys: Vec<&str> = errors.iter().map(|e| e.key.as_str()).collect();
    assert_eq!(keys, vec!["ab", "b"]);
    let mut sorted = keys.clone();
    sorted.sort();
    assert_eq!(keys, sorted);
}
