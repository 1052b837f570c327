use edge_core::access::{validate_token, AccessDecision, KnownToken};
use edge_core::features::{ClientFeatures, EngineState, FeatureStore};
use edge_core::metrics::{AppRegistration, ImpressionCount, MetricsBatch, MetricsCache};
use edge_core::persistence::Snapshot;
use edge_core::refresh::{tick_batches, EdgeCaches, FetchOutcome};
use edge_core::registry::{RefreshRegistry, TokenRefresh};
use edge_core::token::{EdgeToken, ProjectScope, TokenType, TokenValidationStatus};
use edge_core::validator::{RegisterStep, TokenValidator, ValidationError};

fn token(s: &str, env: &str, scope: Option<&str>, kind: TokenType) -> EdgeToken {
    EdgeToken {
        token: s.to_string(),
        environment: Some(env.to_string()),
        projects: match scope {
            Some(p) => ProjectScope::Project(p.to_string()),
            None => ProjectScope::Wildcard,
        },
        token_type: Some(kind),
        status: TokenValidationStatus::Unknown,
    }
}

fn payload(etag: &str, body: &str) -> ClientFeatures {
    ClientFeatures { etag: etag.to_string(), body: body.to_string() }
}

fn validated(caches: &mut EdgeCaches, v: &mut TokenValidator, t: EdgeToken) -> EdgeToken {
    let key = t.token.clone();
    assert!(matches!(v.begin_register(caches, &key), RegisterStep::Validate));
    v.complete_validation(caches, key, Ok(vec![t])).unwrap()
}

#[test]
fn cold_start_validates_once_then_serves_features() {
    let mut caches = EdgeCaches::new();
    let mut v = TokenValidator::new();
    let key = "*:development.abc".to_string();
    assert!(matches!(v.begin_register(&caches, &key), RegisterStep::Validate));
    assert!(matches!(v.begin_register(&caches, &key), RegisterStep::Wait));
    let upstream = vec![token("*:development.abc", "development", None, TokenType::Client)];
    let record = v.complete_validation(&mut caches, key.clone(), Ok(upstream)).unwrap();
    assert_eq!(record.status, TokenValidationStatus::Validated);
    assert_eq!(caches.targets.len(), 1);
    match v.begin_register(&caches, &key) {
        RegisterStep::Known(t) => assert_eq!(t.status, TokenValidationStatus::Validated),
        _ => panic!("token should be known"),
    }
    let env = "development".to_string();
    assert!(caches.features.features(&env).is_none());
    caches.apply_fetch_outcome(&key, FetchOutcome::Updated(payload("\"v1\"", "{}")), 10);
    assert_eq!(caches.features.features(&env).unwrap().etag, "\"v1\"");
    assert_eq!(caches.targets.get(&key).unwrap().etag, Some("\"v1\"".to_string()));
}

#[test]
fn warm_restart_serves_from_snapshot_and_fetches_conditionally() {
    let t = token("*:production.abc", "production", None, TokenType::Client);
    let mut t_valid = t.clone();
    t_valid.status = TokenValidationStatus::Validated;
    let mut target = TokenRefresh::new(t_valid.clone());
    target.etag = Some("\"v7\"".to_string());
    let caches = EdgeCaches::restore(
        Some(vec![t_valid]),
        Some(vec![("production".to_string(), payload("\"v7\"", "P"))]),
        Some(vec![target]),
    );
    let env = "production".to_string();
    assert_eq!(caches.features.features(&env).unwrap().body, "P");
    assert_eq!(caches.features.engine(&env).unwrap().etag(), "\"v7\"");
    let key = "*:production.abc".to_string();
    assert_eq!(caches.targets.get(&key).unwrap().etag, Some("\"v7\"".to_string()));
}

#[test]
fn revocation_marks_token_invalid_and_drops_target() {
    let mut caches = EdgeCaches::new();
    let mut v = TokenValidator::new();
    let t = token("*:production.abc", "production", None, TokenType::Client);
    validated(&mut caches, &mut v, t);
    let key = "*:production.abc".to_string();
    caches.apply_fetch_outcome(&key, FetchOutcome::Unauthorized, 5);
    assert_eq!(caches.targets.len(), 0);
    assert_eq!(caches.tokens.get(&key).unwrap().status, TokenValidationStatus::Invalid);
    match v.begin_register(&caches, &key) {
        RegisterStep::Known(rec) => {
            let d = validate_token(&KnownToken::Registered(rec), "/api/client/features");
            assert_eq!(d, AccessDecision::Forbidden);
        }
        _ => panic!("a revoked token needs no upstream call"),
    }
}

#[test]
fn stampede_of_wildcard_tokens_keeps_one_target() {
    let mut caches = EdgeCaches::new();
    let mut v = TokenValidator::new();
    for i in 0..100 {
        let s = format!("*:e.secret{}", i);
        validated(&mut caches, &mut v, token(&s, "e", None, TokenType::Client));
    }
    assert_eq!(caches.tokens.len(), 100);
    assert_eq!(caches.targets.len(), 1);
    assert_eq!(tick_batches(caches.targets.len(), 5), vec![(0, 1)]);
}

#[test]
fn stampede_of_project_tokens_is_fetched_in_capped_batches() {
    let mut caches = EdgeCaches::new();
    let mut v = TokenValidator::new();
    for i in 0..100 {
        let s = format!("p{}:e.secret", i);
        let p = format!("p{}", i);
        validated(&mut caches, &mut v, token(&s, "e", Some(&p), TokenType::Client));
    }
    assert_eq!(caches.targets.len(), 100);
    let batches = tick_batches(100, 5);
    assert_eq!(batches.len(), 20);
    assert!(batches.iter().all(|(a, b)| b - a <= 5));
    assert_eq!(batches[19], (95, 100));
}

#[test]
fn metrics_flush_drops_batch_and_next_interval_flushes_normally() {
    let mut m = MetricsCache::new();
    for _ in 0..1000 {
        m.record_impression(ImpressionCount {
            feature_name: "f".to_string(),
            variant: "on".to_string(),
            environment: "e".to_string(),
            count: 1000,
        });
    }
    let sent = m.flush();
    assert_eq!(sent.impression_list()[0].count, 1_000_000);
    assert!(m.impression_list().is_empty());
    for _ in 0..500 {
        m.record_impression(ImpressionCount {
            feature_name: "f".to_string(),
            variant: "on".to_string(),
            environment: "e".to_string(),
            count: 1000,
        });
    }
    let next = m.flush();
    assert_eq!(next.impression_list().len(), 1);
    assert_eq!(next.impression_list()[0].count, 500_000);
}

#[test]
fn subsumption_in_either_order_leaves_one_wildcard_target() {
    let narrow = token("proj1:envA.x", "envA", Some("proj1"), TokenType::Client);
    let wide = token("*:envA.y", "envA", None, TokenType::Client);
    for order in [[narrow.clone(), wide.clone()], [wide.clone(), narrow.clone()]] {
        let mut d = RefreshRegistry::new();
        for t in order {
            d.register(TokenRefresh::new(t));
        }
        assert_eq!(d.len(), 1);
        assert!(matches!(d.targets()[0].1.token.projects, ProjectScope::Wildcard));
    }
}

#[test]
fn register_reports_whether_target_was_added() {
    let mut d = RefreshRegistry::new();
    assert!(d.register(TokenRefresh::new(token("*:a.x", "a", None, TokenType::Client))));
    assert!(!d.register(TokenRefresh::new(token("q:a.z", "a", Some("q"), TokenType::Client))));
    assert!(d.register(TokenRefresh::new(token("*:b.x", "b", None, TokenType::Client))));
    assert_eq!(d.len(), 2);
}

#[test]
fn repeated_not_modified_only_moves_last_check() {
    let mut caches = EdgeCaches::new();
    let mut v = TokenValidator::new();
    validated(&mut caches, &mut v, token("*:e.x", "e", None, TokenType::Client));
    let key = "*:e.x".to_string();
    caches.apply_fetch_outcome(&key, FetchOutcome::Updated(payload("\"v2\"", "body")), 1);
    caches.apply_fetch_outcome(&key, FetchOutcome::NoUpdate, 2);
    caches.apply_fetch_outcome(&key, FetchOutcome::NoUpdate, 3);
    let env = "e".to_string();
    assert_eq!(caches.features.features(&env).unwrap().body, "body");
    assert_eq!(caches.features.engine(&env).unwrap().etag(), "\"v2\"");
    let t = caches.targets.get(&key).unwrap();
    assert_eq!(t.etag, Some("\"v2\"".to_string()));
    assert_eq!(t.last_refreshed, Some(1));
    assert_eq!(t.last_check, Some(3));
}

#[test]
fn failed_fetch_changes_nothing() {
    let mut caches = EdgeCaches::new();
    let mut v = TokenValidator::new();
    validated(&mut caches, &mut v, token("*:e.x", "e", None, TokenType::Client));
    let key = "*:e.x".to_string();
    caches.apply_fetch_outcome(&key, FetchOutcome::Failed, 7);
    let t = caches.targets.get(&key).unwrap();
    assert_eq!(t.last_check, None);
    assert_eq!(t.etag, None);
}

#[test]
fn engine_follows_published_payload() {
    let mut store = FeatureStore::new();
    let env = "e".to_string();
    store.publish(env.clone(), payload("\"a\"", "1"));
    store.publish(env.clone(), payload("\"b\"", "2"));
    assert_eq!(store.features(&env).unwrap().etag, "\"b\"");
    assert_eq!(store.engine(&env).unwrap().etag(), "\"b\"");
    assert_eq!(EngineState::build(&payload("\"c\"", "3")).etag(), "\"c\"");
}

#[test]
fn snapshot_then_restore_gives_same_state() {
    let mut caches = EdgeCaches::new();
    let mut v = TokenValidator::new();
    validated(&mut caches, &mut v, token("*:e.x", "e", None, TokenType::Client));
    validated(&mut caches, &mut v, token("p:f.y", "f", Some("p"), TokenType::Frontend));
    let key = "*:e.x".to_string();
    caches.apply_fetch_outcome(&key, FetchOutcome::Updated(payload("\"1\"", "a")), 1);
    let snap: Snapshot = caches.snapshot();
    assert_eq!(snap.tokens.len(), 2);
    assert_eq!(snap.features.len(), 1);
    assert_eq!(snap.refresh_targets.len(), 2);
    let back = EdgeCaches::restore(Some(snap.tokens), Some(snap.features), Some(snap.refresh_targets));
    assert_eq!(back.tokens.len(), 2);
    assert_eq!(back.targets.len(), 2);
    let env = "e".to_string();
    assert_eq!(back.features.features(&env).unwrap().body, "a");
    assert_eq!(back.features.engine(&env).unwrap().etag(), "\"1\"");
    assert_eq!(back.targets.get(&key).unwrap().etag, Some("\"1\"".to_string()));
}

#[test]
fn failed_loads_restore_empty_caches() {
    let c = EdgeCaches::restore(None, None, None);
    assert_eq!(c.tokens.len(), 0);
    assert_eq!(c.targets.len(), 0);
}

#[test]
fn unrecognised_token_is_recorded_invalid() {
    let mut caches = EdgeCaches::new();
    let mut v = TokenValidator::new();
    let key = "*:e.nope".to_string();
    assert!(matches!(v.begin_register(&caches, &key), RegisterStep::Validate));
    let r = v.complete_validation(&mut caches, key.clone(), Ok(vec![])).unwrap();
    assert_eq!(r.status, TokenValidationStatus::Invalid);
    assert_eq!(caches.targets.len(), 0);
}

#[test]
fn validation_error_frees_slot_and_records_nothing() {
    let mut caches = EdgeCaches::new();
    let mut v = TokenValidator::new();
    let key = "*:e.x".to_string();
    assert!(matches!(v.begin_register(&caches, &key), RegisterStep::Validate));
    let r = v.complete_validation(&mut caches, key.clone(), Err(ValidationError::Transient));
    assert_eq!(r.unwrap_err(), ValidationError::Transient);
    let r = v.complete_validation(&mut caches, key.clone(), Err(ValidationError::Misconfigured));
    assert_eq!(r.unwrap_err(), ValidationError::Misconfigured);
    assert_eq!(caches.tokens.len(), 0);
    assert!(matches!(v.begin_register(&caches, &key), RegisterStep::Validate));
}

#[test]
fn access_rules_follow_token_kind_and_path() {
    let mut f = token("*:e.f", "e", None, TokenType::Frontend);
    f.status = TokenValidationStatus::Validated;
    let mut c = token("*:e.c", "e", None, TokenType::Client);
    c.status = TokenValidationStatus::Validated;
    let mut a = token("*:e.a", "e", None, TokenType::Admin);
    a.status = TokenValidationStatus::Validated;
    let u = token("*:e.u", "e", None, TokenType::Client);
    let reg = |t: &EdgeToken| KnownToken::Registered(t.clone());
    assert_eq!(validate_token(&reg(&f), "/api/frontend"), AccessDecision::Forward);
    assert_eq!(validate_token(&reg(&f), "/api/proxy/all"), AccessDecision::Forward);
    assert_eq!(validate_token(&reg(&f), "/api/client/features"), AccessDecision::Forbidden);
    assert_eq!(validate_token(&reg(&c), "/api/client/features"), AccessDecision::Forward);
    assert_eq!(validate_token(&reg(&c), "/api/frontend"), AccessDecision::Forbidden);
    assert_eq!(validate_token(&reg(&a), "/api/client/features"), AccessDecision::Forbidden);
    assert_eq!(validate_token(&reg(&u), "/api/client/features"), AccessDecision::Unauthorized);
    assert_eq!(validate_token(&KnownToken::Stored(true), "/api/x"), AccessDecision::Forward);
    assert_eq!(validate_token(&KnownToken::Stored(false), "/api/x"), AccessDecision::Forbidden);
}

#[test]
fn metrics_merge_sums_counters_and_unites_registrations() {
    let mut m = MetricsCache::new();
    let imp = |f: &str, n: u64| ImpressionCount {
        feature_name: f.to_string(),
        variant: "v".to_string(),
        environment: "e".to_string(),
        count: n,
    };
    let reg = |i: &str, ver: &str| AppRegistration {
        app_name: "app".to_string(),
        instance_id: i.to_string(),
        environment: "e".to_string(),
        sdk_version: Some(ver.to_string()),
        interval: 15,
    };
    m.record(MetricsBatch {
        impressions: vec![imp("a", 2), imp("b", 3), imp("a", 4)],
        registrations: vec![reg("i1", "1.0"), reg("i2", "1.0"), reg("i1", "2.0")],
    });
    assert_eq!(m.impression_list().len(), 2);
    assert_eq!(m.impression_list()[0].count, 6);
    assert_eq!(m.impression_list()[1].count, 3);
    assert_eq!(m.registration_list().len(), 2);
    assert_eq!(m.registration_list()[0].sdk_version, Some("2.0".to_string()));
    m.record_impression(imp("b", u64::MAX));
    assert_eq!(m.impression_list()[1].count, u64::MAX);
    let drained = m.flush();
    assert_eq!(drained.registration_list().len(), 2);
    assert!(m.registration_list().is_empty());
}

#[test]
fn single_flight_asks_upstream_once() {
    let caches = EdgeCaches::new();
    let mut v = TokenValidator::new();
    let key = "*:e.once".to_string();
    let asks = (0..50)
        .filter(|_| matches!(v.begin_register(&caches, &key), RegisterStep::Validate))
        .count();
    assert_eq!(asks, 1);
}

#[test]
fn tick_batches_edge_sizes() {
    assert!(tick_batches(0, 5).is_empty());
    assert_eq!(tick_batches(5, 5), vec![(0, 5)]);
    assert_eq!(tick_batches(7, 3), vec![(0, 3), (3, 6), (6, 7)]);
}
