use video_gateway::auth::{
    admit_record, check_daily_quota, check_token, extract_bearer, rate_limit_headers, require_scope, Admission,
    AdminSource, ApiKeyRecord, Caller, QuotaExceeded, TokenCheck,
};
use video_gateway::rate_limiter::{RateLimitResult, RateLimiter};

fn record(rate_limit: i32, scopes: &[&str]) -> ApiKeyRecord {
    ApiKeyRecord {
        id: "k1".to_string(),
        name: "client".to_string(),
        key_prefix: "gw_abcde".to_string(),
        enabled: true,
        expires_at: None,
        rate_limit,
        daily_quota: 3,
        scopes: scopes.iter().map(|s| s.to_string()).collect(),
        metadata: "{}".to_string(),
        created_at: "2025-01-01 00:00:00".to_string(),
        last_used_at: None,
    }
}

fn api_caller(quota: i32) -> Caller {
    Caller::ApiKey {
        key_id: "k1".to_string(),
        name: "n".to_string(),
        scopes: vec!["video:create".to_string()],
        rate_limit: 0,
        daily_quota: quota,
    }
}

#[test]
fn zero_limit_always_allows() {
    let mut rl = RateLimiter::new();
    for t in 0..100u64 {
        let r = rl.check("k", 0, t);
        assert_eq!(r, RateLimitResult { allowed: true, limit: 0, remaining: 0, reset_secs: 0 });
    }
}

#[test]
fn rate_limit_of_two() {
    let mut rl = RateLimiter::new();
    let r1 = rl.check("k", 2, 1000);
    assert_eq!(r1, RateLimitResult { allowed: true, limit: 2, remaining: 1, reset_secs: 0 });
    let r2 = rl.check("k", 2, 1000);
    assert_eq!(r2, RateLimitResult { allowed: true, limit: 2, remaining: 0, reset_secs: 30 });
    for _ in 0..4 {
        let r = rl.check("k", 2, 1000);
        assert!(!r.allowed);
        assert!(r.reset_secs > 0);
        assert_eq!(r.reset_secs, 30);
    }
    let later = 1000 + 60_000;
    assert!(rl.check("k", 2, later).allowed);
    assert!(rl.check("k", 2, later).allowed);
    assert!(!rl.check("k", 2, later).allowed);
    assert!(rl.check("other", 2, later).allowed);
    rl.remove("k");
    assert!(rl.check("k", 2, later).allowed);
}

#[test]
fn refill_is_proportional() {
    let mut rl = RateLimiter::new();
    assert!(rl.check("k", 60, 0).allowed);
    for _ in 0..59 {
        assert!(rl.check("k", 60, 0).allowed);
    }
    assert!(!rl.check("k", 60, 0).allowed);
    assert!(!rl.check("k", 60, 999).allowed);
    assert!(rl.check("k", 60, 1000).allowed);
}

#[test]
fn scopes_and_ids() {
    let c = api_caller(0);
    assert!(c.has_scope("video:create"));
    assert!(!c.has_scope("admin"));
    assert_eq!(c.key_id(), Some("k1"));
    let a = Caller::Admin { source: AdminSource::ApiKey("k9".to_string()) };
    assert!(a.has_scope("anything"));
    assert_eq!(a.key_id(), Some("k9"));
    assert_eq!(Caller::Admin { source: AdminSource::EnvToken }.key_id(), None);
    assert!(Caller::Anonymous.has_scope("task:cancel"));
    let e = require_scope(&c, "task:cancel").unwrap_err();
    assert_eq!(e.status, 403);
    assert_eq!(e.error, "Missing required scope: task:cancel");
    assert!(require_scope(&c, "video:create").is_ok());
}

#[test]
fn bearer_and_token_check() {
    assert_eq!(extract_bearer(Some("Bearer abc")).as_deref(), Some("abc"));
    assert_eq!(extract_bearer(Some("Basic abc")), None);
    assert_eq!(extract_bearer(None), None);
    assert!(matches!(check_token(false, None, None), TokenCheck::Admit(Caller::Anonymous)));
    assert!(matches!(check_token(true, None, None), TokenCheck::Reject(r) if r.status == 401));
    assert!(matches!(
        check_token(true, Some("root"), Some("Bearer root")),
        TokenCheck::Admit(Caller::Admin { source: AdminSource::EnvToken })
    ));
    match check_token(true, Some("root"), Some("Bearer abc")) {
        TokenCheck::Lookup { key_hash } => {
            assert_eq!(key_hash, "ba7816bf8f01cfea414140de5dae2223b00361a396177a9cb410ff61f20015ad")
        }
        other => panic!("{:?}", other),
    }
}

#[test]
fn admission_of_records() {
    let mut rl = RateLimiter::new();
    assert!(matches!(admit_record(None, 0, &mut rl, 0), Admission::Reject(r) if r.status == 401));
    let mut off = record(2, &[]);
    off.enabled = false;
    assert!(matches!(admit_record(Some(off), 0, &mut rl, 0), Admission::Reject(r) if r.status == 403));
    let mut old = record(2, &[]);
    old.expires_at = Some("2020-01-01T00:00:00Z".to_string());
    assert!(matches!(admit_record(Some(old), 1_700_000_000, &mut rl, 0), Admission::Reject(r) if r.status == 403));
    let mut later = record(2, &[]);
    later.expires_at = Some("2100-01-01T00:00:00Z".to_string());
    assert!(matches!(admit_record(Some(later), 1_700_000_000, &mut rl, 0), Admission::Admit { .. }));
    let admin = record(2, &["admin"]);
    assert!(matches!(
        admit_record(Some(admin), 0, &mut rl, 0),
        Admission::Admit { caller: Caller::Admin { source: AdminSource::ApiKey(_) }, rate: None }
    ));
    let mut rl2 = RateLimiter::new();
    assert!(matches!(admit_record(Some(record(1, &["video:create"])), 0, &mut rl2, 0), Admission::Admit { rate: Some(_), .. }));
    match admit_record(Some(record(1, &["video:create"])), 0, &mut rl2, 0) {
        Admission::RateLimited(r) => {
            assert!(!r.allowed);
            assert_eq!(r.limit, 1);
            let h = rate_limit_headers(&r);
            assert_eq!(h[0], ("X-RateLimit-Limit", "1".to_string()));
            assert_eq!(h[2].0, "X-RateLimit-Reset");
        }
        other => panic!("{:?}", other),
    }
    assert!(rate_limit_headers(&RateLimitResult { allowed: true, limit: 0, remaining: 0, reset_secs: 0 }).is_empty());
}

#[test]
fn daily_quota() {
    let c = api_caller(3);
    assert!(check_daily_quota(&c, 0).is_ok());
    assert!(check_daily_quota(&c, 2).is_ok());
    assert_eq!(check_daily_quota(&c, 3), Err(QuotaExceeded { daily_quota: 3, used: 3 }));
    assert!(check_daily_quota(&api_caller(0), 1000).is_ok());
    assert!(check_daily_quota(&Caller::Anonymous, 1000).is_ok());
}
