//! Admission control: who is calling, what they may do, and whether a
//! request is let through.

use vstd::prelude::*;
use crate::rate_limiter::{check_outcome, RateLimitResult, RateLimiter};
use crate::text::{chars_of, dec, dec_of, is_prefix, str_eq, string_from_chars, starts_with};

verus! {

/// Where an administrator's rights come from.
#[derive(Debug, Clone)]
pub enum AdminSource {
    /// The static token of the configuration.
    EnvToken,
    /// A credential with the `admin` scope, by id.
    ApiKey(String),
}

/// The authenticated caller of a request.
#[derive(Debug, Clone)]
pub enum Caller {
    ApiKey {
        key_id: String,
        name: String,
        scopes: Vec<String>,
        rate_limit: i32,
        daily_quota: i32,
    },
    Admin {
        source: AdminSource,
    },
    /// Authentication is switched off.
    Anonymous,
}

/// Views of a list of strings.
pub open spec fn strings_view(v: Seq<String>) -> Seq<Seq<char>> {
    v.map_values(|s: String| s@)
}

/// Whether the caller holds a scope: administrators and anonymous callers
/// hold every scope.
pub open spec fn caller_has_scope(c: Caller, scope: Seq<char>) -> bool {
    match c {
        Caller::ApiKey { scopes, .. } => strings_view(scopes@).contains(scope),
        _ => true,
    }
}

/// Credential id behind a caller, if any.
pub open spec fn caller_key_id(c: Caller) -> Option<Seq<char>> {
    match c {
        Caller::ApiKey { key_id, .. } => Some(key_id@),
        Caller::Admin { source: AdminSource::ApiKey(id) } => Some(id@),
        _ => None,
    }
}

/// Whether a list of strings holds `s`.
pub fn contains_string(v: &Vec<String>, s: &str) -> (r: bool)
    ensures
        r == strings_view(v@).contains(s@),
{
    let mut i: usize = 0;
    while i < v.len()
        invariant
            i <= v@.len(),
            forall|j: int| 0 <= j < i ==> v@[j]@ != s@,
        decreases v@.len() - i,
    {
        if str_eq(v[i].as_str(), s) {
            assert(strings_view(v@)[i as int] == s@);
            return true;
        }
        i += 1;
    }
    assert forall|j: int| 0 <= j < strings_view(v@).len() implies strings_view(v@)[j] != s@ by {
        assert(strings_view(v@)[j] == v@[j]@);
    }
    false
}

impl Caller {
    /// Whether the caller holds a scope.
    pub fn has_scope(&self, scope: &str) -> (r: bool)
        ensures
            r == caller_has_scope(*self, scope@),
    {
        match self {
            Caller::ApiKey { scopes, .. } => contains_string(scopes, scope),
            _ => true,
        }
    }

    /// Credential id behind the caller, if any.
    pub fn key_id(&self) -> (r: Option<&str>)
        ensures
            match r {
                Some(s) => caller_key_id(*self) == Some(s@),
                None => caller_key_id(*self) is None,
            },
    {
        match self {
            Caller::ApiKey { key_id, .. } => Some(key_id.as_str()),
            Caller::Admin { source: AdminSource::ApiKey(id) } => Some(id.as_str()),
            _ => None,
        }
    }
}

/// A rejected request: HTTP status and error message.
#[derive(Debug)]
pub struct Rejection {
    pub status: u16,
    pub error: String,
}

/// Message of a missing scope.
pub open spec fn missing_scope_msg(scope: Seq<char>) -> Seq<char> {
    "Missing required scope: "@ + scope
}

/// Lets the caller through when it holds the scope; otherwise 403.
pub fn require_scope(caller: &Caller, scope: &str) -> (r: Result<(), Rejection>)
    ensures
        r is Ok <==> caller_has_scope(*caller, scope@),
        r matches Err(e) ==> e.status == 403 && e.error@ == missing_scope_msg(scope@),
{
    if caller.has_scope(scope) {
        Ok(())
    } else {
        let mut v = chars_of("Missing required scope: ");
        crate::text::append_str(&mut v, scope);
        Err(Rejection { status: 403, error: string_from_chars(&v) })
    }
}

/// Token of an `Authorization` header value of the form `Bearer <token>`.
pub open spec fn bearer_of(h: Seq<char>) -> Option<Seq<char>> {
    if is_prefix("Bearer "@, h) { Some(h.subrange(7, h.len() as int)) } else { None }
}

/// Token of an `Authorization` header value of the form `Bearer <token>`.
pub fn extract_bearer(header: Option<&str>) -> (r: Option<String>)
    ensures
        match header {
            None => r is None,
            Some(h) => match (r, bearer_of(h@)) {
                (Some(t), Some(u)) => t@ == u,
                (None, None) => true,
                _ => false,
            },
        },
{
    match header {
        None => None,
        Some(h) => {
            let v = chars_of(h);
            let p = chars_of("Bearer ");
            proof { reveal_strlit("Bearer "); }
            if starts_with(&v, &p) {
                let mut t: Vec<char> = Vec::new();
                let mut i: usize = 7;
                while i < v.len()
                    invariant
                        7 <= i <= v@.len(),
                        t@ == v@.subrange(7, i as int),
                    decreases v@.len() - i,
                {
                    t.push(v[i]);
                    i += 1;
                    assert(t@ =~= v@.subrange(7, i as int));
                }
                Some(string_from_chars(&t))
            } else {
                None
            }
        },
    }
}

/// A stored credential, without its hash.
#[derive(Debug)]
pub struct ApiKeyRecord {
    pub id: String,
    pub name: String,
    pub key_prefix: String,
    pub enabled: bool,
    /// Expiry in RFC 3339 text.
    pub expires_at: Option<String>,
    /// Requests per minute; 0 means no limit.
    pub rate_limit: i32,
    /// Tasks per UTC day; 0 means no quota.
    pub daily_quota: i32,
    pub scopes: Vec<String>,
    /// Free-form JSON text.
    pub metadata: String,
    pub created_at: String,
    pub last_used_at: Option<String>,
}

/// Seconds since the Unix epoch of an RFC 3339 time, if the text is one.
pub uninterp spec fn rfc3339_secs_of(s: Seq<char>) -> Option<i64>;

/// Relies on `chrono::DateTime::parse_from_rfc3339` and `timestamp`: the
/// instant in whole seconds, or nothing when the text does not parse.
#[verifier::external_body]
fn parse_rfc3339_secs(s: &str) -> (r: Option<i64>)
    ensures
        r == rfc3339_secs_of(s@),
{
    chrono::DateTime::parse_from_rfc3339(s).ok().map(|d| d.timestamp())
}

/// What the first steps of admission decide from the configuration and the
/// `Authorization` header.
#[derive(Debug)]
pub enum TokenCheck {
    /// Let through with this caller.
    Admit(Caller),
    /// Turn away.
    Reject(Rejection),
    /// Look up the stored credential with this hash of the token.
    Lookup { key_hash: String },
}

/// First steps of admission: authentication switched off admits anyone; a
/// missing bearer token is 401; the static admin token admits an
/// administrator; any other token is looked up by its hash.
pub fn check_token(auth_enabled: bool, admin_token: Option<&str>, authorization: Option<&str>) -> (r: TokenCheck)
    ensures
        !auth_enabled ==> r matches TokenCheck::Admit(Caller::Anonymous),
        auth_enabled ==> match authorization {
            None => r matches TokenCheck::Reject(e) && e.status == 401,
            Some(h) => match bearer_of(h@) {
                None => r matches TokenCheck::Reject(e) && e.status == 401,
                Some(t) => if admin_token is Some && admin_token->0@ == t {
                    r matches TokenCheck::Admit(Caller::Admin { source: AdminSource::EnvToken })
                } else {
                    r matches TokenCheck::Lookup { key_hash } && key_hash@ == crate::api_key::hex_text(
                        crate::api_key::sha256_of(vstd::utf8::encode_utf8(t)))
                },
            },
        },
{
    if !auth_enabled {
        return TokenCheck::Admit(Caller::Anonymous);
    }
    let token = match extract_bearer(authorization) {
        Some(t) => t,
        None => {
            return TokenCheck::Reject(Rejection { status: 401, error: "Missing Authorization header".to_owned() });
        },
    };
    match admin_token {
        Some(a) => {
            if str_eq(token.as_str(), a) {
                return TokenCheck::Admit(Caller::Admin { source: AdminSource::EnvToken });
            }
        },
        None => {},
    }
    TokenCheck::Lookup { key_hash: crate::api_key::hash_key(token.as_str()) }
}

/// What admission decides once the credential was looked up.
#[derive(Debug)]
pub enum Admission {
    /// Let through; touch the credential and count the request.
    /// Rate-limit headers go on the response when a check was made.
    Admit { caller: Caller, rate: Option<RateLimitResult> },
    /// Turn away.
    Reject(Rejection),
    /// Over the rate limit: 429 with the bucket's state.
    RateLimited(RateLimitResult),
}

/// Whether a credential's expiry has passed at `now` (seconds); text that
/// does not parse never expires.
pub open spec fn expired(expires_at: Option<Seq<char>>, now: i64) -> bool {
    match expires_at {
        Some(e) => match rfc3339_secs_of(e) {
            Some(t) => now > t,
            None => false,
        },
        None => false,
    }
}

/// Admission of a looked-up credential: unknown is 401, disabled or expired
/// is 403, the `admin` scope admits an administrator, and any other
/// credential is held to its rate limit.
pub fn admit_record(
    record: Option<ApiKeyRecord>,
    now_secs: i64,
    limiter: &mut RateLimiter,
    now_ms: u64,
) -> (r: Admission)
    requires
        old(limiter).wf(),
    ensures
        final(limiter).wf(),
        match record {
            None => r matches Admission::Reject(e) && e.status == 401
                && final(limiter).view_buckets() == old(limiter).view_buckets(),
            Some(k) => if !k.enabled || expired(crate::pool::opt_view(k.expires_at), now_secs) {
                r matches Admission::Reject(e) && e.status == 403
                    && final(limiter).view_buckets() == old(limiter).view_buckets()
            } else if strings_view(k.scopes@).contains("admin"@) {
                (r matches Admission::Admit { caller: Caller::Admin { source: AdminSource::ApiKey(id) }, rate: None }
                    && id@ == k.id@)
                    && final(limiter).view_buckets() == old(limiter).view_buckets()
            } else {
                ({
                    let (res, m) = check_outcome(old(limiter).view_buckets(), k.id@, k.rate_limit as u32, now_ms);
                    final(limiter).view_buckets() == m && if !res.allowed {
                        r == Admission::RateLimited(res)
                    } else {
                        match r {
                            Admission::Admit { caller: Caller::ApiKey { key_id, name, scopes, rate_limit, daily_quota }, rate: Some(x) } =>
                                x == res && key_id@ == k.id@ && name@ == k.name@ && scopes@ == k.scopes@
                                    && rate_limit == k.rate_limit && daily_quota == k.daily_quota,
                            _ => false,
                        }
                    }
                })
            },
        },
{
    let k = match record {
        None => {
            return Admission::Reject(Rejection { status: 401, error: "Invalid API key".to_owned() });
        },
        Some(k) => k,
    };
    if !k.enabled {
        return Admission::Reject(Rejection { status: 403, error: "API key is disabled".to_owned() });
    }
    match &k.expires_at {
        Some(e) => {
            match parse_rfc3339_secs(e.as_str()) {
                Some(t) => {
                    if now_secs > t {
                        return Admission::Reject(Rejection { status: 403, error: "API key has expired".to_owned() });
                    }
                },
                None => {},
            }
        },
        None => {},
    }
    if contains_string(&k.scopes, "admin") {
        return Admission::Admit { caller: Caller::Admin { source: AdminSource::ApiKey(k.id) }, rate: None };
    }
    let res = limiter.check(k.id.as_str(), k.rate_limit as u32, now_ms);
    if !res.allowed {
        return Admission::RateLimited(res);
    }
    Admission::Admit {
        caller: Caller::ApiKey {
            key_id: k.id,
            name: k.name,
            scopes: k.scopes,
            rate_limit: k.rate_limit,
            daily_quota: k.daily_quota,
        },
        rate: Some(res),
    }
}

/// The `X-RateLimit-*` headers of a check with a limit; none without one.
pub fn rate_limit_headers(rl: &RateLimitResult) -> (r: Vec<(&'static str, String)>)
    ensures
        rl.limit > 0 ==> crate::signer::pairs_view(r@) == seq![
            ("X-RateLimit-Limit"@, dec(rl.limit as nat)),
            ("X-RateLimit-Remaining"@, dec(rl.remaining as nat)),
            ("X-RateLimit-Reset"@, dec(rl.reset_secs as nat))
        ],
        rl.limit == 0 ==> r@.len() == 0,
        crate::signer::pairs_view(r@) == rate_headers(*rl),
{
    let mut r: Vec<(&'static str, String)> = Vec::new();
    if rl.limit > 0 {
        r.push(("X-RateLimit-Limit", string_from_chars(&dec_of(rl.limit as u64))));
        r.push(("X-RateLimit-Remaining", string_from_chars(&dec_of(rl.remaining as u64))));
        r.push(("X-RateLimit-Reset", string_from_chars(&dec_of(rl.reset_secs as u64))));
        assert(crate::signer::pairs_view(r@) =~= seq![
            ("X-RateLimit-Limit"@, dec(rl.limit as nat)),
            ("X-RateLimit-Remaining"@, dec(rl.remaining as nat)),
            ("X-RateLimit-Reset"@, dec(rl.reset_secs as nat))
        ]);
    }
    r
}

/// The `X-RateLimit-*` headers of a check: limit, remaining and reset when
/// there is a limit, none without one.
pub open spec fn rate_headers(rl: RateLimitResult) -> Seq<(Seq<char>, Seq<char>)> {
    if rl.limit > 0 {
        seq![
            ("X-RateLimit-Limit"@, dec(rl.limit as nat)),
            ("X-RateLimit-Remaining"@, dec(rl.remaining as nat)),
            ("X-RateLimit-Reset"@, dec(rl.reset_secs as nat))
        ]
    } else {
        Seq::empty()
    }
}

/// Headers of a 429 for a denied check: `Retry-After` with the seconds until
/// a token is back, then the `X-RateLimit-*` headers of the check.
pub fn rate_limited_headers(rl: &RateLimitResult) -> (r: Vec<(&'static str, String)>)
    ensures
        crate::signer::pairs_view(r@) == seq![("Retry-After"@, dec(rl.reset_secs as nat))] + rate_headers(*rl),
{
    let mut r: Vec<(&'static str, String)> = Vec::new();
    r.push(("Retry-After", string_from_chars(&dec_of(rl.reset_secs as u64))));
    if rl.limit > 0 {
        r.push(("X-RateLimit-Limit", string_from_chars(&dec_of(rl.limit as u64))));
        r.push(("X-RateLimit-Remaining", string_from_chars(&dec_of(rl.remaining as u64))));
        r.push(("X-RateLimit-Reset", string_from_chars(&dec_of(rl.reset_secs as u64))));
    }
    assert(crate::signer::pairs_view(r@) =~= seq![("Retry-After"@, dec(rl.reset_secs as nat))] + rate_headers(*rl));
    r
}

/// One credential's counts on one UTC day.
#[derive(Debug, Clone)]
pub struct UsageRow {
    pub date: String,
    pub api_key_id: String,
    pub api_key_name: String,
    pub request_count: i32,
    pub task_count: i32,
}

/// One credential's counts over a range of days.
#[derive(Debug, Clone)]
pub struct UsageSummaryRow {
    pub api_key_id: String,
    pub api_key_name: String,
    pub total_requests: i32,
    pub total_tasks: i32,
}

/// A refused submission over the daily quota.
#[derive(Debug, Clone, Copy, PartialEq, Eq, Structural)]
pub struct QuotaExceeded {
    pub daily_quota: i32,
    pub used: i32,
}

/// Whether a caller with the day's task count may create one more task:
/// only credentials with a positive quota are held to it.
pub open spec fn quota_allows(c: Caller, used: i32) -> bool {
    match c {
        Caller::ApiKey { daily_quota, .. } => daily_quota <= 0 || used < daily_quota,
        _ => true,
    }
}

/// Checks the daily quota before a task is created.
pub fn check_daily_quota(caller: &Caller, used: i32) -> (r: Result<(), QuotaExceeded>)
    ensures
        r is Ok <==> quota_allows(*caller, used),
        match (r, *caller) {
            (Err(e), Caller::ApiKey { daily_quota, .. }) => e.daily_quota == daily_quota && e.used == used,
            (Err(_), _) => false,
            _ => true,
        },
{
    match caller {
        Caller::ApiKey { daily_quota, .. } => {
            if *daily_quota > 0 && used >= *daily_quota {
                Err(QuotaExceeded { daily_quota: *daily_quota, used })
            } else {
                Ok(())
            }
        },
        _ => Ok(()),
    }
}

/// With a positive quota `Q`, creating a task only after the quota check
/// passed and counting it never takes the day's count past `Q`.
pub proof fn lemma_quota_never_exceeded(c: Caller, used: i32)
    requires
        c matches Caller::ApiKey { daily_quota, .. } && daily_quota > 0,
        quota_allows(c, used),
    ensures
        c matches Caller::ApiKey { daily_quota, .. } && used + 1 <= daily_quota,
{
}

} // verus!
