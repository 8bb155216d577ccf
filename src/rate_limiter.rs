//! Per-credential token buckets, in whole numbers.
//!
//! A token is `TOKEN_UNITS` units. A bucket for a limit of `R` requests per
//! minute holds at most `R` tokens and gains `R` units per millisecond, which
//! is `R` tokens per minute.

use dashmap::DashMap;
use vstd::prelude::*;
use crate::text::chars_of;
use crate::text::string_from_chars;

verus! {

/// Units in one token.
pub const TOKEN_UNITS: u64 = 60000;

/// State of one credential's bucket.
#[derive(Debug, Clone, Copy, PartialEq, Eq, Structural)]
pub struct TokenBucket {
    /// Current content, in units.
    pub tokens: u64,
    /// Requests per minute that the bucket was sized for.
    pub limit: u32,
    /// Time of the last refill, in milliseconds.
    pub last_refill_ms: u64,
}

/// Capacity of a bucket for a limit, in units.
pub open spec fn capacity(limit: u32) -> int {
    limit as int * TOKEN_UNITS as int
}

impl TokenBucket {
    /// A bucket that is sized for a positive limit and holds no more than it.
    pub open spec fn wf(&self) -> bool {
        self.limit > 0 && self.tokens <= capacity(self.limit)
    }
}

/// Outcome of one admission check.
#[derive(Debug, Clone, Copy, PartialEq, Eq, Structural)]
pub struct RateLimitResult {
    pub allowed: bool,
    pub limit: u32,
    pub remaining: u32,
    pub reset_secs: u32,
}

/// Buckets held by a bucket map, by credential id.
pub uninterp spec fn buckets_of(m: DashMap<String, TokenBucket>) -> Map<Seq<char>, TokenBucket>;

#[verifier::external_type_specification]
#[verifier::external_body]
#[verifier::reject_recursive_types(K)]
#[verifier::reject_recursive_types(V)]
#[verifier::reject_recursive_types(S)]
pub struct ExDashMap<K, V, S>(DashMap<K, V, S>);

/// The empty bucket map.
pub open spec fn no_buckets() -> Map<Seq<char>, TokenBucket> {
    Map::empty()
}

/// Relies on `DashMap::new`: a map with no entries.
#[verifier::external_body]
fn bucket_map_new() -> (r: DashMap<String, TokenBucket>)
    ensures
        buckets_of(r) == no_buckets(),
{
    DashMap::new()
}

/// Relies on `DashMap::get`: the value stored under the key, if any.
#[verifier::external_body]
fn bucket_get(m: &DashMap<String, TokenBucket>, k: &str) -> (r: Option<TokenBucket>)
    ensures
        match r {
            Some(b) => buckets_of(*m).contains_key(k@) && buckets_of(*m)[k@] == b,
            None => !buckets_of(*m).contains_key(k@),
        },
{
    m.get(k).map(|e| *e)
}

/// Relies on `DashMap::insert`: the key maps to the value afterwards, other
/// keys are unchanged.
#[verifier::external_body]
fn bucket_insert(m: &mut DashMap<String, TokenBucket>, k: String, b: TokenBucket)
    ensures
        buckets_of(*final(m)) == buckets_of(*old(m)).insert(k@, b),
{
    m.insert(k, b);
}

/// Relies on `DashMap::remove`: the key has no entry afterwards, other keys
/// are unchanged.
#[verifier::external_body]
fn bucket_remove(m: &mut DashMap<String, TokenBucket>, k: &str)
    ensures
        buckets_of(*final(m)) == buckets_of(*old(m)).remove(k@),
{
    m.remove(k);
}

/// Bucket after refilling up to `now`, resized to `limit` first.
pub open spec fn refilled(b: TokenBucket, limit: u32, now: u64) -> TokenBucket {
    let elapsed: int = if now >= b.last_refill_ms { now - b.last_refill_ms } else { 0 };
    let t = b.tokens + elapsed * limit;
    TokenBucket {
        tokens: if t > capacity(limit) { capacity(limit) as u64 } else { t as u64 },
        limit,
        last_refill_ms: now,
    }
}

/// Bucket a check starts from: the stored one, or a full one for a new id.
pub open spec fn start_bucket(stored: Option<TokenBucket>, limit: u32, now: u64) -> TokenBucket {
    match stored {
        Some(b) => b,
        None => TokenBucket { tokens: capacity(limit) as u64, limit, last_refill_ms: now },
    }
}

/// Ceiling of `a / b`.
pub open spec fn ceil_div(a: int, b: int) -> int {
    (a + b - 1) / b
}

/// Result and new bucket of a check with a positive limit on a refilled bucket.
pub open spec fn take_token(b: TokenBucket) -> (RateLimitResult, TokenBucket) {
    if b.tokens >= TOKEN_UNITS {
        let left = (b.tokens - TOKEN_UNITS) as u64;
        let remaining = left / TOKEN_UNITS;
        (RateLimitResult {
            allowed: true,
            limit: b.limit,
            remaining: remaining as u32,
            reset_secs: if remaining == 0 { ceil_div(60, b.limit as int) as u32 } else { 0 },
        }, TokenBucket { tokens: left, ..b })
    } else {
        (RateLimitResult {
            allowed: false,
            limit: b.limit,
            remaining: 0,
            reset_secs: ceil_div(TOKEN_UNITS - b.tokens, 1000 * b.limit as int) as u32,
        }, b)
    }
}

/// A quotient below a bound.
proof fn lemma_div_below(x: int, d: int, k: int)
    requires
        d > 0,
        0 <= x < k * d,
    ensures
        x / d < k,
{
    vstd::arithmetic::div_mod::lemma_fundamental_div_mod(x, d);
    let q = x / d;
    let r = x % d;
    assert(q < k) by (nonlinear_arith)
        requires x == d * q + r, r >= 0, x < k * d, d > 0;
}

/// Result of a check and the buckets after it (see `RateLimiter::check`).
pub open spec fn check_outcome(m: Map<Seq<char>, TokenBucket>, key: Seq<char>, limit: u32, now: u64)
    -> (RateLimitResult, Map<Seq<char>, TokenBucket>)
{
    if limit == 0 {
        (RateLimitResult { allowed: true, limit: 0, remaining: 0, reset_secs: 0 }, m)
    } else {
        let stored = if m.contains_key(key) { Some(m[key]) } else { None };
        let (res, b) = take_token(refilled(start_bucket(stored, limit, now), limit, now));
        (res, m.insert(key, b))
    }
}

/// The token-bucket limiter: one bucket per credential id.
pub struct RateLimiter {
    buckets: DashMap<String, TokenBucket>,
}

impl RateLimiter {
    /// Buckets by credential id.
    pub closed spec fn view_buckets(&self) -> Map<Seq<char>, TokenBucket> {
        buckets_of(self.buckets)
    }

    /// Every stored bucket is well formed.
    pub open spec fn wf(&self) -> bool {
        forall|k: Seq<char>| #[trigger] self.view_buckets().contains_key(k) ==> self.view_buckets()[k].wf()
    }

    /// A limiter with no buckets.
    pub fn new() -> (r: Self)
        ensures
            r.wf(),
            r.view_buckets() == no_buckets(),
    {
        RateLimiter { buckets: bucket_map_new() }
    }

    /// Takes one token from the credential's bucket, if one is there.
    /// A limit of zero means no limit: the check allows and leaves the buckets alone.
    pub fn check(&mut self, key_id: &str, rate_limit: u32, now_ms: u64) -> (r: RateLimitResult)
        requires
            old(self).wf(),
        ensures
            final(self).wf(),
            rate_limit == 0 ==> r == (RateLimitResult { allowed: true, limit: 0, remaining: 0, reset_secs: 0 })
                && final(self).view_buckets() == old(self).view_buckets(),
            rate_limit > 0 ==> {
                let stored = if old(self).view_buckets().contains_key(key_id@) {
                    Some(old(self).view_buckets()[key_id@])
                } else {
                    None
                };
                let (res, b) = take_token(refilled(start_bucket(stored, rate_limit, now_ms), rate_limit, now_ms));
                r == res && final(self).view_buckets() == old(self).view_buckets().insert(key_id@, b)
            },
            (r, final(self).view_buckets()) == check_outcome(old(self).view_buckets(), key_id@, rate_limit, now_ms),
    {
        if rate_limit == 0 {
            return RateLimitResult { allowed: true, limit: 0, remaining: 0, reset_secs: 0 };
        }
        let cap: u64 = rate_limit as u64 * TOKEN_UNITS;
        let start = match bucket_get(&self.buckets, key_id) {
            Some(b) => b,
            None => TokenBucket { tokens: cap, limit: rate_limit, last_refill_ms: now_ms },
        };
        assert(cap == capacity(rate_limit));
        let elapsed: u64 = if now_ms >= start.last_refill_ms { now_ms - start.last_refill_ms } else { 0 };
        let tokens: u64 = if elapsed >= TOKEN_UNITS {
            assert(start.tokens + elapsed * rate_limit >= capacity(rate_limit)) by (nonlinear_arith)
                requires elapsed >= TOKEN_UNITS, rate_limit > 0;
            cap
        } else {
            assert(elapsed * rate_limit <= TOKEN_UNITS * 0x1_0000_0000) by (nonlinear_arith)
                requires elapsed < TOKEN_UNITS, rate_limit <= 0xffff_ffff;
            assert(start.tokens <= TOKEN_UNITS * 0x1_0000_0000) by (nonlinear_arith)
                requires start.tokens <= start.limit * TOKEN_UNITS, start.limit <= 0xffff_ffff;
            let t = start.tokens + elapsed * rate_limit as u64;
            if t > cap { cap } else { t }
        };
        let b = TokenBucket { tokens, limit: rate_limit, last_refill_ms: now_ms };
        let (res, nb) = if b.tokens >= TOKEN_UNITS {
            let left = b.tokens - TOKEN_UNITS;
            let remaining = left / TOKEN_UNITS;
            assert(remaining <= rate_limit) by (nonlinear_arith)
                requires left <= rate_limit * TOKEN_UNITS, remaining == left / TOKEN_UNITS;
            let x: u64 = 60 + rate_limit as u64 - 1;
            proof { lemma_div_below(x as int, rate_limit as int, 61); }
            let reset: u32 = if remaining == 0 { (x / rate_limit as u64) as u32 } else { 0 };
            (RateLimitResult { allowed: true, limit: rate_limit, remaining: remaining as u32, reset_secs: reset },
             TokenBucket { tokens: left, ..b })
        } else {
            let per: u64 = 1000 * rate_limit as u64;
            let x: u64 = TOKEN_UNITS - b.tokens + per - 1;
            proof { lemma_div_below(x as int, per as int, 61); }
            let wait: u64 = x / per;
            (RateLimitResult { allowed: false, limit: rate_limit, remaining: 0, reset_secs: wait as u32 }, b)
        };
        let k = string_from_chars(&chars_of(key_id));
        bucket_insert(&mut self.buckets, k, nb);
        proof {
            assert forall|q: Seq<char>| #[trigger] self.view_buckets().contains_key(q) implies self.view_buckets()[q].wf() by {
                if q != key_id@ {
                    assert(old(self).view_buckets().contains_key(q));
                }
            }
        }
        res
    }

    /// Drops the credential's bucket.
    pub fn remove(&mut self, key_id: &str)
        requires
            old(self).wf(),
        ensures
            final(self).wf(),
            final(self).view_buckets() == old(self).view_buckets().remove(key_id@),
    {
        bucket_remove(&mut self.buckets, key_id);
        proof {
            assert forall|q: Seq<char>| #[trigger] self.view_buckets().contains_key(q) implies self.view_buckets()[q].wf() by {
                assert(old(self).view_buckets().contains_key(q));
            }
        }
    }
}

/// Allowed count and final bucket after checks at the times `ts`, in order,
/// with one positive limit.
pub open spec fn run_checks(b: TokenBucket, limit: u32, ts: Seq<u64>) -> (nat, TokenBucket)
    decreases ts.len(),
{
    if ts.len() == 0 {
        (0, b)
    } else {
        let (n, b1) = run_checks(b, limit, ts.drop_last());
        let (res, b2) = take_token(refilled(b1, limit, ts.last()));
        (n + if res.allowed { 1nat } else { 0nat }, b2)
    }
}

/// Whether the times never go backwards, starting from `start`.
pub open spec fn ordered_from(start: u64, ts: Seq<u64>) -> bool {
    (ts.len() > 0 ==> start <= ts[0]) && forall|i: int, j: int| 0 <= i <= j < ts.len() ==> ts[i] <= ts[j]
}

/// Within any stretch of time a bucket of limit `R` allows at most its
/// content at the start plus `R` tokens per minute: over one minute at most
/// `2R` checks are allowed, `R` of them from the initial depth.
pub proof fn lemma_allowed_in_window(b: TokenBucket, limit: u32, ts: Seq<u64>)
    requires
        b.wf(),
        b.limit == limit,
        ordered_from(b.last_refill_ms, ts),
    ensures
        ts.len() > 0 ==> run_checks(b, limit, ts).0 * TOKEN_UNITS
            <= capacity(limit) + limit * (ts.last() - b.last_refill_ms),
{
    lemma_run_budget(b, limit, ts);
}

/// Allowed checks and what is left never exceed the content at the start plus the refill.
proof fn lemma_run_budget(b: TokenBucket, limit: u32, ts: Seq<u64>)
    requires
        b.wf(),
        b.limit == limit,
        ordered_from(b.last_refill_ms, ts),
    ensures
        run_checks(b, limit, ts).1.wf(),
        run_checks(b, limit, ts).1.limit == limit,
        run_checks(b, limit, ts).1.last_refill_ms == if ts.len() == 0 { b.last_refill_ms } else { ts.last() },
        run_checks(b, limit, ts).0 * TOKEN_UNITS + run_checks(b, limit, ts).1.tokens
            <= b.tokens + limit * ((if ts.len() == 0 { b.last_refill_ms } else { ts.last() }) - b.last_refill_ms),
    decreases ts.len(),
{
    if ts.len() > 0 {
        let pre = ts.drop_last();
        assert(ordered_from(b.last_refill_ms, pre)) by {
            assert forall|i: int, j: int| 0 <= i <= j < pre.len() implies pre[i] <= pre[j] by {
                assert(pre[i] == ts[i] && pre[j] == ts[j]);
            }
            if pre.len() > 0 { assert(pre[0] == ts[0]); }
        }
        lemma_run_budget(b, limit, pre);
        let (n, b1) = run_checks(b, limit, pre);
        let t = ts.last();
        let prev: int = if pre.len() == 0 { b.last_refill_ms as int } else { pre.last() as int };
        assert(prev <= t) by {
            if pre.len() > 0 { assert(pre.last() == ts[ts.len() - 2]); }
        }
        let r1 = refilled(b1, limit, t);
        assert(r1.tokens <= b1.tokens + (t - prev) * limit);
        assert(r1.wf());
        let (res, b2) = take_token(r1);
        let m: int = if res.allowed { 1 } else { 0 };
        assert(m * TOKEN_UNITS + b2.tokens <= r1.tokens);
        assert((n + m) * TOKEN_UNITS + b2.tokens
            <= b.tokens + limit * (t - b.last_refill_ms)) by (nonlinear_arith)
            requires
                n * TOKEN_UNITS + b1.tokens <= b.tokens + limit * (prev - b.last_refill_ms),
                m * TOKEN_UNITS + b2.tokens <= r1.tokens,
                r1.tokens <= b1.tokens + (t - prev) * limit;
    }
}

/// Allowed count and buckets after `check(key, limit, t)` for each time `t`
/// of `ts`, in order, starting from the buckets `m`.
pub open spec fn limiter_run(m: Map<Seq<char>, TokenBucket>, key: Seq<char>, limit: u32, ts: Seq<u64>)
    -> (nat, Map<Seq<char>, TokenBucket>)
    decreases ts.len(),
{
    if ts.len() == 0 {
        (0, m)
    } else {
        let (n, m1) = limiter_run(m, key, limit, ts.drop_last());
        let (res, m2) = check_outcome(m1, key, limit, ts.last());
        (n + if res.allowed { 1nat } else { 0nat }, m2)
    }
}

/// The bucket a run of checks for `key` starts from.
pub open spec fn first_bucket(m: Map<Seq<char>, TokenBucket>, key: Seq<char>, limit: u32, t: u64) -> TokenBucket {
    start_bucket(if m.contains_key(key) { Some(m[key]) } else { None }, limit, t)
}

proof fn lemma_limiter_matches(m: Map<Seq<char>, TokenBucket>, key: Seq<char>, limit: u32, ts: Seq<u64>)
    requires
        limit > 0,
        ts.len() > 0,
    ensures
        limiter_run(m, key, limit, ts).0 == run_checks(first_bucket(m, key, limit, ts[0]), limit, ts).0,
        limiter_run(m, key, limit, ts).1.contains_key(key),
        limiter_run(m, key, limit, ts).1[key] == run_checks(first_bucket(m, key, limit, ts[0]), limit, ts).1,
    decreases ts.len(),
{
    let pre = ts.drop_last();
    let b0 = first_bucket(m, key, limit, ts[0]);
    let t = ts.last();
    let (n1, m1) = limiter_run(m, key, limit, pre);
    let (k1, c1) = run_checks(b0, limit, pre);
    if pre.len() > 0 {
        assert(pre[0] == ts[0]);
        lemma_limiter_matches(m, key, limit, pre);
        assert(m1.contains_key(key) && m1[key] == c1);
        assert(start_bucket(Some(m1[key]), limit, t) == c1);
    } else {
        assert(t == ts[0]);
        assert(m1 == m && n1 == 0 && k1 == 0 && c1 == b0);
    }
    let (res, m2) = check_outcome(m1, key, limit, t);
    let (res2, c2) = take_token(refilled(c1, limit, t));
    assert(res == res2);
    assert(m2 == m1.insert(key, c2));
    assert(limiter_run(m, key, limit, ts) == (n1 + if res.allowed { 1nat } else { 0nat }, m2));
    assert(run_checks(b0, limit, ts) == (k1 + if res2.allowed { 1nat } else { 0nat }, c2));
}

/// A credential whose every check uses the limit `R > 0` gets at most its
/// bucket's content at the start (at most `R` tokens) plus `R` tokens per
/// minute of allowed checks: within any 60-second window at most `2R`.
pub proof fn lemma_checks_in_window(m: Map<Seq<char>, TokenBucket>, key: Seq<char>, limit: u32, ts: Seq<u64>)
    requires
        limit > 0,
        ts.len() > 0,
        forall|i: int, j: int| 0 <= i <= j < ts.len() ==> ts[i] <= ts[j],
        m.contains_key(key) ==> m[key].wf() && m[key].limit == limit && m[key].last_refill_ms <= ts[0],
    ensures
        limiter_run(m, key, limit, ts).0 * TOKEN_UNITS
            <= capacity(limit) + limit * (ts.last() - first_bucket(m, key, limit, ts[0]).last_refill_ms),
{
    lemma_limiter_matches(m, key, limit, ts);
    let b0 = first_bucket(m, key, limit, ts[0]);
    assert(b0.wf());
    assert(ordered_from(b0.last_refill_ms, ts));
    lemma_allowed_in_window(b0, limit, ts);
}

/// After a minute without checks a bucket is full again: the next `R`
/// checks at one instant are allowed.
pub proof fn lemma_full_after_minute(b: TokenBucket, limit: u32, now: u64)
    requires
        b.wf(),
        b.limit == limit,
        now >= b.last_refill_ms + 60000,
    ensures
        refilled(b, limit, now).tokens == capacity(limit),
        take_token(refilled(b, limit, now)).0.allowed,
{
    assert((now - b.last_refill_ms) * limit >= capacity(limit)) by (nonlinear_arith)
        requires now - b.last_refill_ms >= 60000, limit > 0;
}

} // verus!
