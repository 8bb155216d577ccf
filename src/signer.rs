//! Browser impersonation for upstream requests: the cookie set, the `Sign`
//! header, the fixed headers and the standard query parameters.

use md5::Digest;
use vstd::prelude::*;
use vstd::utf8::encode_utf8;
use crate::api_key::{hex_encode, hex_text};
use crate::text::{append_chars, append_str, chars_of, dec, dec_of, new_id, string_from_chars};

verus! {

/// Application id sent with every request.
pub const DEFAULT_ASSISTANT_ID: u64 = 513695;

/// MD5 digest of a byte string.
pub uninterp spec fn md5_of(b: Seq<u8>) -> Seq<u8>;

/// Relies on `md5::Md5::digest` (package md-5): the 16-byte MD5 digest.
#[verifier::external_body]
fn md5_digest(b: &[u8]) -> (r: Vec<u8>)
    ensures
        r@ == md5_of(b@),
        r@.len() == 16,
{
    md5::Md5::digest(b).to_vec()
}

/// Relies on `rand::random`: a value drawn from the thread-local generator.
#[verifier::external_body]
fn random_u64() -> (r: u64) {
    rand::random::<u64>()
}

/// Last seven characters of a request path, or all of a shorter one.
pub open spec fn uri_tail(uri: Seq<char>) -> Seq<char> {
    if uri.len() >= 7 { uri.subrange(uri.len() - 7, uri.len() as int) } else { uri }
}

/// Text that the `Sign` header digests.
pub open spec fn sign_input(uri: Seq<char>, ts: u64) -> Seq<char> {
    "9e2c|"@ + uri_tail(uri) + "|7|8.4.0|"@ + dec(ts as nat) + "||11ac"@
}

/// The `Sign` header: lower-case hex MD5 of the signing text for the path
/// and the Unix time in seconds.
pub fn compute_sign(uri: &str, timestamp: u64) -> (r: String)
    ensures
        r@ == hex_text(md5_of(encode_utf8(sign_input(uri@, timestamp)))),
{
    let u = chars_of(uri);
    let mut v = chars_of("9e2c|");
    let start: usize = if u.len() >= 7 { u.len() - 7 } else { 0 };
    let mut i: usize = start;
    let ghost head = v@;
    while i < u.len()
        invariant
            start <= i <= u@.len(),
            v@ == head + u@.subrange(start as int, i as int),
        decreases u@.len() - i,
    {
        v.push(u[i]);
        i += 1;
        assert(v@ =~= head + u@.subrange(start as int, i as int));
    }
    assert(u@.subrange(start as int, u@.len() as int) =~= uri_tail(uri@));
    append_str(&mut v, "|7|8.4.0|");
    append_chars(&mut v, &dec_of(timestamp));
    append_str(&mut v, "||11ac");
    let text = string_from_chars(&v);
    let d = md5_digest(text.as_str().as_bytes());
    hex_encode(d.as_slice())
}

/// Synthetic identities chosen once per process and sent with every request.
pub struct SigningIdentity {
    pub device_id: u64,
    pub web_id: u64,
    /// Hex text of a random id, without hyphens.
    pub user_id: String,
}

/// Range of the synthetic device and web ids.
pub open spec fn synthetic_id_range(x: u64) -> bool {
    7000000000000000000 <= x < 7000000000000000000 + 999999999999999999
}

impl SigningIdentity {
    /// Fresh random identities.
    pub fn new() -> (r: Self)
        ensures
            synthetic_id_range(r.device_id),
            synthetic_id_range(r.web_id),
            !r.user_id@.contains('-'),
    {
        let device_id = random_u64() % 999999999999999999 + 7000000000000000000;
        let web_id = random_u64() % 999999999999999999 + 7000000000000000000;
        let raw = chars_of(new_id().as_str());
        let mut u: Vec<char> = Vec::new();
        let mut i: usize = 0;
        while i < raw.len()
            invariant
                i <= raw@.len(),
                !u@.contains('-'),
            decreases raw@.len() - i,
        {
            if raw[i] != '-' {
                let ghost before = u@;
                u.push(raw[i]);
                assert forall|k: int| 0 <= k < u@.len() implies u@[k] != '-' by {
                    if k < before.len() { assert(u@[k] == before[k]); }
                }
            }
            i += 1;
        }
        SigningIdentity { device_id, web_id, user_id: string_from_chars(&u) }
    }

    /// The Cookie header of a logged-in browser carrying the session token,
    /// at Unix time `now` in seconds.
    pub fn generate_cookie(&self, session_token: &str, now: u64) -> (r: String)
        ensures
            r@ == cookie_text(self.web_id, session_token@, now, self.user_id@),
    {
        let t = chars_of(session_token);
        let uid = chars_of(self.user_id.as_str());
        let mut v = chars_of("_tea_web_id=");
        append_chars(&mut v, &dec_of(self.web_id));
        append_str(&mut v, "; is_staff_user=false; store-region=cn-gd; store-region-src=uid; sid_guard=");
        append_chars(&mut v, &t);
        append_str(&mut v, "%7C");
        append_chars(&mut v, &dec_of(now));
        append_str(&mut v, "%7C5184000%7CMon%2C+03-Feb-2025+08%3A17%3A09+GMT; uid_tt=");
        append_chars(&mut v, &uid);
        append_str(&mut v, "; uid_tt_ss=");
        append_chars(&mut v, &uid);
        append_str(&mut v, "; sid_tt=");
        append_chars(&mut v, &t);
        append_str(&mut v, "; sessionid=");
        append_chars(&mut v, &t);
        append_str(&mut v, "; sessionid_ss=");
        append_chars(&mut v, &t);
        assert(v@ =~= cookie_text(self.web_id, session_token@, now, self.user_id@));
        string_from_chars(&v)
    }

    /// Query parameters appended to every upstream request.
    pub fn standard_query_params(&self) -> (r: Vec<(&'static str, String)>)
        ensures
            pairs_view(r@) == query_params(self.web_id),
    {
        let mut r: Vec<(&'static str, String)> = Vec::new();
        r.push(("aid", string_from_chars(&dec_of(DEFAULT_ASSISTANT_ID))));
        r.push(("device_platform", "web".to_owned()));
        r.push(("region", "cn".to_owned()));
        r.push(("webId", string_from_chars(&dec_of(self.web_id))));
        r.push(("da_version", "3.3.2".to_owned()));
        r.push(("web_component_open_flag", "1".to_owned()));
        r.push(("web_version", "7.5.0".to_owned()));
        r.push(("aigc_features", "app_lip_sync".to_owned()));
        assert(pairs_view(r@) =~= query_params(self.web_id));
        r
    }

    /// Query parameters of a standard-family submission: the standard ones
    /// with the draft version appended as a second `da_version`.
    pub fn regular_submit_params(&self, version: &str) -> (r: Vec<(&'static str, String)>)
        ensures
            pairs_view(r@) == query_params(self.web_id).push(("da_version"@, version@)),
    {
        let mut r = self.standard_query_params();
        let ghost before = pairs_view(r@);
        r.push(("da_version", version.to_owned()));
        assert(pairs_view(r@) =~= before.push(("da_version"@, version@)));
        r
    }

    /// Query parameters of a signed-family submission: the standard ones
    /// with `da_version` set to the draft version.
    pub fn seedance_submit_params(&self, version: &str) -> (r: Vec<(&'static str, String)>)
        ensures
            pairs_view(r@) == query_params(self.web_id).update(4, ("da_version"@, version@)),
    {
        let mut r = self.standard_query_params();
        let ghost before = pairs_view(r@);
        r.set(4, ("da_version", version.to_owned()));
        assert(pairs_view(r@) =~= before.update(4, ("da_version"@, version@)));
        r
    }

    /// Cookies as (name, value, domain) for a browser context.
    pub fn get_cookies_for_browser(&self, session_token: &str) -> (r: Vec<(&'static str, String, &'static str)>)
        ensures
            triples_view(r@) == browser_cookies(self.web_id, session_token@, self.user_id@),
    {
        let d = ".jianying.com";
        let mut r: Vec<(&'static str, String, &'static str)> = Vec::new();
        r.push(("_tea_web_id", string_from_chars(&dec_of(self.web_id)), d));
        r.push(("is_staff_user", "false".to_owned(), d));
        r.push(("store-region", "cn-gd".to_owned(), d));
        r.push(("store-region-src", "uid".to_owned(), d));
        r.push(("uid_tt", self.user_id.clone(), d));
        r.push(("uid_tt_ss", self.user_id.clone(), d));
        r.push(("sid_tt", session_token.to_owned(), d));
        r.push(("sessionid", session_token.to_owned(), d));
        r.push(("sessionid_ss", session_token.to_owned(), d));
        assert(triples_view(r@) =~= browser_cookies(self.web_id, session_token@, self.user_id@));
        r
    }

    /// Headers of an upstream request to `uri` at Unix time `now`, in order.
    pub fn build_headers(&self, session_token: &str, uri: &str, now: u64) -> (r: Vec<(&'static str, String)>)
        ensures
            pairs_view(r@) == fixed_headers() + seq![
                ("Cookie"@, cookie_text(self.web_id, session_token@, now, self.user_id@)),
                ("Device-Time"@, dec(now as nat)),
                ("Sign"@, hex_text(md5_of(encode_utf8(sign_input(uri@, now))))),
                ("Sign-Ver"@, "1"@)
            ],
    {
        let mut r: Vec<(&'static str, String)> = Vec::new();
        r.push(("Accept", "application/json, text/plain, */*".to_owned()));
        r.push(("Accept-Encoding", "gzip, deflate, br, zstd".to_owned()));
        r.push(("Accept-Language", "zh-CN,zh;q=0.9".to_owned()));
        r.push(("App-Sdk-Version", "48.0.0".to_owned()));
        r.push(("Cache-Control", "no-cache".to_owned()));
        r.push(("Appid", string_from_chars(&dec_of(DEFAULT_ASSISTANT_ID))));
        r.push(("Appvr", "8.4.0".to_owned()));
        r.push(("Lan", "zh-Hans".to_owned()));
        r.push(("Loc", "cn".to_owned()));
        r.push(("Origin", "https://jimeng.jianying.com".to_owned()));
        r.push(("Pragma", "no-cache".to_owned()));
        r.push(("Referer", "https://jimeng.jianying.com".to_owned()));
        r.push(("Pf", "7".to_owned()));
        r.push(("User-Agent", "Mozilla/5.0 (Windows NT 10.0; Win64; x64) AppleWebKit/537.36 (KHTML, like Gecko) Chrome/132.0.0.0 Safari/537.36".to_owned()));
        r.push(("Cookie", self.generate_cookie(session_token, now)));
        r.push(("Device-Time", string_from_chars(&dec_of(now))));
        r.push(("Sign", compute_sign(uri, now)));
        r.push(("Sign-Ver", "1".to_owned()));
        assert(pairs_view(r@) =~= fixed_headers() + seq![
            ("Cookie"@, cookie_text(self.web_id, session_token@, now, self.user_id@)),
            ("Device-Time"@, dec(now as nat)),
            ("Sign"@, hex_text(md5_of(encode_utf8(sign_input(uri@, now))))),
            ("Sign-Ver"@, "1"@)
        ]);
        r
    }
}

/// Text of the Cookie header.
pub open spec fn cookie_text(web_id: u64, token: Seq<char>, now: u64, uid: Seq<char>) -> Seq<char> {
    "_tea_web_id="@ + dec(web_id as nat)
        + "; is_staff_user=false; store-region=cn-gd; store-region-src=uid; sid_guard="@ + token
        + "%7C"@ + dec(now as nat)
        + "%7C5184000%7CMon%2C+03-Feb-2025+08%3A17%3A09+GMT; uid_tt="@ + uid
        + "; uid_tt_ss="@ + uid
        + "; sid_tt="@ + token
        + "; sessionid="@ + token
        + "; sessionid_ss="@ + token
}

/// Views of (name, value) pairs.
pub open spec fn pairs_view(v: Seq<(&'static str, String)>) -> Seq<(Seq<char>, Seq<char>)> {
    v.map_values(|p: (&'static str, String)| (p.0@, p.1@))
}

/// Views of (name, value, domain) triples.
pub open spec fn triples_view(v: Seq<(&'static str, String, &'static str)>) -> Seq<(Seq<char>, Seq<char>, Seq<char>)> {
    v.map_values(|p: (&'static str, String, &'static str)| (p.0@, p.1@, p.2@))
}

/// The standard query parameters.
pub open spec fn query_params(web_id: u64) -> Seq<(Seq<char>, Seq<char>)> {
    seq![
        ("aid"@, dec(DEFAULT_ASSISTANT_ID as nat)),
        ("device_platform"@, "web"@),
        ("region"@, "cn"@),
        ("webId"@, dec(web_id as nat)),
        ("da_version"@, "3.3.2"@),
        ("web_component_open_flag"@, "1"@),
        ("web_version"@, "7.5.0"@),
        ("aigc_features"@, "app_lip_sync"@)
    ]
}

/// The cookies of a browser context.
pub open spec fn browser_cookies(web_id: u64, token: Seq<char>, uid: Seq<char>) -> Seq<(Seq<char>, Seq<char>, Seq<char>)> {
    let d = ".jianying.com"@;
    seq![
        ("_tea_web_id"@, dec(web_id as nat), d),
        ("is_staff_user"@, "false"@, d),
        ("store-region"@, "cn-gd"@, d),
        ("store-region-src"@, "uid"@, d),
        ("uid_tt"@, uid, d),
        ("uid_tt_ss"@, uid, d),
        ("sid_tt"@, token, d),
        ("sessionid"@, token, d),
        ("sessionid_ss"@, token, d)
    ]
}

/// Headers that do not depend on the request.
pub open spec fn fixed_headers() -> Seq<(Seq<char>, Seq<char>)> {
    seq![
        ("Accept"@, "application/json, text/plain, */*"@),
        ("Accept-Encoding"@, "gzip, deflate, br, zstd"@),
        ("Accept-Language"@, "zh-CN,zh;q=0.9"@),
        ("App-Sdk-Version"@, "48.0.0"@),
        ("Cache-Control"@, "no-cache"@),
        ("Appid"@, dec(DEFAULT_ASSISTANT_ID as nat)),
        ("Appvr"@, "8.4.0"@),
        ("Lan"@, "zh-Hans"@),
        ("Loc"@, "cn"@),
        ("Origin"@, "https://jimeng.jianying.com"@),
        ("Pragma"@, "no-cache"@),
        ("Referer"@, "https://jimeng.jianying.com"@),
        ("Pf"@, "7"@),
        ("User-Agent"@, "Mozilla/5.0 (Windows NT 10.0; Win64; x64) AppleWebKit/537.36 (KHTML, like Gecko) Chrome/132.0.0.0 Safari/537.36"@)
    ]
}

} // verus!
