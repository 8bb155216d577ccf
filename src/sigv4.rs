//! Request signing for the object-storage upload services: AWS Signature
//! Version 4 with HMAC-SHA256.

use hmac::Mac;
use vstd::prelude::*;
use vstd::utf8::encode_utf8;
use crate::api_key::{hex_encode, hex_text, sha256, sha256_of};
use crate::multipart::{copy_range, trim, trim_chars};
use crate::text::{append_chars, append_str, chars_of, lower_of, seq_eq, str_eq, string_from_chars, to_lower, to_upper, upper_of};

verus! {

/// HMAC-SHA256 of `data` under `key`.
pub uninterp spec fn hmac_sha256_of(key: Seq<u8>, data: Seq<u8>) -> Seq<u8>;

/// Relies on `hmac::Hmac<sha2::Sha256>`: `new_from_slice` takes a key of any
/// length, and the tag is the 32-byte HMAC-SHA256 of the data.
#[verifier::external_body]
pub(crate) fn hmac_sha256(key: &[u8], data: &[u8]) -> (r: Vec<u8>)
    ensures
        r@ == hmac_sha256_of(key@, data@),
{
    let mut mac = <hmac::Hmac<sha2::Sha256> as Mac>::new_from_slice(key).unwrap();
    mac.update(data);
    mac.finalize().into_bytes().to_vec()
}

/// A name and value pair of text.
pub type Pair = (Seq<char>, Seq<char>);

/// Lexicographic order of texts by character.
pub open spec fn lex_le(a: Seq<char>, b: Seq<char>) -> bool
    decreases a.len(),
{
    if a.len() == 0 {
        true
    } else if b.len() == 0 {
        false
    } else if a[0] < b[0] {
        true
    } else if a[0] > b[0] {
        false
    } else {
        lex_le(a.drop_first(), b.drop_first())
    }
}

/// `x` placed after every leading pair whose name is not above its own.
pub open spec fn insert_sorted(s: Seq<Pair>, x: Pair) -> Seq<Pair>
    decreases s.len(),
{
    if s.len() == 0 {
        seq![x]
    } else if lex_le(s[0].0, x.0) {
        seq![s[0]] + insert_sorted(s.drop_first(), x)
    } else {
        seq![x] + s
    }
}

/// Pairs sorted by name; pairs with equal names keep their order.
pub open spec fn stable_sort(s: Seq<Pair>) -> Seq<Pair>
    decreases s.len(),
{
    if s.len() == 0 { s } else { insert_sorted(stable_sort(s.drop_last()), s.last()) }
}

/// `name=value` pairs joined by `&`.
pub open spec fn query_text(s: Seq<Pair>) -> Seq<char>
    decreases s.len(),
{
    if s.len() == 0 {
        Seq::empty()
    } else if s.len() == 1 {
        s[0].0 + "="@ + s[0].1
    } else {
        query_text(s.drop_last()) + "&"@ + s.last().0 + "="@ + s.last().1
    }
}

/// Names joined by `;`.
pub open spec fn names_text(s: Seq<Pair>) -> Seq<char>
    decreases s.len(),
{
    if s.len() == 0 {
        Seq::empty()
    } else if s.len() == 1 {
        s[0].0
    } else {
        names_text(s.drop_last()) + ";"@ + s.last().0
    }
}

/// `name:value\n` lines with trimmed values.
pub open spec fn header_lines(s: Seq<Pair>) -> Seq<char>
    decreases s.len(),
{
    if s.len() == 0 { Seq::empty() } else { header_lines(s.drop_last()) + s.last().0 + ":"@ + trim(s.last().1) + "\n"@ }
}

/// Whether some pair has the name.
pub open spec fn has_name(s: Seq<Pair>, n: Seq<char>) -> bool {
    exists|i: int| 0 <= i < s.len() && #[trigger] s[i].0 == n
}

/// The pair list with `(n, v)` added unless the name is there.
pub open spec fn add_missing(s: Seq<Pair>, n: Seq<char>, v: Seq<char>) -> Seq<Pair> {
    if has_name(s, n) { s } else { s.push((n, v)) }
}

/// Pairs with lower-cased names.
pub open spec fn lower_names(s: Seq<Pair>) -> Seq<Pair> {
    s.map_values(|p: Pair| (lower_of(p.0), p.1))
}

/// Value of the first pair with the name.
pub open spec fn first_value(s: Seq<Pair>, n: Seq<char>) -> Option<Seq<char>>
    decreases s.len(),
{
    if s.len() == 0 { None } else if s[0].0 == n { Some(s[0].1) } else { first_value(s.drop_first(), n) }
}

/// Hex digest of a text's UTF-8 bytes.
pub open spec fn hex_digest(t: Seq<char>) -> Seq<char> {
    hex_text(sha256_of(encode_utf8(t)))
}

/// Whether the payload is hashed: a POST with a non-empty payload.
pub open spec fn hashes_payload(method: Seq<char>, payload: Seq<char>) -> bool {
    upper_of(method) == "POST"@ && payload.len() > 0
}

/// Headers that are signed, sorted by name.
pub open spec fn signed_pairs(method: Seq<char>, headers: Seq<Pair>, token: Option<Seq<char>>, payload: Seq<char>) -> Seq<Pair> {
    let h0 = lower_names(headers);
    let h1 = match token { Some(t) => add_missing(h0, "x-amz-security-token"@, t), None => h0 };
    let h2 = if hashes_payload(method, payload) {
        add_missing(h1, "x-amz-content-sha256"@, hex_digest(payload))
    } else {
        h1
    };
    stable_sort(h2)
}

/// The canonical request.
pub open spec fn canonical_request(method: Seq<char>, path: Seq<char>, query: Seq<Pair>, headers: Seq<Pair>,
    token: Option<Seq<char>>, payload: Seq<char>) -> Seq<char>
{
    let sp = signed_pairs(method, headers, token, payload);
    upper_of(method) + "\n"@ + path + "\n"@ + query_text(stable_sort(query)) + "\n"@
        + header_lines(sp) + "\n"@ + names_text(sp) + "\n"@
        + (if hashes_payload(method, payload) { hex_digest(payload) } else { hex_digest(Seq::empty()) })
}

/// Bytes of a text.
pub open spec fn utf8(t: Seq<char>) -> Seq<u8> {
    encode_utf8(t)
}

/// The signing key: the HMAC chain over date, region, service and `aws4_request`.
pub open spec fn signing_key(secret: Seq<char>, date: Seq<char>, region: Seq<char>, service: Seq<char>) -> Seq<u8> {
    let k_date = hmac_sha256_of(utf8("AWS4"@ + secret), utf8(date));
    let k_region = hmac_sha256_of(k_date, utf8(region));
    let k_service = hmac_sha256_of(k_region, utf8(service));
    hmac_sha256_of(k_service, utf8("aws4_request"@))
}

/// The Authorization header value, for a request time of at least eight characters.
pub open spec fn authorization(method: Seq<char>, path: Seq<char>, query: Seq<Pair>, headers: Seq<Pair>,
    access_key: Seq<char>, secret: Seq<char>, token: Option<Seq<char>>, payload: Seq<char>,
    region: Seq<char>, service: Seq<char>, timestamp: Seq<char>) -> Seq<char>
{
    let date = timestamp.subrange(0, 8);
    let scope = date + "/"@ + region + "/"@ + service + "/aws4_request"@;
    let sp = signed_pairs(method, headers, token, payload);
    let to_sign = "AWS4-HMAC-SHA256\n"@ + timestamp + "\n"@ + scope + "\n"@
        + hex_digest(canonical_request(method, path, query, headers, token, payload));
    "AWS4-HMAC-SHA256 Credential="@ + access_key + "/"@ + scope + ", SignedHeaders="@ + names_text(sp)
        + ", Signature="@ + hex_text(hmac_sha256_of(signing_key(secret, date, region, service), utf8(to_sign)))
}

/// Views of character-vector pairs.
pub open spec fn pv(v: Seq<(Vec<char>, Vec<char>)>) -> Seq<Pair> {
    v.map_values(|p: (Vec<char>, Vec<char>)| (p.0@, p.1@))
}

/// Views of string pairs.
pub open spec fn sv(v: Seq<(String, String)>) -> Seq<Pair> {
    v.map_values(|p: (String, String)| (p.0@, p.1@))
}

/// Lexicographic order of two texts.
fn key_le(a: &Vec<char>, b: &Vec<char>) -> (r: bool)
    ensures
        r == lex_le(a@, b@),
{
    let mut i: usize = 0;
    assert(a@.subrange(0, a@.len() as int) =~= a@);
    assert(b@.subrange(0, b@.len() as int) =~= b@);
    while i < a.len() && i < b.len() && a[i] == b[i]
        invariant
            i <= a@.len(),
            i <= b@.len(),
            lex_le(a@, b@) == lex_le(a@.subrange(i as int, a@.len() as int), b@.subrange(i as int, b@.len() as int)),
        decreases a@.len() - i,
    {
        let ghost sa = a@.subrange(i as int, a@.len() as int);
        let ghost sb = b@.subrange(i as int, b@.len() as int);
        assert(sa.drop_first() =~= a@.subrange(i + 1, a@.len() as int));
        assert(sb.drop_first() =~= b@.subrange(i + 1, b@.len() as int));
        i += 1;
    }
    let ghost sa = a@.subrange(i as int, a@.len() as int);
    let ghost sb = b@.subrange(i as int, b@.len() as int);
    if i == a.len() {
        true
    } else if i == b.len() {
        false
    } else {
        assert(sa[0] == a@[i as int] && sb[0] == b@[i as int]);
        assert(sa.len() > 0 && sb.len() > 0);
        assert(a@[i as int] != b@[i as int]);
        a[i] < b[i]
    }
}

/// Inserting at the first position whose name is above `x`'s is `insert_sorted`.
proof fn lemma_insert_at(s: Seq<Pair>, x: Pair, j: int)
    requires
        0 <= j <= s.len(),
        forall|k: int| 0 <= k < j ==> lex_le(#[trigger] s[k].0, x.0),
        j < s.len() ==> !lex_le(s[j].0, x.0),
    ensures
        insert_sorted(s, x) == s.insert(j, x),
    decreases s.len(),
{
    if s.len() == 0 {
        assert(s.insert(j, x) =~= seq![x]);
    } else if j == 0 {
        assert(s.insert(0, x) =~= seq![x] + s);
    } else {
        let t = s.drop_first();
        assert forall|k: int| 0 <= k < j - 1 implies lex_le(#[trigger] t[k].0, x.0) by {
            assert(t[k] == s[k + 1]);
        }
        lemma_insert_at(t, x, j - 1);
        assert(s.insert(j, x) =~= seq![s[0]] + t.insert(j - 1, x));
    }
}

/// Places a pair after every pair whose name is not above its own.
fn insert_pair(out: &mut Vec<(Vec<char>, Vec<char>)>, x: (Vec<char>, Vec<char>))
    ensures
        pv(final(out)@) == insert_sorted(pv(old(out)@), (x.0@, x.1@)),
{
    let ghost s = pv(out@);
    let mut j: usize = 0;
    while j < out.len() && key_le(&out[j].0, &x.0)
        invariant
            j <= out@.len(),
            s == pv(out@),
            forall|k: int| 0 <= k < j ==> lex_le(#[trigger] s[k].0, x.0@),
        decreases out@.len() - j,
    {
        assert(s[j as int].0 == out@[j as int].0@);
        j += 1;
    }
    proof {
        if j < out.len() { assert(s[j as int].0 == out@[j as int].0@); }
        lemma_insert_at(s, (x.0@, x.1@), j as int);
    }
    let ghost xv = (x.0@, x.1@);
    out.insert(j, x);
    assert(pv(out@) =~= s.insert(j as int, xv));
}

/// Pairs sorted stably by name.
fn sort_pairs(v: Vec<(Vec<char>, Vec<char>)>) -> (r: Vec<(Vec<char>, Vec<char>)>)
    ensures
        pv(r@) == stable_sort(pv(v@)),
{
    let ghost all = pv(v@);
    let mut out: Vec<(Vec<char>, Vec<char>)> = Vec::new();
    let mut rest = v;
    let mut taken: usize = 0;
    let n = rest.len();
    let mut i: usize = 0;
    assert(all.subrange(0, 0) =~= Seq::<Pair>::empty());
    assert(pv(out@) =~= stable_sort(all.subrange(0, 0)));
    while i < n
        invariant
            n == all.len(),
            i <= n,
            rest@.len() == n,
            pv(rest@) == all,
            pv(out@) == stable_sort(all.subrange(0, i as int)),
        decreases n - i,
    {
        let x = (copy_range(&rest[i].0, 0, rest[i].0.len()), copy_range(&rest[i].1, 0, rest[i].1.len()));
        assert(all[i as int] == (rest@[i as int].0@, rest@[i as int].1@));
        assert(rest@[i as int].0@.subrange(0, rest@[i as int].0@.len() as int) =~= rest@[i as int].0@);
        assert(rest@[i as int].1@.subrange(0, rest@[i as int].1@.len() as int) =~= rest@[i as int].1@);
        insert_pair(&mut out, x);
        assert(all.subrange(0, i + 1).drop_last() =~= all.subrange(0, i as int));
        i += 1;
    }
    assert(all.subrange(0, n as int) =~= all);
    out
}

/// `name=value` pairs joined by `&`.
fn join_query(s: &Vec<(Vec<char>, Vec<char>)>) -> (r: Vec<char>)
    ensures
        r@ == query_text(pv(s@)),
{
    let ghost all = pv(s@);
    let mut out: Vec<char> = Vec::new();
    let mut i: usize = 0;
    assert(out@ =~= query_text(all.subrange(0, 0)));
    while i < s.len()
        invariant
            all == pv(s@),
            i <= s@.len(),
            out@ == query_text(all.subrange(0, i as int)),
        decreases s@.len() - i,
    {
        let ghost sub = all.subrange(0, i + 1);
        assert(sub.drop_last() =~= all.subrange(0, i as int));
        assert(sub.last() == (s@[i as int].0@, s@[i as int].1@));
        if i > 0 {
            append_str(&mut out, "&");
        }
        append_chars(&mut out, &s[i].0);
        append_str(&mut out, "=");
        append_chars(&mut out, &s[i].1);
        proof {
            if i == 0 {
                assert(out@ =~= sub[0].0 + "="@ + sub[0].1);
            } else {
                assert(out@ =~= query_text(sub.drop_last()) + "&"@ + sub.last().0 + "="@ + sub.last().1);
            }
        }
        i += 1;
    }
    assert(all.subrange(0, s@.len() as int) =~= all);
    out
}

/// Names joined by `;`.
fn join_names(s: &Vec<(Vec<char>, Vec<char>)>) -> (r: Vec<char>)
    ensures
        r@ == names_text(pv(s@)),
{
    let ghost all = pv(s@);
    let mut out: Vec<char> = Vec::new();
    let mut i: usize = 0;
    assert(out@ =~= names_text(all.subrange(0, 0)));
    while i < s.len()
        invariant
            all == pv(s@),
            i <= s@.len(),
            out@ == names_text(all.subrange(0, i as int)),
        decreases s@.len() - i,
    {
        let ghost sub = all.subrange(0, i + 1);
        assert(sub.drop_last() =~= all.subrange(0, i as int));
        assert(sub.last() == (s@[i as int].0@, s@[i as int].1@));
        if i > 0 {
            append_str(&mut out, ";");
        }
        append_chars(&mut out, &s[i].0);
        proof {
            if i == 0 {
                assert(out@ =~= sub[0].0);
            } else {
                assert(out@ =~= names_text(sub.drop_last()) + ";"@ + sub.last().0);
            }
        }
        i += 1;
    }
    assert(all.subrange(0, s@.len() as int) =~= all);
    out
}

/// `name:value\n` lines with trimmed values.
fn join_header_lines(s: &Vec<(Vec<char>, Vec<char>)>) -> (r: Vec<char>)
    ensures
        r@ == header_lines(pv(s@)),
{
    let ghost all = pv(s@);
    let mut out: Vec<char> = Vec::new();
    let mut i: usize = 0;
    assert(out@ =~= header_lines(all.subrange(0, 0)));
    while i < s.len()
        invariant
            all == pv(s@),
            i <= s@.len(),
            out@ == header_lines(all.subrange(0, i as int)),
        decreases s@.len() - i,
    {
        let ghost sub = all.subrange(0, i + 1);
        assert(sub.drop_last() =~= all.subrange(0, i as int));
        assert(sub.last() == (s@[i as int].0@, s@[i as int].1@));
        append_chars(&mut out, &s[i].0);
        append_str(&mut out, ":");
        append_chars(&mut out, &trim_chars(&s[i].1));
        append_str(&mut out, "\n");
        assert(out@ =~= header_lines(sub.drop_last()) + sub.last().0 + ":"@ + trim(sub.last().1) + "\n"@);
        i += 1;
    }
    assert(all.subrange(0, s@.len() as int) =~= all);
    out
}

/// String pairs as character-vector pairs, names lower-cased when asked.
fn pairs_chars(v: &Vec<(String, String)>, lower: bool) -> (r: Vec<(Vec<char>, Vec<char>)>)
    ensures
        pv(r@) == if lower { lower_names(sv(v@)) } else { sv(v@) },
{
    let ghost want = if lower { lower_names(sv(v@)) } else { sv(v@) };
    let mut out: Vec<(Vec<char>, Vec<char>)> = Vec::new();
    let mut i: usize = 0;
    while i < v.len()
        invariant
            i <= v@.len(),
            want == if lower { lower_names(sv(v@)) } else { sv(v@) },
            want.len() == v@.len(),
            pv(out@) == want.subrange(0, i as int),
        decreases v@.len() - i,
    {
        let name = if lower { chars_of(to_lower(v[i].0.as_str()).as_str()) } else { chars_of(v[i].0.as_str()) };
        let val = chars_of(v[i].1.as_str());
        let ghost before = pv(out@);
        assert(sv(v@)[i as int] == (v@[i as int].0@, v@[i as int].1@));
        assert(want[i as int] == (name@, val@));
        let ghost pair = (name@, val@);
        out.push((name, val));
        assert(pv(out@) =~= before.push(pair));
        assert(want.subrange(0, i + 1) =~= want.subrange(0, i as int).push(want[i as int]));
        i += 1;
    }
    assert(want.subrange(0, v@.len() as int) =~= want);
    out
}

/// Adds `(n, v)` unless a pair has the name.
fn add_if_missing(s: &mut Vec<(Vec<char>, Vec<char>)>, n: &str, v: Vec<char>)
    ensures
        pv(final(s)@) == add_missing(pv(old(s)@), n@, v@),
{
    let nv = chars_of(n);
    let ghost all = pv(s@);
    let mut i: usize = 0;
    while i < s.len()
        invariant
            all == pv(s@),
            i <= s@.len(),
            nv@ == n@,
            forall|k: int| 0 <= k < i ==> (#[trigger] all[k]).0 != n@,
        decreases s@.len() - i,
    {
        assert(all[i as int].0 == s@[i as int].0@);
        if seq_eq(&s[i].0, &nv) {
            assert(all[i as int].0 == n@);
            return;
        }
        i += 1;
    }
    let ghost vv = v@;
    s.push((nv, v));
    assert(pv(s@) =~= all.push((n@, vv)));
}

/// Value of the first pair with the name.
fn first_value_of(s: &Vec<(String, String)>, n: &str) -> (r: Option<Vec<char>>)
    ensures
        match r {
            Some(v) => first_value(sv(s@), n@) == Some(v@),
            None => first_value(sv(s@), n@) is None,
        },
{
    let ghost all = sv(s@);
    let mut i: usize = 0;
    assert(all.subrange(0, all.len() as int) =~= all);
    while i < s.len()
        invariant
            all == sv(s@),
            i <= s@.len(),
            first_value(all, n@) == first_value(all.subrange(i as int, all.len() as int), n@),
        decreases s@.len() - i,
    {
        let ghost tail = all.subrange(i as int, all.len() as int);
        assert(tail[0] == (s@[i as int].0@, s@[i as int].1@));
        assert(tail.drop_first() =~= all.subrange(i + 1, all.len() as int));
        if str_eq(s[i].0.as_str(), n) {
            return Some(chars_of(s[i].1.as_str()));
        }
        i += 1;
    }
    None
}

/// Hex digest of a text's UTF-8 bytes.
fn hex_digest_of(t: &Vec<char>) -> (r: Vec<char>)
    ensures
        r@ == hex_digest(t@),
{
    let s = string_from_chars(t);
    let d = sha256(s.as_str().as_bytes());
    chars_of(hex_encode(d.as_slice()).as_str())
}

/// HMAC-SHA256 under `key` of a text's UTF-8 bytes.
fn hmac_text(key: &[u8], t: &Vec<char>) -> (r: Vec<u8>)
    ensures
        r@ == hmac_sha256_of(key@, utf8(t@)),
{
    let s = string_from_chars(t);
    hmac_sha256(key, s.as_str().as_bytes())
}

/// View of an optional string slice.
pub open spec fn opt_text(o: Option<&str>) -> Option<Seq<char>> {
    match o {
        Some(s) => Some(s@),
        None => None,
    }
}

/// The signed headers, sorted, and whether the payload is hashed.
fn signed_headers(method: &str, headers: &Vec<(String, String)>, token: Option<&str>, payload: &str)
    -> (r: (Vec<(Vec<char>, Vec<char>)>, bool))
    ensures
        pv(r.0@) == signed_pairs(method@, sv(headers@), opt_text(token), payload@),
        r.1 == hashes_payload(method@, payload@),
{
    let mut h = pairs_chars(headers, true);
    match token {
        Some(t) => add_if_missing(&mut h, "x-amz-security-token", chars_of(t)),
        None => {},
    }
    let upper = to_upper(method);
    let pchars = chars_of(payload);
    let post = str_eq(upper.as_str(), "POST") && pchars.len() > 0;
    if post {
        add_if_missing(&mut h, "x-amz-content-sha256", hex_digest_of(&pchars));
    }
    (sort_pairs(h), post)
}

/// The canonical request (see `canonical_request`).
fn canonical_request_text(
    method: &str,
    path: &str,
    query: &Vec<(String, String)>,
    sp: &Vec<(Vec<char>, Vec<char>)>,
    post: bool,
    payload: &str,
) -> (r: Vec<char>)
    requires
        post == hashes_payload(method@, payload@),
    ensures
        r@ == upper_of(method@) + "\n"@ + path@ + "\n"@ + query_text(stable_sort(sv(query@))) + "\n"@
            + header_lines(pv(sp@)) + "\n"@ + names_text(pv(sp@)) + "\n"@
            + (if post { hex_digest(payload@) } else { hex_digest(Seq::empty()) }),
{
    let q = sort_pairs(pairs_chars(query, false));
    let mut v = chars_of(to_upper(method).as_str());
    append_str(&mut v, "\n");
    append_str(&mut v, path);
    append_str(&mut v, "\n");
    append_chars(&mut v, &join_query(&q));
    append_str(&mut v, "\n");
    append_chars(&mut v, &join_header_lines(sp));
    append_str(&mut v, "\n");
    append_chars(&mut v, &join_names(sp));
    append_str(&mut v, "\n");
    let empty: Vec<char> = Vec::new();
    let ph = if post { hex_digest_of(&chars_of(payload)) } else { hex_digest_of(&empty) };
    append_chars(&mut v, &ph);
    proof {
        assert(empty@ =~= Seq::<char>::empty());
    }
    v
}

/// The signing key (see `signing_key`).
fn signing_key_bytes(secret: &str, date: &Vec<char>, region: &str, service: &str) -> (r: Vec<u8>)
    ensures
        r@ == signing_key(secret@, date@, region@, service@),
{
    let mut k = chars_of("AWS4");
    append_str(&mut k, secret);
    let ks = string_from_chars(&k);
    let k_date = hmac_text(ks.as_str().as_bytes(), date);
    let k_region = hmac_text(k_date.as_slice(), &chars_of(region));
    let k_service = hmac_text(k_region.as_slice(), &chars_of(service));
    hmac_text(k_service.as_slice(), &chars_of("aws4_request"))
}

/// The request time of a signed request: the `x-amz-date` header, or
/// nothing.
pub open spec fn request_time(headers: Seq<Pair>) -> Seq<char> {
    match first_value(headers, "x-amz-date"@) {
        Some(t) => t,
        None => Seq::empty(),
    }
}

/// The Authorization header of an AWS Signature Version 4 request: the
/// request time comes from the `x-amz-date` header, and a request without
/// one of at least eight characters is refused.
pub fn aws4_signature(
    method: &str,
    path: &str,
    query: &Vec<(String, String)>,
    headers_to_sign: &Vec<(String, String)>,
    access_key_id: &str,
    secret_access_key: &str,
    session_token: Option<&str>,
    payload: &str,
    region: &str,
    service: &str,
) -> (r: Result<String, String>)
    ensures
        request_time(sv(headers_to_sign@)).len() < 8 ==> r is Err,
        request_time(sv(headers_to_sign@)).len() >= 8 ==> (r matches Ok(a) && a@ == authorization(
            method@, path@, sv(query@), sv(headers_to_sign@), access_key_id@, secret_access_key@,
            opt_text(session_token), payload@, region@, service@, request_time(sv(headers_to_sign@)))),
{
    let ts = match first_value_of(headers_to_sign, "x-amz-date") {
        Some(t) => t,
        None => Vec::new(),
    };
    assert(ts@ =~= request_time(sv(headers_to_sign@)));
    if ts.len() < 8 {
        return Err("x-amz-date header is missing or shorter than eight characters".to_owned());
    }
    let date = copy_range(&ts, 0, 8);
    let (sp, post) = signed_headers(method, headers_to_sign, session_token, payload);
    let canonical = canonical_request_text(method, path, query, &sp, post, payload);
    let mut scope = copy_range(&date, 0, date.len());
    assert(date@.subrange(0, date@.len() as int) =~= date@);
    append_str(&mut scope, "/");
    append_str(&mut scope, region);
    append_str(&mut scope, "/");
    append_str(&mut scope, service);
    append_str(&mut scope, "/aws4_request");
    let mut to_sign = chars_of("AWS4-HMAC-SHA256\n");
    append_chars(&mut to_sign, &ts);
    append_str(&mut to_sign, "\n");
    append_chars(&mut to_sign, &scope);
    append_str(&mut to_sign, "\n");
    append_chars(&mut to_sign, &hex_digest_of(&canonical));
    let key = signing_key_bytes(secret_access_key, &date, region, service);
    let sig = hex_encode(hmac_text(key.as_slice(), &to_sign).as_slice());
    let mut out = chars_of("AWS4-HMAC-SHA256 Credential=");
    append_str(&mut out, access_key_id);
    append_str(&mut out, "/");
    append_chars(&mut out, &scope);
    append_str(&mut out, ", SignedHeaders=");
    append_chars(&mut out, &join_names(&sp));
    append_str(&mut out, ", Signature=");
    append_str(&mut out, sig.as_str());
    Ok(string_from_chars(&out))
}

/// The `x-amz-content-sha256` value of a payload: lower-case hex SHA-256
/// of its UTF-8 bytes.
pub fn payload_hash(payload: &str) -> (r: String)
    ensures
        r@ == hex_digest(payload@),
{
    string_from_chars(&hex_digest_of(&chars_of(payload)))
}

} // verus!
