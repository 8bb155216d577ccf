//! Bearer credentials: generation, hashing for storage, display prefix and
//! format check.

use sha2::Digest;
use vstd::prelude::*;
use vstd::string::StrSliceExecFns;
use vstd::utf8::{encode_utf8, is_ascii_chars};
use crate::text::{chars_of, is_prefix, starts_with, string_from_chars};

verus! {

/// Lower-case hexadecimal digits.
pub open spec fn hex_alphabet() -> Seq<char> {
    "0123456789abcdef"@
}

/// Lower-case hexadecimal text of a byte string, two digits per byte.
pub open spec fn hex_text(b: Seq<u8>) -> Seq<char>
    decreases b.len(),
{
    if b.len() == 0 {
        Seq::empty()
    } else {
        let x = b.last();
        hex_text(b.drop_last()) + seq![hex_alphabet()[(x / 16) as int], hex_alphabet()[(x % 16) as int]]
    }
}

/// Whether every character is a lower-case hexadecimal digit.
pub open spec fn is_lower_hex(s: Seq<char>) -> bool {
    forall|i: int| 0 <= i < s.len() ==> hex_alphabet().contains(#[trigger] s[i])
}

/// SHA-256 digest of a byte string.
pub uninterp spec fn sha256_of(b: Seq<u8>) -> Seq<u8>;

/// Relies on `hex::encode`: two lower-case hex digits per byte, in order.
#[verifier::external_body]
pub(crate) fn hex_encode(b: &[u8]) -> (r: String)
    ensures
        r@ == hex_text(b@),
{
    hex::encode(b)
}

/// Relies on `sha2::Sha256::digest`: the 32-byte digest of the input.
#[verifier::external_body]
pub(crate) fn sha256(b: &[u8]) -> (r: Vec<u8>)
    ensures
        r@ == sha256_of(b@),
        r@.len() == 32,
{
    sha2::Sha256::digest(b).to_vec()
}

/// Relies on `rand::random`: sixteen bytes drawn from the thread-local generator.
#[verifier::external_body]
fn random_key_bytes() -> (r: Vec<u8>)
    ensures
        r@.len() == 16,
{
    let b: [u8; 16] = rand::random();
    b.to_vec()
}

/// Text of a credential made from sixteen random bytes.
pub open spec fn key_text(b: Seq<u8>) -> Seq<char> {
    "gw_"@ + hex_text(b)
}

/// Whether a token has the credential shape: `gw_` followed by lower-case
/// hex digits, 35 bytes in all.
pub open spec fn valid_key_format(k: Seq<char>) -> bool {
    is_prefix("gw_"@, k) && encode_utf8(k).len() == 35 && is_lower_hex(k.subrange(3, k.len() as int))
}

/// Hex text is twice as long as its bytes and made of hex digits only.
pub proof fn lemma_hex_text(b: Seq<u8>)
    ensures
        hex_text(b).len() == 2 * b.len(),
        is_lower_hex(hex_text(b)),
        is_ascii_chars(hex_text(b)),
    decreases b.len(),
{
    reveal_strlit("0123456789abcdef");
    if b.len() > 0 {
        lemma_hex_text(b.drop_last());
        let x = b.last();
        let h = hex_text(b);
        let p = hex_text(b.drop_last());
        assert(hex_alphabet().contains(hex_alphabet()[(x / 16) as int]));
        assert(hex_alphabet().contains(hex_alphabet()[(x % 16) as int]));
        assert forall|i: int| 0 <= i < h.len() implies hex_alphabet().contains(#[trigger] h[i]) by {
            if i < p.len() {
                assert(h[i] == p[i]);
            }
        }
        assert forall|i: int| 0 <= i < h.len() implies '\0' <= #[trigger] h[i] <= '\u{7f}' by {
            if i < p.len() {
                assert(h[i] == p[i]);
            } else {
                assert(hex_alphabet().contains(h[i]));
            }
        }
    }
}

/// A fresh random credential: `gw_` followed by 32 hex digits.
pub fn generate_key() -> (r: String)
    ensures
        exists|b: Seq<u8>| b.len() == 16 && r@ == key_text(b),
        valid_key_format(r@),
        r@.len() == 35,
{
    let bytes = random_key_bytes();
    let h = hex_encode(bytes.as_slice());
    let mut v = chars_of("gw_");
    let hv = chars_of(h.as_str());
    crate::text::append_chars(&mut v, &hv);
    proof {
        reveal_strlit("gw_");
        lemma_hex_text(bytes@);
        assert(v@ == key_text(bytes@));
        assert(is_ascii_chars(v@));
        vstd::utf8::is_ascii_chars_encode_utf8(v@);
        assert(v@.subrange(0, 3) =~= "gw_"@);
        assert(v@.subrange(3, v@.len() as int) =~= hex_text(bytes@));
    }
    string_from_chars(&v)
}

/// Storage form of a credential: hex text of the SHA-256 digest of its bytes.
pub fn hash_key(raw: &str) -> (r: String)
    ensures
        r@ == hex_text(sha256_of(encode_utf8(raw@))),
        r@.len() == 64,
        is_lower_hex(r@),
{
    let d = sha256(raw.as_bytes());
    proof { lemma_hex_text(d@); }
    hex_encode(d.as_slice())
}

/// Display prefix of a credential: its first eight characters.
pub fn key_prefix(raw: &str) -> (r: String)
    ensures
        r@ == raw@.take(if raw@.len() < 8 { raw@.len() as int } else { 8 }),
{
    let v = chars_of(raw);
    let n: usize = if v.len() < 8 { v.len() } else { 8 };
    let mut p: Vec<char> = Vec::new();
    let mut i: usize = 0;
    while i < n
        invariant
            n <= v@.len(),
            i <= n,
            p@ == v@.take(i as int),
        decreases n - i,
    {
        p.push(v[i]);
        i += 1;
        assert(p@ =~= v@.take(i as int));
    }
    string_from_chars(&p)
}

/// Whether a character is a lower-case hex digit.
pub fn is_hex_digit(c: char) -> (r: bool)
    ensures
        r == hex_alphabet().contains(c),
{
    let a = "0123456789abcdef";
    proof { reveal_strlit("0123456789abcdef"); }
    let mut j: usize = 0;
    while j < 16
        invariant
            j <= 16,
            a@ == hex_alphabet(),
            a@.len() == 16,
            forall|k: int| 0 <= k < j ==> a@[k] != c,
        decreases 16 - j,
    {
        if a.get_char(j) == c {
            assert(hex_alphabet()[j as int] == c);
            return true;
        }
        j += 1;
    }
    false
}

/// Whether a token has the credential shape: `gw_` followed by lower-case
/// hex digits, 35 bytes in all.
pub fn is_valid_format(raw: &str) -> (r: bool)
    ensures
        r == valid_key_format(raw@),
{
    let v = chars_of(raw);
    let p = chars_of("gw_");
    proof { reveal_strlit("gw_"); }
    if !(starts_with(&v, &p) && raw.as_bytes().len() == 35) {
        return false;
    }
    let ghost tail = v@.subrange(3, v@.len() as int);
    let mut i: usize = 3;
    while i < v.len()
        invariant
            3 <= i <= v@.len(),
            v@ == raw@,
            is_prefix("gw_"@, raw@),
            encode_utf8(raw@).len() == 35,
            tail == v@.subrange(3, v@.len() as int),
            forall|k: int| 0 <= k < i - 3 ==> hex_alphabet().contains(#[trigger] tail[k]),
        decreases v@.len() - i,
    {
        if !is_hex_digit(v[i]) {
            assert(tail[i - 3] == v@[i as int]);
            assert(!hex_alphabet().contains(tail[i - 3]));
            assert(!is_lower_hex(tail));
            return false;
        }
        assert(tail[i - 3] == v@[i as int]);
        i += 1;
    }
    true
}

} // verus!
