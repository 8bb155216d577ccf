//! Model names, resolution tables, material kinds and aspect ratios.

use vstd::prelude::*;
use crate::text::{append_chars, append_str, dec, dec_of, chars_of, is_prefix, lower_of, rfind, rfind_char, starts_with, str_eq, string_from_chars, tail_eq, to_lower};

verus! {

/// Internal model key for a user-facing model name.
pub open spec fn internal_model_of(m: Seq<char>) -> Option<Seq<char>> {
    if m == "jimeng-video-3.5-pro"@ { Some("dreamina_ic_generate_video_model_vgfm_3.5_pro"@) }
    else if m == "jimeng-video-3.0-pro"@ { Some("dreamina_ic_generate_video_model_vgfm_3.0_pro"@) }
    else if m == "jimeng-video-3.0"@ { Some("dreamina_ic_generate_video_model_vgfm_3.0"@) }
    else if m == "jimeng-video-2.0"@ { Some("dreamina_ic_generate_video_model_vgfm_lite"@) }
    else if m == "jimeng-video-2.0-pro"@ { Some("dreamina_ic_generate_video_model_vgfm1.0"@) }
    else if m == "jimeng-video-seedance-2.0"@ { Some("dreamina_seedance_40_pro"@) }
    else if m == "seedance-2.0"@ { Some("dreamina_seedance_40_pro"@) }
    else if m == "seedance-2.0-pro"@ { Some("dreamina_seedance_40_pro"@) }
    else if m == "jimeng-video-seedance-2.0-fast"@ { Some("dreamina_seedance_40"@) }
    else if m == "seedance-2.0-fast"@ { Some("dreamina_seedance_40"@) }
    else { None }
}

/// Internal key used for names outside the table.
pub open spec fn default_internal_model() -> Seq<char> {
    "dreamina_ic_generate_video_model_vgfm_3.0"@
}

/// The user-facing model names with their internal keys.
pub fn model_map() -> (r: Vec<(&'static str, &'static str)>)
    ensures
        r@.len() == 10,
        forall|i: int| 0 <= i < r@.len() ==> internal_model_of(#[trigger] r@[i].0@) is Some,
        forall|m: Seq<char>| internal_model_of(m) is Some ==> exists|i: int| 0 <= i < r@.len() && #[trigger] r@[i].0@ == m,
{
    let r = vec![
        ("jimeng-video-3.5-pro", "dreamina_ic_generate_video_model_vgfm_3.5_pro"),
        ("jimeng-video-3.0-pro", "dreamina_ic_generate_video_model_vgfm_3.0_pro"),
        ("jimeng-video-3.0", "dreamina_ic_generate_video_model_vgfm_3.0"),
        ("jimeng-video-2.0", "dreamina_ic_generate_video_model_vgfm_lite"),
        ("jimeng-video-2.0-pro", "dreamina_ic_generate_video_model_vgfm1.0"),
        ("jimeng-video-seedance-2.0", "dreamina_seedance_40_pro"),
        ("seedance-2.0", "dreamina_seedance_40_pro"),
        ("seedance-2.0-pro", "dreamina_seedance_40_pro"),
        ("jimeng-video-seedance-2.0-fast", "dreamina_seedance_40"),
        ("seedance-2.0-fast", "dreamina_seedance_40"),
    ];
    proof {
        reveal_strlit("jimeng-video-3.5-pro");
        reveal_strlit("jimeng-video-3.0-pro");
        reveal_strlit("jimeng-video-3.0");
        reveal_strlit("jimeng-video-2.0");
        reveal_strlit("jimeng-video-2.0-pro");
        reveal_strlit("jimeng-video-seedance-2.0");
        reveal_strlit("seedance-2.0");
        reveal_strlit("seedance-2.0-pro");
        reveal_strlit("jimeng-video-seedance-2.0-fast");
        reveal_strlit("seedance-2.0-fast");
        assert forall|m: Seq<char>| internal_model_of(m) is Some implies exists|i: int|
            0 <= i < r@.len() && #[trigger] r@[i].0@ == m by {
            if m == r@[0].0@ { assert(r@[0].0@ == m); }
            else if m == r@[1].0@ { assert(r@[1].0@ == m); }
            else if m == r@[2].0@ { assert(r@[2].0@ == m); }
            else if m == r@[3].0@ { assert(r@[3].0@ == m); }
            else if m == r@[4].0@ { assert(r@[4].0@ == m); }
            else if m == r@[5].0@ { assert(r@[5].0@ == m); }
            else if m == r@[6].0@ { assert(r@[6].0@ == m); }
            else if m == r@[7].0@ { assert(r@[7].0@ == m); }
            else if m == r@[8].0@ { assert(r@[8].0@ == m); }
            else { assert(r@[9].0@ == m); }
        }
    }
    r
}

/// Draft-document version for a model name.
pub open spec fn draft_version_of(m: Seq<char>) -> Seq<char> {
    if m == "jimeng-video-3.5-pro"@ { "3.3.4"@ }
    else if m == "jimeng-video-seedance-2.0"@ || m == "seedance-2.0"@ || m == "seedance-2.0-pro"@
        || m == "jimeng-video-seedance-2.0-fast"@ || m == "seedance-2.0-fast"@ { "3.3.9"@ }
    else { "3.2.8"@ }
}

/// Draft-document version for a model name.
pub fn draft_version(model: &str) -> (r: &'static str)
    ensures
        r@ == draft_version_of(model@),
{
    if str_eq(model, "jimeng-video-3.5-pro") {
        "3.3.4"
    } else if str_eq(model, "jimeng-video-seedance-2.0") || str_eq(model, "seedance-2.0")
        || str_eq(model, "seedance-2.0-pro") || str_eq(model, "jimeng-video-seedance-2.0-fast")
        || str_eq(model, "seedance-2.0-fast") {
        "3.3.9"
    } else {
        "3.2.8"
    }
}

/// Billing benefit type of a signed-family model.
pub open spec fn benefit_type_of(m: Seq<char>) -> Seq<char> {
    if m == "jimeng-video-seedance-2.0-fast"@ || m == "seedance-2.0-fast"@ {
        "dreamina_seedance_20_fast"@
    } else {
        "dreamina_video_seedance_20_pro"@
    }
}

/// Billing benefit type of a signed-family model.
pub fn seedance_benefit_type(model: &str) -> (r: &'static str)
    ensures
        r@ == benefit_type_of(model@),
{
    if str_eq(model, "jimeng-video-seedance-2.0-fast") || str_eq(model, "seedance-2.0-fast") {
        "dreamina_seedance_20_fast"
    } else {
        "dreamina_video_seedance_20_pro"
    }
}

/// Whether a model name belongs to the signed family.
pub open spec fn is_signed_family(m: Seq<char>) -> bool {
    is_prefix("seedance-"@, m) || is_prefix("jimeng-video-seedance-"@, m)
}

/// Whether a model name belongs to the signed family.
pub fn is_seedance_model(model: &str) -> (r: bool)
    ensures
        r == is_signed_family(model@),
{
    let m = chars_of(model);
    let p1 = chars_of("seedance-");
    let p2 = chars_of("jimeng-video-seedance-");
    starts_with(&m, &p1) || starts_with(&m, &p2)
}

/// Internal model key for a user-facing name, with the default for unknown names.
pub open spec fn resolved_model(m: Seq<char>) -> Seq<char> {
    match internal_model_of(m) {
        Some(k) => k,
        None => default_internal_model(),
    }
}

/// Internal model key for a user-facing name, with the default for unknown names.
pub fn resolve_model(model: &str) -> (r: &'static str)
    ensures
        r@ == resolved_model(model@),
{
    if str_eq(model, "jimeng-video-3.5-pro") { "dreamina_ic_generate_video_model_vgfm_3.5_pro" }
    else if str_eq(model, "jimeng-video-3.0-pro") { "dreamina_ic_generate_video_model_vgfm_3.0_pro" }
    else if str_eq(model, "jimeng-video-3.0") { "dreamina_ic_generate_video_model_vgfm_3.0" }
    else if str_eq(model, "jimeng-video-2.0") { "dreamina_ic_generate_video_model_vgfm_lite" }
    else if str_eq(model, "jimeng-video-2.0-pro") { "dreamina_ic_generate_video_model_vgfm1.0" }
    else if str_eq(model, "jimeng-video-seedance-2.0") { "dreamina_seedance_40_pro" }
    else if str_eq(model, "seedance-2.0") { "dreamina_seedance_40_pro" }
    else if str_eq(model, "seedance-2.0-pro") { "dreamina_seedance_40_pro" }
    else if str_eq(model, "jimeng-video-seedance-2.0-fast") { "dreamina_seedance_40" }
    else if str_eq(model, "seedance-2.0-fast") { "dreamina_seedance_40" }
    else { "dreamina_ic_generate_video_model_vgfm_3.0" }
}

/// Output frame size in pixels.
#[derive(Debug, Clone, Copy, PartialEq, Eq, Structural)]
pub struct Resolution {
    pub width: u32,
    pub height: u32,
}

/// Frame size for a (resolution, ratio) pair of the fixed table.
pub open spec fn dims_of(res: Seq<char>, ratio: Seq<char>) -> Option<(u32, u32)> {
    let base: int = if res == "480p"@ { 480 } else if res == "720p"@ { 720 } else if res == "1080p"@ { 1080 } else { 0 };
    let long: int = if res == "480p"@ { 854 } else if res == "720p"@ { 1280 } else { 1920 };
    let wide: int = if res == "480p"@ { 640 } else if res == "720p"@ { 960 } else { 1440 };
    if base == 0 { None }
    else if ratio == "1:1"@ { Some((base as u32, base as u32)) }
    else if ratio == "4:3"@ { Some((wide as u32, base as u32)) }
    else if ratio == "3:4"@ { Some((base as u32, wide as u32)) }
    else if ratio == "16:9"@ { Some((long as u32, base as u32)) }
    else if ratio == "9:16"@ { Some((base as u32, long as u32)) }
    else { None }
}

/// Message for a pair outside the table.
pub open spec fn unsupported_msg(res: Seq<char>, ratio: Seq<char>) -> Seq<char> {
    "Unsupported resolution/ratio: "@ + res + "/"@ + ratio
}

/// Frame size for a (resolution, ratio) pair; an error names pairs outside the table.
pub fn resolve_video_resolution(resolution: &str, ratio: &str) -> (r: Result<Resolution, String>)
    ensures
        match (r, dims_of(resolution@, ratio@)) {
            (Ok(d), Some((w, h))) => d.width == w && d.height == h,
            (Err(e), None) => e@ == unsupported_msg(resolution@, ratio@),
            _ => false,
        },
{
    let (base, long, wide): (u32, u32, u32) = if str_eq(resolution, "480p") {
        (480, 854, 640)
    } else if str_eq(resolution, "720p") {
        (720, 1280, 960)
    } else if str_eq(resolution, "1080p") {
        (1080, 1920, 1440)
    } else {
        (0, 0, 0)
    };
    if base != 0 {
        if str_eq(ratio, "1:1") {
            return Ok(Resolution { width: base, height: base });
        } else if str_eq(ratio, "4:3") {
            return Ok(Resolution { width: wide, height: base });
        } else if str_eq(ratio, "3:4") {
            return Ok(Resolution { width: base, height: wide });
        } else if str_eq(ratio, "16:9") {
            return Ok(Resolution { width: long, height: base });
        } else if str_eq(ratio, "9:16") {
            return Ok(Resolution { width: base, height: long });
        }
    }
    let mut msg = chars_of("Unsupported resolution/ratio: ");
    append_str(&mut msg, resolution);
    append_str(&mut msg, "/");
    append_str(&mut msg, ratio);
    Err(string_from_chars(&msg))
}

/// Kind of an uploaded material.
#[derive(Debug, Clone, Copy, PartialEq, Eq, Structural)]
pub enum MaterialType {
    Image,
    Video,
    Audio,
}

impl MaterialType {
    /// Numeric code used in the material-type list.
    pub fn code(&self) -> (r: u32)
        ensures
            r == match *self {
                MaterialType::Image => 1u32,
                MaterialType::Video => 2u32,
                MaterialType::Audio => 3u32,
            },
    {
        match self {
            MaterialType::Image => 1,
            MaterialType::Video => 2,
            MaterialType::Audio => 3,
        }
    }

    /// Name used in material and meta entries.
    pub fn as_str(&self) -> (r: &'static str)
        ensures
            r@ == material_name(*self),
    {
        match self {
            MaterialType::Image => "image",
            MaterialType::Video => "video",
            MaterialType::Audio => "audio",
        }
    }
}

/// Name used in material and meta entries.
pub open spec fn material_name(t: MaterialType) -> Seq<char> {
    match t {
        MaterialType::Image => "image"@,
        MaterialType::Video => "video"@,
        MaterialType::Audio => "audio"@,
    }
}

/// Material kind of an already lower-cased MIME type; images by default.
pub open spec fn mime_kind(m: Seq<char>) -> MaterialType {
    if is_prefix("image/"@, m) { MaterialType::Image }
    else if is_prefix("video/"@, m) { MaterialType::Video }
    else if is_prefix("audio/"@, m) { MaterialType::Audio }
    else { MaterialType::Image }
}

/// Material kind of a lower-cased MIME type.
pub fn material_type_of_lower_mime(lower: &str) -> (r: MaterialType)
    ensures
        r == mime_kind(lower@),
{
    let m = chars_of(lower);
    if starts_with(&m, &chars_of("image/")) {
        MaterialType::Image
    } else if starts_with(&m, &chars_of("video/")) {
        MaterialType::Video
    } else if starts_with(&m, &chars_of("audio/")) {
        MaterialType::Audio
    } else {
        MaterialType::Image
    }
}

/// Material kind of a MIME type, compared case-insensitively.
pub fn detect_material_type_from_mime(mime: &str) -> (r: MaterialType)
    ensures
        r == mime_kind(lower_of(mime@)),
{
    let lower = to_lower(mime);
    material_type_of_lower_mime(lower.as_str())
}

/// Material kind of a lower-cased file name, by its extension; images by default.
pub open spec fn ext_kind(name: Seq<char>) -> MaterialType {
    match rfind(name, '.') {
        None => MaterialType::Image,
        Some(p) => {
            let e = name.subrange(p, name.len() as int);
            if e == ".mp4"@ || e == ".mov"@ || e == ".m4v"@ { MaterialType::Video }
            else if e == ".mp3"@ || e == ".wav"@ { MaterialType::Audio }
            else { MaterialType::Image }
        },
    }
}

/// Material kind of a lower-cased file name.
pub fn material_type_of_lower_name(lower: &str) -> (r: MaterialType)
    ensures
        r == ext_kind(lower@),
{
    let v = chars_of(lower);
    match rfind_char(&v, '.') {
        None => MaterialType::Image,
        Some(p) => {
            if tail_eq(&v, p, ".mp4") || tail_eq(&v, p, ".mov") || tail_eq(&v, p, ".m4v") {
                MaterialType::Video
            } else if tail_eq(&v, p, ".mp3") || tail_eq(&v, p, ".wav") {
                MaterialType::Audio
            } else {
                MaterialType::Image
            }
        },
    }
}

/// Material kind of a file name by its extension, compared case-insensitively.
pub fn detect_material_type_from_ext(filename: &str) -> (r: MaterialType)
    ensures
        r == ext_kind(lower_of(filename@)),
{
    let lower = to_lower(filename);
    material_type_of_lower_name(lower.as_str())
}

/// A material uploaded to the upstream and ready to reference in a draft.
#[derive(Debug, Clone)]
pub struct UploadedMaterial {
    pub material_type: MaterialType,
    /// Image URI, for image uploads.
    pub uri: Option<String>,
    /// Video identifier, for video and audio uploads.
    pub vid: Option<String>,
    pub width: u32,
    pub height: u32,
    pub duration: u32,
    pub fps: u32,
    pub name: String,
}

/// Greatest common divisor, by Euclid's recurrence.
pub open spec fn gcd_spec(a: nat, b: nat) -> nat
    decreases b,
{
    if b == 0 { a } else { gcd_spec(b, a % b) }
}

/// Greatest common divisor of two numbers.
pub fn gcd(a: u32, b: u32) -> (r: u32)
    ensures
        r == gcd_spec(a as nat, b as nat),
    decreases b,
{
    if b == 0 { a } else { gcd(b, a % b) }
}

/// The reduced width and height of a frame.
pub open spec fn reduced_ratio(w: nat, h: nat) -> (nat, nat) {
    let g = gcd_spec(w, h);
    (w / g, h / g)
}

/// Text of an aspect ratio, `w:h` in lowest terms.
pub open spec fn ratio_text(w: nat, h: nat) -> Seq<char> {
    let (a, b) = reduced_ratio(w, h);
    dec(a) + seq![':'] + dec(b)
}

/// Aspect ratio of a frame in lowest terms, such as `16:9`.
pub fn aspect_ratio_str(width: u32, height: u32) -> (r: String)
    requires
        width > 0 || height > 0,
    ensures
        r@ == ratio_text(width as nat, height as nat),
{
    proof { lemma_gcd_pos(width as nat, height as nat); }
    let d = gcd(width, height);
    let mut v = dec_of((width / d) as u64);
    v.push(':');
    let tail = dec_of((height / d) as u64);
    append_chars(&mut v, &tail);
    string_from_chars(&v)
}

/// The gcd is positive unless both numbers are zero.
pub proof fn lemma_gcd_pos(a: nat, b: nat)
    requires
        a > 0 || b > 0,
    ensures
        gcd_spec(a, b) > 0,
    decreases b,
{
    if b > 0 {
        lemma_gcd_pos(b, a % b);
    }
}

/// The gcd divides both numbers.
pub proof fn lemma_gcd_divides(a: nat, b: nat)
    requires
        a > 0 || b > 0,
    ensures
        a % gcd_spec(a, b) == 0,
        b % gcd_spec(a, b) == 0,
    decreases b,
{
    lemma_gcd_pos(a, b);
    let g = gcd_spec(a, b);
    if b == 0 {
        vstd::arithmetic::div_mod::lemma_mod_self_0(a as int);
    } else {
        lemma_gcd_divides(b, a % b);
        let q1 = b / g;
        let q2 = (a % b) / g;
        vstd::arithmetic::div_mod::lemma_fundamental_div_mod(b as int, g as int);
        vstd::arithmetic::div_mod::lemma_fundamental_div_mod((a % b) as int, g as int);
        vstd::arithmetic::div_mod::lemma_fundamental_div_mod(a as int, b as int);
        assert(a == g * (q1 * (a / b) + q2)) by (nonlinear_arith)
            requires
                b == g * q1,
                a % b == g * q2,
                a == b * (a / b) + a % b;
        vstd::arithmetic::div_mod::lemma_mod_multiples_basic((q1 * (a / b) + q2) as int, g as int);
    }
}

/// Scaling both numbers scales their gcd.
pub proof fn lemma_gcd_scale(a: nat, b: nat, k: nat)
    requires
        k > 0,
    ensures
        gcd_spec(a * k, b * k) == gcd_spec(a, b) * k,
    decreases b,
{
    if b == 0 {
        assert(b * k == 0);
    } else {
        assert(b * k > 0) by (nonlinear_arith)
            requires b > 0, k > 0;
        vstd::arithmetic::div_mod::lemma_fundamental_div_mod(a as int, b as int);
        let q = a / b;
        let r = a % b;
        assert(r < b);
        assert(a * k == q * (b * k) + r * k) by (nonlinear_arith)
            requires a == b * q + r;
        assert(r * k < b * k) by (nonlinear_arith)
            requires r < b, k > 0;
        vstd::arithmetic::div_mod::lemma_fundamental_div_mod_converse(
            (a * k) as int, (b * k) as int, (a / b) as int, ((a % b) * k) as int);
        lemma_gcd_scale(b, a % b, k);
    }
}

/// A frame and the same frame scaled by `k` give the same aspect ratio, and
/// that ratio is in lowest terms.
pub proof fn lemma_aspect_ratio_scaled(w: nat, h: nat, k: nat)
    requires
        w > 0 || h > 0,
        k > 0,
    ensures
        ratio_text(w * k, h * k) == ratio_text(w, h),
        gcd_spec(reduced_ratio(w, h).0, reduced_ratio(w, h).1) == 1,
{
    let g = gcd_spec(w, h);
    lemma_gcd_pos(w, h);
    lemma_gcd_divides(w, h);
    lemma_gcd_scale(w, h, k);
    vstd::arithmetic::div_mod::lemma_fundamental_div_mod(w as int, g as int);
    vstd::arithmetic::div_mod::lemma_fundamental_div_mod(h as int, g as int);
    let a = w / g;
    let b = h / g;
    assert(w * k == a * (g * k)) by (nonlinear_arith)
        requires w == g * a;
    assert(h * k == b * (g * k)) by (nonlinear_arith)
        requires h == g * b;
    assert(g * k > 0) by (nonlinear_arith)
        requires g > 0, k > 0;
    vstd::arithmetic::div_mod::lemma_fundamental_div_mod_converse((w * k) as int, (g * k) as int, a as int, 0);
    vstd::arithmetic::div_mod::lemma_fundamental_div_mod_converse((h * k) as int, (g * k) as int, b as int, 0);
    assert(gcd_spec(w * k, h * k) == g * k);
    lemma_gcd_scale(a, b, g);
    assert(a * g == w && b * g == h) by (nonlinear_arith)
        requires w == g * a, h == g * b;
    assert(gcd_spec(a, b) * g == g);
    assert(gcd_spec(a, b) == 1) by (nonlinear_arith)
        requires gcd_spec(a, b) * g == g, g > 0;
}

} // verus!
