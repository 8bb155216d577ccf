//! Pieces of the draft document that the library decides: the meta list
//! that interleaves prompt text with material references, the billing type
//! and the material-type codes.

use vstd::prelude::*;
use crate::models::{MaterialType, UploadedMaterial};
use crate::multipart::{copy_range, trim, trim_chars};
use crate::text::{append_str, chars_of, string_from_chars};

verus! {

/// One entry of the meta list.
#[derive(Debug)]
pub enum MetaEntry {
    /// Prompt text.
    Text(String),
    /// A reference to the material at this index of the material list.
    Material { material_type: MaterialType, index: usize },
}

/// A meta entry as plain values.
pub ghost enum MetaView {
    Text(Seq<char>),
    Material(MaterialType, int),
}

impl View for MetaEntry {
    type V = MetaView;

    open spec fn view(&self) -> MetaView {
        match self {
            MetaEntry::Text(t) => MetaView::Text(t@),
            MetaEntry::Material { material_type, index } => MetaView::Material(*material_type, *index as int),
        }
    }
}

/// Views of meta entries.
pub open spec fn metas_view(v: Seq<MetaEntry>) -> Seq<MetaView> {
    v.map_values(|m: MetaEntry| m@)
}

/// Whether a character is an ASCII digit.
pub open spec fn is_digit(c: char) -> bool {
    '0' <= c && c <= '9'
}

/// Value of a run of ASCII digits.
pub open spec fn digits_value(d: Seq<char>) -> int
    decreases d.len(),
{
    if d.len() == 0 { 0 } else { digits_value(d.drop_last()) * 10 + (d.last() as int - '0' as int) }
}

/// Length of the run of ASCII digits at `i`.
pub open spec fn digit_run(s: Seq<char>, i: int) -> int
    decreases s.len() - i,
{
    if 0 <= i < s.len() && is_digit(s[i]) { 1 + digit_run(s, i + 1) } else { 0 }
}

/// Where the digits of a placeholder starting at `i` begin: after `@`, and
/// after `图` or `image` when digits follow them.
pub open spec fn digits_start(s: Seq<char>, i: int) -> int {
    let j = i + 1;
    if j < s.len() && s[j] == '图' && digit_run(s, j + 1) > 0 {
        j + 1
    } else if j + 5 <= s.len() && s.subrange(j, j + 5) == "image"@ && digit_run(s, j + 5) > 0 {
        j + 5
    } else {
        j
    }
}

/// Whether a placeholder `@<n>`, `@图<n>` or `@image<n>` starts at `i`.
pub open spec fn placeholder_at(s: Seq<char>, i: int) -> bool {
    0 <= i < s.len() && s[i] == '@' && digit_run(s, digits_start(s, i)) > 0
}

/// Material index a placeholder names: its number minus one, with one
/// standing for numbers too large to read.
pub open spec fn placeholder_index(s: Seq<char>, i: int) -> int {
    let a = digits_start(s, i);
    let v = digits_value(s.subrange(a, a + digit_run(s, a)));
    let n = if v > usize::MAX { 1 } else { v };
    if n >= 1 { n - 1 } else { 0 }
}

/// A text entry unless the text is blank.
pub open spec fn text_entry(t: Seq<char>) -> Seq<MetaView> {
    if trim(t).len() > 0 { seq![MetaView::Text(t)] } else { Seq::empty() }
}

/// Entries from position `i` on, with text since `last` not yet emitted.
pub open spec fn scan(s: Seq<char>, i: int, last: int, kinds: Seq<MaterialType>) -> Seq<MetaView>
    decreases (if 0 <= i <= s.len() { s.len() - i } else { 0 }),
{
    if i < 0 || last < 0 || last > i || i >= s.len() {
        if 0 <= last < s.len() { text_entry(s.subrange(last, s.len() as int)) } else { Seq::empty() }
    } else if placeholder_at(s, i) {
        let a = digits_start(s, i);
        let end = a + digit_run(s, a);
        let k = placeholder_index(s, i);
        text_entry(s.subrange(last, i))
            + (if k < kinds.len() { seq![MetaView::Material(kinds[k], k)] } else { Seq::empty() })
            + scan(s, end, end, kinds)
    } else {
        scan(s, i + 1, last, kinds)
    }
}

/// Default list: `使用`, each material joined by `和`, then the prompt.
pub open spec fn default_meta(prompt: Seq<char>, kinds: Seq<MaterialType>) -> Seq<MetaView> {
    seq![MetaView::Text("使用"@)]
        + material_refs(kinds, kinds.len() as int)
        + seq![MetaView::Text(if trim(prompt).len() > 0 { "素材，"@ + prompt } else { "素材生成视频"@ })]
}

/// The first `n` material references, joined by `和`.
pub open spec fn material_refs(kinds: Seq<MaterialType>, n: int) -> Seq<MetaView>
    decreases n,
{
    if n <= 0 || n > kinds.len() {
        Seq::empty()
    } else {
        material_refs(kinds, n - 1) + seq![MetaView::Material(kinds[n - 1], n - 1)]
            + (if n - 1 < kinds.len() - 1 { seq![MetaView::Text("和"@)] } else { Seq::empty() })
    }
}

/// Whether the prompt holds a placeholder.
pub open spec fn has_placeholder(s: Seq<char>) -> bool {
    exists|i: int| placeholder_at(s, i)
}

/// The meta list of a prompt: text and material references in the order of
/// the placeholders, or the default list when the prompt has none or they
/// give nothing.
pub open spec fn meta_list(prompt: Seq<char>, kinds: Seq<MaterialType>) -> Seq<MetaView> {
    let found = scan(prompt, 0, 0, kinds);
    if has_placeholder(prompt) && found.len() > 0 { found } else { default_meta(prompt, kinds) }
}

/// Kinds of the materials, in order.
pub open spec fn kinds_of(m: Seq<UploadedMaterial>) -> Seq<MaterialType> {
    m.map_values(|x: UploadedMaterial| x.material_type)
}

/// Length of the run of ASCII digits at `i`.
fn digit_run_at(s: &Vec<char>, i: usize) -> (r: usize)
    requires
        i <= s@.len(),
    ensures
        r as int == digit_run(s@, i as int),
        i + r <= s@.len(),
{
    let mut k: usize = i;
    while k < s.len() && '0' <= s[k] && s[k] <= '9'
        invariant
            i <= k <= s@.len(),
            digit_run(s@, i as int) == (k - i) + digit_run(s@, k as int),
        decreases s@.len() - k,
    {
        k += 1;
    }
    k - i
}

/// Where the digits of a placeholder starting at `i` begin.
fn digits_start_at(s: &Vec<char>, i: usize) -> (r: usize)
    requires
        i < s@.len(),
    ensures
        r as int == digits_start(s@, i as int),
        i < r <= s@.len(),
{
    let n = s.len();
    let j = i + 1;
    proof { reveal_strlit("image"); }
    if j < n && s[j] == '图' && digit_run_at(s, j + 1) > 0 {
        return j + 1;
    }
    if n - j >= 5 && crate::text::chars_match_at(s, &chars_of("image"), j) && digit_run_at(s, j + 5) > 0 {
        return j + 5;
    }
    proof {
        if j + 5 <= n && s@.subrange(j as int, j + 5) == "image"@ {
            assert(crate::text::occurs_at(s@, "image"@, j as int));
        }
    }
    j
}

/// Index named by the digits `s[a..e]` (see `placeholder_index`).
fn index_of_digits(s: &Vec<char>, a: usize, e: usize) -> (r: usize)
    requires
        a <= e <= s@.len(),
        forall|k: int| a <= k < e ==> is_digit(#[trigger] s@[k]),
    ensures
        ({
            let v = digits_value(s@.subrange(a as int, e as int));
            let n = if v > usize::MAX { 1 } else { v };
            r as int == if n >= 1 { n - 1 } else { 0 }
        }),
{
    let mut v: usize = 0;
    let mut big = false;
    let mut k: usize = a;
    assert(s@.subrange(a as int, a as int) =~= Seq::<char>::empty());
    while k < e
        invariant
            a <= k <= e <= s@.len(),
            forall|q: int| a <= q < e ==> is_digit(#[trigger] s@[q]),
            big ==> digits_value(s@.subrange(a as int, k as int)) > usize::MAX,
            !big ==> v as int == digits_value(s@.subrange(a as int, k as int)),
            digits_value(s@.subrange(a as int, k as int)) >= 0,
        decreases e - k,
    {
        let d = (s[k] as u32 - '0' as u32) as u128;
        assert(s@.subrange(a as int, k + 1).drop_last() =~= s@.subrange(a as int, k as int));
        if !big {
            let w: u128 = v as u128 * 10 + d;
            if w > usize::MAX as u128 {
                big = true;
            } else {
                v = w as usize;
            }
        }
        k += 1;
    }
    let n: usize = if big { 1 } else { v };
    if n >= 1 { n - 1 } else { 0 }
}

/// A text entry unless the text is blank.
fn push_text(out: &mut Vec<MetaEntry>, t: Vec<char>)
    ensures
        metas_view(final(out)@) == metas_view(old(out)@) + text_entry(t@),
{
    let ghost before = metas_view(out@);
    if trim_chars(&t).len() > 0 {
        let ghost tv = t@;
        out.push(MetaEntry::Text(string_from_chars(&t)));
        assert(metas_view(out@) =~= before + seq![MetaView::Text(tv)]);
    } else {
        assert(metas_view(out@) =~= before + Seq::<MetaView>::empty());
    }
}

/// Entries from the placeholders of a prompt (see `scan`).
fn scan_prompt(s: &Vec<char>, materials: &[UploadedMaterial]) -> (r: (Vec<MetaEntry>, bool))
    ensures
        metas_view(r.0@) == scan(s@, 0, 0, kinds_of(materials@)),
        r.1 == has_placeholder(s@),
{
    let mut found = false;
    let ghost kinds = kinds_of(materials@);
    let n = s.len();
    let mut out: Vec<MetaEntry> = Vec::new();
    let mut i: usize = 0;
    let mut last: usize = 0;
    assert(metas_view(out@) =~= Seq::<MetaView>::empty());
    while i < n
        invariant
            n == s@.len(),
            kinds == kinds_of(materials@),
            last <= i <= n,
            scan(s@, 0, 0, kinds) == metas_view(out@) + scan(s@, i as int, last as int, kinds),
            found ==> has_placeholder(s@),
            !found ==> forall|j: int| 0 <= j < i ==> !placeholder_at(s@, j),
        decreases n - i,
    {
        let ghost before = metas_view(out@);
        if s[i] == '@' {
            let a = digits_start_at(s, i);
            let run = digit_run_at(s, a);
            if run > 0 {
                let e = a + run;
                assert(placeholder_at(s@, i as int));
                found = true;
                proof {
                    assert forall|k: int| a <= k < e implies is_digit(#[trigger] s@[k]) by {
                        lemma_digit_run(s@, a as int, k);
                    }
                }
                let k = index_of_digits(s, a, e);
                push_text(&mut out, copy_range(s, last, i));
                if k < materials.len() {
                    let ghost b2 = metas_view(out@);
                    out.push(MetaEntry::Material { material_type: materials[k].material_type, index: k });
                    assert(kinds[k as int] == materials@[k as int].material_type);
                    assert(metas_view(out@) =~= b2 + seq![MetaView::Material(kinds[k as int], k as int)]);
                }
                proof {
                    let tail = if (k as int) < kinds.len() { seq![MetaView::Material(kinds[k as int], k as int)] } else { Seq::empty() };
                    assert(scan(s@, i as int, last as int, kinds)
                        == text_entry(s@.subrange(last as int, i as int)) + tail + scan(s@, e as int, e as int, kinds));
                    assert(metas_view(out@) =~= before + text_entry(s@.subrange(last as int, i as int)) + tail);
                }
                i = e;
                last = e;
                assert(scan(s@, 0, 0, kinds) =~= metas_view(out@) + scan(s@, i as int, last as int, kinds));
                continue;
            }
        }
        assert(!placeholder_at(s@, i as int));
        i += 1;
    }
    let ghost before = metas_view(out@);
    push_text_tail(&mut out, s, last);
    proof {
        if !found {
            assert forall|j: int| !placeholder_at(s@, j) by {
                if 0 <= j < n {} 
            }
        }
    }
    (out, found)
}

/// The text after the last placeholder, unless blank.
fn push_text_tail(out: &mut Vec<MetaEntry>, s: &Vec<char>, last: usize)
    requires
        last <= s@.len(),
    ensures
        metas_view(final(out)@) == metas_view(old(out)@)
            + (if last < s@.len() { text_entry(s@.subrange(last as int, s@.len() as int)) } else { Seq::empty() }),
{
    if last < s.len() {
        push_text(out, copy_range(s, last, s.len()));
    } else {
        assert(metas_view(out@) =~= metas_view(out@) + Seq::<MetaView>::empty());
    }
}

/// Every position of a digit run holds a digit.
proof fn lemma_digit_run(s: Seq<char>, a: int, k: int)
    requires
        a <= k < a + digit_run(s, a),
    ensures
        0 <= k < s.len() && is_digit(s[k]),
    decreases k - a,
{
    if k > a {
        lemma_digit_run(s, a + 1, k);
    }
}

/// The default list (see `default_meta`).
fn default_list(prompt: &Vec<char>, materials: &[UploadedMaterial]) -> (r: Vec<MetaEntry>)
    ensures
        metas_view(r@) == default_meta(prompt@, kinds_of(materials@)),
{
    let ghost kinds = kinds_of(materials@);
    let mut out: Vec<MetaEntry> = Vec::new();
    out.push(MetaEntry::Text("使用".to_owned()));
    let count = materials.len();
    let mut i: usize = 0;
    assert(metas_view(out@) =~= seq![MetaView::Text("使用"@)] + material_refs(kinds, 0));
    while i < count
        invariant
            count == materials@.len(),
            kinds == kinds_of(materials@),
            i <= count,
            metas_view(out@) == seq![MetaView::Text("使用"@)] + material_refs(kinds, i as int),
        decreases count - i,
    {
        let ghost before = metas_view(out@);
        out.push(MetaEntry::Material { material_type: materials[i].material_type, index: i });
        assert(kinds[i as int] == materials@[i as int].material_type);
        let ghost mid = metas_view(out@);
        assert(mid =~= before + seq![MetaView::Material(kinds[i as int], i as int)]);
        if i < count - 1 {
            out.push(MetaEntry::Text("和".to_owned()));
            assert(metas_view(out@) =~= mid + seq![MetaView::Text("和"@)]);
        } else {
            assert(metas_view(out@) =~= mid + Seq::<MetaView>::empty());
        }
        assert(material_refs(kinds, i + 1) == material_refs(kinds, i as int)
            + seq![MetaView::Material(kinds[i as int], i as int)]
            + (if i < kinds.len() - 1 { seq![MetaView::Text("和"@)] } else { Seq::<MetaView>::empty() }));
        i += 1;
        assert(metas_view(out@) =~= seq![MetaView::Text("使用"@)] + material_refs(kinds, i as int));
    }
    let ghost before = metas_view(out@);
    if trim_chars(prompt).len() > 0 {
        let mut t = chars_of("素材，");
        crate::text::append_chars(&mut t, prompt);
        out.push(MetaEntry::Text(string_from_chars(&t)));
    } else {
        out.push(MetaEntry::Text("素材生成视频".to_owned()));
    }
    assert(metas_view(out@) =~= default_meta(prompt@, kinds));
    out
}

/// The meta list of a prompt for the uploaded materials: prompt text and
/// material references in the order of the placeholders `@<n>`, `@图<n>` and
/// `@image<n>` (1-based; references past the list are dropped, blank text
/// is dropped), or the default list `使用 <1> 和 <2> … 素材，<prompt>` when
/// the prompt has no placeholder or they give nothing.
pub fn build_meta_list(prompt: &str, materials: &[UploadedMaterial]) -> (r: Vec<MetaEntry>)
    ensures
        metas_view(r@) == meta_list(prompt@, kinds_of(materials@)),
{
    let p = chars_of(prompt);
    let (found, any) = scan_prompt(&p, materials);
    if any && found.len() > 0 {
        found
    } else {
        default_list(&p, materials)
    }
}

/// Whether any material is a video.
pub open spec fn has_video(kinds: Seq<MaterialType>) -> bool {
    exists|i: int| 0 <= i < kinds.len() && kinds[i] == MaterialType::Video
}

/// Billing type of a signed-family submission: the model's, with
/// `_with_video` when a video material is attached.
pub fn final_benefit_type(model: &str, materials: &[UploadedMaterial]) -> (r: String)
    ensures
        r@ == crate::models::benefit_type_of(model@) + (if has_video(kinds_of(materials@)) { "_with_video"@ } else { Seq::empty() }),
{
    let ghost kinds = kinds_of(materials@);
    let mut v = chars_of(crate::models::seedance_benefit_type(model));
    let mut any = false;
    let mut i: usize = 0;
    while i < materials.len()
        invariant
            kinds == kinds_of(materials@),
            i <= materials@.len(),
            any == exists|k: int| 0 <= k < i && kinds[k] == MaterialType::Video,
        decreases materials@.len() - i,
    {
        assert(kinds[i as int] == materials@[i as int].material_type);
        if materials[i].material_type == MaterialType::Video {
            any = true;
        }
        i += 1;
    }
    if any {
        append_str(&mut v, "_with_video");
    } else {
        assert(v@ =~= v@ + Seq::<char>::empty());
    }
    string_from_chars(&v)
}

/// Codes of the material kinds present, each once, in order of first appearance.
pub fn material_type_codes(materials: &[UploadedMaterial]) -> (r: Vec<u32>)
    ensures
        forall|x: u32| r@.contains(x) <==> exists|i: int| 0 <= i < materials@.len()
            && material_code(#[trigger] materials@[i].material_type) == x,
        forall|a: int, b: int| 0 <= a < b < r@.len() ==> r@[a] != r@[b],
{
    let mut r: Vec<u32> = Vec::new();
    let mut i: usize = 0;
    while i < materials.len()
        invariant
            i <= materials@.len(),
            forall|x: u32| r@.contains(x) <==> exists|k: int| 0 <= k < i
                && material_code(#[trigger] materials@[k].material_type) == x,
            forall|a: int, b: int| 0 <= a < b < r@.len() ==> r@[a] != r@[b],
        decreases materials@.len() - i,
    {
        let c = materials[i].material_type.code();
        let mut seen = false;
        let mut k: usize = 0;
        while k < r.len()
            invariant
                k <= r@.len(),
                seen == exists|q: int| 0 <= q < k && r@[q] == c,
            decreases r@.len() - k,
        {
            if r[k] == c {
                seen = true;
            }
            k += 1;
        }
        let ghost before = r@;
        if !seen {
            r.push(c);
            assert forall|x: u32| r@.contains(x) implies exists|q: int| 0 <= q < i + 1
                && material_code(#[trigger] materials@[q].material_type) == x by {
                if x != c {
                    let w = choose|w: int| 0 <= w < r@.len() && r@[w] == x;
                    assert(before[w] == x);
                    assert(before.contains(x));
                } else {
                    assert(material_code(materials@[i as int].material_type) == x);
                }
            }
        }
        assert forall|x: u32| (exists|q: int| 0 <= q < i + 1 && material_code(#[trigger] materials@[q].material_type) == x)
            implies r@.contains(x) by {
            let q = choose|q: int| 0 <= q < i + 1 && material_code(#[trigger] materials@[q].material_type) == x;
            if q < i {
                assert(before.contains(x));
                let w = choose|w: int| 0 <= w < before.len() && before[w] == x;
                assert(r@[w] == x);
            } else if seen {
                let w = choose|w: int| 0 <= w < r@.len() && r@[w] == c;
                assert(r@[w] == x);
            } else {
                assert(r@[r@.len() - 1] == x);
            }
        }
        i += 1;
    }
    r
}

/// Code of a material kind.
pub open spec fn material_code(t: MaterialType) -> u32 {
    match t {
        MaterialType::Image => 1,
        MaterialType::Video => 2,
        MaterialType::Audio => 3,
    }
}

/// URI of the first image material, used as the first frame of a standard
/// submission.
pub fn first_image_uri(materials: &[UploadedMaterial]) -> (r: Option<String>)
    ensures
        match r {
            Some(u) => exists|i: int| 0 <= i < materials@.len() && materials@[i].material_type == MaterialType::Image
                && (forall|k: int| 0 <= k < i ==> materials@[k].material_type != MaterialType::Image)
                && crate::pool::opt_view(materials@[i].uri) == Some(u@),
            None => forall|i: int| 0 <= i < materials@.len() && materials@[i].material_type == MaterialType::Image
                && (forall|k: int| 0 <= k < i ==> materials@[k].material_type != MaterialType::Image)
                ==> materials@[i].uri is None,
        },
{
    let mut i: usize = 0;
    while i < materials.len()
        invariant
            i <= materials@.len(),
            forall|k: int| 0 <= k < i ==> materials@[k].material_type != MaterialType::Image,
        decreases materials@.len() - i,
    {
        if materials[i].material_type == MaterialType::Image {
            return match &materials[i].uri {
                Some(u) => Some(u.clone()),
                None => None,
            };
        }
        i += 1;
    }
    None
}

/// Internal model forced when an end frame is given.
pub open spec fn end_frame_model() -> Seq<char> {
    "dreamina_ic_generate_video_model_vgfm_3.0"@
}

/// Billing type of a standard-family submission.
pub open spec fn regular_benefit_type() -> Seq<char> {
    "basic_video_operation_vgfm_v_three"@
}

/// The values of a standard-family draft document and its request.
#[derive(Debug)]
pub struct RegularDraft {
    /// Model named in the request's `extend.root_model`.
    pub root_model: String,
    /// Internal model of the generation parameters.
    pub model_req_key: String,
    /// Draft-document version, also sent as `da_version`.
    pub version: String,
    pub video_aspect_ratio: String,
    pub seed: u32,
    pub duration_ms: u64,
    pub fps: u32,
    pub prompt: String,
    pub resolution: String,
    pub width: u32,
    pub height: u32,
    pub first_frame_uri: Option<String>,
    pub end_frame_uri: Option<String>,
    pub benefit_type: String,
    pub component_id: String,
    pub submit_id: String,
    pub created_time_in_ms: i64,
}

/// View of an optional string slice.
pub open spec fn opt_str_view(o: Option<&str>) -> Option<Seq<char>> {
    match o {
        Some(s) => Some(s@),
        None => None,
    }
}

/// The standard-family draft: internal model and version from the model
/// name, the reduced aspect ratio, a seed in `[2500000000, 2600000000)` drawn
/// from `random`, 24 fps, and the end-frame model as root model whenever an
/// end frame is given. Ids and the creation time come from the caller.
pub fn regular_draft(
    prompt: &str,
    model: &str,
    width: u32,
    height: u32,
    duration: u32,
    resolution: &str,
    first_frame_uri: Option<&str>,
    end_frame_uri: Option<&str>,
    component_id: String,
    submit_id: String,
    random: u32,
    now_ms: i64,
) -> (r: RegularDraft)
    requires
        width > 0 || height > 0,
    ensures
        r.root_model@ == if end_frame_uri is Some { end_frame_model() } else { crate::models::resolved_model(model@) },
        r.model_req_key@ == crate::models::resolved_model(model@),
        r.version@ == crate::models::draft_version_of(model@),
        r.video_aspect_ratio@ == crate::models::ratio_text(width as nat, height as nat),
        r.seed == random % 100000000 + 2500000000,
        r.duration_ms == duration as int * 1000,
        r.fps == 24,
        r.prompt@ == prompt@,
        r.resolution@ == resolution@,
        r.width == width && r.height == height,
        crate::pool::opt_view(r.first_frame_uri) == opt_str_view(first_frame_uri),
        crate::pool::opt_view(r.end_frame_uri) == opt_str_view(end_frame_uri),
        r.benefit_type@ == regular_benefit_type(),
        r.component_id@ == component_id@,
        r.submit_id@ == submit_id@,
        r.created_time_in_ms == now_ms,
{
    let internal = crate::models::resolve_model(model);
    let root = match end_frame_uri {
        Some(_) => "dreamina_ic_generate_video_model_vgfm_3.0",
        None => internal,
    };
    RegularDraft {
        root_model: root.to_owned(),
        model_req_key: internal.to_owned(),
        version: crate::models::draft_version(model).to_owned(),
        video_aspect_ratio: crate::models::aspect_ratio_str(width, height),
        seed: random % 100000000 + 2500000000,
        duration_ms: duration as u64 * 1000,
        fps: 24,
        prompt: prompt.to_owned(),
        resolution: resolution.to_owned(),
        width,
        height,
        first_frame_uri: match first_frame_uri { Some(u) => Some(u.to_owned()), None => None },
        end_frame_uri: match end_frame_uri { Some(u) => Some(u.to_owned()), None => None },
        benefit_type: "basic_video_operation_vgfm_v_three".to_owned(),
        component_id,
        submit_id,
        created_time_in_ms: now_ms,
    }
}

/// The values of a signed-family draft document and its request.
#[derive(Debug)]
pub struct SeedanceDraft {
    /// Internal model: root model and generation parameters alike.
    pub model_req_key: String,
    /// Draft-document version, also its minimum version and `da_version`.
    pub version: String,
    pub benefit_type: String,
    pub video_aspect_ratio: String,
    pub seed: u32,
    pub duration: u32,
    pub duration_ms: u64,
    pub fps: u32,
    pub material_type_codes: Vec<u32>,
    pub meta_list: Vec<MetaEntry>,
    pub component_id: String,
    pub submit_id: String,
    pub created_time_in_ms: i64,
}

/// The signed-family draft: internal model, version and billing type from
/// the model name and materials, the reduced aspect ratio, a seed below
/// `1000000000` drawn from `random`, 24 fps, the material-type codes and the
/// meta list of the prompt. Ids and the creation time come from the caller.
pub fn seedance_draft(
    prompt: &str,
    model: &str,
    width: u32,
    height: u32,
    duration: u32,
    materials: &[UploadedMaterial],
    component_id: String,
    submit_id: String,
    random: u32,
    now_ms: i64,
) -> (r: SeedanceDraft)
    requires
        width > 0 || height > 0,
    ensures
        r.model_req_key@ == crate::models::resolved_model(model@),
        r.version@ == crate::models::draft_version_of(model@),
        r.benefit_type@ == crate::models::benefit_type_of(model@)
            + (if has_video(kinds_of(materials@)) { "_with_video"@ } else { Seq::empty() }),
        r.video_aspect_ratio@ == crate::models::ratio_text(width as nat, height as nat),
        r.seed == random % 1000000000,
        r.duration == duration,
        r.duration_ms == duration as int * 1000,
        r.fps == 24,
        forall|x: u32| r.material_type_codes@.contains(x) <==> exists|i: int| 0 <= i < materials@.len()
            && material_code(#[trigger] materials@[i].material_type) == x,
        forall|a: int, b: int| 0 <= a < b < r.material_type_codes@.len()
            ==> r.material_type_codes@[a] != r.material_type_codes@[b],
        metas_view(r.meta_list@) == meta_list(prompt@, kinds_of(materials@)),
        r.component_id@ == component_id@,
        r.submit_id@ == submit_id@,
        r.created_time_in_ms == now_ms,
{
    SeedanceDraft {
        model_req_key: crate::models::resolve_model(model).to_owned(),
        version: crate::models::draft_version(model).to_owned(),
        benefit_type: final_benefit_type(model, materials),
        video_aspect_ratio: crate::models::aspect_ratio_str(width, height),
        seed: random % 1000000000,
        duration,
        duration_ms: duration as u64 * 1000,
        fps: 24,
        material_type_codes: material_type_codes(materials),
        meta_list: build_meta_list(prompt, materials),
        component_id,
        submit_id,
        created_time_in_ms: now_ms,
    }
}

} // verus!
