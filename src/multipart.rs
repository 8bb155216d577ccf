//! Reading stored multipart form bodies: the file parts for upload and the
//! text fields of a compatible submission.

use vstd::prelude::*;
use crate::text::{
    is_prefix, lower_of,
    chars_of, find_chars, first_occ, is_first_occ, contains_seq, matches_at, occurs_at, string_from_chars,
};

verus! {

/// First position of a non-empty byte string inside another.
pub fn find_subsequence(haystack: &[u8], needle: &[u8]) -> (r: Option<usize>)
    requires
        needle@.len() > 0,
    ensures
        match r {
            Some(i) => is_first_occ(haystack@, needle@, i as int),
            None => !contains_seq(haystack@, needle@),
        },
{
    let mut i: usize = 0;
    while i < haystack.len()
        invariant
            i <= haystack@.len(),
            forall|j: int| 0 <= j < i ==> !occurs_at(haystack@, needle@, j),
        decreases haystack@.len() - i,
    {
        if matches_at(haystack, needle, i) {
            return Some(i);
        }
        i += 1;
    }
    assert forall|j: int| !occurs_at(haystack@, needle@, j) by {
        if j >= i && occurs_at(haystack@, needle@, j) {
            assert(j + needle@.len() <= haystack@.len());
        }
    }
    None
}

/// Text between the first `start` marker and the next `end` marker after it.
pub open spec fn header_value(h: Seq<char>, start: Seq<char>, end: Seq<char>) -> Option<Seq<char>> {
    match first_occ(h, start) {
        None => None,
        Some(p) => {
            let from = p + start.len();
            let rest = h.subrange(from, h.len() as int);
            match first_occ(rest, end) {
                None => None,
                Some(q) => Some(rest.subrange(0, q)),
            }
        },
    }
}

/// Copy of `v[from..to]`.
pub fn copy_range(v: &Vec<char>, from: usize, to: usize) -> (r: Vec<char>)
    requires
        from <= to <= v@.len(),
    ensures
        r@ == v@.subrange(from as int, to as int),
{
    let mut r: Vec<char> = Vec::new();
    let mut i: usize = from;
    while i < to
        invariant
            from <= i <= to <= v@.len(),
            r@ == v@.subrange(from as int, i as int),
        decreases to - i,
    {
        r.push(v[i]);
        i += 1;
        assert(r@ =~= v@.subrange(from as int, i as int));
    }
    r
}

/// Copy of `v[from..to]`.
pub fn copy_bytes(v: &[u8], from: usize, to: usize) -> (r: Vec<u8>)
    requires
        from <= to <= v@.len(),
    ensures
        r@ == v@.subrange(from as int, to as int),
{
    let mut r: Vec<u8> = Vec::new();
    let mut i: usize = from;
    while i < to
        invariant
            from <= i <= to <= v@.len(),
            r@ == v@.subrange(from as int, i as int),
        decreases to - i,
    {
        r.push(v[i]);
        i += 1;
        assert(r@ =~= v@.subrange(from as int, i as int));
    }
    r
}

/// Text between the first `start_marker` and the next `end_marker` after it.
pub fn extract_header_value(header: &str, start_marker: &str, end_marker: &str) -> (r: Option<String>)
    ensures
        match r {
            Some(s) => header_value(header@, start_marker@, end_marker@) == Some(s@),
            None => header_value(header@, start_marker@, end_marker@) is None,
        },
{
    let h = chars_of(header);
    let sm = chars_of(start_marker);
    let em = chars_of(end_marker);
    match find_chars(&h, &sm) {
        None => None,
        Some(p) => {
            proof { first_occ_is(h@, sm@, p as int); }
            let hl = h.len();
            assert(p + sm@.len() <= hl);
            let from = p + sm.len();
            let rest = copy_range(&h, from, h.len());
            match find_chars(&rest, &em) {
                None => None,
                Some(q) => {
                    proof { first_occ_is(rest@, em@, q as int); }
                    Some(string_from_chars(&copy_range(&rest, 0, q)))
                },
            }
        },
    }
}

/// The first occurrence is the position that `is_first_occ` names.
pub proof fn first_occ_is<T>(s: Seq<T>, n: Seq<T>, i: int)
    requires
        is_first_occ(s, n, i),
    ensures
        first_occ(s, n) == Some(i),
{
    assert(contains_seq(s, n));
    let k = choose|k: int| occurs_at(s, n, k) && forall|j: int| 0 <= j < k ==> !occurs_at(s, n, j);
    if k < i {
        assert(!occurs_at(s, n, k));
    } else if k > i {
        assert(!occurs_at(s, n, i));
    }
}

/// Whether a character is white space, as std's `char::is_whitespace` says.
pub uninterp spec fn is_white(c: char) -> bool;

/// Relies on std's `char::is_whitespace`: Unicode white space.
#[verifier::external_body]
fn char_is_whitespace(c: char) -> (r: bool)
    ensures
        r == is_white(c),
{
    c.is_whitespace()
}

/// Number of white characters at the start.
pub open spec fn lead_white(s: Seq<char>) -> int
    decreases s.len(),
{
    if s.len() > 0 && is_white(s[0]) { 1 + lead_white(s.drop_first()) } else { 0 }
}

/// The text without white space at either end.
pub open spec fn trim(s: Seq<char>) -> Seq<char>
    decreases s.len(),
{
    if s.len() == 0 {
        s
    } else if is_white(s[0]) {
        trim(s.drop_first())
    } else if is_white(s.last()) {
        trim(s.drop_last())
    } else {
        s
    }
}

/// The text without white space at either end.
pub fn trim_chars(v: &Vec<char>) -> (r: Vec<char>)
    ensures
        r@ == trim(v@),
{
    let mut a: usize = 0;
    let mut b: usize = v.len();
    assert(v@.subrange(0, v@.len() as int) =~= v@);
    while a < b
        invariant
            a <= b <= v@.len(),
            trim(v@) == trim(v@.subrange(a as int, b as int)),
        decreases b - a,
    {
        let ghost s = v@.subrange(a as int, b as int);
        if char_is_whitespace(v[a]) {
            assert(s.drop_first() =~= v@.subrange(a + 1, b as int));
            a += 1;
        } else if char_is_whitespace(v[b - 1]) {
            assert(s.drop_last() =~= v@.subrange(a as int, b - 1));
            b -= 1;
        } else {
            return copy_range(v, a, b);
        }
    }
    assert(v@.subrange(a as int, b as int) =~= Seq::<char>::empty());
    Vec::new()
}

/// The part of a Content-Type value after its first `boundary=`, up to a
/// second `boundary=` if there is one, trimmed; empty without one.
pub open spec fn boundary_of(ct: Seq<char>) -> Seq<char> {
    match first_occ(ct, "boundary="@) {
        None => Seq::empty(),
        Some(p) => {
            let rest = ct.subrange(p + 9, ct.len() as int);
            match first_occ(rest, "boundary="@) {
                None => trim(rest),
                Some(q) => trim(rest.subrange(0, q)),
            }
        },
    }
}

/// The multipart boundary named by a Content-Type value.
pub fn boundary_from(content_type: &str) -> (r: Vec<char>)
    ensures
        r@ == boundary_of(content_type@),
{
    let ct = chars_of(content_type);
    let key = chars_of("boundary=");
    proof { reveal_strlit("boundary="); }
    match find_chars(&ct, &key) {
        None => {
            assert(first_occ(ct@, "boundary="@) is None);
            Vec::new()
        },
        Some(p) => {
            proof { first_occ_is(ct@, key@, p as int); }
            let cl = ct.len();
            assert(p + 9 <= cl);
            let rest = copy_range(&ct, p + 9, ct.len());
            match find_chars(&rest, &key) {
                None => trim_chars(&rest),
                Some(q) => {
                    proof { first_occ_is(rest@, key@, q as int); }
                    trim_chars(&copy_range(&rest, 0, q))
                },
            }
        },
    }
}

/// First position of `n` in `h` at or after `start`, counted from `start`.
pub fn find_from(h: &[u8], n: &[u8], start: usize) -> (r: Option<usize>)
    requires
        start <= h@.len(),
    ensures
        match r {
            Some(p) => is_first_occ(h@.subrange(start as int, h@.len() as int), n@, p as int),
            None => !contains_seq(h@.subrange(start as int, h@.len() as int), n@),
        },
{
    let ghost sub = h@.subrange(start as int, h@.len() as int);
    let hl = h.len();
    let mut i: usize = start;
    while i <= hl
        invariant
            hl == h@.len(),
            start <= i <= hl + 1,
            sub == h@.subrange(start as int, h@.len() as int),
            forall|j: int| 0 <= j < i - start ==> !occurs_at(sub, n@, j),
        decreases hl + 1 - i,
    {
        let m = matches_at(h, n, i);
        proof {
            if i + n@.len() <= hl {
                assert(sub.subrange(i - start, i - start + n@.len()) =~= h@.subrange(i as int, i + n@.len()));
            }
        }
        if m {
            return Some(i - start);
        }
        if i == hl {
            assert forall|j: int| !occurs_at(sub, n@, j) by {
                if j > i - start && occurs_at(sub, n@, j) {
                    assert(j + n@.len() <= sub.len());
                }
            }
            return None;
        }
        i += 1;
    }
    None
}

/// Pieces of a body between delimiters: what follows each delimiter up to
/// the next, and what follows the last one when not empty; what comes before
/// the first delimiter is dropped.
#[verifier::opaque]
pub open spec fn split_from(body: Seq<u8>, d: Seq<u8>, start: int) -> Seq<Seq<u8>>
    decreases (if 0 <= start <= body.len() { body.len() - start } else { 0 }),
{
    if d.len() == 0 || start < 0 || start > body.len() {
        Seq::empty()
    } else {
        let rest = body.subrange(start, body.len() as int);
        match first_occ(rest, d) {
            Some(p) => {
                if p < 0 || start + p + d.len() > body.len() {
                    Seq::empty()
                } else {
                    (if start > 0 { seq![body.subrange(start, start + p)] } else { Seq::empty() })
                        + split_from(body, d, start + p + d.len())
                }
            },
            None => if start < body.len() { seq![rest] } else { Seq::empty() },
        }
    }
}

/// A file part: name, declared type and content.
pub struct MultipartFile {
    pub filename: String,
    pub content_type: String,
    pub data: Vec<u8>,
}

/// A file part as plain values.
pub ghost struct FileView {
    pub filename: Seq<char>,
    pub content_type: Seq<char>,
    pub data: Seq<u8>,
}

/// Text of bytes with invalid UTF-8 replaced, as std's `String::from_utf8_lossy` gives it.
pub uninterp spec fn lossy_text(b: Seq<u8>) -> Seq<char>;

/// Relies on std's `String::from_utf8_lossy`: the text of the bytes, with
/// each invalid sequence replaced.
#[verifier::external_body]
fn utf8_lossy(b: &[u8]) -> (r: String)
    ensures
        r@ == lossy_text(b@),
{
    String::from_utf8_lossy(b).into_owned()
}

/// A line without a carriage return at its end.
pub open spec fn strip_cr(l: Seq<char>) -> Seq<char> {
    if l.len() > 0 && l.last() == '\r' { l.drop_last() } else { l }
}

/// Lines of a text split at line feeds, each without a final carriage
/// return; a final line feed starts no new line.
#[verifier::opaque]
pub open spec fn lines_of(s: Seq<char>) -> Seq<Seq<char>>
    decreases s.len(),
{
    if s.len() == 0 {
        Seq::empty()
    } else {
        match first_occ(s, seq!['\n']) {
            Some(i) => if 0 <= i < s.len() {
                seq![strip_cr(s.subrange(0, i))] + lines_of(s.subrange(i + 1, s.len() as int))
            } else {
                Seq::empty()
            },
            None => seq![strip_cr(s)],
        }
    }
}

/// Value of a `Content-Type:` header line: what follows its first colon, trimmed.
pub open spec fn type_line_value(l: Seq<char>) -> Option<Seq<char>> {
    if is_prefix("content-type:"@, lower_of(l)) {
        match first_occ(l, seq![':']) {
            Some(c) => Some(trim(l.subrange(c + 1, l.len() as int))),
            None => None,
        }
    } else {
        None
    }
}

/// Value of the first `Content-Type:` line among the lines, if any.
pub open spec fn first_type(ls: Seq<Seq<char>>) -> Option<Seq<char>>
    decreases ls.len(),
{
    if ls.len() == 0 {
        None
    } else {
        match type_line_value(ls[0]) {
            Some(v) => Some(v),
            None => first_type(ls.drop_first()),
        }
    }
}

/// Declared type of a part, `application/octet-stream` when it has none.
pub open spec fn part_type(header: Seq<char>) -> Seq<char> {
    match first_type(lines_of(header)) {
        Some(v) => v,
        None => "application/octet-stream"@,
    }
}

/// Bytes of `\r\n\r\n`.
pub open spec fn blank_line() -> Seq<u8> {
    seq![13u8, 10u8, 13u8, 10u8]
}

/// The file carried by a part, if it is one: a part that is not the closing
/// marker, has a blank line after its headers, and names a non-empty file.
#[verifier::opaque]
pub open spec fn part_file(part: Seq<u8>) -> Option<FileView> {
    if part.len() >= 2 && part[0] == 45u8 && part[1] == 45u8 {
        None
    } else {
        match first_occ(part, blank_line()) {
            None => None,
            Some(he) => {
                let header = lossy_text(part.subrange(0, he));
                let raw = part.subrange(he + 4, part.len() as int);
                let data = if raw.len() >= 2 && raw[raw.len() - 2] == 13u8 && raw[raw.len() - 1] == 10u8 {
                    raw.subrange(0, raw.len() - 2)
                } else {
                    raw
                };
                match header_value(header, "filename=\""@, "\""@) {
                    Some(f) => if f.len() > 0 {
                        Some(FileView { filename: f, content_type: part_type(header), data })
                    } else {
                        None
                    },
                    None => None,
                }
            },
        }
    }
}

/// Files of the parts, in order.
#[verifier::opaque]
pub open spec fn files_of(parts: Seq<Seq<u8>>) -> Seq<FileView>
    decreases parts.len(),
{
    if parts.len() == 0 {
        Seq::empty()
    } else {
        match part_file(parts[0]) {
            Some(f) => seq![f] + files_of(parts.drop_first()),
            None => files_of(parts.drop_first()),
        }
    }
}

/// Delimiter of a boundary: `--` and the boundary's UTF-8 bytes.
pub open spec fn delimiter(boundary: Seq<char>) -> Seq<u8> {
    seq![45u8, 45u8] + vstd::utf8::encode_utf8(boundary)
}

/// The file parts of a multipart body; none when the Content-Type names no
/// boundary.
pub open spec fn multipart_files(content_type: Seq<char>, body: Seq<u8>) -> Seq<FileView> {
    let b = boundary_of(content_type);
    if b.len() == 0 {
        Seq::empty()
    } else {
        files_of(split_from(body, delimiter(b), 0))
    }
}

/// Views of byte vectors.
pub open spec fn bytes_list(v: Seq<Vec<u8>>) -> Seq<Seq<u8>> {
    v.map_values(|x: Vec<u8>| x@)
}

/// Views of character vectors.
pub open spec fn chars_list(v: Seq<Vec<char>>) -> Seq<Seq<char>> {
    v.map_values(|x: Vec<char>| x@)
}

/// Pieces of a body between delimiters (see `split_from`).
fn split_parts(body: &[u8], d: &[u8]) -> (r: Vec<Vec<u8>>)
    requires
        d@.len() > 0,
    ensures
        bytes_list(r@) == split_from(body@, d@, 0),
{
    let bl = body.len();
    let mut parts: Vec<Vec<u8>> = Vec::new();
    let mut start: usize = 0;
    assert(bytes_list(parts@) =~= Seq::<Seq<u8>>::empty());
    assert(split_from(body@, d@, 0) =~= bytes_list(parts@) + split_from(body@, d@, 0));
    loop
        invariant
            bl == body@.len(),
            d@.len() > 0,
            start <= bl,
            split_from(body@, d@, 0) == bytes_list(parts@) + split_from(body@, d@, start as int),
        decreases bl - start,
    {
        let ghost before = bytes_list(parts@);
        match find_from(body, d, start) {
            Some(p) => {
                proof {
                    first_occ_is(body@.subrange(start as int, bl as int), d@, p as int);
                }
                assert(start + p + d@.len() <= bl);
                if start > 0 {
                    let piece = copy_bytes(body, start, start + p);
                    parts.push(piece);
                    assert(bytes_list(parts@) =~= before.push(body@.subrange(start as int, start + p)));
                }
                let ghost old_start = start;
                start = start + p + d.len();
                proof { lemma_split_found(body@, d@, old_start as int, p as int); }
                assert(split_from(body@, d@, 0) =~= bytes_list(parts@) + split_from(body@, d@, start as int));
            },
            None => {
                proof { lemma_split_none(body@, d@, start as int); }
                if start < bl {
                    let piece = copy_bytes(body, start, bl);
                    parts.push(piece);
                    assert(bytes_list(parts@) =~= before.push(body@.subrange(start as int, bl as int)));
                }
                assert(split_from(body@, d@, 0) =~= bytes_list(parts@));
                return parts;
            },
        }
    }
}

/// Lines of a text (see `lines_of`).
fn split_lines(s: &Vec<char>) -> (r: Vec<Vec<char>>)
    ensures
        chars_list(r@) == lines_of(s@),
{
    let sl = s.len();
    let nl: Vec<char> = vec!['\n'];
    assert(nl@ =~= seq!['\n']);
    let mut out: Vec<Vec<char>> = Vec::new();
    let mut start: usize = 0;
    assert(s@.subrange(0, sl as int) =~= s@);
    assert(chars_list(out@) =~= Seq::<Seq<char>>::empty());
    assert(lines_of(s@) =~= chars_list(out@) + lines_of(s@.subrange(0, sl as int)));
    while start < sl
        invariant
            sl == s@.len(),
            start <= sl,
            nl@ == seq!['\n'],
            lines_of(s@) == chars_list(out@) + lines_of(s@.subrange(start as int, sl as int)),
        decreases sl - start,
    {
        let rest = copy_range(s, start, sl);
        let ghost before = chars_list(out@);
        match find_chars(&rest, &nl) {
            Some(i) => {
                proof { lemma_lines_found(rest@, i as int); }
                let mut line = copy_range(&rest, 0, i);
                if line.len() > 0 && line[line.len() - 1] == '\r' {
                    line.pop();
                }
                proof {
                    let l0 = rest@.subrange(0, i as int);
                    if l0.len() > 0 && l0.last() == '\r' { assert(line@ =~= l0.drop_last()); }
                }
                out.push(line);
                assert(rest@.subrange(i + 1, rest@.len() as int) =~= s@.subrange(start + i + 1, sl as int));
                assert(chars_list(out@) =~= before.push(strip_cr(rest@.subrange(0, i as int))));
                start = start + i + 1;
                assert(lines_of(s@) =~= chars_list(out@) + lines_of(s@.subrange(start as int, sl as int)));
            },
            None => {
                proof { lemma_lines_none(rest@); }
                let mut line = rest;
                let ghost l0 = line@;
                if line.len() > 0 && line[line.len() - 1] == '\r' {
                    line.pop();
                    assert(line@ =~= l0.drop_last());
                }
                out.push(line);
                assert(chars_list(out@) =~= before.push(strip_cr(l0)));
                start = sl;
                assert(s@.subrange(start as int, sl as int) =~= Seq::<char>::empty());
                proof { reveal(lines_of); }
                assert(lines_of(s@) =~= chars_list(out@) + lines_of(s@.subrange(start as int, sl as int)));
            },
        }
    }
    assert(s@.subrange(start as int, sl as int) =~= Seq::<char>::empty());
    proof { reveal(lines_of); }
    assert(chars_list(out@) + lines_of(Seq::<char>::empty()) =~= chars_list(out@));
    out
}

/// Value of a `Content-Type:` header line (see `type_line_value`).
fn line_type(l: &Vec<char>) -> (r: Option<Vec<char>>)
    ensures
        match r {
            Some(v) => type_line_value(l@) == Some(v@),
            None => type_line_value(l@) is None,
        },
{
    let lower = crate::text::to_lower(string_from_chars(l).as_str());
    let lv = chars_of(lower.as_str());
    let key = chars_of("content-type:");
    if !crate::text::starts_with(&lv, &key) {
        return None;
    }
    let colon: Vec<char> = vec![':'];
    assert(colon@ =~= seq![':']);
    match find_chars(l, &colon) {
        Some(c) => {
            proof { first_occ_is(l@, colon@, c as int); }
            let ll = l.len();
            assert(c + 1 <= ll);
            Some(trim_chars(&copy_range(l, c + 1, ll)))
        },
        None => None,
    }
}

/// Declared type of a part from its header text (see `part_type`).
fn part_type_of(header: &Vec<char>) -> (r: Vec<char>)
    ensures
        r@ == part_type(header@),
{
    let ls = split_lines(header);
    let mut i: usize = 0;
    assert(chars_list(ls@).subrange(0, chars_list(ls@).len() as int) =~= chars_list(ls@));
    while i < ls.len()
        invariant
            i <= ls@.len(),
            chars_list(ls@) == lines_of(header@),
            first_type(lines_of(header@)) == first_type(chars_list(ls@).subrange(i as int, ls@.len() as int)),
        decreases ls@.len() - i,
    {
        let ghost tail = chars_list(ls@).subrange(i as int, ls@.len() as int);
        assert(tail[0] == ls@[i as int]@);
        assert(tail.drop_first() =~= chars_list(ls@).subrange(i + 1, ls@.len() as int));
        match line_type(&ls[i]) {
            Some(v) => {
                return v;
            },
            None => {},
        }
        i += 1;
    }
    assert(chars_list(ls@).subrange(i as int, ls@.len() as int) =~= Seq::<Seq<char>>::empty());
    chars_of("application/octet-stream")
}

/// The file carried by a part, if it is one (see `part_file`).
fn read_part(part: &[u8]) -> (r: Option<MultipartFile>)
    ensures
        match r {
            Some(f) => part_file(part@) == Some(FileView { filename: f.filename@, content_type: f.content_type@, data: f.data@ }),
            None => part_file(part@) is None,
        },
{
    proof { reveal(part_file); }
    let pl = part.len();
    if pl >= 2 && part[0] == 45u8 && part[1] == 45u8 {
        return None;
    }
    let sep: [u8; 4] = [13, 10, 13, 10];
    assert(sep@ =~= blank_line());
    let he = match find_from(part, &sep, 0) {
        None => {
            assert(part@.subrange(0, pl as int) =~= part@);
            return None;
        },
        Some(he) => he,
    };
    assert(part@.subrange(0, pl as int) =~= part@);
    proof { first_occ_is(part@, blank_line(), he as int); }
    let header = utf8_lossy(copy_bytes(part, 0, he).as_slice());
    let hv = chars_of(header.as_str());
    let raw = copy_bytes(part, he + 4, pl);
    let rl = raw.len();
    let data = if rl >= 2 && raw[rl - 2] == 13u8 && raw[rl - 1] == 10u8 {
        copy_bytes(raw.as_slice(), 0, rl - 2)
    } else {
        raw
    };
    let name = match extract_header_value(header.as_str(), "filename=\"", "\"") {
        Some(f) => f,
        None => {
            return None;
        },
    };
    if chars_of(name.as_str()).len() == 0 {
        return None;
    }
    let ct = part_type_of(&hv);
    Some(MultipartFile { filename: name, content_type: string_from_chars(&ct), data })
}

/// The file parts of a stored multipart body, in order: the parts whose
/// headers name a non-empty file, with their declared type
/// (`application/octet-stream` by default) and their bytes. Without a
/// `boundary=` in the Content-Type there are none.
pub fn extract_multipart_files(content_type: &str, body: &[u8]) -> (r: Vec<MultipartFile>)
    ensures
        files_view(r@) == multipart_files(content_type@, body@),
        !contains_seq(content_type@, "boundary="@) ==> r@.len() == 0,
        boundary_of(content_type@).len() == 0 ==> r@.len() == 0,
{
    let b = boundary_from(content_type);
    proof {
        if !contains_seq(content_type@, "boundary="@) {
            assert(first_occ(content_type@, "boundary="@) is None);
        }
    }
    if b.len() == 0 {
        let r: Vec<MultipartFile> = Vec::new();
        proof { reveal(files_of); }
        assert(files_view(r@) =~= Seq::<FileView>::empty());
        return r;
    }
    let d = delimiter_bytes(&b);
    let parts = split_parts(body, d.as_slice());
    files_from_parts(&parts)
}

/// Delimiter bytes of a boundary.
fn delimiter_bytes(b: &Vec<char>) -> (r: Vec<u8>)
    ensures
        r@ == delimiter(b@),
        r@.len() > 0,
{
    let bs = string_from_chars(b);
    let bb = bs.as_str().as_bytes();
    let mut d: Vec<u8> = vec![45u8, 45u8];
    let mut k: usize = 0;
    let ghost dh = d@;
    while k < bb.len()
        invariant
            k <= bb@.len(),
            dh == seq![45u8, 45u8],
            d@ == dh + bb@.subrange(0, k as int),
        decreases bb@.len() - k,
    {
        d.push(bb[k]);
        k += 1;
        assert(d@ =~= dh + bb@.subrange(0, k as int));
    }
    assert(bb@.subrange(0, bb@.len() as int) =~= bb@);
    assert(d@ =~= delimiter(b@));
    d
}

/// The files of the parts, in order.
fn files_from_parts(parts: &Vec<Vec<u8>>) -> (r: Vec<MultipartFile>)
    ensures
        files_view(r@) == files_of(bytes_list(parts@)),
{
    let mut out: Vec<MultipartFile> = Vec::new();
    let mut i: usize = 0;
    let ghost all = bytes_list(parts@);
    assert(all.subrange(0, all.len() as int) =~= all);
    assert(files_view(out@) =~= Seq::<FileView>::empty());
    while i < parts.len()
        invariant
            i <= parts@.len(),
            all == bytes_list(parts@),
            files_of(all) == files_view(out@) + files_of(all.subrange(i as int, all.len() as int)),
        decreases parts@.len() - i,
    {
        let ghost tail = all.subrange(i as int, all.len() as int);
        assert(tail[0] == parts@[i as int]@);
        assert(tail.drop_first() =~= all.subrange(i + 1, all.len() as int));
        proof { lemma_files_step(tail); }
        let ghost before = files_view(out@);
        match read_part(parts[i].as_slice()) {
            Some(f) => {
                out.push(f);
                assert(files_view(out@) =~= before + seq![part_file(tail[0])->0]);
            },
            None => {},
        }
        i += 1;
    }
    assert(all.subrange(i as int, all.len() as int) =~= Seq::<Seq<u8>>::empty());
    proof { reveal(files_of); }
    assert(files_view(out@) + files_of(Seq::<Seq<u8>>::empty()) =~= files_view(out@));
    out
}

/// Views of file parts.
pub open spec fn files_view(v: Seq<MultipartFile>) -> Seq<FileView> {
    v.map_values(|f: MultipartFile| FileView { filename: f.filename@, content_type: f.content_type@, data: f.data@ })
}

/// One step of `split_from` where the delimiter occurs.
proof fn lemma_split_found(body: Seq<u8>, d: Seq<u8>, start: int, p: int)
    requires
        d.len() > 0,
        0 <= start <= body.len(),
        is_first_occ(body.subrange(start, body.len() as int), d, p),
    ensures
        split_from(body, d, start) == (if start > 0 { seq![body.subrange(start, start + p)] } else { Seq::empty() })
            + split_from(body, d, start + p + d.len()),
{
    first_occ_is(body.subrange(start, body.len() as int), d, p);
    reveal(split_from);
}

/// One step of `split_from` where the delimiter does not occur.
proof fn lemma_split_none(body: Seq<u8>, d: Seq<u8>, start: int)
    requires
        d.len() > 0,
        0 <= start <= body.len(),
        !contains_seq(body.subrange(start, body.len() as int), d),
    ensures
        split_from(body, d, start) == if start < body.len() {
            seq![body.subrange(start, body.len() as int)]
        } else {
            Seq::<Seq<u8>>::empty()
        },
{
    reveal(split_from);
}

/// One step of `lines_of` at the first line feed.
proof fn lemma_lines_found(s: Seq<char>, i: int)
    requires
        is_first_occ(s, seq!['\n'], i),
    ensures
        0 <= i < s.len(),
        lines_of(s) == seq![strip_cr(s.subrange(0, i))] + lines_of(s.subrange(i + 1, s.len() as int)),
{
    first_occ_is(s, seq!['\n'], i);
    reveal(lines_of);
}

/// One step of `lines_of` without a line feed.
proof fn lemma_lines_none(s: Seq<char>)
    requires
        s.len() > 0,
        !contains_seq(s, seq!['\n']),
    ensures
        lines_of(s) == seq![strip_cr(s)],
{
    reveal(lines_of);
}

/// One step of `files_of`.
proof fn lemma_files_step(parts: Seq<Seq<u8>>)
    requires
        parts.len() > 0,
    ensures
        files_of(parts) == match part_file(parts[0]) {
            Some(f) => seq![f] + files_of(parts.drop_first()),
            None => files_of(parts.drop_first()),
        },
{
    reveal(files_of);
}

/// Pieces of a text split at every occurrence of a non-empty delimiter.
#[verifier::opaque]
pub open spec fn split_text(s: Seq<char>, d: Seq<char>) -> Seq<Seq<char>>
    decreases s.len(),
{
    if d.len() == 0 {
        seq![s]
    } else {
        match first_occ(s, d) {
            Some(p) => if 0 <= p && p + d.len() <= s.len() {
                seq![s.subrange(0, p)] + split_text(s.subrange(p + d.len(), s.len() as int), d)
            } else {
                seq![s]
            },
            None => seq![s],
        }
    }
}

/// A text without any number of `\r\n` at its end.
pub open spec fn trim_end_crlf(s: Seq<char>) -> Seq<char>
    decreases s.len(),
{
    if s.len() >= 2 && s[s.len() - 2] == '\r' && s[s.len() - 1] == '\n' {
        trim_end_crlf(s.subrange(0, s.len() - 2))
    } else {
        s
    }
}

/// Name and value of a text field part: the first `name="..."`, no
/// `filename="`, and the trimmed text after the blank line.
#[verifier::opaque]
pub open spec fn text_field(part: Seq<char>) -> Option<(Seq<char>, Seq<char>)> {
    match first_occ(part, "name=\""@) {
        None => None,
        Some(p) => {
            let from = p + 6;
            let rest = part.subrange(from, part.len() as int);
            match first_occ(rest, "\""@) {
                None => None,
                Some(q) => if contains_seq(part, "filename=\""@) {
                    None
                } else {
                    match first_occ(part, "\r\n\r\n"@) {
                        None => None,
                        Some(v) => Some((rest.subrange(0, q),
                            trim(trim_end_crlf(part.subrange(v + 4, part.len() as int))))),
                    }
                },
            }
        },
    }
}

/// Integer value of a text, as std's `str::parse::<i32>` reads it.
pub uninterp spec fn i32_of_text(s: Seq<char>) -> Option<i32>;

/// Relies on std's `str::parse::<i32>`: the integer a text spells, or
/// nothing when it spells none that fits.
#[verifier::external_body]
fn parse_i32(s: &str) -> (r: Option<i32>)
    ensures
        r == i32_of_text(s@),
{
    s.parse::<i32>().ok()
}

/// Prompt, model, duration and ratio of a compatible submission.
pub ghost struct FieldsView {
    pub prompt: Seq<char>,
    pub model: Option<Seq<char>>,
    pub duration: Option<i32>,
    pub ratio: Option<Seq<char>>,
}

/// Fields after reading one more part.
pub open spec fn apply_field(acc: FieldsView, part: Seq<char>) -> FieldsView {
    match text_field(part) {
        None => acc,
        Some((n, v)) => if n == "prompt"@ {
            FieldsView { prompt: v, ..acc }
        } else if n == "model"@ {
            FieldsView { model: Some(v), ..acc }
        } else if n == "duration"@ {
            FieldsView { duration: i32_of_text(v), ..acc }
        } else if n == "ratio"@ {
            FieldsView { ratio: Some(v), ..acc }
        } else {
            acc
        },
    }
}

/// Fields after reading the parts in order; a later field wins.
#[verifier::opaque]
pub open spec fn fields_after(parts: Seq<Seq<char>>) -> FieldsView
    decreases parts.len(),
{
    if parts.len() == 0 {
        FieldsView { prompt: Seq::empty(), model: None, duration: None, ratio: None }
    } else {
        apply_field(fields_after(parts.drop_last()), parts.last())
    }
}

/// Fields of a compatible multipart submission; all empty without a boundary.
pub open spec fn multipart_fields(content_type: Seq<char>, body: Seq<u8>) -> FieldsView {
    let b = boundary_of(content_type);
    if b.len() == 0 {
        FieldsView { prompt: Seq::empty(), model: None, duration: None, ratio: None }
    } else {
        fields_after(split_text(lossy_text(body), "--"@ + b))
    }
}

/// A text without any number of `\r\n` at its end.
fn trim_end_crlf_chars(v: &Vec<char>) -> (r: Vec<char>)
    ensures
        r@ == trim_end_crlf(v@),
{
    let mut n: usize = v.len();
    assert(v@.subrange(0, n as int) =~= v@);
    while n >= 2 && v[n - 2] == '\r' && v[n - 1] == '\n'
        invariant
            n <= v@.len(),
            trim_end_crlf(v@) == trim_end_crlf(v@.subrange(0, n as int)),
        decreases n,
    {
        assert(v@.subrange(0, n as int).subrange(0, n - 2) =~= v@.subrange(0, n - 2));
        n -= 2;
    }
    copy_range(v, 0, n)
}

/// Name and value of a text field part (see `text_field`).
fn read_text_field(part: &Vec<char>) -> (r: Option<(Vec<char>, Vec<char>)>)
    ensures
        match r {
            Some((n, v)) => text_field(part@) == Some((n@, v@)),
            None => text_field(part@) is None,
        },
{
    proof { reveal(text_field); }
    let key = chars_of("name=\"");
    proof { reveal_strlit("name=\""); }
    let p = match find_chars(part, &key) {
        None => { return None; },
        Some(p) => p,
    };
    proof { first_occ_is(part@, key@, p as int); }
    let pl = part.len();
    assert(p + 6 <= pl);
    let rest = copy_range(part, p + 6, pl);
    let q = match find_chars(&rest, &chars_of("\"")) {
        None => { return None; },
        Some(q) => q,
    };
    proof { first_occ_is(rest@, "\""@, q as int); }
    if crate::text::contains_chars(part, "filename=\"") {
        return None;
    }
    let v = match find_chars(part, &chars_of("\r\n\r\n")) {
        None => { return None; },
        Some(v) => v,
    };
    proof {
        first_occ_is(part@, "\r\n\r\n"@, v as int);
        reveal_strlit("\r\n\r\n");
    }
    assert(v + 4 <= pl);
    let name = copy_range(&rest, 0, q);
    let value = trim_chars(&trim_end_crlf_chars(&copy_range(part, v + 4, pl)));
    Some((name, value))
}

/// Pieces of a text split at every occurrence of a non-empty delimiter.
fn split_text_chars(s: &Vec<char>, d: &Vec<char>) -> (r: Vec<Vec<char>>)
    requires
        d@.len() > 0,
    ensures
        chars_list(r@) == split_text(s@, d@),
{
    let sl = s.len();
    let mut out: Vec<Vec<char>> = Vec::new();
    let mut start: usize = 0;
    assert(s@.subrange(0, sl as int) =~= s@);
    assert(chars_list(out@) =~= Seq::<Seq<char>>::empty());
    loop
        invariant
            sl == s@.len(),
            d@.len() > 0,
            start <= sl,
            split_text(s@, d@) == chars_list(out@) + split_text(s@.subrange(start as int, sl as int), d@),
        decreases sl - start,
    {
        let rest = copy_range(s, start, sl);
        let ghost before = chars_list(out@);
        match find_chars(&rest, d) {
            Some(p) => {
                proof { lemma_split_text_found(rest@, d@, p as int); }
                assert(p + d@.len() <= rest@.len());
                out.push(copy_range(&rest, 0, p));
                assert(rest@.subrange(p + d@.len(), rest@.len() as int) =~= s@.subrange(start + p + d@.len(), sl as int));
                start = start + p + d.len();
                assert(chars_list(out@) =~= before.push(rest@.subrange(0, p as int)));
                assert(split_text(s@, d@) =~= chars_list(out@) + split_text(s@.subrange(start as int, sl as int), d@));
            },
            None => {
                proof { lemma_split_text_none(rest@, d@); }
                out.push(rest);
                assert(chars_list(out@) =~= before.push(s@.subrange(start as int, sl as int)));
                assert(split_text(s@, d@) =~= chars_list(out@));
                return out;
            },
        }
    }
}

proof fn lemma_split_text_found(s: Seq<char>, d: Seq<char>, p: int)
    requires
        d.len() > 0,
        is_first_occ(s, d, p),
    ensures
        split_text(s, d) == seq![s.subrange(0, p)] + split_text(s.subrange(p + d.len(), s.len() as int), d),
{
    first_occ_is(s, d, p);
    reveal(split_text);
}

proof fn lemma_split_text_none(s: Seq<char>, d: Seq<char>)
    requires
        d.len() > 0,
        !contains_seq(s, d),
    ensures
        split_text(s, d) == seq![s],
{
    reveal(split_text);
}

proof fn lemma_fields_step(parts: Seq<Seq<char>>, i: int)
    requires
        0 <= i < parts.len(),
    ensures
        fields_after(parts.subrange(0, i + 1)) == apply_field(fields_after(parts.subrange(0, i)), parts[i]),
{
    reveal(fields_after);
    assert(parts.subrange(0, i + 1).drop_last() =~= parts.subrange(0, i));
}

/// Fields read so far.
pub struct FieldsAcc {
    pub prompt: Vec<char>,
    pub model: Option<Vec<char>>,
    pub duration: Option<i32>,
    pub ratio: Option<Vec<char>>,
}

impl View for FieldsAcc {
    type V = FieldsView;

    open spec fn view(&self) -> FieldsView {
        FieldsView {
            prompt: self.prompt@,
            model: chars_opt(self.model),
            duration: self.duration,
            ratio: chars_opt(self.ratio),
        }
    }
}

/// Fields after reading one more part (see `apply_field`).
fn field_step(acc: FieldsAcc, part: &Vec<char>) -> (r: FieldsAcc)
    ensures
        r@ == apply_field(acc@, part@),
{
    match read_text_field(part) {
        None => acc,
        Some((n, v)) => {
            let ns = string_from_chars(&n);
            if crate::text::str_eq(ns.as_str(), "prompt") {
                FieldsAcc { prompt: v, ..acc }
            } else if crate::text::str_eq(ns.as_str(), "model") {
                FieldsAcc { model: Some(v), ..acc }
            } else if crate::text::str_eq(ns.as_str(), "duration") {
                FieldsAcc { duration: parse_i32(string_from_chars(&v).as_str()), ..acc }
            } else if crate::text::str_eq(ns.as_str(), "ratio") {
                FieldsAcc { ratio: Some(v), ..acc }
            } else {
                acc
            }
        },
    }
}

/// Fields after reading the parts in order.
fn fields_from_parts(parts: &Vec<Vec<char>>) -> (r: FieldsAcc)
    ensures
        r@ == fields_after(chars_list(parts@)),
{
    let ghost all = chars_list(parts@);
    let mut acc = FieldsAcc { prompt: Vec::new(), model: None, duration: None, ratio: None };
    proof {
        reveal(fields_after);
        assert(all.subrange(0, 0) =~= Seq::<Seq<char>>::empty());
        assert(acc@ =~= fields_after(all.subrange(0, 0)));
    }
    let mut i: usize = 0;
    while i < parts.len()
        invariant
            i <= parts@.len(),
            all == chars_list(parts@),
            acc@ == fields_after(all.subrange(0, i as int)),
        decreases parts@.len() - i,
    {
        proof { lemma_fields_step(all, i as int); }
        assert(all[i as int] == parts@[i as int]@);
        acc = field_step(acc, &parts[i]);
        i += 1;
    }
    assert(all.subrange(0, all.len() as int) =~= all);
    acc
}

/// Prompt, model, duration and ratio from the text fields of a multipart
/// body; a later field wins; all empty without a boundary.
pub fn extract_multipart_fields(content_type: &str, body: &[u8]) -> (r: (String, Option<String>, Option<i32>, Option<String>))
    ensures
        ({
            let f = multipart_fields(content_type@, body@);
            r.0@ == f.prompt && crate::pool::opt_view(r.1) == f.model && r.2 == f.duration
                && crate::pool::opt_view(r.3) == f.ratio
        }),
{
    let b = boundary_from(content_type);
    if b.len() == 0 {
        return (String::new(), None, None, None);
    }
    let text = utf8_lossy(body);
    let tv = chars_of(text.as_str());
    let mut d = chars_of("--");
    crate::text::append_chars(&mut d, &b);
    proof { reveal_strlit("--"); }
    let parts = split_text_chars(&tv, &d);
    let acc = fields_from_parts(&parts);
    let m = match acc.model { Some(v) => Some(string_from_chars(&v)), None => None };
    let ra = match acc.ratio { Some(v) => Some(string_from_chars(&v)), None => None };
    (string_from_chars(&acc.prompt), m, acc.duration, ra)
}

/// View of an optional character vector.
pub open spec fn chars_opt(o: Option<Vec<char>>) -> Option<Seq<char>> {
    match o {
        Some(v) => Some(v@),
        None => None,
    }
}

} // verus!
