//! Choices made on upstream responses: which of several candidate fields
//! wins, and how a scalar becomes text. The caller looks the candidates up,
//! in order, and hands over what it found.

use vstd::prelude::*;
use crate::text::{append_str, chars_of, dec_int, dec_of_i64, string_from_chars};

verus! {

/// A JSON value found at a candidate location, reduced to what the choices read.
#[derive(Debug)]
pub enum JsonScalar {
    Null,
    Str(String),
    Int(i64),
    /// Any other value, in its JSON text.
    Other(String),
}

/// A candidate as plain values.
pub ghost enum ScalarView {
    Null,
    Str(Seq<char>),
    Int(i64),
    Other(Seq<char>),
}

impl View for JsonScalar {
    type V = ScalarView;

    open spec fn view(&self) -> ScalarView {
        match self {
            JsonScalar::Null => ScalarView::Null,
            JsonScalar::Str(s) => ScalarView::Str(s@),
            JsonScalar::Int(n) => ScalarView::Int(*n),
            JsonScalar::Other(t) => ScalarView::Other(t@),
        }
    }
}

/// Views of candidates; a missing location is `None`.
pub open spec fn candidates_view(c: Seq<Option<JsonScalar>>) -> Seq<Option<ScalarView>> {
    c.map_values(|o: Option<JsonScalar>| match o { Some(v) => Some(v@), None => None })
}

/// Index of the first candidate satisfying `p`.
pub open spec fn first_where(c: Seq<Option<ScalarView>>, p: spec_fn(Option<ScalarView>) -> bool) -> Option<int>
    decreases c.len(),
{
    if c.len() == 0 {
        None
    } else if p(c[0]) {
        Some(0)
    } else {
        match first_where(c.drop_first(), p) {
            Some(i) => Some(i + 1),
            None => None,
        }
    }
}

/// Whether a candidate holds a value other than null.
pub open spec fn non_null(o: Option<ScalarView>) -> bool {
    o is Some && !(o->0 is Null)
}

/// Whether a candidate location exists.
pub open spec fn present(o: Option<ScalarView>) -> bool {
    o is Some
}

/// The upstream job id: the first candidate that is not null, as text when
/// it is a string or an integer.
pub open spec fn history_id_of(c: Seq<Option<ScalarView>>) -> Result<Seq<char>, Seq<char>> {
    match first_where(c, |o: Option<ScalarView>| non_null(o)) {
        None => Err("No history_record_id in submit response"@),
        Some(i) => match c[i] {
            Some(ScalarView::Str(s)) => Ok(s),
            Some(ScalarView::Int(n)) => Ok(dec_int(n as int)),
            Some(ScalarView::Other(t)) => Err("Unexpected history_record_id type: "@ + t),
            _ => Err(Seq::empty()),
        },
    }
}

/// The first video URL: the first candidate location that exists, when it
/// holds a non-empty string.
pub open spec fn video_url_of(c: Seq<Option<ScalarView>>) -> Option<Seq<char>> {
    match first_where(c, |o: Option<ScalarView>| present(o)) {
        Some(i) => match c[i] {
            Some(ScalarView::Str(s)) => if s.len() > 0 { Some(s) } else { None },
            _ => None,
        },
        None => None,
    }
}

/// An item id: the first candidate location that exists, as text when it
/// is a string or an integer.
pub open spec fn item_id_of(c: Seq<Option<ScalarView>>) -> Option<Seq<char>> {
    match first_where(c, |o: Option<ScalarView>| present(o)) {
        Some(i) => match c[i] {
            Some(ScalarView::Str(s)) => Some(s),
            Some(ScalarView::Int(n)) => Some(dec_int(n as int)),
            _ => None,
        },
        None => None,
    }
}

/// Index of the first candidate that exists (and, when asked, is not null).
fn first_index(c: &Vec<Option<JsonScalar>>, skip_null: bool) -> (r: Option<usize>)
    ensures
        ({
            let cv = candidates_view(c@);
            let f = if skip_null { first_where(cv, |o: Option<ScalarView>| non_null(o)) }
                else { first_where(cv, |o: Option<ScalarView>| present(o)) };
            match r {
                Some(i) => f == Some(i as int) && i < c@.len(),
                None => f is None,
            }
        }),
{
    let ghost cv = candidates_view(c@);
    let ghost p = if skip_null { |o: Option<ScalarView>| non_null(o) } else { |o: Option<ScalarView>| present(o) };
    assert(cv.subrange(0, cv.len() as int) =~= cv);
    let mut i: usize = 0;
    while i < c.len()
        invariant
            cv == candidates_view(c@),
            p == (if skip_null { |o: Option<ScalarView>| non_null(o) } else { |o: Option<ScalarView>| present(o) }),
            i <= c@.len(),
            first_where(cv, p) == match first_where(cv.subrange(i as int, cv.len() as int), p) {
                Some(k) => Some(k + i),
                None => None,
            },
        decreases c@.len() - i,
    {
        let ghost tail = cv.subrange(i as int, cv.len() as int);
        assert(tail[0] == cv[i as int]);
        assert(tail.drop_first() =~= cv.subrange(i + 1, cv.len() as int));
        let hit = match &c[i] {
            None => false,
            Some(JsonScalar::Null) => !skip_null,
            Some(_) => true,
        };
        if hit {
            return Some(i);
        }
        i += 1;
    }
    assert(cv.subrange(i as int, cv.len() as int) =~= Seq::<Option<ScalarView>>::empty());
    None
}

/// The upstream job id from the candidate locations, in order.
pub fn history_record_id(candidates: &Vec<Option<JsonScalar>>) -> (r: Result<String, String>)
    ensures
        match (r, history_id_of(candidates_view(candidates@))) {
            (Ok(a), Ok(b)) => a@ == b,
            (Err(a), Err(b)) => a@ == b,
            _ => false,
        },
{
    match first_index(candidates, true) {
        None => Err("No history_record_id in submit response".to_owned()),
        Some(i) => {
            assert(candidates_view(candidates@)[i as int] == match candidates@[i as int] {
                Some(v) => Some(v@),
                None => None::<ScalarView>,
            });
            match &candidates[i] {
                Some(JsonScalar::Str(s)) => Ok(s.clone()),
                Some(JsonScalar::Int(n)) => Ok(string_from_chars(&dec_of_i64(*n))),
                Some(JsonScalar::Other(t)) => {
                    let mut v = chars_of("Unexpected history_record_id type: ");
                    append_str(&mut v, t.as_str());
                    Err(string_from_chars(&v))
                },
                _ => Err(String::new()),
            }
        },
    }
}

/// The first video URL from the candidate locations, in order.
pub fn first_video_url(candidates: &Vec<Option<JsonScalar>>) -> (r: Option<String>)
    ensures
        match (r, video_url_of(candidates_view(candidates@))) {
            (Some(a), Some(b)) => a@ == b,
            (None, None) => true,
            _ => false,
        },
{
    match first_index(candidates, false) {
        None => None,
        Some(i) => {
            assert(candidates_view(candidates@)[i as int] == match candidates@[i as int] {
                Some(v) => Some(v@),
                None => None::<ScalarView>,
            });
            match &candidates[i] {
                Some(JsonScalar::Str(s)) => {
                    if chars_of(s.as_str()).len() > 0 { Some(s.clone()) } else { None }
                },
                _ => None,
            }
        },
    }
}

/// An item id from the candidate locations, in order.
pub fn item_id(candidates: &Vec<Option<JsonScalar>>) -> (r: Option<String>)
    ensures
        match (r, item_id_of(candidates_view(candidates@))) {
            (Some(a), Some(b)) => a@ == b,
            (None, None) => true,
            _ => false,
        },
{
    match first_index(candidates, false) {
        None => None,
        Some(i) => {
            assert(candidates_view(candidates@)[i as int] == match candidates@[i as int] {
                Some(v) => Some(v@),
                None => None::<ScalarView>,
            });
            match &candidates[i] {
                Some(JsonScalar::Str(s)) => Some(s.clone()),
                Some(JsonScalar::Int(n)) => Some(string_from_chars(&dec_of_i64(*n))),
                _ => None,
            }
        },
    }
}

/// Integer value of a text, as std's `str::parse::<i64>` reads it.
pub uninterp spec fn i64_of_text(s: Seq<char>) -> Option<i64>;

/// Relies on std's `str::parse::<i64>`: the integer a text spells, or
/// nothing when it spells none that fits.
#[verifier::external_body]
fn parse_i64(s: &str) -> (r: Option<i64>)
    ensures
        r == i64_of_text(s@),
{
    s.parse::<i64>().ok()
}

/// Return code of a response: a string that spells an integer, an integer,
/// or zero.
pub open spec fn ret_code(ret: Option<ScalarView>) -> i64 {
    match ret {
        Some(ScalarView::Str(s)) => match i64_of_text(s) { Some(n) => n, None => 0 },
        Some(ScalarView::Int(n)) => n,
        _ => 0,
    }
}

/// Refuses a response whose return code is not zero, with its message.
pub fn check_ret(ret: Option<JsonScalar>, errmsg: Option<String>) -> (r: Result<(), String>)
    ensures
        ({
            let code = ret_code(match ret { Some(v) => Some(v@), None => None });
            match r {
                Ok(()) => code == 0,
                Err(m) => code != 0 && m@ == "Submit failed [ret="@ + dec_int(code as int) + "]: "@
                    + match errmsg { Some(e) => e@, None => "unknown"@ },
            }
        }),
{
    let code: i64 = match &ret {
        Some(JsonScalar::Str(s)) => match parse_i64(s.as_str()) {
            Some(n) => n,
            None => 0,
        },
        Some(JsonScalar::Int(n)) => *n,
        _ => 0,
    };
    if code == 0 {
        return Ok(());
    }
    let mut v = chars_of("Submit failed [ret=");
    crate::text::append_chars(&mut v, &dec_of_i64(code));
    append_str(&mut v, "]: ");
    match &errmsg {
        Some(e) => append_str(&mut v, e.as_str()),
        None => append_str(&mut v, "unknown"),
    }
    Err(string_from_chars(&v))
}

/// Leftmost match of a regular expression in a text, as the `regex` crate
/// finds it; nothing when the pattern does not compile or does not match.
pub uninterp spec fn first_match_of(pattern: Seq<char>, text: Seq<char>) -> Option<Seq<char>>;

/// Relies on `regex::Regex::new` and `Regex::find`: the leftmost-first match
/// of the pattern in the text.
#[verifier::external_body]
fn regex_find(pattern: &str, text: &str) -> (r: Option<String>)
    ensures
        match r {
            Some(m) => first_match_of(pattern@, text@) == Some(m@),
            None => first_match_of(pattern@, text@) is None,
        },
{
    regex::Regex::new(pattern).ok().and_then(|re| re.find(text).map(|m| m.as_str().to_string()))
}

/// Pattern of a high-quality video URL on the primary video host.
pub open spec fn hq_primary_pattern() -> Seq<char> {
    "https://v\\d+-dreamnia\\.jimeng\\.com/[^\"\\s\\\\]+"@
}

/// Pattern of a high-quality video URL on any video host.
pub open spec fn hq_any_pattern() -> Seq<char> {
    "https://v\\d+-[^\"\\\\\\s]*\\.jimeng\\.com/[^\"\\s\\\\]+"@
}

/// The high-quality URL: the first candidate location that exists when it
/// holds a string, else the first match of the primary host pattern in the
/// response text, else of the general pattern.
pub open spec fn hq_url_of(c: Seq<Option<ScalarView>>, text: Seq<char>) -> Option<Seq<char>> {
    let structured = match first_where(c, |o: Option<ScalarView>| present(o)) {
        Some(i) => match c[i] {
            Some(ScalarView::Str(s)) => Some(s),
            _ => None,
        },
        None => None,
    };
    if structured is Some {
        structured
    } else if first_match_of(hq_primary_pattern(), text) is Some {
        first_match_of(hq_primary_pattern(), text)
    } else {
        first_match_of(hq_any_pattern(), text)
    }
}

/// The high-quality URL from the candidate locations of the first item and
/// the raw response text.
pub fn hq_video_url(candidates: &Vec<Option<JsonScalar>>, text: &str) -> (r: Option<String>)
    ensures
        match (r, hq_url_of(candidates_view(candidates@), text@)) {
            (Some(a), Some(b)) => a@ == b,
            (None, None) => true,
            _ => false,
        },
{
    match first_index(candidates, false) {
        Some(i) => {
            assert(candidates_view(candidates@)[i as int] == match candidates@[i as int] {
                Some(v) => Some(v@),
                None => None::<ScalarView>,
            });
            match &candidates[i] {
                Some(JsonScalar::Str(s)) => { return Some(s.clone()); },
                _ => {},
            }
        },
        None => {},
    }
    let primary = "https://v\\d+-dreamnia\\.jimeng\\.com/[^\"\\s\\\\]+";
    match regex_find(primary, text) {
        Some(m) => Some(m),
        None => regex_find("https://v\\d+-[^\"\\\\\\s]*\\.jimeng\\.com/[^\"\\s\\\\]+", text),
    }
}

} // verus!
