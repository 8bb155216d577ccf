//! Decisions of the task pipeline: error classification, poll outcomes,
//! queue-time text, and what a worker does when a task ends.

use vstd::prelude::*;
use vstd::string::StrSliceExecFns;
use crate::text::{
    append_chars, append_str, chars_of, contains_chars, contains_seq, dec, dec_int, dec_of, dec_of_i64,
    lower_of, string_from_chars, to_lower,
};

verus! {

/// Upstream status of a job still waiting.
pub const STATUS_PENDING: i64 = 20;

/// Upstream status of a failed job.
pub const STATUS_FAILED: i64 = 30;

/// Kind of a lower-cased error message.
pub open spec fn error_kind_of(m: Seq<char>) -> Seq<char> {
    if contains_seq(m, "authorization"@) || contains_seq(m, "unauthorized"@)
        || contains_seq(m, "login"@) || contains_seq(m, "token"@) {
        "auth"@
    } else if contains_seq(m, "timeout"@) || contains_seq(m, "timed out"@) {
        "timeout"@
    } else if contains_seq(m, "平台规则"@) || contains_seq(m, "内容违规"@) {
        "platform_rule"@
    } else if contains_seq(m, "network"@) || contains_seq(m, "econnrefused"@) {
        "network"@
    } else {
        "unknown"@
    }
}

/// Kind of an already lower-cased error message.
pub fn classify_lowered(lower: &str) -> (r: &'static str)
    ensures
        r@ == error_kind_of(lower@),
{
    let m = chars_of(lower);
    if contains_chars(&m, "authorization") || contains_chars(&m, "unauthorized")
        || contains_chars(&m, "login") || contains_chars(&m, "token") {
        "auth"
    } else if contains_chars(&m, "timeout") || contains_chars(&m, "timed out") {
        "timeout"
    } else if contains_chars(&m, "平台规则") || contains_chars(&m, "内容违规") {
        "platform_rule"
    } else if contains_chars(&m, "network") || contains_chars(&m, "econnrefused") {
        "network"
    } else {
        "unknown"
    }
}

/// Kind of an error message, matched case-insensitively.
pub fn classify_error(msg: &str) -> (r: &'static str)
    ensures
        r@ == error_kind_of(lower_of(msg@)),
{
    let lower = to_lower(msg);
    classify_lowered(lower.as_str())
}

/// Text of a queue wait: `{h}h{m}m` from an hour on, `{m}m{s}s` from a
/// minute on, else `{s}s`.
pub open spec fn eta_text(s: i64) -> Seq<char> {
    if s >= 3600 {
        dec_int(s as int / 3600) + "h"@ + dec_int((s as int % 3600) / 60) + "m"@
    } else if s >= 60 {
        dec_int(s as int / 60) + "m"@ + dec_int(s as int % 60) + "s"@
    } else {
        dec_int(s as int) + "s"@
    }
}

/// Text of a queue wait given in seconds.
pub fn format_eta(s: i64) -> (r: String)
    ensures
        r@ == eta_text(s),
{
    let mut v: Vec<char> = Vec::new();
    if s >= 3600 {
        append_chars(&mut v, &dec_of_i64(s / 3600));
        append_str(&mut v, "h");
        append_chars(&mut v, &dec_of_i64((s % 3600) / 60));
        append_str(&mut v, "m");
    } else if s >= 60 {
        append_chars(&mut v, &dec_of_i64(s / 60));
        append_str(&mut v, "m");
        append_chars(&mut v, &dec_of_i64(s % 60));
        append_str(&mut v, "s");
    } else {
        append_chars(&mut v, &dec_of_i64(s));
        append_str(&mut v, "s");
    }
    proof {
        assert(v@ =~= eta_text(s));
    }
    string_from_chars(&v)
}

/// Fields of one poll of an upstream job.
#[derive(Debug, Clone)]
pub struct PollResult {
    pub status: i64,
    pub fail_code: Option<String>,
    pub fail_msg: Option<String>,
    pub video_url: Option<String>,
    pub queue_position: Option<i32>,
    pub queue_total: Option<i32>,
    pub queue_eta: Option<String>,
    pub item_id: Option<String>,
}

/// Outcome of a submission: the upstream job id.
#[derive(Debug, Clone)]
pub struct SubmitResult {
    pub history_record_id: String,
}

/// What the media upload service reports for a committed upload.
#[derive(Debug, Clone)]
pub struct VodUploadResult {
    pub vid: String,
    pub width: u32,
    pub height: u32,
    pub duration: u32,
    pub fps: u32,
}

/// What one poll result means for the task.
#[derive(Debug)]
pub enum PollStep {
    /// The job failed upstream; the message says how.
    Failed(String),
    /// The video is there.
    Ready(String),
    /// Still waiting: poll again after the interval.
    Wait,
    /// A status that is neither waiting nor done, without a video.
    Unexpected(String),
}

/// Message for a job that failed upstream.
pub open spec fn failed_msg(code: Option<Seq<char>>, msg: Option<Seq<char>>) -> Seq<char> {
    "Upstream task failed with code "@ + (match code { Some(c) => c, None => "unknown"@ })
        + ": "@ + (match msg { Some(m) => m, None => Seq::empty() })
}

/// Message for a status that is neither waiting nor done.
pub open spec fn unexpected_msg(status: i64) -> Seq<char> {
    "Upstream returned status "@ + dec_int(status as int) + " without video_url"@
}

/// View of an optional string slice.
pub open spec fn opt_str(o: Option<&str>) -> Option<Seq<char>> {
    match o {
        Some(s) => Some(s@),
        None => None,
    }
}

/// Outcome of one poll: failure status first, then a non-empty video URL,
/// then waiting on the pending status; anything else is unexpected.
pub open spec fn poll_outcome(status: i64, code: Option<Seq<char>>, msg: Option<Seq<char>>, url: Option<Seq<char>>)
    -> (int, Seq<char>)
{
    if status == STATUS_FAILED {
        (0, failed_msg(code, msg))
    } else if url is Some && url->0.len() > 0 {
        (1, url->0)
    } else if status == STATUS_PENDING {
        (2, Seq::empty())
    } else {
        (3, unexpected_msg(status))
    }
}

/// Reads one poll result.
pub fn poll_step(status: i64, fail_code: Option<&str>, fail_msg: Option<&str>, video_url: Option<&str>) -> (r: PollStep)
    ensures
        ({
            let (k, t) = poll_outcome(status, opt_str(fail_code), opt_str(fail_msg), opt_str(video_url));
            match r {
                PollStep::Failed(m) => k == 0 && m@ == t,
                PollStep::Ready(u) => k == 1 && u@ == t,
                PollStep::Wait => k == 2,
                PollStep::Unexpected(m) => k == 3 && m@ == t,
            }
        }),
{
    if status == STATUS_FAILED {
        let mut v = chars_of("Upstream task failed with code ");
        match fail_code {
            Some(c) => append_str(&mut v, c),
            None => append_str(&mut v, "unknown"),
        }
        append_str(&mut v, ": ");
        match fail_msg {
            Some(m) => append_str(&mut v, m),
            None => {},
        }
        proof { assert(v@ =~= failed_msg(opt_str(fail_code), opt_str(fail_msg))); }
        return PollStep::Failed(string_from_chars(&v));
    }
    match video_url {
        Some(u) => {
            let uv = chars_of(u);
            if uv.len() > 0 {
                return PollStep::Ready(u.to_owned());
            }
        },
        None => {},
    }
    if status == STATUS_PENDING {
        PollStep::Wait
    } else {
        let mut v = chars_of("Upstream returned status ");
        append_chars(&mut v, &dec_of_i64(status));
        append_str(&mut v, " without video_url");
        PollStep::Unexpected(string_from_chars(&v))
    }
}

/// Whether polling goes on: `None` to poll, or the error that ends the task.
/// A cancel is seen first, then the deadline.
pub fn poll_gate(cancelled: bool, now: u64, deadline: u64, max_poll_secs: u64) -> (r: Option<String>)
    ensures
        cancelled ==> r is Some && r->0@ == "Task cancelled"@,
        !cancelled && now >= deadline ==> r is Some
            && r->0@ == "Polling timed out after "@ + dec(max_poll_secs as nat) + "s"@,
        !cancelled && now < deadline ==> r is None,
{
    if cancelled {
        Some("Task cancelled".to_owned())
    } else if now >= deadline {
        let mut v = chars_of("Polling timed out after ");
        append_chars(&mut v, &dec_of(max_poll_secs));
        append_str(&mut v, "s");
        Some(string_from_chars(&v))
    } else {
        None
    }
}

/// What a worker writes and releases when a task's pipeline ends.
#[derive(Debug)]
pub enum FinishAction {
    /// Mark the task succeeded with the URL; release the session as a success.
    Succeed(String),
    /// The client cancelled: release the session as a failure noting the
    /// cancel, and write nothing to the task.
    ReleaseCancelled,
    /// Mark the task failed with the message and kind; release the session
    /// as a failure; demote it when the kind is `auth`.
    Fail { message: String, kind: &'static str, demote: bool },
}

/// Decides how a task ends from the pipeline's outcome and whether the task
/// was cancelled when it failed.
pub fn finish_action(outcome: Result<String, String>, cancelled: bool) -> (r: FinishAction)
    ensures
        match outcome {
            Ok(u) => r == FinishAction::Succeed(u),
            Err(m) => if cancelled {
                r is ReleaseCancelled
            } else {
                match r {
                    FinishAction::Fail { message, kind, demote } => message@ == m@
                        && kind@ == error_kind_of(lower_of(m@))
                        && demote == (kind@ == "auth"@),
                    _ => false,
                }
            },
        },
{
    match outcome {
        Ok(u) => FinishAction::Succeed(u),
        Err(m) => {
            if cancelled {
                FinishAction::ReleaseCancelled
            } else {
                let kind = classify_error(m.as_str());
                let demote = crate::text::str_eq(kind, "auth");
                FinishAction::Fail { message: m, kind, demote }
            }
        },
    }
}

/// Little-endian 32-bit value of four bytes.
pub open spec fn le_u32(b: Seq<u8>, i: int) -> int {
    (b[i] as int) + 256 * (b[i + 1] as int) + 65536 * (b[i + 2] as int) + 16777216 * (b[i + 3] as int)
}

/// A count held at the top of the `u32` range.
pub open spec fn sat_u32(n: int) -> u32 {
    if n > u32::MAX { u32::MAX } else { n as u32 }
}

/// Whether the bytes at `i` spell the ASCII text `t`.
pub open spec fn tag_at(b: Seq<u8>, i: int, t: Seq<u8>) -> bool {
    0 <= i && i + t.len() <= b.len() && b.subrange(i, i + t.len()) == t
}

/// Milliseconds of audio from the chunk walk of a WAV file starting at `off`.
pub open spec fn wav_scan(b: Seq<u8>, off: int, rate: int) -> u32
    decreases (if 0 <= off <= b.len() { b.len() - off } else { 0 }),
{
    if off < 0 || off + 8 >= b.len() {
        sat_u32((b.len() - 44) * 1000 / rate)
    } else if tag_at(b, off, seq![100u8, 97u8, 116u8, 97u8]) {
        sat_u32(le_u32(b, off + 4) * 1000 / rate)
    } else {
        wav_scan(b, off + 8 + le_u32(b, off + 4), rate)
    }
}

/// Duration in milliseconds of an audio file: 0 below a 44-byte header; for
/// a WAV file the `data` chunk size over the byte rate; otherwise an
/// estimate at 128 kbit/s.
pub open spec fn audio_duration(b: Seq<u8>) -> u32 {
    if b.len() < 44 {
        0
    } else if !(tag_at(b, 0, seq![82u8, 73u8, 70u8, 70u8]) && tag_at(b, 8, seq![87u8, 65u8, 86u8, 69u8])) {
        sat_u32(b.len() as int / 16)
    } else if le_u32(b, 28) == 0 {
        0
    } else {
        wav_scan(b, 12, le_u32(b, 28))
    }
}

/// Whether the chunk walk from `off` (next chunk at `off + 8 + size`) passes
/// only non-`data` chunks, each with a full header, before reaching `target`.
pub open spec fn walk_reaches(b: Seq<u8>, off: int, target: int) -> bool
    decreases (if 0 <= off <= b.len() { b.len() - off } else { 0 }),
{
    if off == target {
        true
    } else if off < 0 || off + 8 >= b.len() || tag_at(b, off, seq![100u8, 97u8, 116u8, 97u8]) {
        false
    } else {
        walk_reaches(b, off + 8 + le_u32(b, off + 4), target)
    }
}

/// Along a walk that reaches `target`, the scan gives what it gives at `target`.
proof fn lemma_walk_scan(b: Seq<u8>, off: int, target: int, rate: int)
    requires
        walk_reaches(b, off, target),
    ensures
        wav_scan(b, off, rate) == wav_scan(b, target, rate),
    decreases (if 0 <= off <= b.len() { b.len() - off } else { 0 }),
{
    if off != target {
        lemma_walk_scan(b, off + 8 + le_u32(b, off + 4), target, rate);
    }
}

/// A WAV file whose chunk walk from offset 12 reaches a `data` chunk of size
/// `S` lasts `S * 1000 / byte_rate` milliseconds.
pub proof fn lemma_wav_duration(b: Seq<u8>, o: int)
    requires
        b.len() >= 44,
        tag_at(b, 0, seq![82u8, 73u8, 70u8, 70u8]),
        tag_at(b, 8, seq![87u8, 65u8, 86u8, 69u8]),
        le_u32(b, 28) > 0,
        walk_reaches(b, 12, o),
        0 <= o && o + 8 < b.len(),
        tag_at(b, o, seq![100u8, 97u8, 116u8, 97u8]),
    ensures
        audio_duration(b) == sat_u32(le_u32(b, o + 4) * 1000 / le_u32(b, 28)),
{
    lemma_walk_scan(b, 12, o, le_u32(b, 28));
}

/// Little-endian 32-bit value of four bytes.
fn read_le_u32(b: &[u8], i: usize) -> (r: u32)
    requires
        i + 4 <= b@.len(),
    ensures
        r as int == le_u32(b@, i as int),
{
    b[i] as u32 + 256 * b[i + 1] as u32 + 65536 * b[i + 2] as u32 + 16777216 * b[i + 3] as u32
}

/// `n * 1000 / d`, held at the top of the `u32` range.
fn scaled_ms(n: u128, d: u128) -> (r: u32)
    requires
        d > 0,
        n <= u64::MAX,
    ensures
        r == sat_u32(n as int * 1000 / d as int),
{
    let q = n * 1000 / d;
    if q > u32::MAX as u128 { u32::MAX } else { q as u32 }
}

/// Duration in milliseconds of an audio file (see `audio_duration`).
pub fn parse_audio_duration(data: &[u8]) -> (r: u32)
    ensures
        r == audio_duration(data@),
{
    let len = data.len();
    if len < 44 {
        return 0;
    }
    let riff: [u8; 4] = [82, 73, 70, 70];
    let wave: [u8; 4] = [87, 65, 86, 69];
    let data_tag: [u8; 4] = [100, 97, 116, 97];
    assert(riff@ =~= seq![82u8, 73u8, 70u8, 70u8]);
    assert(wave@ =~= seq![87u8, 65u8, 86u8, 69u8]);
    assert(data_tag@ =~= seq![100u8, 97u8, 116u8, 97u8]);
    if !(crate::text::matches_at(data, &riff, 0) && crate::text::matches_at(data, &wave, 8)) {
        let est = len / 16;
        return if est > u32::MAX as usize { u32::MAX } else { est as u32 };
    }
    let byte_rate = read_le_u32(data, 28);
    assert(tag_at(data@, 0, seq![82u8, 73u8, 70u8, 70u8]));
    assert(tag_at(data@, 8, seq![87u8, 65u8, 86u8, 69u8]));
    if byte_rate == 0 {
        return 0;
    }
    assert(audio_duration(data@) == wav_scan(data@, 12, byte_rate as int));
    let mut offset: usize = 12;
    while offset < len && len - offset > 8
        invariant
            offset <= len,
            len == data@.len(),
            len >= 44,
            byte_rate > 0,
            byte_rate as int == le_u32(data@, 28),
            data_tag@ == seq![100u8, 97u8, 116u8, 97u8],
            wav_scan(data@, 12, byte_rate as int) == wav_scan(data@, offset as int, byte_rate as int),
            audio_duration(data@) == wav_scan(data@, 12, byte_rate as int),
        decreases len - offset,
    {
        let size = read_le_u32(data, offset + 4);
        if crate::text::matches_at(data, &data_tag, offset) {
            assert(wav_scan(data@, offset as int, byte_rate as int)
                == sat_u32(size as int * 1000 / byte_rate as int));
            return scaled_ms(size as u128, byte_rate as u128);
        }
        assert(wav_scan(data@, offset as int, byte_rate as int)
            == wav_scan(data@, offset + 8 + size, byte_rate as int));
        if size as usize >= len - (offset + 8) {
            assert(wav_scan(data@, offset + 8 + size, byte_rate as int)
                == sat_u32((len - 44) * 1000 / byte_rate as int));
            return scaled_ms((len - 44) as u128, byte_rate as u128);
        }
        offset = offset + 8 + size as usize;
    }
    scaled_ms((len - 44) as u128, byte_rate as u128)
}

/// CRC-32 checksum of a byte string.
pub uninterp spec fn crc32_of(b: Seq<u8>) -> u32;

/// Relies on `crc32fast::hash`: the CRC-32 checksum of the bytes.
#[verifier::external_body]
fn crc32(b: &[u8]) -> (r: u32)
    ensures
        r == crc32_of(b@),
{
    crc32fast::hash(b)
}

/// Eight lower-case hex digits of a 32-bit value, most significant first.
pub open spec fn hex8(x: u32) -> Seq<char> {
    Seq::new(8, |i: int| crate::api_key::hex_alphabet()[((x as int / pow16(7 - i)) % 16)])
}

/// Sixteen to the power `n`.
pub open spec fn pow16(n: int) -> int
    decreases n,
{
    if n <= 0 { 1 } else { 16 * pow16(n - 1) }
}

/// The checksum header value of an upload: eight lower-case hex digits.
pub fn crc32_hex(data: &[u8]) -> (r: String)
    ensures
        r@ == hex8(crc32_of(data@)),
{
    let x = crc32(data);
    let digits = "0123456789abcdef";
    let mut v: Vec<char> = Vec::new();
    let mut i: usize = 0;
    let mut p: u32 = 0x1000_0000;
    proof {
        reveal_strlit("0123456789abcdef");
        reveal_with_fuel(pow16, 8);
    }
    while i < 8
        invariant
            i <= 8,
            p as int == pow16(7 - i),
            digits@ == crate::api_key::hex_alphabet(),
            digits@.len() == 16,
            v@.len() == i,
            forall|k: int| 0 <= k < i ==> v@[k] == hex8(x)[k],
        decreases 8 - i,
    {
        proof { lemma_pow16_pos(7 - i as int); }
        let d = (x / p) % 16;
        v.push(digits.get_char(d as usize));
        if i < 7 {
            proof { lemma_pow16_step(7 - i as int); }
            p = p / 16;
        }
        i += 1;
    }
    assert(v@ =~= hex8(x));
    string_from_chars(&v)
}

proof fn lemma_pow16_pos(n: int)
    ensures
        pow16(n) >= 1,
    decreases n,
{
    if n > 0 { lemma_pow16_pos(n - 1); }
}

proof fn lemma_pow16_step(n: int)
    requires
        n >= 1,
    ensures
        pow16(n) / 16 == pow16(n - 1),
{
}

} // verus!
