use video_gateway::draft::{build_meta_list, final_benefit_type, first_image_uri, material_type_codes, MetaEntry};
use video_gateway::models::{MaterialType, UploadedMaterial};
use video_gateway::multipart::{extract_header_value, extract_multipart_fields, extract_multipart_files, find_subsequence};
use video_gateway::signer::{compute_sign, SigningIdentity};
use video_gateway::worker::{
    classify_error, crc32_hex, finish_action, format_eta, parse_audio_duration, poll_gate, poll_step, FinishAction,
    PollStep,
};

fn material(kind: MaterialType, uri: Option<&str>) -> UploadedMaterial {
    UploadedMaterial {
        material_type: kind,
        uri: uri.map(|u| u.to_string()),
        vid: None,
        width: 0,
        height: 0,
        duration: 0,
        fps: 0,
        name: "m".to_string(),
    }
}

#[test]
fn error_kinds() {
    assert_eq!(classify_error("Request UNAUTHORIZED"), "auth");
    assert_eq!(classify_error("please login again"), "auth");
    assert_eq!(classify_error("Polling timed out after 60s"), "timeout");
    assert_eq!(classify_error("内容违规，请修改"), "platform_rule");
    assert_eq!(classify_error("违反平台规则"), "platform_rule");
    assert_eq!(classify_error("Network unreachable"), "network");
    assert_eq!(classify_error("ECONNREFUSED 127.0.0.1"), "network");
    assert_eq!(classify_error("something else"), "unknown");
}

#[test]
fn eta_text() {
    assert_eq!(format_eta(3725), "1h2m");
    assert_eq!(format_eta(3600), "1h0m");
    assert_eq!(format_eta(125), "2m5s");
    assert_eq!(format_eta(60), "1m0s");
    assert_eq!(format_eta(42), "42s");
    assert_eq!(format_eta(0), "0s");
    assert_eq!(format_eta(-5), "-5s");
}

#[test]
fn poll_outcomes() {
    match poll_step(30, Some("1180"), Some("bad prompt"), Some("https://x")) {
        PollStep::Failed(m) => assert_eq!(m, "Upstream task failed with code 1180: bad prompt"),
        other => panic!("{:?}", other),
    }
    match poll_step(30, None, None, None) {
        PollStep::Failed(m) => assert_eq!(m, "Upstream task failed with code unknown: "),
        other => panic!("{:?}", other),
    }
    match poll_step(50, None, None, Some("https://v/1.mp4")) {
        PollStep::Ready(u) => assert_eq!(u, "https://v/1.mp4"),
        other => panic!("{:?}", other),
    }
    assert!(matches!(poll_step(20, None, None, Some("")), PollStep::Wait));
    assert!(matches!(poll_step(20, None, None, None), PollStep::Wait));
    match poll_step(50, None, None, None) {
        PollStep::Unexpected(m) => assert_eq!(m, "Upstream returned status 50 without video_url"),
        other => panic!("{:?}", other),
    }
}

#[test]
fn poll_gate_order() {
    assert_eq!(poll_gate(true, 100, 50, 60).as_deref(), Some("Task cancelled"));
    assert_eq!(poll_gate(false, 100, 50, 14400).as_deref(), Some("Polling timed out after 14400s"));
    assert_eq!(poll_gate(false, 10, 50, 60), None);
}

#[test]
fn finish_actions() {
    assert!(matches!(finish_action(Ok("u".to_string()), false), FinishAction::Succeed(u) if u == "u"));
    assert!(matches!(finish_action(Err("x".to_string()), true), FinishAction::ReleaseCancelled));
    match finish_action(Err("Invalid token".to_string()), false) {
        FinishAction::Fail { message, kind, demote } => {
            assert_eq!(message, "Invalid token");
            assert_eq!(kind, "auth");
            assert!(demote);
        }
        other => panic!("{:?}", other),
    }
    match finish_action(Err("boom".to_string()), false) {
        FinishAction::Fail { kind, demote, .. } => {
            assert_eq!(kind, "unknown");
            assert!(!demote);
        }
        other => panic!("{:?}", other),
    }
}

fn wav(byte_rate: u32, chunks: &[(&[u8; 4], u32, usize)]) -> Vec<u8> {
    let mut v = Vec::new();
    v.extend_from_slice(b"RIFF");
    v.extend_from_slice(&0u32.to_le_bytes());
    v.extend_from_slice(b"WAVE");
    v.extend_from_slice(b"fmt ");
    v.extend_from_slice(&16u32.to_le_bytes());
    v.extend_from_slice(&[1, 0, 1, 0]);
    v.extend_from_slice(&8000u32.to_le_bytes());
    v.extend_from_slice(&byte_rate.to_le_bytes());
    v.extend_from_slice(&[2, 0, 16, 0]);
    for (id, size, fill) in chunks {
        v.extend_from_slice(&id[..]);
        v.extend_from_slice(&size.to_le_bytes());
        v.extend(std::iter::repeat(0u8).take(*fill));
    }
    v
}

#[test]
fn wav_durations() {
    assert_eq!(parse_audio_duration(&[0u8; 43]), 0);
    assert_eq!(parse_audio_duration(&vec![7u8; 16000]), 1000);
    assert_eq!(parse_audio_duration(&vec![7u8; 100]), 6);
    let data = wav(16000, &[(b"data", 32000, 8)]);
    assert_eq!(parse_audio_duration(&data), 2000);
    let data = wav(16000, &[(b"LIST", 4, 4), (b"data", 8000, 8)]);
    assert_eq!(parse_audio_duration(&data), 500);
    let data = wav(0, &[(b"data", 32000, 8)]);
    assert_eq!(parse_audio_duration(&data), 0);
    let data = wav(1000, &[(b"LIST", 4000, 4)]);
    assert_eq!(parse_audio_duration(&data), ((data.len() - 44) as u64 * 1000 / 1000) as u32);
}

#[test]
fn crc_text() {
    assert_eq!(crc32_hex(b"123456789"), "cbf43926");
    assert_eq!(crc32_hex(b""), "00000000");
}

#[test]
fn sign_header() {
    assert_eq!(compute_sign("/mweb/v1/aigc_draft/generate", 1700000000), "a29e0b750501aa30af81fd309a15ceca");
    assert_eq!(compute_sign("/a", 5), "ae69856f5048add2d83d1a229a11ae4f");
}

#[test]
fn cookie_and_params() {
    let id = SigningIdentity { device_id: 7000000000000000001, web_id: 7000000000000000002, user_id: "abc123".to_string() };
    let c = id.generate_cookie("TOK", 42);
    assert_eq!(
        c,
        "_tea_web_id=7000000000000000002; is_staff_user=false; store-region=cn-gd; store-region-src=uid; \
         sid_guard=TOK%7C42%7C5184000%7CMon%2C+03-Feb-2025+08%3A17%3A09+GMT; uid_tt=abc123; uid_tt_ss=abc123; \
         sid_tt=TOK; sessionid=TOK; sessionid_ss=TOK"
    );
    let q = id.standard_query_params();
    assert_eq!(q.len(), 8);
    assert_eq!(q[0], ("aid", "513695".to_string()));
    assert_eq!(q[3], ("webId", "7000000000000000002".to_string()));
    let cookies = id.get_cookies_for_browser("TOK");
    assert_eq!(cookies.len(), 9);
    assert_eq!(cookies[8], ("sessionid_ss", "TOK".to_string(), ".jianying.com"));
    let h = id.build_headers("TOK", "/a", 5);
    assert_eq!(h.len(), 18);
    assert_eq!(h[16], ("Sign", "ae69856f5048add2d83d1a229a11ae4f".to_string()));
    assert_eq!(h[15], ("Device-Time", "5".to_string()));
    let fresh = SigningIdentity::new();
    assert!(fresh.web_id >= 7000000000000000000);
    assert!(!fresh.user_id.contains('-'));
    assert_eq!(fresh.user_id.len(), 32);
}

const BODY: &[u8] = b"preamble\r\n--XyZ\r\nContent-Disposition: form-data; name=\"prompt\"\r\n\r\na cat @1\r\n--XyZ\r\nContent-Disposition: form-data; name=\"file\"; filename=\"cat.png\"\r\nContent-Type: image/png\r\n\r\nPNGDATA\r\n--XyZ\r\nContent-Disposition: form-data; name=\"duration\"\r\n\r\n 8 \r\n--XyZ\r\nContent-Disposition: form-data; name=\"clip\"; filename=\"c.bin\"\r\n\r\nRAW\r\n--XyZ--\r\n";

#[test]
fn multipart_files() {
    let files = extract_multipart_files("multipart/form-data; boundary=XyZ", BODY);
    assert_eq!(files.len(), 2);
    assert_eq!(files[0].filename, "cat.png");
    assert_eq!(files[0].content_type, "image/png");
    assert_eq!(files[0].data, b"PNGDATA".to_vec());
    assert_eq!(files[1].filename, "c.bin");
    assert_eq!(files[1].content_type, "application/octet-stream");
    assert_eq!(files[1].data, b"RAW".to_vec());
}

#[test]
fn multipart_without_boundary_is_empty() {
    assert!(extract_multipart_files("multipart/form-data", BODY).is_empty());
    assert!(extract_multipart_files("multipart/form-data; boundary=  ", BODY).is_empty());
    let f = extract_multipart_fields("multipart/form-data", BODY);
    assert_eq!(f, (String::new(), None, None, None));
}

#[test]
fn multipart_fields() {
    let (prompt, model, duration, ratio) = extract_multipart_fields("multipart/form-data; boundary=XyZ", BODY);
    assert_eq!(prompt, "a cat @1");
    assert_eq!(model, None);
    assert_eq!(duration, Some(8));
    assert_eq!(ratio, None);
}

#[test]
fn byte_and_header_search() {
    assert_eq!(find_subsequence(b"abcabc", b"ca"), Some(2));
    assert_eq!(find_subsequence(b"abc", b"abcd"), None);
    assert_eq!(find_subsequence(b"abc", b"x"), None);
    assert_eq!(
        extract_header_value("form-data; name=\"f\"; filename=\"a.png\"", "filename=\"", "\"").as_deref(),
        Some("a.png")
    );
    assert_eq!(extract_header_value("no marker", "filename=\"", "\""), None);
    assert_eq!(extract_header_value("filename=\"open", "filename=\"", "\""), None);
}

#[test]
fn meta_list_with_placeholders() {
    let mats = vec![material(MaterialType::Image, Some("u1")), material(MaterialType::Video, None)];
    let m = build_meta_list("see @1 then @图2 and @image9 end", &mats);
    assert_eq!(m.len(), 6);
    assert!(matches!(&m[0], MetaEntry::Text(t) if t == "see "));
    assert!(matches!(&m[1], MetaEntry::Material { material_type: MaterialType::Image, index: 0 }));
    assert!(matches!(&m[2], MetaEntry::Text(t) if t == " then "));
    assert!(matches!(&m[3], MetaEntry::Material { material_type: MaterialType::Video, index: 1 }));
    assert!(matches!(&m[4], MetaEntry::Text(t) if t == " and "));
    assert!(matches!(&m[5], MetaEntry::Text(t) if t == " end"));
    let m = build_meta_list("@image", &mats);
    assert_eq!(m.len(), 5);
    assert!(matches!(&m[4], MetaEntry::Text(t) if t == "素材，@image"));
    let m = build_meta_list("@7", &mats);
    assert_eq!(m.len(), 5);
    assert!(matches!(&m[4], MetaEntry::Text(t) if t == "素材，@7"));
}

#[test]
fn meta_list_default() {
    let mats = vec![material(MaterialType::Image, Some("u1")), material(MaterialType::Audio, None)];
    let m = build_meta_list("a dog", &mats);
    assert_eq!(m.len(), 5);
    assert!(matches!(&m[0], MetaEntry::Text(t) if t == "使用"));
    assert!(matches!(&m[1], MetaEntry::Material { index: 0, .. }));
    assert!(matches!(&m[2], MetaEntry::Text(t) if t == "和"));
    assert!(matches!(&m[3], MetaEntry::Material { material_type: MaterialType::Audio, index: 1 }));
    assert!(matches!(&m[4], MetaEntry::Text(t) if t == "素材，a dog"));
    let m = build_meta_list("  ", &[]);
    assert_eq!(m.len(), 2);
    assert!(matches!(&m[1], MetaEntry::Text(t) if t == "素材生成视频"));
}

#[test]
fn benefit_codes_and_first_frame() {
    let mats = vec![
        material(MaterialType::Audio, None),
        material(MaterialType::Image, Some("img-1")),
        material(MaterialType::Image, Some("img-2")),
    ];
    assert_eq!(final_benefit_type("seedance-2.0", &mats), "dreamina_video_seedance_20_pro");
    let with_video = vec![material(MaterialType::Video, None)];
    assert_eq!(final_benefit_type("seedance-2.0-fast", &with_video), "dreamina_seedance_20_fast_with_video");
    assert_eq!(material_type_codes(&mats), vec![3, 1]);
    assert_eq!(first_image_uri(&mats).as_deref(), Some("img-1"));
    assert_eq!(first_image_uri(&with_video), None);
}
