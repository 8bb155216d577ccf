use video_gateway::api_key::{generate_key, hash_key, is_valid_format, key_prefix};
use video_gateway::models::{
    aspect_ratio_str, detect_material_type_from_ext, detect_material_type_from_mime, draft_version, gcd,
    is_seedance_model, model_map, resolve_model, resolve_video_resolution, seedance_benefit_type, MaterialType,
};

#[test]
fn resolution_table_values() {
    let r = resolve_video_resolution("720p", "16:9").unwrap();
    assert_eq!((r.width, r.height), (1280, 720));
    let r = resolve_video_resolution("480p", "9:16").unwrap();
    assert_eq!((r.width, r.height), (480, 854));
    let r = resolve_video_resolution("1080p", "4:3").unwrap();
    assert_eq!((r.width, r.height), (1440, 1080));
    let r = resolve_video_resolution("1080p", "3:4").unwrap();
    assert_eq!((r.width, r.height), (1080, 1440));
    let r = resolve_video_resolution("480p", "1:1").unwrap();
    assert_eq!((r.width, r.height), (480, 480));
}

#[test]
fn resolution_unknown_pair_is_an_error() {
    let e = resolve_video_resolution("4k", "16:9").unwrap_err();
    assert_eq!(e, "Unsupported resolution/ratio: 4k/16:9");
    let e = resolve_video_resolution("720p", "21:9").unwrap_err();
    assert_eq!(e, "Unsupported resolution/ratio: 720p/21:9");
}

#[test]
fn resolution_is_stable_across_calls() {
    for res in ["480p", "720p", "1080p"] {
        for ratio in ["1:1", "4:3", "3:4", "16:9", "9:16"] {
            let a = resolve_video_resolution(res, ratio).unwrap();
            let b = resolve_video_resolution(res, ratio).unwrap();
            assert_eq!(a, b);
        }
    }
}

#[test]
fn aspect_ratio_is_reduced_and_scale_free() {
    assert_eq!(aspect_ratio_str(1920, 1080), "16:9");
    assert_eq!(aspect_ratio_str(1280, 720), "16:9");
    assert_eq!(aspect_ratio_str(720, 720), "1:1");
    assert_eq!(aspect_ratio_str(854, 480), "427:240");
    assert_eq!(aspect_ratio_str(854 * 3, 480 * 3), "427:240");
    assert_eq!(aspect_ratio_str(0, 5), "0:1");
    assert_eq!(gcd(12, 18), 6);
    assert_eq!(gcd(7, 0), 7);
}

#[test]
fn model_tables() {
    assert_eq!(model_map().len(), 10);
    assert_eq!(resolve_model("jimeng-video-3.5-pro"), "dreamina_ic_generate_video_model_vgfm_3.5_pro");
    assert_eq!(resolve_model("seedance-2.0-fast"), "dreamina_seedance_40");
    assert_eq!(resolve_model("no-such-model"), "dreamina_ic_generate_video_model_vgfm_3.0");
    assert_eq!(draft_version("jimeng-video-3.5-pro"), "3.3.4");
    assert_eq!(draft_version("seedance-2.0"), "3.3.9");
    assert_eq!(draft_version("jimeng-video-3.0"), "3.2.8");
    assert_eq!(draft_version("unknown"), "3.2.8");
    assert_eq!(seedance_benefit_type("seedance-2.0-fast"), "dreamina_seedance_20_fast");
    assert_eq!(seedance_benefit_type("seedance-2.0"), "dreamina_video_seedance_20_pro");
    assert!(is_seedance_model("seedance-2.0"));
    assert!(is_seedance_model("jimeng-video-seedance-2.0-fast"));
    assert!(!is_seedance_model("jimeng-video-3.0"));
}

#[test]
fn material_kinds() {
    assert_eq!(detect_material_type_from_mime("IMAGE/PNG"), MaterialType::Image);
    assert_eq!(detect_material_type_from_mime("video/mp4"), MaterialType::Video);
    assert_eq!(detect_material_type_from_mime("audio/wav"), MaterialType::Audio);
    assert_eq!(detect_material_type_from_mime("text/plain"), MaterialType::Image);
    assert_eq!(detect_material_type_from_ext("clip.MP4"), MaterialType::Video);
    assert_eq!(detect_material_type_from_ext("a.b.wav"), MaterialType::Audio);
    assert_eq!(detect_material_type_from_ext("noext"), MaterialType::Image);
    assert_eq!(detect_material_type_from_ext("x.txt"), MaterialType::Image);
    assert_eq!(MaterialType::Video.code(), 2);
    assert_eq!(MaterialType::Audio.as_str(), "audio");
}

#[test]
fn generated_key_shape() {
    let k = generate_key();
    assert_eq!(k.len(), 35);
    assert!(k.starts_with("gw_"));
    assert!(k[3..].chars().all(|c| c.is_ascii_hexdigit() && !c.is_ascii_uppercase()));
    assert!(is_valid_format(&k));
    let h = hash_key(&k);
    assert_eq!(h.len(), 64);
    assert!(h.chars().all(|c| "0123456789abcdef".contains(c)));
    assert_eq!(key_prefix(&k), k[..8].to_string());
}

#[test]
fn key_hash_and_prefix() {
    assert_eq!(hash_key("abc"), "ba7816bf8f01cfea414140de5dae2223b00361a396177a9cb410ff61f20015ad");
    assert_eq!(key_prefix("gw_abcdef123"), "gw_abcde");
    assert_eq!(key_prefix("gw_a"), "gw_a");
    assert!(!is_valid_format("gw_short"));
    assert!(!is_valid_format("xx_0123456789abcdef0123456789abcdef"));
    assert!(is_valid_format("gw_0123456789abcdef0123456789abcdef"));
}
