use video_gateway::pool::SessionPool;
use video_gateway::queue::{CreateTaskRequest, TaskQueue, TaskStatus};
use video_gateway::sigv4::aws4_signature;
use video_gateway::worker::{finish_action, poll_step, FinishAction, PollStep};

fn pairs(v: &[(&str, &str)]) -> Vec<(String, String)> {
    v.iter().map(|(a, b)| (a.to_string(), b.to_string())).collect()
}

#[test]
fn sigv4_get_apply() {
    let q = pairs(&[
        ("Action", "ApplyImageUpload"),
        ("Version", "2018-08-01"),
        ("ServiceId", "sid"),
        ("FileSize", "10"),
        ("s", "abc"),
    ]);
    let h = pairs(&[("x-amz-date", "20240101T000000Z"), ("x-amz-security-token", "STS")]);
    let a = aws4_signature("GET", "/", &q, &h, "AK", "SK", Some("STS"), "", "cn-north-1", "imagex").unwrap();
    assert_eq!(
        a,
        "AWS4-HMAC-SHA256 Credential=AK/20240101/cn-north-1/imagex/aws4_request, \
         SignedHeaders=x-amz-date;x-amz-security-token, \
         Signature=c54c363064f0b4640b47ed2e44f702297c302d5618e97a6f2407c3f82e840ee0"
    );
}

#[test]
fn sigv4_post_commit() {
    let q = pairs(&[("Action", "CommitImageUpload"), ("A", "2"), ("A", "1")]);
    let h = pairs(&[("x-amz-date", "20240101T000000Z"), ("Host", " vod.example.com ")]);
    let a = aws4_signature("post", "/", &q, &h, "AK", "SK", Some("STS"), "{\"a\":1}", "cn-north-1", "vod").unwrap();
    assert_eq!(
        a,
        "AWS4-HMAC-SHA256 Credential=AK/20240101/cn-north-1/vod/aws4_request, \
         SignedHeaders=host;x-amz-content-sha256;x-amz-date;x-amz-security-token, \
         Signature=fe544c4d4b4d567545edeebb58204711d519406e65b4ebc6447fe714978fdf8f"
    );
}

#[test]
fn sigv4_needs_request_time() {
    let h = pairs(&[("X-Amz-Date", "20240101T000000Z")]);
    assert!(aws4_signature("GET", "/", &Vec::new(), &h, "AK", "SK", None, "", "r", "s").is_err());
    let h = pairs(&[("x-amz-date", "2024")]);
    assert!(aws4_signature("GET", "/", &Vec::new(), &h, "AK", "SK", None, "", "r", "s").is_err());
}

#[test]
fn happy_path_standard_model() {
    let mut q = TaskQueue::new();
    let mut pool = SessionPool::new();
    let s = pool.add_session("main", "cookie", 0);
    let req = CreateTaskRequest {
        prompt: "a cat".to_string(),
        duration: Some(4),
        ratio: Some("16:9".to_string()),
        model: Some("jimeng-video-3.0".to_string()),
        files: None,
    };
    let t = q.enqueue(req, None, None, 1);
    assert_eq!(t.status, TaskStatus::Queued);
    let id = q.claim_next(2).unwrap();
    let sess = pool.pick_session(2).unwrap();
    assert!(q.assign_session(&id, sess.id.clone(), 2));
    assert!(q.record_submission(&id, "987654".to_string(), 3));
    assert!(matches!(poll_step(20, None, None, None), PollStep::Wait));
    assert!(q.record_progress(&id, Some(3), Some(10), Some("30s".to_string()), 4));
    let url = match poll_step(50, None, None, Some("https://v/cat.mp4")) {
        PollStep::Ready(u) => u,
        other => panic!("{:?}", other),
    };
    assert!(q.update_status(&id, TaskStatus::Downloading, 5));
    match finish_action(Ok(url), false) {
        FinishAction::Succeed(u) => {
            assert!(q.complete_task(&id, u, 6));
            pool.release_session(&sess.id, true, None);
        }
        other => panic!("{:?}", other),
    }
    let done = q.get_task(&t.id).unwrap();
    assert_eq!(done.status, TaskStatus::Succeeded);
    assert_eq!(done.video_url.as_deref(), Some("https://v/cat.mp4"));
    assert_eq!(done.finished_at, Some(6));
    let row = &pool.list_sessions()[0];
    assert_eq!(row.id, s.id);
    assert_eq!(row.success_count, 1);
    assert_eq!(row.active_tasks, 0);
}

use video_gateway::response::{check_ret, first_video_url, history_record_id, item_id, JsonScalar};

#[test]
fn history_id_candidates() {
    let c = vec![None, Some(JsonScalar::Null), Some(JsonScalar::Int(12345)), Some(JsonScalar::Str("x".to_string()))];
    assert_eq!(history_record_id(&c), Ok("12345".to_string()));
    let c = vec![Some(JsonScalar::Str("abc".to_string())), Some(JsonScalar::Int(1))];
    assert_eq!(history_record_id(&c), Ok("abc".to_string()));
    let c = vec![Some(JsonScalar::Other("[1]".to_string()))];
    assert_eq!(history_record_id(&c), Err("Unexpected history_record_id type: [1]".to_string()));
    assert_eq!(history_record_id(&vec![None, None]), Err("No history_record_id in submit response".to_string()));
}

#[test]
fn video_url_and_item_candidates() {
    let c = vec![None, Some(JsonScalar::Str("https://v/1".to_string())), Some(JsonScalar::Str("https://v/2".to_string()))];
    assert_eq!(first_video_url(&c).as_deref(), Some("https://v/1"));
    let c = vec![Some(JsonScalar::Str(String::new())), Some(JsonScalar::Str("https://v/2".to_string()))];
    assert_eq!(first_video_url(&c), None);
    assert_eq!(item_id(&vec![None, Some(JsonScalar::Int(-7))]).as_deref(), Some("-7"));
    assert_eq!(item_id(&vec![Some(JsonScalar::Other("{}".to_string()))]), None);
}

#[test]
fn return_codes() {
    assert_eq!(check_ret(None, None), Ok(()));
    assert_eq!(check_ret(Some(JsonScalar::Str("0".to_string())), None), Ok(()));
    assert_eq!(check_ret(Some(JsonScalar::Str("abc".to_string())), None), Ok(()));
    assert_eq!(
        check_ret(Some(JsonScalar::Str("1014".to_string())), Some("login required".to_string())),
        Err("Submit failed [ret=1014]: login required".to_string())
    );
    assert_eq!(check_ret(Some(JsonScalar::Int(5)), None), Err("Submit failed [ret=5]: unknown".to_string()));
}

#[test]
fn auth_failure_demotes_session_and_requeues_next_task() {
    let mut q = TaskQueue::new();
    let mut pool = SessionPool::new();
    let s = pool.add_session("only", "cookie", 0);
    let req = |p: &str| CreateTaskRequest { prompt: p.to_string(), duration: None, ratio: None, model: None, files: None };
    q.enqueue(req("first"), None, None, 1);
    q.enqueue(req("second"), None, None, 2);
    let id = q.claim_next(3).unwrap();
    let sess = pool.pick_session(3).unwrap();
    q.assign_session(&id, sess.id.clone(), 3);
    let cancelled = q.is_task_cancelled(&id);
    match finish_action(Err("Submit failed [ret=1014]: login required".to_string()), cancelled) {
        FinishAction::Fail { message, kind, demote } => {
            assert!(q.fail_task(&id, message.clone(), kind.to_string(), 4));
            pool.release_session(&sess.id, false, Some(&message));
            assert!(demote);
            pool.mark_unhealthy(&sess.id);
        }
        other => panic!("{:?}", other),
    }
    let failed = q.get_task(&id).unwrap();
    assert_eq!(failed.status, TaskStatus::Failed);
    assert_eq!(failed.error_kind.as_deref(), Some("auth"));
    let row = &pool.list_sessions()[0];
    assert_eq!(row.id, s.id);
    assert!(!row.healthy);
    assert_eq!(row.active_tasks, 0);
    let next = q.claim_next(5).unwrap();
    assert!(pool.pick_session(5).is_none());
    assert!(q.requeue_task(&next, 5));
    assert_eq!(q.get_task(&next).unwrap().status, TaskStatus::Queued);
}

use video_gateway::api_key::is_valid_format;
use video_gateway::auth::rate_limited_headers;
use video_gateway::draft::{regular_draft, seedance_draft};
use video_gateway::models::{MaterialType, UploadedMaterial};
use video_gateway::rate_limiter::RateLimitResult;
use video_gateway::signer::SigningIdentity;

#[test]
fn key_format_needs_hex_digits() {
    let z = format!("gw_{}", "z".repeat(32));
    assert!(!is_valid_format(&z));
    let upper = format!("gw_{}", "A".repeat(32));
    assert!(!is_valid_format(&upper));
    assert!(is_valid_format(&format!("gw_{}", "0a".repeat(16))));
}

#[test]
fn retry_after_on_denial() {
    let rl = RateLimitResult { allowed: false, limit: 2, remaining: 0, reset_secs: 30 };
    let h = rate_limited_headers(&rl);
    assert_eq!(h[0], ("Retry-After", "30".to_string()));
    assert_eq!(h[1], ("X-RateLimit-Limit", "2".to_string()));
    assert_eq!(h[2], ("X-RateLimit-Remaining", "0".to_string()));
    assert_eq!(h[3], ("X-RateLimit-Reset", "30".to_string()));
}

#[test]
fn standard_draft_values() {
    let d = regular_draft("a cat", "jimeng-video-3.5-pro", 1280, 720, 4, "720p", Some("img"), None,
        "c1".to_string(), "s1".to_string(), 100000005, 99);
    assert_eq!(d.root_model, "dreamina_ic_generate_video_model_vgfm_3.5_pro");
    assert_eq!(d.model_req_key, "dreamina_ic_generate_video_model_vgfm_3.5_pro");
    assert_eq!(d.version, "3.3.4");
    assert_eq!(d.video_aspect_ratio, "16:9");
    assert_eq!(d.seed, 2500000005);
    assert_eq!(d.duration_ms, 4000);
    assert_eq!(d.fps, 24);
    assert_eq!(d.first_frame_uri.as_deref(), Some("img"));
    assert_eq!(d.benefit_type, "basic_video_operation_vgfm_v_three");
    let e = regular_draft("a cat", "jimeng-video-3.5-pro", 720, 1280, 5, "720p", None, Some("end"),
        "c".to_string(), "s".to_string(), 0, 0);
    assert_eq!(e.root_model, "dreamina_ic_generate_video_model_vgfm_3.0");
    assert_eq!(e.model_req_key, "dreamina_ic_generate_video_model_vgfm_3.5_pro");
    assert_eq!(e.video_aspect_ratio, "9:16");
    assert_eq!(e.end_frame_uri.as_deref(), Some("end"));
}

#[test]
fn signed_draft_values() {
    let mats = vec![UploadedMaterial {
        material_type: MaterialType::Video, uri: None, vid: Some("v".to_string()),
        width: 1, height: 1, duration: 1000, fps: 24, name: "m".to_string(),
    }];
    let d = seedance_draft("move @1", "seedance-2.0-fast", 720, 720, 5, &mats, "c".to_string(), "s".to_string(), 1234567890, 7);
    assert_eq!(d.model_req_key, "dreamina_seedance_40");
    assert_eq!(d.version, "3.3.9");
    assert_eq!(d.benefit_type, "dreamina_seedance_20_fast_with_video");
    assert_eq!(d.video_aspect_ratio, "1:1");
    assert_eq!(d.seed, 234567890);
    assert_eq!(d.duration_ms, 5000);
    assert_eq!(d.material_type_codes, vec![2]);
    assert_eq!(d.meta_list.len(), 2);
}

#[test]
fn submit_query_params() {
    let id = SigningIdentity { device_id: 1, web_id: 7000000000000000002, user_id: "u".to_string() };
    let r = id.regular_submit_params("3.2.8");
    assert_eq!(r.len(), 9);
    assert_eq!(r[4], ("da_version", "3.3.2".to_string()));
    assert_eq!(r[8], ("da_version", "3.2.8".to_string()));
    let s = id.seedance_submit_params("3.3.9");
    assert_eq!(s.len(), 8);
    assert_eq!(s[4], ("da_version", "3.3.9".to_string()));
}

#[test]
fn list_newest_by_creation_and_fresh_ids() {
    let mut q = TaskQueue::new();
    let req = |p: &str| CreateTaskRequest { prompt: p.to_string(), duration: None, ratio: None, model: None, files: None };
    let a = q.enqueue(req("a"), None, None, 50);
    let b = q.enqueue(req("b"), None, None, 10);
    let c = q.enqueue(req("c"), None, None, 30);
    assert!(a.id != b.id && b.id != c.id && a.id != c.id);
    let l = q.list_tasks(None, 10);
    let ids: Vec<&str> = l.iter().map(|t| t.id.as_str()).collect();
    assert_eq!(ids, vec![a.id.as_str(), c.id.as_str(), b.id.as_str()]);
    let top = q.list_tasks(None, 2);
    assert_eq!(top.len(), 2);
    assert_eq!(top[1].id, c.id);
    let r = q.retry_task(&b.id, 60).unwrap();
    assert!(r.id != a.id && r.id != b.id && r.id != c.id);
    assert_eq!(q.list_tasks(None, 1)[0].id, r.id);
}

#[test]
fn refill_after_quiet_minute() {
    let mut rl = video_gateway::rate_limiter::RateLimiter::new();
    for t in [0u64, 100, 200, 300, 400, 500] {
        rl.check("k", 2, t);
    }
    let later = 500 + 60_000;
    assert!(rl.check("k", 2, later).allowed);
    assert!(rl.check("k", 2, later).allowed);
    assert!(!rl.check("k", 2, later).allowed);
}

use video_gateway::response::hq_video_url;

#[test]
fn hq_url_choice() {
    let c = vec![None, Some(JsonScalar::Str("https://hq/1".to_string()))];
    assert_eq!(hq_video_url(&c, "").as_deref(), Some("https://hq/1"));
    let text = r#"{"x":"https://v9-other.jimeng.com/b.mp4","y":"https://v3-dreamnia.jimeng.com/a.mp4"}"#;
    assert_eq!(hq_video_url(&Vec::new(), text).as_deref(), Some("https://v3-dreamnia.jimeng.com/a.mp4"));
    let text = r#"{"x":"https://v9-other.jimeng.com/b.mp4"}"#;
    assert_eq!(hq_video_url(&vec![Some(JsonScalar::Int(3))], text).as_deref(), Some("https://v9-other.jimeng.com/b.mp4"));
    assert_eq!(hq_video_url(&Vec::new(), "nothing"), None);
}
