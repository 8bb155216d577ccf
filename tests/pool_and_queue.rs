use video_gateway::pool::SessionPool;
use video_gateway::queue::{CreateTaskRequest, TaskQueue, TaskStatus};

fn request(prompt: &str) -> CreateTaskRequest {
    CreateTaskRequest { prompt: prompt.to_string(), duration: None, ratio: None, model: None, files: None }
}

#[test]
fn pick_with_no_eligible_session_changes_nothing() {
    let mut pool = SessionPool::new();
    assert!(pool.pick_session(10).is_none());
    let s = pool.add_session("a", "tok", 1);
    pool.toggle_session(&s.id, false);
    assert!(pool.pick_session(10).is_none());
    let rows = pool.list_sessions();
    assert_eq!(rows.len(), 1);
    assert_eq!(rows[0].active_tasks, 0);
    assert_eq!(rows[0].last_used_at, None);
}

#[test]
fn pick_respects_cap_and_release_restores() {
    let mut pool = SessionPool::new();
    let s = pool.add_session("a", "token-value", 1);
    let p1 = pool.pick_session(100).unwrap();
    assert_eq!(p1.id, s.id);
    assert_eq!(p1.active_tasks, 1);
    assert_eq!(p1.last_used_at, Some(100));
    let p2 = pool.pick_session(101).unwrap();
    assert_eq!(p2.active_tasks, 2);
    assert!(pool.pick_session(102).is_none());
    pool.release_session(&s.id, true, None);
    let rows = pool.list_sessions();
    assert_eq!(rows[0].active_tasks, 1);
    assert_eq!(rows[0].total_tasks, 1);
    assert_eq!(rows[0].success_count, 1);
    pool.release_session(&s.id, false, Some("boom"));
    pool.release_session(&s.id, false, None);
    let rows = pool.list_sessions();
    assert_eq!(rows[0].active_tasks, 0);
    assert_eq!(rows[0].total_tasks, 3);
    assert_eq!(rows[0].fail_count, 2);
    assert_eq!(rows[0].last_error.as_deref(), Some("boom"));
}

#[test]
fn pick_prefers_least_recently_used() {
    let mut pool = SessionPool::new();
    let a = pool.add_session("a", "ta", 1);
    let b = pool.add_session("b", "tb", 1);
    assert_eq!(pool.pick_session(10).unwrap().id, a.id);
    assert_eq!(pool.pick_session(11).unwrap().id, b.id);
    pool.release_session(&a.id, true, None);
    pool.release_session(&b.id, true, None);
    assert_eq!(pool.pick_session(12).unwrap().id, a.id);
}

#[test]
fn demoted_session_is_not_picked_until_enabled() {
    let mut pool = SessionPool::new();
    let s = pool.add_session("a", "t", 1);
    pool.mark_unhealthy(&s.id);
    assert!(!pool.list_sessions()[0].healthy);
    assert!(pool.pick_session(5).is_none());
    assert!(pool.toggle_session(&s.id, true));
    assert!(pool.list_sessions()[0].healthy);
    assert!(pool.pick_session(6).is_some());
    assert!(!pool.toggle_session("missing", true));
}

#[test]
fn remove_and_mask_sessions() {
    let mut pool = SessionPool::new();
    let s = pool.add_session("a", "abcdefghijklmnop", 1);
    let m = s.masked();
    assert_eq!(m.session_id, "abcdefgh...mnop");
    let short = pool.add_session("b", "short", 1).masked();
    assert_eq!(short.session_id, "****");
    assert!(pool.remove_session(&s.id));
    assert!(!pool.remove_session(&s.id));
    assert_eq!(pool.list_sessions().len(), 1);
}

#[test]
fn enqueue_uses_defaults() {
    let mut q = TaskQueue::new();
    let t = q.enqueue(request("a cat"), None, None, 7);
    assert_eq!(t.status, TaskStatus::Queued);
    assert_eq!(t.model, "jimeng-video-seedance-2.0");
    assert_eq!(t.duration, 4);
    assert_eq!(t.ratio, "9:16");
    assert_eq!(t.created_at, 7);
    let req = CreateTaskRequest {
        prompt: "a cat".to_string(),
        duration: Some(8),
        ratio: Some("16:9".to_string()),
        model: Some("jimeng-video-3.0".to_string()),
        files: None,
    };
    let t2 = q.enqueue(req, None, None, 8);
    assert_eq!(t2.model, "jimeng-video-3.0");
    assert_eq!(t2.duration, 8);
    assert_eq!(t2.ratio, "16:9");
}

#[test]
fn claim_is_fifo_and_at_most_once() {
    let mut q = TaskQueue::new();
    let a = q.enqueue(request("a"), None, None, 1);
    let b = q.enqueue(request("b"), None, None, 2);
    assert_eq!(q.claim_next(10).unwrap(), a.id);
    assert_eq!(q.claim_next(11).unwrap(), b.id);
    assert!(q.claim_next(12).is_none());
    let ta = q.get_task(&a.id).unwrap();
    assert_eq!(ta.status, TaskStatus::Submitting);
    assert_eq!(ta.started_at, Some(10));
}

#[test]
fn cancel_only_before_downloading() {
    let mut q = TaskQueue::new();
    let a = q.enqueue(request("a"), None, None, 1);
    assert!(q.cancel_task(&a.id, 2));
    assert_eq!(q.get_task(&a.id).unwrap().status, TaskStatus::Cancelled);
    assert_eq!(q.get_task(&a.id).unwrap().finished_at, Some(2));
    assert!(!q.cancel_task(&a.id, 3));
    let b = q.enqueue(request("b"), None, None, 4);
    q.claim_next(5);
    assert!(q.update_status(&b.id, TaskStatus::Downloading, 6));
    assert!(!q.cancel_task(&b.id, 7));
    assert!(q.complete_task(&b.id, "https://v/x.mp4".to_string(), 8));
    assert!(!q.cancel_task(&b.id, 9));
    assert!(!q.fail_task(&b.id, "late".to_string(), "unknown".to_string(), 10));
    assert_eq!(q.get_task(&b.id).unwrap().status, TaskStatus::Succeeded);
    assert!(!q.cancel_task("missing", 11));
}

#[test]
fn cancellation_mid_poll_wins_over_success() {
    let mut q = TaskQueue::new();
    let t = q.enqueue(request("a cat"), None, None, 1);
    let id = q.claim_next(2).unwrap();
    assert!(q.assign_session(&id, "s1".to_string(), 2));
    assert!(q.record_submission(&id, "h1".to_string(), 3));
    assert!(q.record_progress(&id, Some(5), Some(100), Some("1m0s".to_string()), 4));
    assert_eq!(q.get_task(&t.id).unwrap().status, TaskStatus::Polling);
    assert!(q.cancel_task(&id, 5));
    assert!(q.is_task_cancelled(&id));
    assert!(!q.update_status(&id, TaskStatus::Downloading, 6));
    assert!(!q.complete_task(&id, "u".to_string(), 7));
    assert!(!q.record_progress(&id, None, None, None, 8));
    let got = q.get_task(&id).unwrap();
    assert_eq!(got.status, TaskStatus::Cancelled);
    assert_eq!(got.session_pool_id.as_deref(), Some("s1"));
    assert_eq!(got.history_record_id.as_deref(), Some("h1"));
    assert_eq!(got.queue_position, Some(5));
}

#[test]
fn two_workers_one_session_of_cap_two() {
    let mut q = TaskQueue::new();
    let mut pool = SessionPool::new();
    let s = pool.add_session("only", "tok", 0);
    for p in ["a", "b", "c"] {
        q.enqueue(request(p), None, None, 1);
    }
    let mut running = Vec::new();
    for now in 10..13u64 {
        let id = q.claim_next(now).unwrap();
        match pool.pick_session(now) {
            Some(sess) => {
                q.assign_session(&id, sess.id.clone(), now);
                running.push(id);
            }
            None => {
                assert!(q.requeue_task(&id, now));
            }
        }
    }
    assert_eq!(running.len(), 2);
    let stats = q.stats();
    assert_eq!(stats.running, 2);
    assert_eq!(stats.queued, 1);
    assert_eq!(stats.total, 3);
    assert_ne!(running[0], running[1]);
    pool.release_session(&s.id, true, None);
    let third = q.claim_next(20).unwrap();
    assert!(!running.contains(&third));
    assert!(pool.pick_session(20).is_some());
}

#[test]
fn failed_auth_task_and_list_and_retry() {
    let mut q = TaskQueue::new();
    let a = q.enqueue(request("a"), Some(vec![1, 2, 3]), Some("multipart/form-data".to_string()), 1);
    let b = q.enqueue(request("b"), None, None, 2);
    q.claim_next(3);
    assert!(q.fail_task(&a.id, "Unauthorized".to_string(), "auth".to_string(), 4));
    let fa = q.get_task(&a.id).unwrap();
    assert_eq!(fa.status, TaskStatus::Failed);
    assert_eq!(fa.error_kind.as_deref(), Some("auth"));
    let listed = q.list_tasks(None, 10);
    assert_eq!(listed.len(), 2);
    assert_eq!(listed[0].id, b.id);
    assert_eq!(listed[1].id, a.id);
    let failed = q.list_tasks(Some(TaskStatus::Failed), 10);
    assert_eq!(failed.len(), 1);
    assert_eq!(q.list_tasks(None, 1).len(), 1);
    let r = q.retry_task(&a.id, 9).unwrap();
    assert_ne!(r.id, a.id);
    assert_eq!(r.status, TaskStatus::Queued);
    assert_eq!(r.prompt, "a");
    assert_eq!(q.get_task(&a.id).unwrap().status, TaskStatus::Failed);
    assert!(q.retry_task("missing", 9).is_none());
    let st = q.stats();
    assert_eq!((st.total, st.queued, st.failed), (3, 2, 1));
}

#[test]
fn status_names_round_trip() {
    for s in [
        TaskStatus::Queued,
        TaskStatus::Submitting,
        TaskStatus::Polling,
        TaskStatus::Downloading,
        TaskStatus::Succeeded,
        TaskStatus::Failed,
        TaskStatus::Cancelled,
    ] {
        assert_eq!(TaskStatus::from_name(s.as_str()), s);
    }
    assert_eq!(TaskStatus::from_name("weird"), TaskStatus::Failed);
    assert!(TaskStatus::Cancelled.is_terminal());
    assert!(!TaskStatus::Polling.is_terminal());
}
