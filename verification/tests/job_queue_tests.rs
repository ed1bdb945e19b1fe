use media_catalog::job_queue::{Job, JobError, JobKind, JobQueue, JobStatus};

fn enqueue(queue: &mut JobQueue, id: &str, priority: u32, created_at: u64, path: &str) {
    queue
        .enqueue(
            id.to_string(),
            created_at,
            JobKind::Thumb,
            path.to_string(),
            priority,
            "{}".to_string(),
        )
        .unwrap();
}

fn status_of(queue: &JobQueue, id: &str) -> JobStatus {
    queue.get(id).unwrap().status
}

#[test]
fn new_queue_is_empty() {
    let queue = JobQueue::new();
    assert_eq!(queue.len(), 0);
    assert_eq!(queue.get_next_job(), None);
    assert_eq!(queue.get_job_stats(), (0, 0, 0, 0));
    assert!(queue.get("x").is_none());
}

#[test]
fn enqueued_job_is_queued() {
    let mut queue = JobQueue::new();
    queue
        .enqueue(
            "j1".to_string(),
            500,
            JobKind::Proxy,
            "/v/a.mp4".to_string(),
            3,
            "{\"src_path\":\"/v/a.mp4\"}".to_string(),
        )
        .unwrap();
    assert_eq!(
        queue.get("j1"),
        Some(Job {
            id: "j1".to_string(),
            kind: JobKind::Proxy,
            path: "/v/a.mp4".to_string(),
            status: JobStatus::Queued,
            priority: 3,
            created_at: 500,
            started_at: None,
            finished_at: None,
            payload: "{\"src_path\":\"/v/a.mp4\"}".to_string(),
            result: None,
            error: None,
        })
    );
}

#[test]
fn enqueue_refuses_a_duplicate_id() {
    let mut queue = JobQueue::new();
    enqueue(&mut queue, "j1", 1, 1, "/a");
    let again = queue.enqueue("j1".to_string(), 2, JobKind::Scan, "/b".to_string(), 0, "{}".to_string());
    assert_eq!(again, Err(JobError::DuplicateId));
    assert_eq!(queue.len(), 1);
    assert_eq!(queue.get("j1").unwrap().path, "/a");
}

#[test]
fn add_job_draws_a_fresh_id() {
    let mut queue = JobQueue::new();
    let before = media_catalog::media_cache::current_timestamp();
    let first = queue.add_job(JobKind::Thumb, "/a.mp4".to_string(), 0, "{}".to_string()).unwrap();
    let second = queue.add_job(JobKind::Thumb, "/a.mp4".to_string(), 0, "{}".to_string()).unwrap();
    assert_eq!(first.len(), 36);
    assert_eq!(second.len(), 36);
    assert_ne!(first, second);
    assert_eq!(queue.len(), 2);
    let job = queue.get(&first).unwrap();
    assert_eq!(job.status, JobStatus::Queued);
    assert_eq!(job.kind, JobKind::Thumb);
    assert_eq!(job.path, "/a.mp4");
    assert!(job.created_at >= before);
    assert_eq!(job.started_at, None);
}

#[test]
fn dequeue_order_is_by_priority_then_age() {
    let mut queue = JobQueue::new();
    enqueue(&mut queue, "a", 5, 100, "/a");
    enqueue(&mut queue, "b", 1, 101, "/b");
    enqueue(&mut queue, "c", 1, 102, "/c");
    enqueue(&mut queue, "d", 3, 103, "/d");
    let mut order = Vec::new();
    while let Some(job) = queue.get_next_job() {
        queue.set_status(&job.id, JobStatus::Running, None, None, 200).unwrap();
        order.push(job.id);
    }
    assert_eq!(order, vec!["b", "c", "d", "a"]);
}

#[test]
fn dequeue_is_first_in_first_out_within_one_second() {
    let mut queue = JobQueue::new();
    enqueue(&mut queue, "x", 1, 100, "/x");
    enqueue(&mut queue, "y", 1, 100, "/y");
    enqueue(&mut queue, "z", 1, 99, "/z");
    assert_eq!(queue.get_next_job().unwrap().id, "z");
    queue.set_status("z", JobStatus::Running, None, None, 1).unwrap();
    assert_eq!(queue.get_next_job().unwrap().id, "x");
    // Asking again without starting the job gives the same job.
    assert_eq!(queue.get_next_job().unwrap().id, "x");
    queue.set_status("x", JobStatus::Canceled, None, None, 1).unwrap();
    assert_eq!(queue.get_next_job().unwrap().id, "y");
}

#[test]
fn running_stamps_started_at_only() {
    let mut queue = JobQueue::new();
    enqueue(&mut queue, "j", 1, 100, "/a");
    assert_eq!(queue.set_status("j", JobStatus::Running, None, None, 150), Ok(()));
    let job = queue.get("j").unwrap();
    assert_eq!(job.status, JobStatus::Running);
    assert_eq!(job.started_at, Some(150));
    assert_eq!(job.finished_at, None);
    assert_eq!(queue.get_next_job(), None);
}

#[test]
fn terminal_status_stamps_finished_at_once() {
    let mut queue = JobQueue::new();
    enqueue(&mut queue, "j", 1, 100, "/a");
    queue.set_status("j", JobStatus::Running, None, None, 150).unwrap();
    queue.set_status("j", JobStatus::Done, Some("{\"ok\":true}".to_string()), None, 160).unwrap();
    let done = queue.get("j").unwrap();
    assert_eq!(done.status, JobStatus::Done);
    assert_eq!(done.started_at, Some(150));
    assert_eq!(done.finished_at, Some(160));
    assert_eq!(done.result.as_deref(), Some("{\"ok\":true}"));
    assert_eq!(done.error, None);
    for status in [
        JobStatus::Queued,
        JobStatus::Running,
        JobStatus::Done,
        JobStatus::Failed,
        JobStatus::Canceled,
    ] {
        assert_eq!(
            queue.set_status("j", status, None, Some("late".to_string()), 999),
            Err(JobError::IllegalTransition)
        );
        assert_eq!(queue.get("j"), Some(done.clone()));
    }
}

#[test]
fn failed_job_keeps_its_error() {
    let mut queue = JobQueue::new();
    enqueue(&mut queue, "j", 1, 100, "/a");
    queue.set_status("j", JobStatus::Running, None, None, 150).unwrap();
    queue.finish("j", Err("FFmpeg failed: boom".to_string()), 170).unwrap();
    let job = queue.get("j").unwrap();
    assert_eq!(job.status, JobStatus::Failed);
    assert_eq!(job.error.as_deref(), Some("FFmpeg failed: boom"));
    assert_eq!(job.result, None);
    assert_eq!(job.finished_at, Some(170));
    assert_eq!(queue.finish("j", Ok("{}".to_string()), 180), Err(JobError::IllegalTransition));
}

#[test]
fn finish_with_a_result_marks_the_job_done() {
    let mut queue = JobQueue::new();
    enqueue(&mut queue, "j", 1, 100, "/a");
    queue.set_status("j", JobStatus::Running, None, None, 150).unwrap();
    assert_eq!(queue.finish("j", Ok("{\"thumb_path\":\"/t.jpg\"}".to_string()), 175), Ok(()));
    let job = queue.get("j").unwrap();
    assert_eq!(job.status, JobStatus::Done);
    assert_eq!(job.result.as_deref(), Some("{\"thumb_path\":\"/t.jpg\"}"));
    assert_eq!(job.finished_at, Some(175));
}

#[test]
fn queued_job_cannot_skip_running() {
    let mut queue = JobQueue::new();
    enqueue(&mut queue, "j", 1, 100, "/a");
    assert_eq!(queue.set_status("j", JobStatus::Done, None, None, 1), Err(JobError::IllegalTransition));
    assert_eq!(queue.set_status("j", JobStatus::Failed, None, None, 1), Err(JobError::IllegalTransition));
    assert_eq!(queue.set_status("j", JobStatus::Queued, None, None, 1), Err(JobError::IllegalTransition));
    assert_eq!(status_of(&queue, "j"), JobStatus::Queued);
    assert_eq!(queue.set_status("j", JobStatus::Canceled, None, None, 9), Ok(()));
    let job = queue.get("j").unwrap();
    assert_eq!(job.status, JobStatus::Canceled);
    assert_eq!(job.started_at, None);
    assert_eq!(job.finished_at, Some(9));
}

#[test]
fn running_job_cannot_start_again() {
    let mut queue = JobQueue::new();
    enqueue(&mut queue, "j", 1, 100, "/a");
    queue.set_status("j", JobStatus::Running, None, None, 150).unwrap();
    assert_eq!(queue.set_status("j", JobStatus::Running, None, None, 151), Err(JobError::IllegalTransition));
    assert_eq!(queue.get("j").unwrap().started_at, Some(150));
}

#[test]
fn status_of_an_unknown_job_changes_nothing() {
    let mut queue = JobQueue::new();
    enqueue(&mut queue, "j", 1, 100, "/a");
    assert_eq!(queue.set_status("nobody", JobStatus::Running, None, None, 1), Ok(()));
    assert_eq!(queue.len(), 1);
    assert_eq!(status_of(&queue, "j"), JobStatus::Queued);
}

#[test]
fn update_job_status_stamps_the_clock() {
    let mut queue = JobQueue::new();
    enqueue(&mut queue, "j", 1, 100, "/a");
    let before = media_catalog::media_cache::current_timestamp();
    queue.update_job_status("j", JobStatus::Running, None, None).unwrap();
    let started = queue.get("j").unwrap().started_at.unwrap();
    assert!(started >= before);
    queue.update_job_status("j", JobStatus::Failed, None, Some("e".to_string())).unwrap();
    let job = queue.get("j").unwrap();
    assert!(job.finished_at.unwrap() >= started);
    assert_eq!(job.started_at, Some(started));
    assert_eq!(
        queue.update_job_status("j", JobStatus::Done, None, None),
        Err(JobError::IllegalTransition)
    );
}

#[test]
fn cancel_by_prefix_touches_queued_jobs_only() {
    let mut queue = JobQueue::new();
    enqueue(&mut queue, "q1", 1, 1, "/lib/a/1.mp4");
    enqueue(&mut queue, "q2", 1, 2, "/lib/b/2.mp4");
    enqueue(&mut queue, "run", 1, 3, "/lib/a/3.mp4");
    enqueue(&mut queue, "done", 1, 4, "/lib/a/4.mp4");
    enqueue(&mut queue, "q3", 1, 5, "/lib/a");
    enqueue(&mut queue, "q4", 1, 6, "/LIB/a/6.mp4");
    queue.set_status("run", JobStatus::Running, None, None, 10).unwrap();
    queue.set_status("done", JobStatus::Running, None, None, 10).unwrap();
    queue.set_status("done", JobStatus::Done, None, None, 11).unwrap();
    let running = queue.get("run").unwrap();
    let done = queue.get("done").unwrap();

    assert_eq!(queue.cancel_by_path_prefix("/lib/a", 50), 2);
    assert_eq!(queue.get("q1").unwrap().status, JobStatus::Canceled);
    assert_eq!(queue.get("q1").unwrap().finished_at, Some(50));
    assert_eq!(queue.get("q3").unwrap().status, JobStatus::Canceled);
    assert_eq!(status_of(&queue, "q2"), JobStatus::Queued);
    assert_eq!(status_of(&queue, "q4"), JobStatus::Queued);
    assert_eq!(queue.get("run"), Some(running));
    assert_eq!(queue.get("done"), Some(done));
    // A second call finds nothing left to cancel.
    assert_eq!(queue.cancel_by_path_prefix("/lib/a", 60), 0);
    assert_eq!(queue.get("q1").unwrap().finished_at, Some(50));
    assert_eq!(queue.get_next_job().unwrap().id, "q2");
}

#[test]
fn cancel_takes_the_prefix_literally() {
    let mut queue = JobQueue::new();
    enqueue(&mut queue, "a", 1, 1, "/lib/100%/x.mp4");
    enqueue(&mut queue, "b", 1, 2, "/lib/100_/x.mp4");
    enqueue(&mut queue, "c", 1, 3, "/lib/1000/x.mp4");
    assert_eq!(queue.cancel_by_path_prefix("/lib/100%", 5), 1);
    assert_eq!(status_of(&queue, "a"), JobStatus::Canceled);
    assert_eq!(queue.cancel_by_path_prefix("/lib/100_", 5), 1);
    assert_eq!(status_of(&queue, "c"), JobStatus::Queued);
    assert_eq!(queue.cancel_by_path_prefix("", 6), 1);
    assert_eq!(status_of(&queue, "c"), JobStatus::Canceled);
}

#[test]
fn cancel_jobs_by_prefix_uses_the_clock() {
    let mut queue = JobQueue::new();
    enqueue(&mut queue, "a", 1, 1, "/x/1");
    enqueue(&mut queue, "b", 1, 1, "/y/1");
    let before = media_catalog::media_cache::current_timestamp();
    assert_eq!(queue.cancel_jobs_by_prefix("/x"), 1);
    assert!(queue.get("a").unwrap().finished_at.unwrap() >= before);
    assert_eq!(status_of(&queue, "b"), JobStatus::Queued);
}

#[test]
fn stats_count_jobs_by_status() {
    let mut queue = JobQueue::new();
    for (i, id) in ["a", "b", "c", "d", "e", "f", "g"].iter().enumerate() {
        enqueue(&mut queue, id, 1, i as u64, "/p");
    }
    for id in ["b", "c", "d", "e"] {
        queue.set_status(id, JobStatus::Running, None, None, 10).unwrap();
    }
    queue.set_status("c", JobStatus::Done, None, None, 11).unwrap();
    queue.set_status("d", JobStatus::Failed, None, Some("x".to_string()), 11).unwrap();
    queue.set_status("e", JobStatus::Done, None, None, 11).unwrap();
    queue.set_status("f", JobStatus::Canceled, None, None, 11).unwrap();
    assert_eq!(queue.get_job_stats(), (2, 1, 2, 1));
}

#[test]
fn purge_removes_old_finished_jobs_only() {
    let mut queue = JobQueue::new();
    let day = 86_400u64;
    let now = 100 * day;
    for id in ["queued", "running", "old_done", "edge_done", "new_failed", "old_canceled"] {
        enqueue(&mut queue, id, 1, 0, "/p");
    }
    queue.set_status("running", JobStatus::Running, None, None, 1).unwrap();
    queue.set_status("old_done", JobStatus::Running, None, None, 1).unwrap();
    queue.set_status("old_done", JobStatus::Done, None, None, now - 7 * day - 1).unwrap();
    queue.set_status("edge_done", JobStatus::Running, None, None, 1).unwrap();
    queue.set_status("edge_done", JobStatus::Done, None, None, now - 7 * day).unwrap();
    queue.set_status("new_failed", JobStatus::Running, None, None, 1).unwrap();
    queue.set_status("new_failed", JobStatus::Failed, None, None, now - day).unwrap();
    queue.set_status("old_canceled", JobStatus::Canceled, None, None, 5).unwrap();
    queue.purge_finished_older_than(7, now);
    assert_eq!(queue.len(), 4);
    assert!(queue.get("old_done").is_none());
    assert!(queue.get("old_canceled").is_none());
    assert!(queue.get("queued").is_some());
    assert!(queue.get("running").is_some());
    assert!(queue.get("edge_done").is_some());
    assert!(queue.get("new_failed").is_some());
}

#[test]
fn purge_with_an_age_beyond_the_clock_removes_nothing() {
    let mut queue = JobQueue::new();
    enqueue(&mut queue, "j", 1, 0, "/p");
    queue.set_status("j", JobStatus::Canceled, None, None, 0).unwrap();
    queue.purge_finished_older_than(u32::MAX, 1_000);
    assert_eq!(queue.len(), 1);
    queue.purge_finished_older_than(0, 0);
    assert_eq!(queue.len(), 1);
    queue.purge_finished_older_than(0, 1);
    assert_eq!(queue.len(), 0);
}

#[test]
fn cleanup_old_jobs_uses_the_clock() {
    let mut queue = JobQueue::new();
    enqueue(&mut queue, "old", 1, 0, "/p");
    enqueue(&mut queue, "new", 1, 0, "/p");
    enqueue(&mut queue, "waiting", 1, 0, "/p");
    queue.set_status("old", JobStatus::Canceled, None, None, 1).unwrap();
    queue.update_job_status("new", JobStatus::Canceled, None, None).unwrap();
    queue.cleanup_old_jobs(1);
    assert!(queue.get("old").is_none());
    assert!(queue.get("new").is_some());
    assert!(queue.get("waiting").is_some());
}

#[test]
fn start_if_next_claims_only_the_next_job() {
    let mut queue = JobQueue::new();
    enqueue(&mut queue, "low", 9, 1, "/low");
    enqueue(&mut queue, "high", 0, 2, "/high");
    assert_eq!(queue.start_if_next("low", 10), None);
    assert_eq!(status_of(&queue, "low"), JobStatus::Queued);
    assert_eq!(queue.start_if_next("nobody", 10), None);
    let job = queue.start_if_next("high", 11).unwrap();
    assert_eq!(job.id, "high");
    assert_eq!(job.status, JobStatus::Running);
    assert_eq!(job.started_at, Some(11));
    assert_eq!(queue.get("high"), Some(job));
    let job = queue.start_if_next("low", 12).unwrap();
    assert_eq!(job.path, "/low");
    assert_eq!(queue.start_if_next("low", 13), None);
    assert_eq!(queue.get("low").unwrap().started_at, Some(12));
}

#[test]
fn restore_takes_well_formed_jobs_only() {
    let mut queue = JobQueue::new();
    let done = Job {
        id: "d".to_string(),
        kind: JobKind::Render,
        path: "/p".to_string(),
        status: JobStatus::Done,
        priority: 2,
        created_at: 1,
        started_at: Some(2),
        finished_at: Some(3),
        payload: "{}".to_string(),
        result: Some("1".to_string()),
        error: None,
    };
    assert_eq!(queue.restore(done.clone()), Ok(()));
    assert_eq!(queue.get("d"), Some(done.clone()));
    assert_eq!(queue.restore(done.clone()), Err(JobError::DuplicateId));
    let mut broken = done.clone();
    broken.id = "b".to_string();
    broken.finished_at = None;
    assert_eq!(queue.restore(broken), Err(JobError::Malformed));
    let mut queued = done.clone();
    queued.id = "q".to_string();
    queued.status = JobStatus::Queued;
    assert_eq!(queue.restore(queued.clone()), Err(JobError::Malformed));
    queued.started_at = None;
    queued.finished_at = None;
    assert_eq!(queue.restore(queued), Ok(()));
    let mut running = done.clone();
    running.id = "r".to_string();
    running.status = JobStatus::Running;
    assert_eq!(queue.restore(running.clone()), Err(JobError::Malformed));
    running.finished_at = None;
    assert_eq!(queue.restore(running), Ok(()));
    assert_eq!(queue.len(), 3);
    assert_eq!(queue.get_job_stats(), (1, 1, 1, 0));
}
