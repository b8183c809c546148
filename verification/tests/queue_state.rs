use searchmonkey::queue::{EnqueueOutcome, PluginJob, RuntimeState, ScanTask};

fn job(path: &str, plugin: &str, attempts: u32) -> PluginJob {
    PluginJob {
        source_path: path.to_string(),
        plugin_id: plugin.to_string(),
        attempts,
        run_id: format!("run-{path}"),
    }
}

#[test]
fn a_known_job_is_not_enqueued_twice() {
    let mut q = RuntimeState::new();
    assert!(q.is_idle());
    assert_eq!(q.enqueue_pending_job(job("/a.pdf", "pdf", 1), false, true), EnqueueOutcome::Enqueued);
    assert!(q.job_known("/a.pdf", "pdf"));
    assert_eq!(q.enqueue_pending_job(job("/a.pdf", "pdf", 2), true, true), EnqueueOutcome::Duplicate);
    assert_eq!(q.pending_jobs_len(), 1);
    assert_eq!(q.enqueue_pending_job(job("/a.pdf", "ocr", 1), false, true), EnqueueOutcome::Enqueued);
    assert_eq!(
        q.enqueue_pending_job(job("/b.pdf", "pdf", 1), false, false),
        EnqueueOutcome::PluginMissing
    );
    assert!(!q.job_known("/b.pdf", "pdf"));
    assert_eq!(q.pending_jobs_len(), 2);
    assert!(!q.is_idle());
}

#[test]
fn promotion_fills_the_worker_queue_up_to_sixteen() {
    let mut q = RuntimeState::new();
    for i in 0..20 {
        q.enqueue_pending_job(job(&format!("/f{i}"), "pdf", 1), false, true);
    }
    q.promote_pending_jobs();
    assert_eq!(q.jobs_len(), 16);
    assert_eq!(q.pending_jobs_len(), 4);
    let first = q.next_worker_job().unwrap();
    assert_eq!(first.source_path, "/f0");
    assert!(q.worker_running());
    assert!(q.job_known("/f0", "pdf"));
    assert_eq!(q.jobs_len(), 15);
    assert_eq!(q.pending_jobs_len(), 4);
    let second = q.next_worker_job().unwrap();
    assert_eq!(second.source_path, "/f1");
    assert_eq!(q.jobs_len(), 15);
    assert_eq!(q.pending_jobs_len(), 3);
    q.finish_job("/f0", "pdf");
    assert!(!q.job_known("/f0", "pdf"));
    assert!(!q.worker_running());
}

#[test]
fn priority_jobs_go_first() {
    let mut q = RuntimeState::new();
    q.enqueue_pending_job(job("/a", "pdf", 1), false, true);
    q.enqueue_pending_job(job("/b", "pdf", 1), true, true);
    let next = q.next_worker_job().unwrap();
    assert_eq!(next.source_path, "/b");
}

#[test]
fn paused_or_searching_worker_waits() {
    let mut q = RuntimeState::new();
    q.enqueue_pending_job(job("/a", "pdf", 1), false, true);
    q.set_paused(true);
    assert!(q.next_worker_job().is_none());
    assert!(!q.worker_running());
    q.set_paused(false);
    q.search_started();
    assert!(q.search_active());
    assert!(q.next_worker_job().is_none());
    q.search_finished();
    assert!(!q.search_active());
    assert!(q.next_worker_job().is_some());
}

#[test]
fn dropping_a_plugin_removes_its_jobs() {
    let mut q = RuntimeState::new();
    q.enqueue_pending_job(job("/a", "pdf", 1), false, true);
    q.enqueue_pending_job(job("/b", "ocr", 1), false, true);
    q.enqueue_pending_job(job("/c", "pdf", 1), false, true);
    let running = q.next_worker_job().unwrap();
    assert_eq!(running.source_path, "/a");
    q.drop_pending_plugin_jobs("pdf");
    assert!(q.job_known("/a", "pdf"));
    assert!(!q.job_known("/c", "pdf"));
    assert!(q.job_known("/b", "ocr"));
    q.drop_runtime_jobs_for_plugin("pdf");
    assert!(!q.job_known("/a", "pdf"));
    assert_eq!(q.jobs_len() + q.pending_jobs_len(), 1);
}

#[test]
fn scans_take_refreshes_before_roots() {
    let mut q = RuntimeState::new();
    assert!(q.queue_root("/home"));
    assert!(!q.queue_root("/home"));
    assert!(q.queue_root("/work"));
    assert!(q.queue_refresh("/home", "pdf"));
    assert!(!q.queue_refresh("/home", "pdf"));
    match q.next_scan_task() {
        Some(ScanTask::PluginRefresh(k)) => {
            assert_eq!(k.path, "/home");
            assert_eq!(k.plugin_id, "pdf");
            assert!(!q.queue_refresh("/home", "pdf"));
            q.finish_scan_task(&ScanTask::PluginRefresh(k));
        }
        other => panic!("unexpected task {other:?}"),
    }
    match q.next_scan_task() {
        Some(ScanTask::Root(root)) => {
            assert_eq!(root, "/work");
            assert!(!q.queue_root("/work"));
            q.finish_scan_task(&ScanTask::Root(root));
            assert!(q.scanner_running());
        }
        other => panic!("unexpected task {other:?}"),
    }
    assert!(matches!(q.next_scan_task(), Some(ScanTask::Root(_))));
    q.finish_scan_task(&ScanTask::Root("/home".to_string()));
    assert!(q.next_scan_task().is_none());
    assert!(!q.scanner_running());
}

#[test]
fn rebuild_forgets_queued_work_and_run_ids_count_up() {
    let mut q = RuntimeState::new();
    assert_eq!(q.next_run_id(), "plugin-run-1");
    assert_eq!(q.next_run_id(), "plugin-run-2");
    q.queue_root("/home");
    q.enqueue_pending_job(job("/a", "pdf", 1), false, true);
    q.rebuild();
    assert!(q.is_idle());
    assert!(!q.job_known("/a", "pdf"));
    assert!(q.queue_root("/home"));
}
