use searchmonkey::failure_state::FailureDisplay;
use searchmonkey::queue::PluginJob;
use searchmonkey::runtime::{job_record, JobResult};
use searchmonkey::state_db::{
    effective_status, ignored_status, is_attention_status, queued_status, ready_status,
    retry_delay_seconds, StateDb,
};

#[test]
fn statuses_that_need_attention() {
    for s in ["failed", "stale", "missing", "skipped"] {
        assert!(is_attention_status(s));
    }
    for s in ["ready", "queued", "processing", "ignored"] {
        assert!(!is_attention_status(s));
    }
    assert_eq!(ignored_status(), "ignored");
    assert_eq!(ready_status(), "ready");
    assert_eq!(queued_status(), "queued");
}

#[test]
fn ignored_issue_types_turn_failures_into_ignored() {
    assert_eq!(effective_status("failed", Some("encrypted_pdf"), true), "ignored");
    assert_eq!(effective_status("failed", Some("encrypted_pdf"), false), "failed");
    assert_eq!(effective_status("failed", None, true), "failed");
    assert_eq!(effective_status("stale", Some("stale_source"), true), "stale");
    assert_eq!(effective_status("skipped", Some("skipped"), true), "ignored");
}

#[test]
fn retries_wait_longer_each_time() {
    assert_eq!(retry_delay_seconds(1), Some(600));
    assert_eq!(retry_delay_seconds(2), Some(3600));
    assert_eq!(retry_delay_seconds(3), Some(86_400));
    assert_eq!(retry_delay_seconds(4), None);
    assert_eq!(retry_delay_seconds(0), None);
}

#[test]
fn status_updates_and_database_location() {
    assert!(StateDb::new(&Vec::new(), &Vec::new()).is_err());
    let db = StateDb::new(&vec!["/data/index".to_string()], &Vec::new()).unwrap();
    assert_eq!(db.path(), "/data/index/searchmonkey.sqlite");
    assert_eq!(db.index_root(), "/data/index");
    let db = StateDb::new(&vec!["/data/index".to_string()], &vec!["/home/u/sm/index".to_string()]).unwrap();
    assert_eq!(db.path(), "/home/u/sm/searchmonkey.sqlite");

    let u = db.mark_missing("/docs/a.pdf", "sm.plugin.pdf", 2);
    assert_eq!(u.status, "missing");
    assert_eq!(u.error_code.as_deref(), Some("missing_source"));
    assert_eq!(u.error_message.as_deref(), Some("Source file is missing"));
    let u = db.mark_failed("/docs/a.pdf", "p", 1, "corrupt_pdf", "Corrupt PDF", Some("hint"), Some("t"));
    assert_eq!(u.status, "failed");
    assert_eq!(u.error_hint.as_deref(), Some("hint"));
    assert_eq!(u.retry_after.as_deref(), Some("t"));
    let u = db.mark_stale("/docs/a.pdf", "p", 3, None);
    assert_eq!(u.error_code.as_deref(), Some("stale_source"));
    assert!(u.error_message.is_none());
    let u = db.mark_skipped("/docs/a.pdf", "p", 1, "Plugin is no longer installed");
    assert_eq!(u.error_code.as_deref(), Some("skipped"));
    assert_eq!(u.attempts, 1);
}

#[test]
fn finished_jobs_are_recorded_by_outcome() {
    let db = StateDb::new(&vec!["/index".to_string()], &Vec::new()).unwrap();
    let job = PluginJob {
        source_path: "/docs/a.pdf".to_string(),
        plugin_id: "sm.plugin.pdf".to_string(),
        attempts: 0,
        run_id: "plugin-run-1".to_string(),
    };

    let removed = job_record(&db, &job, &JobResult::PluginRemoved, None);
    let update = removed.update.unwrap();
    assert_eq!(update.status, "skipped");
    assert_eq!(update.attempts, 1);
    assert_eq!(update.error_message.as_deref(), Some("Plugin is no longer installed"));
    assert_eq!(removed.run.status, "skipped");
    assert_eq!(removed.run.error_code.as_deref(), Some("plugin_removed"));

    let ready = job_record(&db, &job, &JobResult::Indexed, Some("2030-01-01T00:00:00Z"));
    assert!(ready.update.is_none());
    assert_eq!(ready.run.status, "ready");
    assert!(ready.run.error_code.is_none() && ready.run.error_message.is_none());

    let job = PluginJob { attempts: 2, ..job };
    let missing = job_record(&db, &job, &JobResult::SourceMissing, None);
    let update = missing.update.unwrap();
    assert_eq!(update.status, "missing");
    assert_eq!(update.attempts, 2);
    assert_eq!(update.error_code.as_deref(), Some("missing_source"));
    assert_eq!(missing.run.error_message.as_deref(), Some("Source file is missing"));

    let display = FailureDisplay {
        code: "encrypted_pdf".to_string(),
        message: "Encrypted PDF".to_string(),
        details: String::new(),
    };
    let failed = job_record(&db, &job, &JobResult::Failed(display), Some("2030-01-01T00:00:00Z"));
    let update = failed.update.unwrap();
    assert_eq!(update.status, "failed");
    assert_eq!(update.error_code.as_deref(), Some("encrypted_pdf"));
    assert!(update.error_hint.is_none());
    assert_eq!(update.retry_after.as_deref(), Some("2030-01-01T00:00:00Z"));
    assert_eq!(failed.run.status, "failed");
    assert_eq!(failed.run.error_message.as_deref(), Some("Encrypted PDF"));

    let display = FailureDisplay {
        code: "plugin_failed".to_string(),
        message: "Plugin failed".to_string(),
        details: "exit 3".to_string(),
    };
    let failed = job_record(&db, &job, &JobResult::Failed(display), None);
    let update = failed.update.unwrap();
    assert_eq!(update.error_hint.as_deref(), Some("exit 3"));
    assert!(update.retry_after.is_none());
}
