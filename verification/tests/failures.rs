use searchmonkey::failure_state::{
    backoff_seconds, classify_failure, failure_state_path, failure_state_record, retry_allowed,
    FailureDisplay, PluginFailureState, SourceStamp,
};
use searchmonkey::manifest::{PluginCapabilities, PluginPermission};
use searchmonkey::registry::RegisteredPlugin;
use searchmonkey::state_db::{is_retry_ready, retry_after_for_attempt};

fn plugin() -> RegisteredPlugin {
    RegisteredPlugin {
        id: "sm.plugin.pdf".to_string(),
        name: "PDF".to_string(),
        version: "0.1.0".to_string(),
        root_dir: "/tmp/plugin".to_string(),
        command: "/tmp/plugin/bin/sm-plugin-pdf".to_string(),
        args: vec!["--job".to_string()],
        handles: vec![".pdf".to_string()],
        requires_entitlement: false,
        timeout_seconds: 30,
        capabilities: PluginCapabilities { text: true, layout: true, ocr: false },
        permissions: vec![PluginPermission::ReadSourceFile],
    }
}

fn failed_state(size: u64, mtime: &str) -> PluginFailureState {
    PluginFailureState {
        schema: "sm.failure-state.v1".to_string(),
        plugin_id: "sm.plugin.pdf".to_string(),
        plugin_version: "0.1.0".to_string(),
        source_path: "/tmp/report.pdf".to_string(),
        source_size: size,
        source_mtime: mtime.to_string(),
        attempts: 1,
        last_failed_at: "2026-05-10T11:00:00Z".to_string(),
        next_retry_at: "2026-05-10T12:00:00Z".to_string(),
        code: "plugin_failed".to_string(),
        message: "Plugin failed".to_string(),
        details: "detail".to_string(),
        retry_after_seconds: 3600,
    }
}

#[test]
fn classifies_cloud_file_failures() {
    let failure =
        classify_failure("plugin failed: Error: failed to open PDF /Users/a/CloudStorage/foo.pdf");
    assert_eq!(failure.code, "cloud_file_unavailable");
    assert_eq!(failure.message, "Cloud file unavailable");
}

const FAILED_AT_NANOS: i128 = 1_778_410_800 * 1_000_000_000;
const RETRY_AT_NANOS: i128 = 1_778_414_400 * 1_000_000_000;

#[test]
fn respects_retry_holdoff_for_unchanged_files() {
    // failed at 11:00, next retry one hour later at 12:00
    let state = failed_state(3, "2026-05-10T11:22:33Z");
    let stamp = SourceStamp { size: 3, mtime: "2026-05-10T11:22:33Z".to_string() };
    assert!(!retry_allowed(&state, &plugin(), Some(stamp), FAILED_AT_NANOS));
}

#[test]
fn changed_files_and_plugins_are_retried_at_once() {
    let state = failed_state(3, "2026-05-10T11:22:33Z");
    let now = FAILED_AT_NANOS;
    let bigger = SourceStamp { size: 4, mtime: "2026-05-10T11:22:33Z".to_string() };
    assert!(retry_allowed(&state, &plugin(), Some(bigger), now));
    let touched = SourceStamp { size: 3, mtime: "2026-05-10T11:22:34Z".to_string() };
    assert!(retry_allowed(&state, &plugin(), Some(touched), now));
    assert!(retry_allowed(&state, &plugin(), None, now));
    let mut newer = plugin();
    newer.version = "0.2.0".to_string();
    let same = SourceStamp { size: 3, mtime: "2026-05-10T11:22:33Z".to_string() };
    assert!(retry_allowed(&state, &newer, Some(same.clone()), now));
    assert!(!retry_allowed(&state, &plugin(), Some(same.clone()), RETRY_AT_NANOS - 1));
    assert!(retry_allowed(&state, &plugin(), Some(same.clone()), RETRY_AT_NANOS));
    let mut unreadable = state.clone();
    unreadable.next_retry_at = "soon".to_string();
    assert!(retry_allowed(&unreadable, &plugin(), Some(same), now));
}

#[test]
fn retry_times_come_and_are_written_to_the_second() {
    assert!(!is_retry_ready(None, RETRY_AT_NANOS));
    assert!(is_retry_ready(Some("not a time"), 0));
    assert!(!is_retry_ready(Some("2026-05-10T12:00:00Z"), RETRY_AT_NANOS - 1));
    assert!(is_retry_ready(Some("2026-05-10T13:00:00+01:00"), RETRY_AT_NANOS));
    assert_eq!(
        retry_after_for_attempt(2, 1_778_410_800),
        Some("2026-05-10T12:00:00Z".to_string())
    );
    assert_eq!(retry_after_for_attempt(1, 1_778_410_800), Some("2026-05-10T11:10:00Z".to_string()));
    assert_eq!(retry_after_for_attempt(4, 1_778_410_800), None);
}

#[test]
fn classifies_known_failure_causes() {
    assert_eq!(classify_failure("  document is Encrypted  ").code, "encrypted_pdf");
    assert_eq!(classify_failure("  document is Encrypted  ").details, "document is Encrypted");
    assert_eq!(classify_failure("FormatError: bad xref").code, "corrupt_pdf");
    assert_eq!(classify_failure("the file could not be opened").code, "pdf_open_failed");
    assert_eq!(classify_failure("plugin timed out after 30 seconds").code, "plugin_timeout");
    let other = classify_failure("something odd");
    assert_eq!(other.code, "plugin_failed");
    assert_eq!(other.message, "Plugin failed");
    assert_eq!(other.details, "something odd");
}

#[test]
fn reads_structured_plugin_failures() {
    let raw = "plugin failed: {\"status\": \"failed\", \"code\": \"ocr_needed\", \"message\": \"Needs OCR\", \"hint\": \"Enable OCR\"}";
    let failure = classify_failure(raw);
    assert_eq!(failure.code, "ocr_needed");
    assert_eq!(failure.message, "Needs OCR");
    assert_eq!(failure.details, "Needs OCR\nEnable OCR");

    let plain = classify_failure("{\"status\": \"failed\"}");
    assert_eq!(plain.code, "plugin_failed");
    assert_eq!(plain.message, "Plugin failed");
    assert_eq!(plain.details, "{\"status\": \"failed\"}");

    let other_status = classify_failure("{\"status\": \"ok\", \"message\": \"cloud\"}");
    assert_eq!(other_status.code, "cloud_file_unavailable");
}

#[test]
fn backoff_grows_then_stays() {
    assert_eq!(backoff_seconds(0), 300);
    assert_eq!(backoff_seconds(1), 300);
    assert_eq!(backoff_seconds(2), 900);
    assert_eq!(backoff_seconds(3), 3600);
    assert_eq!(backoff_seconds(4), 14400);
    assert_eq!(backoff_seconds(9), 43200);
}

#[test]
fn failure_state_lives_beside_the_mirrored_text() {
    assert_eq!(
        failure_state_path("/index", "/docs/report.pdf"),
        "/index/docs/report.pdf.sm.state"
    );
}

#[test]
fn records_a_failure_with_its_retry_time() {
    let display = FailureDisplay {
        code: "plugin_failed".to_string(),
        message: "Plugin failed".to_string(),
        details: "detail".to_string(),
    };
    let state = failure_state_record(
        "/tmp/report.pdf",
        3,
        "2026-05-10T10:00:00Z".to_string(),
        &plugin(),
        3,
        1_778_410_800,
        display,
    );
    assert_eq!(state.schema, "sm.failure-state.v1");
    assert_eq!(state.plugin_id, "sm.plugin.pdf");
    assert_eq!(state.plugin_version, "0.1.0");
    assert_eq!(state.source_path, "/tmp/report.pdf");
    assert_eq!(state.source_size, 3);
    assert_eq!(state.source_mtime, "2026-05-10T10:00:00Z");
    assert_eq!(state.attempts, 3);
    assert_eq!(state.last_failed_at, "2026-05-10T11:00:00Z");
    assert_eq!(state.next_retry_at, "2026-05-10T12:00:00Z");
    assert_eq!(state.retry_after_seconds, 3600);
    assert_eq!(state.code, "plugin_failed");

    // the recorded retry time holds the file back until it comes
    let stamp = SourceStamp { size: 3, mtime: "2026-05-10T10:00:00Z".to_string() };
    assert!(!retry_allowed(&state, &plugin(), Some(stamp.clone()), FAILED_AT_NANOS));
    assert!(retry_allowed(&state, &plugin(), Some(stamp), RETRY_AT_NANOS));
}
