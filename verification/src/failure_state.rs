//! Plugin failures: how a raw error is shown to the user, how long a failed
//! file waits before it is tried again, and when it may be retried.

use vstd::prelude::*;
use crate::index_paths::{mirror_failure_state_path, mirror_file_on_host};
use crate::json::{member_pointer, member_pointer_of, node, node_of, JsonNode, JsonNodeView};
use crate::registry::RegisteredPlugin;
use crate::meta::{rfc3339_instant, rfc3339_instant_of, rfc3339_of_seconds, rfc3339_text_of_seconds};
use crate::text::{
    chars_of, concat3, contains_chars, contains_seq, find_char, lower_chars, lower_seq,
    rfind_char, str_eq, string_from_chars, to_string, trim, trim_str,
};

verus! {

/// The schema written into failure-state files.
pub const FAILURE_STATE_SCHEMA: &'static str = "sm.failure-state.v1";

/// A failure recorded beside a source's mirror, so that an unchanged file is
/// not sent to the same plugin again before its retry time.
#[derive(Debug, Clone)]
pub struct PluginFailureState {
    pub schema: String,
    pub plugin_id: String,
    pub plugin_version: String,
    pub source_path: String,
    pub source_size: u64,
    pub source_mtime: String,
    pub attempts: u32,
    pub last_failed_at: String,
    pub next_retry_at: String,
    pub code: String,
    pub message: String,
    pub details: String,
    pub retry_after_seconds: u64,
}

/// A failure as the user sees it.
#[derive(Debug, Clone)]
pub struct FailureDisplay {
    pub code: String,
    pub message: String,
    pub details: String,
}

pub struct FailureView {
    pub code: Seq<char>,
    pub message: Seq<char>,
    pub details: Seq<char>,
}

impl View for FailureDisplay {
    type V = FailureView;

    open spec fn view(&self) -> FailureView {
        FailureView { code: self.code@, message: self.message@, details: self.details@ }
    }
}

/// The text at `pointer` of the JSON text `doc` when it is a string, else
/// `default`.
pub open spec fn str_at_or(doc: Seq<char>, pointer: Seq<char>, default: Seq<char>) -> Seq<char> {
    match node(doc, pointer) {
        JsonNodeView::Str(s) => s,
        _ => default,
    }
}

/// The piece from the first `{` to the last `}`, when both exist.
pub open spec fn brace_span(t: Seq<char>) -> Option<(int, int)> {
    if t.contains('{') && t.contains('}') {
        Some(
            (
                choose|s: int| 0 <= s < t.len() && t[s] == '{' && forall|j: int| 0 <= j < s ==> t[j] != '{',
                choose|e: int|
                    0 <= e < t.len() && t[e] == '}' && forall|j: int| e < j < t.len() ==> t[j] != '}',
            ),
        )
    } else {
        None
    }
}

/// The text can be cut from its first `{` to its last `}`: the cut is not
/// backwards by more than an empty piece.
pub open spec fn brace_span_ok(t: Seq<char>) -> bool {
    match brace_span(t) {
        Some((s, e)) => s <= e + 1,
        None => true,
    }
}

/// A failure a plugin reported as a JSON object with `"status": "failed"`.
pub open spec fn structured_failure(t: Seq<char>) -> Option<FailureView> {
    match brace_span(t) {
        None => None,
        Some((s, e)) => {
            let doc = t.subrange(s, e + 1);
            if node(doc, member_pointer(""@, "status"@)) != JsonNodeView::Str("failed"@) {
                None
            } else {
                let code = str_at_or(doc, member_pointer(""@, "code"@), "plugin_failed"@);
                let message = str_at_or(doc, member_pointer(""@, "message"@), "Plugin failed"@);
                let hint = str_at_or(doc, member_pointer(""@, "hint"@), ""@);
                let details = if hint.len() == 0 {
                    trim(t)
                } else {
                    message + "\n"@ + hint
                };
                Some(FailureView { code, message, details })
            }
        },
    }
}

/// How a raw plugin error is shown: a structured failure as reported, else
/// the first matching known cause, else a plain plugin failure.
pub open spec fn failure_for(raw: Seq<char>) -> FailureView {
    let t = trim(raw);
    let lower = lower_seq(t);
    match structured_failure(t) {
        Some(f) => f,
        None => if contains_seq(lower, "cloud"@) || contains_seq(lower, "onedrive"@)
            || contains_seq(lower, "always keep on this device"@) {
            FailureView {
                code: "cloud_file_unavailable"@,
                message: "Cloud file unavailable"@,
                details: t,
            }
        } else if contains_seq(lower, "encrypted"@) {
            FailureView { code: "encrypted_pdf"@, message: "Encrypted PDF"@, details: t }
        } else if contains_seq(lower, "formaterror"@) || contains_seq(lower, "corrupt"@) {
            FailureView { code: "corrupt_pdf"@, message: "Corrupt PDF"@, details: t }
        } else if contains_seq(lower, "failed to open pdf"@) || contains_seq(
            lower,
            "could not be opened"@,
        ) {
            FailureView {
                code: "pdf_open_failed"@,
                message: "PDF could not be opened"@,
                details: t,
            }
        } else if contains_seq(lower, "timed out"@) {
            FailureView { code: "plugin_timeout"@, message: "Plugin timed out"@, details: t }
        } else {
            FailureView { code: "plugin_failed"@, message: "Plugin failed"@, details: t }
        },
    }
}

fn str_at_or_exec(doc: &str, key: &str, default: &str) -> (r: String)
    ensures
        r@ == str_at_or(doc@, member_pointer(""@, key@), default@),
{
    let pointer = member_pointer_of("", key);
    match node_of(doc, pointer.as_str()) {
        JsonNode::Str(s) => s,
        _ => to_string(default),
    }
}

fn chars_slice(v: &Vec<char>, from: usize, to: usize) -> (r: Vec<char>)
    requires
        from <= to <= v.len(),
    ensures
        r@ == v@.subrange(from as int, to as int),
{
    let mut r: Vec<char> = Vec::new();
    let mut i: usize = from;
    while i < to
        invariant
            from <= i <= to <= v.len(),
            r@ == v@.subrange(from as int, i as int),
        decreases to - i,
    {
        r.push(v[i]);
        assert(r@ =~= v@.subrange(from as int, i + 1));
        i = i + 1;
    }
    r
}

/// The failure a plugin reported as JSON, if `raw_error` (already trimmed)
/// holds one.
fn parse_structured_failure(raw_error: &str) -> (r: Option<FailureDisplay>)
    requires
        brace_span_ok(raw_error@),
    ensures
        match r {
            Some(f) => structured_failure(raw_error@) == Some(f@),
            None => structured_failure(raw_error@) is None,
        },
{
    let v = chars_of(raw_error);
    let start = match find_char(&v, '{') {
        Some(s) => s,
        None => return None,
    };
    let end = match rfind_char(&v, '}') {
        Some(e) => e,
        None => return None,
    };
    proof {
        let t = raw_error@;
        let cs = choose|s: int| 0 <= s < t.len() && t[s] == '{' && forall|j: int| 0 <= j < s ==> t[j] != '{';
        assert(0 <= cs < t.len() && t[cs] == '{' && forall|j: int| 0 <= j < cs ==> t[j] != '{');
        assert(cs == start) by {
            if cs < start {
                assert(t[cs] != '{');
            }
            if cs > start {
                assert(t[start as int] != '{');
            }
        }
        let ce = choose|e: int| 0 <= e < t.len() && t[e] == '}' && forall|j: int| e < j < t.len() ==> t[j] != '}';
        assert(0 <= ce < t.len() && t[ce] == '}' && forall|j: int| ce < j < t.len() ==> t[j] != '}');
        assert(ce == end) by {
            if ce < end {
                assert(t[end as int] != '}');
            }
            if ce > end {
                assert(t[ce] != '}');
            }
        }
        assert(brace_span(t) == Some((start as int, end as int)));
    }
    let piece = chars_slice(&v, start, end + 1);
    let text = string_from_chars(&piece);
    let status_pointer = member_pointer_of("", "status");
    let failed = match node_of(text.as_str(), status_pointer.as_str()) {
        JsonNode::Str(s) => str_eq(s.as_str(), "failed"),
        _ => false,
    };
    if !failed {
        return None;
    }
    let code = str_at_or_exec(text.as_str(), "code", "plugin_failed");
    let message = str_at_or_exec(text.as_str(), "message", "Plugin failed");
    let hint = str_at_or_exec(text.as_str(), "hint", "");
    let details = if hint.unicode_len() == 0 {
        trim_str(raw_error)
    } else {
        concat3(message.as_str(), "\n", hint.as_str())
    };
    Some(FailureDisplay { code, message, details })
}

fn display(code: &str, message: &str, details: &String) -> (r: FailureDisplay)
    ensures
        r@ == (FailureView { code: code@, message: message@, details: details@ }),
{
    FailureDisplay { code: to_string(code), message: to_string(message), details: details.clone() }
}

/// How a raw plugin error is shown to the user.
pub fn classify_failure(raw_error: &str) -> (r: FailureDisplay)
    requires
        brace_span_ok(trim(raw_error@)),
    ensures
        r@ == failure_for(raw_error@),
{
    let trimmed = trim_str(raw_error);
    if let Some(d) = parse_structured_failure(trimmed.as_str()) {
        return d;
    }
    let t = chars_of(trimmed.as_str());
    let lower = lower_chars(&t);
    if contains_chars(&lower, &chars_of("cloud")) || contains_chars(&lower, &chars_of("onedrive"))
        || contains_chars(&lower, &chars_of("always keep on this device")) {
        return display("cloud_file_unavailable", "Cloud file unavailable", &trimmed);
    }
    if contains_chars(&lower, &chars_of("encrypted")) {
        return display("encrypted_pdf", "Encrypted PDF", &trimmed);
    }
    if contains_chars(&lower, &chars_of("formaterror")) || contains_chars(
        &lower,
        &chars_of("corrupt"),
    ) {
        return display("corrupt_pdf", "Corrupt PDF", &trimmed);
    }
    if contains_chars(&lower, &chars_of("failed to open pdf")) || contains_chars(
        &lower,
        &chars_of("could not be opened"),
    ) {
        return display("pdf_open_failed", "PDF could not be opened", &trimmed);
    }
    if contains_chars(&lower, &chars_of("timed out")) {
        return display("plugin_timeout", "Plugin timed out", &trimmed);
    }
    display("plugin_failed", "Plugin failed", &trimmed)
}

/// The wait after the given number of failed attempts: five minutes, a
/// quarter hour, an hour, four hours, then twelve hours.
pub open spec fn backoff_for(attempts: u32) -> u64 {
    if attempts <= 1 {
        300
    } else if attempts == 2 {
        900
    } else if attempts == 3 {
        3600
    } else if attempts == 4 {
        14400
    } else {
        43200
    }
}

/// Seconds to wait before retrying after `attempts` failures.
pub fn backoff_seconds(attempts: u32) -> (r: u64)
    ensures
        r == backoff_for(attempts),
{
    let index: u32 = if attempts == 0 {
        0
    } else {
        attempts - 1
    };
    if index == 0 {
        300
    } else if index == 1 {
        900
    } else if index == 2 {
        3600
    } else if index == 3 {
        14400
    } else {
        43200
    }
}

/// The RFC 3339 text of the instant `secs` seconds after the Unix epoch, or
/// the epoch's text where that instant cannot be written.
pub open spec fn rfc3339_or_epoch(secs: int) -> Seq<char> {
    match rfc3339_of_seconds(secs) {
        Some(t) => t,
        None => "1970-01-01T00:00:00Z"@,
    }
}

fn rfc3339_or_epoch_text(secs: i64) -> (r: String)
    ensures
        r@ == rfc3339_or_epoch(secs as int),
{
    match rfc3339_text_of_seconds(secs) {
        Some(t) => t,
        None => to_string("1970-01-01T00:00:00Z"),
    }
}

/// The failure state recorded when `plugin` failed on a source file for the
/// `attempts`-th time, at `now_seconds` seconds after the Unix epoch: the
/// source's size and modification time as given, the failure time, and the
/// next retry one backoff later.
pub fn failure_state_record(
    source_path: &str,
    source_size: u64,
    source_mtime: String,
    plugin: &RegisteredPlugin,
    attempts: u32,
    now_seconds: i64,
    display: FailureDisplay,
) -> (r: PluginFailureState)
    requires
        now_seconds + 43200 <= i64::MAX,
    ensures
        r.schema@ == FAILURE_STATE_SCHEMA@,
        r.plugin_id@ == plugin.id@,
        r.plugin_version@ == plugin.version@,
        r.source_path@ == source_path@,
        r.source_size == source_size,
        r.source_mtime@ == source_mtime@,
        r.attempts == attempts,
        r.last_failed_at@ == rfc3339_or_epoch(now_seconds as int),
        r.next_retry_at@ == rfc3339_or_epoch(now_seconds + backoff_for(attempts)),
        r.code@ == display.code@,
        r.message@ == display.message@,
        r.details@ == display.details@,
        r.retry_after_seconds == backoff_for(attempts),
{
    let retry_after_seconds = backoff_seconds(attempts);
    let next: i64 = now_seconds + retry_after_seconds as i64;
    PluginFailureState {
        schema: to_string(FAILURE_STATE_SCHEMA),
        plugin_id: plugin.id.clone(),
        plugin_version: plugin.version.clone(),
        source_path: to_string(source_path),
        source_size,
        source_mtime,
        attempts,
        last_failed_at: rfc3339_or_epoch_text(now_seconds),
        next_retry_at: rfc3339_or_epoch_text(next),
        code: display.code,
        message: display.message,
        details: display.details,
        retry_after_seconds,
    }
}

/// The wait before a retry never shrinks as failures add up, and never
/// exceeds twelve hours.
pub proof fn law_backoff_never_shrinks(a: u32, b: u32)
    requires
        a <= b,
    ensures
        backoff_for(a) <= backoff_for(b),
        backoff_for(b) <= 43200,
{
}

/// Where the failure state of `source_path` is kept under `index_root`.
pub fn failure_state_path(index_root: &str, source_path: &str) -> (r: String)
    ensures
        mirror_file_on_host(index_root@, source_path@, ".sm.state"@, r@),
{
    mirror_failure_state_path(index_root, source_path)
}

/// The size and modification time (RFC 3339, whole seconds) of a source file.
#[derive(Debug, Clone)]
pub struct SourceStamp {
    pub size: u64,
    pub mtime: String,
}

/// Whether a file that failed may be sent to the plugin again: always when
/// the plugin, its version, the file's size or its modification time
/// changed, or the file cannot be read; otherwise once the retry time has
/// come (`retry_time_reached`; an unreadable retry time counts as reached).
pub open spec fn retry_allowed_for(
    state: PluginFailureState,
    plugin: RegisteredPlugin,
    stamp: Option<SourceStamp>,
    retry_time_reached: Option<bool>,
) -> bool {
    if state.plugin_id@ != plugin.id@ || state.plugin_version@ != plugin.version@ {
        true
    } else {
        match stamp {
            None => true,
            Some(s) => if s.size != state.source_size || s.mtime@ != state.source_mtime@ {
                true
            } else {
                match retry_time_reached {
                    None => true,
                    Some(b) => b,
                }
            },
        }
    }
}

/// Whether the retry time `next_retry_at` has come at `now_nanos`
/// (nanoseconds after the Unix epoch); nothing when it is not RFC 3339.
pub open spec fn retry_time_reached_at(next_retry_at: Seq<char>, now_nanos: int) -> Option<bool> {
    match rfc3339_instant(next_retry_at) {
        None => None,
        Some(at) => Some(now_nanos >= at),
    }
}

/// Decides whether a failed file may be retried at the instant `now_nanos`
/// (nanoseconds after the Unix epoch), the file being as `stamp` says; see
/// `retry_allowed_for`.
pub fn retry_allowed(
    state: &PluginFailureState,
    plugin: &RegisteredPlugin,
    stamp: Option<SourceStamp>,
    now_nanos: i128,
) -> (r: bool)
    ensures
        r == retry_allowed_for(
            *state,
            *plugin,
            stamp,
            retry_time_reached_at(state.next_retry_at@, now_nanos as int),
        ),
{
    if !str_eq(state.plugin_id.as_str(), plugin.id.as_str()) || !str_eq(
        state.plugin_version.as_str(),
        plugin.version.as_str(),
    ) {
        return true;
    }
    let s = match stamp {
        None => return true,
        Some(s) => s,
    };
    if s.size != state.source_size || !str_eq(s.mtime.as_str(), state.source_mtime.as_str()) {
        return true;
    }
    match rfc3339_instant_of(state.next_retry_at.as_str()) {
        None => true,
        Some(at) => now_nanos >= at,
    }
}

/// A plugin error that is not a structured failure is shown by its first
/// known cause, looked for in its trimmed text in any case: a cloud file
/// first, then an encrypted PDF, a corrupt PDF, a PDF that could not be
/// opened, a timeout; anything else is a plain plugin failure. The details
/// are always the trimmed text.
pub proof fn law_failure_causes(raw: Seq<char>)
    requires
        structured_failure(trim(raw)) is None,
    ensures
        ({
            let lower = lower_seq(trim(raw));
            let f = failure_for(raw);
            let cloud = contains_seq(lower, "cloud"@) || contains_seq(lower, "onedrive"@)
                || contains_seq(lower, "always keep on this device"@);
            let encrypted = contains_seq(lower, "encrypted"@);
            let corrupt = contains_seq(lower, "formaterror"@) || contains_seq(lower, "corrupt"@);
            let open_failed = contains_seq(lower, "failed to open pdf"@) || contains_seq(
                lower,
                "could not be opened"@,
            );
            let timed_out = contains_seq(lower, "timed out"@);
            &&& f.details == trim(raw)
            &&& cloud ==> f.code == "cloud_file_unavailable"@ && f.message == "Cloud file unavailable"@
            &&& !cloud && encrypted ==> f.code == "encrypted_pdf"@ && f.message == "Encrypted PDF"@
            &&& !cloud && !encrypted && corrupt ==> f.code == "corrupt_pdf"@ && f.message
                == "Corrupt PDF"@
            &&& !cloud && !encrypted && !corrupt && open_failed ==> f.code == "pdf_open_failed"@
                && f.message == "PDF could not be opened"@
            &&& !cloud && !encrypted && !corrupt && !open_failed && timed_out ==> f.code
                == "plugin_timeout"@ && f.message == "Plugin timed out"@
            &&& !cloud && !encrypted && !corrupt && !open_failed && !timed_out ==> f.code
                == "plugin_failed"@ && f.message == "Plugin failed"@
        }),
{
}

} // verus!
