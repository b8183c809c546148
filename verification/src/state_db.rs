//! The plugin state database's rows and rules: the statuses an indexed file
//! can have, which of them need attention, how a status update is written,
//! when an issue type that the user ignores turns a failure into `ignored`,
//! and how long a failed file waits before its next attempt.

use vstd::prelude::*;
use crate::index_paths::{
    comps_in, default_state_db_path_for, join_in, join_name_for, prefix_in, state_db_path_in,
};
use crate::winpath::{host_path_style, PathStyle};
use crate::path::Comp;
use crate::meta::{rfc3339_instant, rfc3339_instant_of, rfc3339_of_seconds, rfc3339_text_of_seconds};
use crate::text::{str_eq, to_string};

verus! {

/// Counts of one plugin's files by status.
#[derive(Debug, Clone, Copy, PartialEq, Eq, Structural)]
pub struct PluginCounts {
    pub indexed_count: usize,
    pub attention_count: usize,
    pub ignored_count: usize,
    pub queued_count: usize,
    pub processing_count: usize,
    pub blocked_count: usize,
}

/// One indexed file and its state.
#[derive(Debug, Clone)]
pub struct IndexedFileRow {
    pub source_path: String,
    pub plugin_id: String,
    pub source_size: i64,
    pub source_mtime: String,
    pub cache_text_path: Option<String>,
    pub cache_meta_path: Option<String>,
    pub status: String,
    pub error_code: Option<String>,
    pub error_message: Option<String>,
    pub error_hint: Option<String>,
    pub attempts: u32,
    pub retry_after: Option<String>,
    pub plugin_version: String,
    pub indexed_at: Option<String>,
    pub checked_at: String,
    pub updated_at: String,
}

/// A file of a plugin that needs attention.
#[derive(Debug, Clone)]
pub struct PluginIssueRow {
    pub source_path: String,
    pub plugin_id: String,
    pub status: String,
    pub error_code: Option<String>,
    pub error_message: Option<String>,
    pub error_hint: Option<String>,
    pub attempts: u32,
    pub retry_after: Option<String>,
    pub updated_at: String,
}

/// How many issues of a plugin have one status and error code.
#[derive(Debug, Clone)]
pub struct PluginIssueCountRow {
    pub status: String,
    pub error_code: String,
    pub count: usize,
}

/// A failed file whose retry time has come.
#[derive(Debug, Clone)]
pub struct RetryReadyRow {
    pub source_path: String,
    pub plugin_id: String,
    pub attempts: u32,
}

/// A file that was queued or processing when the application stopped.
#[derive(Debug, Clone)]
pub struct RecoverableJobRow {
    pub source_path: String,
    pub plugin_id: String,
    pub attempts: u32,
}

/// One run of a plugin on one file.
#[derive(Debug, Clone)]
pub struct PluginRunRecord {
    pub id: String,
    pub plugin_id: String,
    pub source_path: String,
    pub started_at: String,
    pub finished_at: Option<String>,
    pub status: String,
    pub error_code: Option<String>,
    pub error_message: Option<String>,
}

/// An issue type that the user ignores automatically.
#[derive(Debug, Clone)]
pub struct PluginIssuePreference {
    pub plugin_id: String,
    pub error_code: String,
}

/// A status written for one file.
#[derive(Debug)]
pub struct StatusUpdate {
    pub source_path: String,
    pub plugin_id: String,
    pub status: String,
    pub error_code: Option<String>,
    pub error_message: Option<String>,
    pub error_hint: Option<String>,
    pub attempts: u32,
    pub retry_after: Option<String>,
}

/// Where the state database lies, and the index root that its cache paths
/// are under.
#[derive(Debug, Clone)]
pub struct StateDb {
    path: String,
    index_root: String,
}

pub open spec fn attention(status: Seq<char>) -> bool {
    status == "failed"@ || status == "stale"@ || status == "missing"@ || status == "skipped"@
}

/// Whether a file with this status needs the user's attention.
pub fn is_attention_status(status: &str) -> (r: bool)
    ensures
        r == attention(status@),
{
    str_eq(status, "failed") || str_eq(status, "stale") || str_eq(status, "missing") || str_eq(
        status,
        "skipped",
    )
}

pub fn ignored_status() -> (r: &'static str)
    ensures
        r@ == "ignored"@,
{
    "ignored"
}

pub fn ready_status() -> (r: &'static str)
    ensures
        r@ == "ready"@,
{
    "ready"
}

pub fn queued_status() -> (r: &'static str)
    ensures
        r@ == "queued"@,
{
    "queued"
}

/// The statuses that an ignored issue type turns into `ignored`.
pub open spec fn ignorable(status: Seq<char>) -> bool {
    status == "failed"@ || status == "missing"@ || status == "skipped"@
}

/// The status actually written: a failed, missing or skipped file with an
/// error code that the user ignores automatically is written `ignored`.
pub open spec fn effective_status_of(status: Seq<char>, error_code: Option<Seq<char>>, auto_ignored: bool) -> Seq<char> {
    if ignorable(status) && error_code is Some && auto_ignored {
        "ignored"@
    } else {
        status
    }
}

/// The status to write, given whether the plugin's issue type `error_code`
/// is ignored automatically (the caller asks only when there is a code).
pub fn effective_status(status: &str, error_code: Option<&str>, auto_ignored: bool) -> (r: String)
    ensures
        r@ == effective_status_of(
            status@,
            match error_code {
                Some(c) => Some(c@),
                None => None,
            },
            auto_ignored,
        ),
{
    let ignorable = str_eq(status, "failed") || str_eq(status, "missing") || str_eq(
        status,
        "skipped",
    );
    if ignorable && error_code.is_some() && auto_ignored {
        to_string("ignored")
    } else {
        to_string(status)
    }
}

/// How long a file waits after its `attempts`-th failure: ten minutes, an
/// hour, a day, and then no more retries.
pub open spec fn retry_delay(attempts: u32) -> Option<i64> {
    if attempts == 1 {
        Some(600)
    } else if attempts == 2 {
        Some(3600)
    } else if attempts == 3 {
        Some(86400)
    } else {
        None
    }
}

pub fn retry_delay_seconds(attempts: u32) -> (r: Option<i64>)
    ensures
        r == retry_delay(attempts),
{
    match attempts {
        1 => Some(600),
        2 => Some(3600),
        3 => Some(86400),
        _ => None,
    }
}

/// Whether a failed file's retry time `retry_after` has come at the
/// instant `now_nanos` (nanoseconds after the Unix epoch): a file without
/// one is never retried, and a retry time that is not RFC 3339 has come.
pub open spec fn retry_ready_at(retry_after: Option<Seq<char>>, now_nanos: int) -> bool {
    match retry_after {
        None => false,
        Some(t) => match rfc3339_instant(t) {
            None => true,
            Some(at) => now_nanos >= at,
        },
    }
}

/// Whether a failed file's retry time has come at `now_nanos`.
pub fn is_retry_ready(retry_after: Option<&str>, now_nanos: i128) -> (r: bool)
    ensures
        r == retry_ready_at(opt_view(retry_after), now_nanos as int),
{
    match retry_after {
        None => false,
        Some(t) => match rfc3339_instant_of(t) {
            None => true,
            Some(at) => now_nanos >= at,
        },
    }
}

/// The retry time after the given attempt when the current time is
/// `now_seconds` whole seconds after the Unix epoch: the delay of the
/// attempt later, in RFC 3339 to the second; none after the third attempt,
/// or when the time cannot be written.
pub open spec fn retry_after_at(attempts: u32, now_seconds: int) -> Option<Seq<char>> {
    match retry_delay(attempts) {
        None => None,
        Some(d) => rfc3339_of_seconds(now_seconds + d),
    }
}

/// The retry time after the given attempt, the current time being
/// `now_seconds`.
pub fn retry_after_for_attempt(attempts: u32, now_seconds: i64) -> (r: Option<String>)
    requires
        now_seconds + 86400 <= i64::MAX,
    ensures
        match r {
            Some(t) => retry_after_at(attempts, now_seconds as int) == Some(t@),
            None => retry_after_at(attempts, now_seconds as int) is None,
        },
{
    match retry_delay_seconds(attempts) {
        None => None,
        Some(d) => rfc3339_text_of_seconds(now_seconds + d),
    }
}

pub open spec fn opt_view(o: Option<&str>) -> Option<Seq<char>> {
    match o {
        Some(s) => Some(s@),
        None => None,
    }
}

pub open spec fn opt_string(o: Option<String>) -> Option<Seq<char>> {
    match o {
        Some(s) => Some(s@),
        None => None,
    }
}

fn opt_to_string(o: Option<&str>) -> (r: Option<String>)
    ensures
        opt_string(r) == opt_view(o),
{
    match o {
        Some(s) => Some(to_string(s)),
        None => None,
    }
}

/// The update is the status `status` with these fields, for this file.
pub open spec fn update_is(
    u: StatusUpdate,
    source_path: Seq<char>,
    plugin_id: Seq<char>,
    status: Seq<char>,
    code: Option<Seq<char>>,
    message: Option<Seq<char>>,
    hint: Option<Seq<char>>,
    attempts: u32,
    retry_after: Option<Seq<char>>,
) -> bool {
    &&& u.source_path@ == source_path
    &&& u.plugin_id@ == plugin_id
    &&& u.status@ == status
    &&& opt_string(u.error_code) == code
    &&& opt_string(u.error_message) == message
    &&& opt_string(u.error_hint) == hint
    &&& u.attempts == attempts
    &&& opt_string(u.retry_after) == retry_after
}

fn make_update(
    source_path: &str,
    plugin_id: &str,
    status: &str,
    code: Option<&str>,
    message: Option<&str>,
    hint: Option<&str>,
    attempts: u32,
    retry_after: Option<&str>,
) -> (u: StatusUpdate)
    ensures
        update_is(
            u,
            source_path@,
            plugin_id@,
            status@,
            opt_view(code),
            opt_view(message),
            opt_view(hint),
            attempts,
            opt_view(retry_after),
        ),
{
    StatusUpdate {
        source_path: to_string(source_path),
        plugin_id: to_string(plugin_id),
        status: to_string(status),
        error_code: opt_to_string(code),
        error_message: opt_to_string(message),
        error_hint: opt_to_string(hint),
        attempts,
        retry_after: opt_to_string(retry_after),
    }
}

/// The database file in `style`: the default one of the index roots, or
/// `searchmonkey.sqlite` in the first index root.
pub open spec fn state_db_file_in(
    style: PathStyle,
    index_roots: Seq<Seq<char>>,
    default_roots: Seq<Seq<char>>,
) -> Seq<char> {
    match state_db_path_in(style, default_roots) {
        Some(p) => p,
        None => join_in(
            style,
            prefix_in(style, index_roots[0]),
            comps_in(style, index_roots[0]).push(Comp::Normal("searchmonkey.sqlite"@)),
        ),
    }
}

impl StateDb {
    /// The database of the first index root; `default_roots` are the index
    /// roots of this platform, which name the default database file. Paths
    /// are read in the style of the platform.
    pub fn new(index_roots: &Vec<String>, default_roots: &Vec<String>) -> (r: Result<StateDb, String>)
        ensures
            r is Ok <==> index_roots.len() > 0,
            r matches Err(e) ==> e@ == "no plugin index root configured"@,
            r matches Ok(db) ==> db.index_root_view() == index_roots@[0]@ && (db.path_view()
                == state_db_file_in(
                PathStyle::Unix,
                index_roots@.map_values(|s: String| s@),
                default_roots@.map_values(|s: String| s@),
            ) || db.path_view() == state_db_file_in(
                PathStyle::Windows,
                index_roots@.map_values(|s: String| s@),
                default_roots@.map_values(|s: String| s@),
            )),
    {
        StateDb::new_for(host_path_style(), index_roots, default_roots)
    }

    /// The database of the first index root, paths read in `style`.
    pub fn new_for(style: PathStyle, index_roots: &Vec<String>, default_roots: &Vec<String>) -> (r:
        Result<StateDb, String>)
        ensures
            r is Ok <==> index_roots.len() > 0,
            r matches Err(e) ==> e@ == "no plugin index root configured"@,
            r matches Ok(db) ==> db.index_root_view() == index_roots@[0]@ && db.path_view()
                == state_db_file_in(
                style,
                index_roots@.map_values(|s: String| s@),
                default_roots@.map_values(|s: String| s@),
            ),
    {
        if index_roots.len() == 0 {
            return Err(to_string("no plugin index root configured"));
        }
        let index_root = index_roots[0].clone();
        assert(index_roots@.map_values(|s: String| s@)[0] == index_roots@[0]@);
        let path = match default_state_db_path_for(style, default_roots) {
            Some(p) => p,
            None => join_name_for(style, index_root.as_str(), "searchmonkey.sqlite"),
        };
        Ok(StateDb { path, index_root })
    }

    pub closed spec fn path_view(&self) -> Seq<char> {
        self.path@
    }

    /// The database file.
    pub fn path(&self) -> (r: &str)
        ensures
            r@ == self.path_view(),
    {
        self.path.as_str()
    }

    pub closed spec fn index_root_view(&self) -> Seq<char> {
        self.index_root@
    }

    /// The index root.
    pub fn index_root(&self) -> (r: &str)
        ensures
            r@ == self.index_root_view(),
    {
        self.index_root.as_str()
    }

    /// The update that records a failure.
    pub fn mark_failed(
        &self,
        source_path: &str,
        plugin_id: &str,
        attempts: u32,
        error_code: &str,
        error_message: &str,
        error_hint: Option<&str>,
        retry_after: Option<&str>,
    ) -> (u: StatusUpdate)
        ensures
            update_is(
                u,
                source_path@,
                plugin_id@,
                "failed"@,
                Some(error_code@),
                Some(error_message@),
                opt_view(error_hint),
                attempts,
                opt_view(retry_after),
            ),
    {
        make_update(
            source_path,
            plugin_id,
            "failed",
            Some(error_code),
            Some(error_message),
            error_hint,
            attempts,
            retry_after,
        )
    }

    /// The update that records a missing source file.
    pub fn mark_missing(&self, source_path: &str, plugin_id: &str, attempts: u32) -> (u:
        StatusUpdate)
        ensures
            update_is(
                u,
                source_path@,
                plugin_id@,
                "missing"@,
                Some("missing_source"@),
                Some("Source file is missing"@),
                None,
                attempts,
                None,
            ),
    {
        make_update(
            source_path,
            plugin_id,
            "missing",
            Some("missing_source"),
            Some("Source file is missing"),
            None,
            attempts,
            None,
        )
    }

    /// The update that records a skipped file.
    pub fn mark_skipped(&self, source_path: &str, plugin_id: &str, attempts: u32, message: &str) -> (u:
        StatusUpdate)
        ensures
            update_is(
                u,
                source_path@,
                plugin_id@,
                "skipped"@,
                Some("skipped"@),
                Some(message@),
                None,
                attempts,
                None,
            ),
    {
        make_update(source_path, plugin_id, "skipped", Some("skipped"), Some(message), None, attempts, None)
    }

    /// The update that records a file whose cache must be made again.
    pub fn mark_stale(
        &self,
        source_path: &str,
        plugin_id: &str,
        attempts: u32,
        error_message: Option<&str>,
    ) -> (u: StatusUpdate)
        ensures
            update_is(
                u,
                source_path@,
                plugin_id@,
                "stale"@,
                Some("stale_source"@),
                opt_view(error_message),
                None,
                attempts,
                None,
            ),
    {
        make_update(
            source_path,
            plugin_id,
            "stale",
            Some("stale_source"),
            error_message,
            None,
            attempts,
            None,
        )
    }
}

} // verus!
