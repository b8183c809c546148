//! The indexing runtime's decisions: what the status report says, what a
//! scan does with a file it finds, which folders a scan enters, how issues
//! are shown, and the checks of the user's requests.

use vstd::prelude::*;
use crate::lookup::{first_index, lemma_first_index_none, lemma_first_index_unique};
use crate::order::{text_le, text_le_exec};
use crate::path::{
    components, comps_prefix, comps_starts_with, comps_view, file_name, file_name_of, path_comps,
    Comp,
};
use crate::queue::{idle, queue_wf, refresh_queued, refreshes_queued, QueueView, RuntimeState};
use crate::index_paths::{comps_in, lies_under, lies_under_exec, read_path};
use crate::winpath::PathStyle;
use crate::registry::{
    clone_strings, group_keys, groups_view, plugins_view, strings_view, PluginRegistry,
    RegisteredPlugin, RegisteredPluginView,
};
use crate::failure_state::FailureDisplay;
use crate::queue::PluginJob;
use crate::state_db::{
    attention, is_attention_status, opt_string, opt_view, update_is, IndexedFileRow, PluginCounts,
    PluginIssuePreference, PluginIssueRow, StateDb, StatusUpdate,
};
use crate::text::{concat3, str_eq, to_string, trim, trim_str};
use crate::versions::{is_older, plugin_version_satisfies_selected, version_older, version_satisfies};

verus! {

/// The state of indexing that the user sees.
#[derive(Debug)]
pub struct PluginIndexStatus {
    pub enabled_plugins: Vec<String>,
    pub installed_plugins: Vec<InstalledPluginInfo>,
    pub indexing_state: String,
    pub plugin_state: String,
    pub paused: bool,
    pub search_active: bool,
    pub scanner_running: bool,
    pub worker_running: bool,
    pub plugin_summaries: Vec<PluginHealthSummary>,
    pub issues: Vec<PluginIssue>,
    pub auto_ignored_issue_types: Vec<PluginIssuePreferenceSummary>,
}

/// One installed plugin version.
#[derive(Debug)]
pub struct InstalledPluginInfo {
    pub id: String,
    pub name: String,
    pub version: String,
    pub is_active: bool,
    pub enabled: bool,
    pub requires_entitlement: bool,
    pub handles: Vec<String>,
    pub root_path: String,
    pub capabilities: PluginCapabilitySummary,
}

/// What a plugin can produce.
#[derive(Debug, Clone, Copy, PartialEq, Eq, Structural)]
pub struct PluginCapabilitySummary {
    pub text: bool,
    pub layout: bool,
    pub ocr: bool,
}

/// How many of a plugin's files are in each state.
#[derive(Debug, Clone)]
pub struct PluginHealthSummary {
    pub plugin_id: String,
    pub indexed_count: usize,
    pub attention_count: usize,
    pub ignored_count: usize,
    pub queued_count: usize,
    pub processing_count: usize,
}

/// A file of a plugin that needs attention, as shown to the user.
#[derive(Debug)]
pub struct PluginIssue {
    pub source_path: String,
    pub file_name: String,
    pub plugin_id: String,
    pub status: String,
    pub error_code: String,
    pub message: String,
    pub details: String,
    pub attempts: u32,
    pub retry_after: Option<String>,
    pub last_reported_at: String,
}

/// An issue type that is ignored automatically.
#[derive(Debug)]
pub struct PluginIssuePreferenceSummary {
    pub plugin_id: String,
    pub error_code: String,
}

/// The counts of one plugin, as the database gave them.
#[derive(Debug, Clone)]
pub struct PluginCountsEntry {
    pub plugin_id: String,
    pub counts: PluginCounts,
}

/// The indexing runtime: its queues, and the plugin and index roots it was
/// made with.
#[derive(Debug)]
pub struct PluginIndexRuntime {
    pub state: RuntimeState,
    pub plugin_roots: Vec<String>,
    pub index_roots: Vec<String>,
}

/// What a scan does with a file that a plugin handles and that the
/// database already knows.
#[derive(Debug)]
pub enum ScanAction {
    /// Enqueue a job with this attempt number.
    Enqueue(u32),
    /// The user ignores the file: record its current size and time only.
    SyncIgnored,
    /// Mark the file stale with this message (keeping its attempts), then
    /// enqueue a job with the attempt number.
    MarkStaleThenEnqueue(String, u32),
    /// The cache is valid: mark the file ready.
    MarkReady,
    /// Leave the file as it is; only note that it was checked.
    Touch,
}

// ---------------------------------------------------------------------------
// Status

pub open spec fn indexing_state_of(q: QueueView) -> Seq<char> {
    if q.paused {
        "paused"@
    } else if q.worker_running || q.scanner_running {
        "running"@
    } else if q.jobs.len() > 0 || q.pending_jobs.len() > 0 || q.pending_refreshes.len() > 0 {
        "queued"@
    } else {
        "idle"@
    }
}

pub open spec fn plugin_state_of(q: QueueView) -> Seq<char> {
    if q.paused || (!q.worker_running && !q.scanner_running && q.jobs.len() == 0
        && q.pending_jobs.len() == 0 && q.pending_refreshes.len() == 0) {
        "idle"@
    } else {
        "working"@
    }
}

pub struct HealthView {
    pub plugin_id: Seq<char>,
    pub indexed_count: usize,
    pub attention_count: usize,
    pub ignored_count: usize,
    pub queued_count: usize,
    pub processing_count: usize,
}

pub open spec fn health_view(h: PluginHealthSummary) -> HealthView {
    HealthView {
        plugin_id: h.plugin_id@,
        indexed_count: h.indexed_count,
        attention_count: h.attention_count,
        ignored_count: h.ignored_count,
        queued_count: h.queued_count,
        processing_count: h.processing_count,
    }
}

/// The summary of a plugin with these counts (all zero when the database
/// has none).
pub open spec fn health_of(plugin_id: Seq<char>, counts: Option<PluginCounts>) -> HealthView {
    match counts {
        Some(c) => HealthView {
            plugin_id,
            indexed_count: c.indexed_count,
            attention_count: c.attention_count,
            ignored_count: c.ignored_count,
            queued_count: c.queued_count,
            processing_count: c.processing_count,
        },
        None => HealthView {
            plugin_id,
            indexed_count: 0,
            attention_count: 0,
            ignored_count: 0,
            queued_count: 0,
            processing_count: 0,
        },
    }
}

pub fn plugin_health_summary(plugin_id: &str, counts: Option<&PluginCounts>) -> (r: PluginHealthSummary)
    ensures
        health_view(r) == health_of(
            plugin_id@,
            match counts {
                Some(c) => Some(*c),
                None => None,
            },
        ),
{
    match counts {
        Some(c) => PluginHealthSummary {
            plugin_id: to_string(plugin_id),
            indexed_count: c.indexed_count,
            attention_count: c.attention_count,
            ignored_count: c.ignored_count,
            queued_count: c.queued_count,
            processing_count: c.processing_count,
        },
        None => PluginHealthSummary {
            plugin_id: to_string(plugin_id),
            indexed_count: 0,
            attention_count: 0,
            ignored_count: 0,
            queued_count: 0,
            processing_count: 0,
        },
    }
}

pub open spec fn opt_text(o: Option<String>) -> Option<Seq<char>> {
    match o {
        Some(s) => Some(s@),
        None => None,
    }
}

/// The message shown for an issue.
pub open spec fn issue_message_of(row: PluginIssueRow) -> Seq<char> {
    let fallback = match row.error_message {
        Some(m) => m@,
        None => "Plugin issue"@,
    };
    if attention(row.status@) {
        if row.status@ == "stale"@ {
            "Needs reprocessing"@
        } else if row.status@ == "missing"@ {
            "Source file missing"@
        } else if row.status@ == "skipped"@ {
            match row.error_message {
                Some(m) => m@,
                None => "Skipped"@,
            }
        } else {
            fallback
        }
    } else {
        fallback
    }
}

pub fn issue_message(row: &PluginIssueRow) -> (r: String)
    ensures
        r@ == issue_message_of(*row),
{
    if is_attention_status(row.status.as_str()) {
        if str_eq(row.status.as_str(), "stale") {
            return to_string("Needs reprocessing");
        } else if str_eq(row.status.as_str(), "missing") {
            return to_string("Source file missing");
        } else if str_eq(row.status.as_str(), "skipped") {
            return match &row.error_message {
                Some(m) => m.clone(),
                None => to_string("Skipped"),
            };
        }
    }
    match &row.error_message {
        Some(m) => m.clone(),
        None => to_string("Plugin issue"),
    }
}

/// The issue shown for a database row: its code (or status), message,
/// details (hint, else error message, else the message), and the file name.
pub open spec fn issue_is(i: PluginIssue, row: PluginIssueRow) -> bool {
    let message = issue_message_of(row);
    &&& i.source_path@ == row.source_path@
    &&& i.file_name@ == match file_name_of(path_comps(row.source_path@)) {
        Some(n) => n,
        None => row.source_path@,
    }
    &&& i.plugin_id@ == row.plugin_id@
    &&& i.status@ == row.status@
    &&& i.error_code@ == match row.error_code {
        Some(c) => c@,
        None => row.status@,
    }
    &&& i.message@ == message
    &&& i.details@ == match row.error_hint {
        Some(h) => h@,
        None => match row.error_message {
            Some(m) => m@,
            None => message,
        },
    }
    &&& i.attempts == row.attempts
    &&& opt_text(i.retry_after) == opt_text(row.retry_after)
    &&& i.last_reported_at@ == row.updated_at@
}

pub fn map_issue_row(row: &PluginIssueRow) -> (r: PluginIssue)
    ensures
        issue_is(r, *row),
{
    let error_code = match &row.error_code {
        Some(c) => c.clone(),
        None => row.status.clone(),
    };
    let message = issue_message(row);
    let details = match &row.error_hint {
        Some(h) => h.clone(),
        None => match &row.error_message {
            Some(m) => m.clone(),
            None => message.clone(),
        },
    };
    let name = match file_name(row.source_path.as_str()) {
        Some(n) => n,
        None => row.source_path.clone(),
    };
    PluginIssue {
        source_path: row.source_path.clone(),
        file_name: name,
        plugin_id: row.plugin_id.clone(),
        status: row.status.clone(),
        error_code,
        message,
        details,
        attempts: row.attempts,
        retry_after: match &row.retry_after {
            Some(t) => Some(t.clone()),
            None => None,
        },
        last_reported_at: row.updated_at.clone(),
    }
}

pub open spec fn count_keys(v: Seq<PluginCountsEntry>) -> Seq<Seq<char>> {
    v.map_values(|e: PluginCountsEntry| e.plugin_id@)
}

/// The counts the database gave for a plugin.
pub open spec fn counts_for(v: Seq<PluginCountsEntry>, plugin_id: Seq<char>) -> Option<PluginCounts> {
    match first_index(count_keys(v), plugin_id) {
        Some(k) => Some(v[k].counts),
        None => None,
    }
}

fn find_counts<'a>(v: &'a Vec<PluginCountsEntry>, plugin_id: &str) -> (r: Option<&'a PluginCounts>)
    ensures
        match r {
            Some(c) => counts_for(v@, plugin_id@) == Some(*c),
            None => counts_for(v@, plugin_id@) is None,
        },
{
    let ghost keys = count_keys(v@);
    let mut i: usize = 0;
    while i < v.len()
        invariant
            i <= v.len(),
            keys == count_keys(v@),
            forall|j: int| 0 <= j < i ==> keys[j] != plugin_id@,
        decreases v.len() - i,
    {
        if str_eq(v[i].plugin_id.as_str(), plugin_id) {
            proof {
                lemma_first_index_unique(keys, plugin_id@, i as int);
            }
            return Some(&v[i].counts);
        }
        i = i + 1;
    }
    proof {
        lemma_first_index_none(keys, plugin_id@);
    }
    None
}

/// The ids of the enabled plugins, in order.
pub open spec fn enabled_ids(v: Seq<InstalledPluginInfo>) -> Seq<Seq<char>>
    decreases v.len(),
{
    if v.len() == 0 {
        seq![]
    } else if v.last().enabled {
        enabled_ids(v.drop_last()).push(v.last().id@)
    } else {
        enabled_ids(v.drop_last())
    }
}

/// The report assembled from the queues and what the database and plugin
/// discovery gave.
pub open spec fn status_is(
    s: PluginIndexStatus,
    q: QueueView,
    installed: Seq<InstalledPluginInfo>,
    counts: Seq<PluginCountsEntry>,
    issues: Seq<PluginIssueRow>,
    prefs: Seq<PluginIssuePreference>,
) -> bool {
    &&& strings_view(s.enabled_plugins@) == enabled_ids(installed)
    &&& s.installed_plugins@ == installed
    &&& s.indexing_state@ == indexing_state_of(q)
    &&& s.plugin_state@ == plugin_state_of(q)
    &&& s.paused == q.paused
    &&& s.search_active == (q.search_active > 0)
    &&& s.scanner_running == q.scanner_running
    &&& s.worker_running == q.worker_running
    &&& s.plugin_summaries@.len() == installed.len()
    &&& forall|i: int|
        0 <= i < installed.len() ==> health_view(#[trigger] s.plugin_summaries@[i]) == health_of(
            installed[i].id@,
            counts_for(counts, installed[i].id@),
        )
    &&& s.issues@.len() == issues.len()
    &&& forall|i: int| 0 <= i < issues.len() ==> issue_is(#[trigger] s.issues@[i], issues[i])
    &&& s.auto_ignored_issue_types@.len() == prefs.len()
    &&& forall|i: int|
        0 <= i < prefs.len() ==> (#[trigger] s.auto_ignored_issue_types@[i]).plugin_id@
            == prefs[i].plugin_id@ && s.auto_ignored_issue_types@[i].error_code@
            == prefs[i].error_code@
}

impl PluginIndexRuntime {
    /// A runtime with empty queues for these plugin and index roots.
    pub fn new(plugin_roots: Vec<String>, index_roots: Vec<String>) -> (r: PluginIndexRuntime)
        ensures
            queue_wf(r.state@),
            idle(r.state@),
            !r.state@.paused,
            r.state@.run_counter == 1,
            r.plugin_roots@ == plugin_roots@,
            r.index_roots@ == index_roots@,
    {
        PluginIndexRuntime { state: RuntimeState::new(), plugin_roots, index_roots }
    }

    /// The folder that plugins are installed into: the first plugin root.
    pub fn default_plugin_folder(&self) -> (r: Option<String>)
        ensures
            r is Some <==> self.plugin_roots@.len() > 0,
            r matches Some(p) ==> p@ == self.plugin_roots@[0]@,
    {
        if self.plugin_roots.len() == 0 {
            None
        } else {
            Some(self.plugin_roots[0].clone())
        }
    }

    /// Queues a scan of `root` (the caller has made it canonical and
    /// recorded it); tells whether it was queued.
    pub fn request_scan(&mut self, root: &str) -> (queued: bool)
        requires
            queue_wf(old(self).state@),
        ensures
            queue_wf(final(self).state@),
            queued == !crate::queue::root_known(old(self).state@, root@),
            queued ==> final(self).state@ == crate::queue::root_queued(old(self).state@, root@),
            !queued ==> final(self).state@ == old(self).state@,
    {
        self.state.queue_root(root)
    }

    /// Queues a rescan for one plugin of every scan root that still exists
    /// (`existing_roots`, in order); the plugin id must not be blank. A
    /// rescan that is queued or running already is left as it is.
    pub fn request_plugin_refresh(&mut self, plugin_id: &str, existing_roots: &Vec<String>) -> (r:
        Result<(), String>)
        requires
            queue_wf(old(self).state@),
        ensures
            queue_wf(final(self).state@),
            r is Err <==> trim(plugin_id@).len() == 0,
            r matches Err(e) ==> e@ == "plugin id is required"@ && final(self).state@ == old(
                self,
            ).state@,
            r is Ok ==> final(self).state@ == refreshes_queued(
                old(self).state@,
                strings_view(existing_roots@),
                trim(plugin_id@),
            ),
    {
        let id = trim_str(plugin_id);
        if id.as_str().unicode_len() == 0 {
            return Err(to_string("plugin id is required"));
        }
        self.queue_refreshes(id.as_str(), existing_roots);
        Ok(())
    }

    /// Queues a rescan of each of `roots` (in order) for the plugin `id`.
    fn queue_refreshes(&mut self, id: &str, roots: &Vec<String>)
        requires
            queue_wf(old(self).state@),
        ensures
            queue_wf(final(self).state@),
            final(self).state@ == refreshes_queued(old(self).state@, strings_view(roots@), id@),
    {
        let mut i: usize = 0;
        let ghost q0 = self.state@;
        let ghost rs = strings_view(roots@);
        assert(rs.take(0) =~= Seq::<Seq<char>>::empty());
        while i < roots.len()
            invariant
                i <= roots.len(),
                rs == strings_view(roots@),
                queue_wf(self.state@),
                self.state@ == refreshes_queued(q0, rs.take(i as int), id@),
            decreases roots.len() - i,
        {
            let ghost before = self.state@;
            self.state.queue_refresh(roots[i].as_str(), id);
            assert(rs.take(i + 1).drop_last() =~= rs.take(i as int));
            assert(rs.take(i + 1).last() == roots@[i as int]@);
            assert(self.state@ == refresh_queued(before, roots@[i as int]@, id@));
            i = i + 1;
        }
        assert(rs.take(roots.len() as int) =~= rs);
    }

    /// The report of the queues' state with what discovery and the
    /// database gave.
    pub fn status(
        &self,
        installed: Vec<InstalledPluginInfo>,
        counts: &Vec<PluginCountsEntry>,
        issues: &Vec<PluginIssueRow>,
        preferences: &Vec<PluginIssuePreference>,
    ) -> (r: PluginIndexStatus)
        ensures
            status_is(r, self.state@, installed@, counts@, issues@, preferences@),
    {
        let q = &self.state;
        let ghost qv = q@;
        let indexing_state = indexing_state(q);
        let plugin_state = plugin_state(q);
        let mut enabled: Vec<String> = Vec::new();
        let mut summaries: Vec<PluginHealthSummary> = Vec::new();
        let mut i: usize = 0;
        assert(installed@.take(0) =~= Seq::<InstalledPluginInfo>::empty());
        while i < installed.len()
            invariant
                i <= installed.len(),
                strings_view(enabled@) == enabled_ids(installed@.take(i as int)),
                summaries@.len() == i,
                forall|j: int|
                    0 <= j < i ==> health_view(#[trigger] summaries@[j]) == health_of(
                        installed@[j].id@,
                        counts_for(counts@, installed@[j].id@),
                    ),
            decreases installed.len() - i,
        {
            let p = &installed[i];
            assert(installed@.take(i + 1).drop_last() =~= installed@.take(i as int));
            if p.enabled {
                let ghost before = strings_view(enabled@);
                enabled.push(p.id.clone());
                assert(strings_view(enabled@) =~= before.push(p.id@));
            }
            let c = find_counts(counts, p.id.as_str());
            summaries.push(plugin_health_summary(p.id.as_str(), c));
            i = i + 1;
        }
        assert(installed@.take(installed.len() as int) =~= installed@);
        let mut shown: Vec<PluginIssue> = Vec::new();
        let mut k: usize = 0;
        while k < issues.len()
            invariant
                k <= issues.len(),
                shown@.len() == k,
                forall|j: int| 0 <= j < k ==> issue_is(#[trigger] shown@[j], issues@[j]),
            decreases issues.len() - k,
        {
            shown.push(map_issue_row(&issues[k]));
            k = k + 1;
        }
        let mut prefs: Vec<PluginIssuePreferenceSummary> = Vec::new();
        let mut m: usize = 0;
        while m < preferences.len()
            invariant
                m <= preferences.len(),
                prefs@.len() == m,
                forall|j: int|
                    0 <= j < m ==> (#[trigger] prefs@[j]).plugin_id@ == preferences@[j].plugin_id@
                        && prefs@[j].error_code@ == preferences@[j].error_code@,
            decreases preferences.len() - m,
        {
            prefs.push(
                PluginIssuePreferenceSummary {
                    plugin_id: preferences[m].plugin_id.clone(),
                    error_code: preferences[m].error_code.clone(),
                },
            );
            m = m + 1;
        }
        PluginIndexStatus {
            enabled_plugins: enabled,
            installed_plugins: installed,
            indexing_state,
            plugin_state,
            paused: q.paused(),
            search_active: q.search_active(),
            scanner_running: q.scanner_running(),
            worker_running: q.worker_running(),
            plugin_summaries: summaries,
            issues: shown,
            auto_ignored_issue_types: prefs,
        }
    }

    /// Forgets every queued root, refresh and job.
    pub fn rebuild(&mut self)
        requires
            queue_wf(old(self).state@),
        ensures
            queue_wf(final(self).state@),
            final(self).state@ == (QueueView {
                pending_roots: Seq::empty(),
                queued_roots: Set::empty(),
                pending_refreshes: Seq::empty(),
                queued_refreshes: Set::empty(),
                active_refreshes: Set::empty(),
                pending_jobs: Seq::empty(),
                pending_job_keys: Set::empty(),
                jobs: Seq::empty(),
                queued_jobs: Set::empty(),
                processing_jobs: Set::empty(),
                ..old(self).state@
            }),
    {
        self.state.rebuild();
    }

    /// Pauses or resumes indexing.
    pub fn set_paused(&mut self, paused: bool)
        ensures
            final(self).state@ == (QueueView { paused, ..old(self).state@ }),
    {
        self.state.set_paused(paused);
    }

    /// A search started.
    pub fn search_started(&mut self)
        ensures
            final(self).state@ == (QueueView {
                search_active: if old(self).state@.search_active == usize::MAX {
                    0
                } else {
                    (old(self).state@.search_active + 1) as usize
                },
                ..old(self).state@
            }),
    {
        self.state.search_started();
    }

    /// A search finished.
    pub fn search_finished(&mut self)
        ensures
            final(self).state@ == (QueueView {
                search_active: if old(self).state@.search_active == 0 {
                    usize::MAX
                } else {
                    (old(self).state@.search_active - 1) as usize
                },
                ..old(self).state@
            }),
    {
        self.state.search_finished();
    }

    /// Whether nothing is queued, scanned, processed or searched.
    pub fn is_idle(&self) -> (r: bool)
        ensures
            r == idle(self.state@),
    {
        self.state.is_idle()
    }

    /// Queues a rescan of a plugin's files under every scan root that still
    /// exists (`existing_roots`, in order); the plugin id must not be blank.
    pub fn refresh_plugin_supported_files(&mut self, plugin_id: &str, existing_roots: &Vec<String>) -> (r:
        Result<(), String>)
        requires
            queue_wf(old(self).state@),
        ensures
            queue_wf(final(self).state@),
            r is Err <==> trim(plugin_id@).len() == 0,
            r matches Err(e) ==> e@ == "plugin id is required"@ && final(self).state@ == old(
                self,
            ).state@,
            r is Ok ==> final(self).state@ == refreshes_queued(
                old(self).state@,
                strings_view(existing_roots@),
                trim(plugin_id@),
            ),
    {
        self.request_plugin_refresh(plugin_id, existing_roots)
    }

    /// The files of a plugin to retry for one issue type: the issues that
    /// are not ignored and whose code (or, without one, status) is the
    /// type. Both names must not be blank.
    pub fn retry_issue_type(&self, plugin_id: &str, error_code: &str, issues: &Vec<PluginIssueRow>) -> (r:
        Result<Vec<String>, String>)
        ensures
            r is Err <==> (trim(plugin_id@).len() == 0 || trim(error_code@).len() == 0),
            r matches Err(e) ==> e@ == "plugin id and error code are required"@,
            r matches Ok(paths) ==> strings_view(paths@) == retry_paths(
                issues@,
                trim(error_code@),
            ),
    {
        let (_, code) = required_issue_type(plugin_id, error_code)?;
        let mut out: Vec<String> = Vec::new();
        let mut i: usize = 0;
        assert(issues@.take(0) =~= Seq::<PluginIssueRow>::empty());
        while i < issues.len()
            invariant
                i <= issues.len(),
                strings_view(out@) == retry_paths(issues@.take(i as int), code@),
            decreases issues.len() - i,
        {
            let row = &issues[i];
            assert(issues@.take(i + 1).drop_last() =~= issues@.take(i as int));
            let row_code = match &row.error_code {
                Some(c) => c.as_str(),
                None => row.status.as_str(),
            };
            if !str_eq(row.status.as_str(), "ignored") && str_eq(row_code, code.as_str()) {
                let ghost before = strings_view(out@);
                out.push(row.source_path.clone());
                assert(strings_view(out@) =~= before.push(row.source_path@));
            }
            i = i + 1;
        }
        assert(issues@.take(issues.len() as int) =~= issues@);
        Ok(out)
    }

    /// Checks a request to ignore an issue type; gives the trimmed plugin id
    /// and error code.
    pub fn ignore_issue_type(&self, plugin_id: &str, error_code: &str) -> (r: Result<
        (String, String),
        String,
    >)
        ensures
            r is Err <==> (trim(plugin_id@).len() == 0 || trim(error_code@).len() == 0),
            r matches Err(e) ==> e@ == "plugin id and error code are required"@,
            r matches Ok(p) ==> p.0@ == trim(plugin_id@) && p.1@ == trim(error_code@),
    {
        required_issue_type(plugin_id, error_code)
    }

    /// Checks a request to ignore an issue type automatically (or to stop);
    /// gives the trimmed plugin id and error code.
    pub fn set_issue_type_auto_ignore(&self, plugin_id: &str, error_code: &str) -> (r: Result<
        (String, String),
        String,
    >)
        ensures
            r is Err <==> (trim(plugin_id@).len() == 0 || trim(error_code@).len() == 0),
            r matches Err(e) ==> e@ == "plugin id and error code are required"@,
            r matches Ok(p) ==> p.0@ == trim(plugin_id@) && p.1@ == trim(error_code@),
    {
        required_issue_type(plugin_id, error_code)
    }

    /// Checks a request to enable or disable a plugin, which must be
    /// installed; disabling takes its jobs out of the queues. Gives the
    /// trimmed plugin id.
    pub fn set_plugin_enabled(
        &mut self,
        registry: &PluginRegistry,
        plugin_id: &str,
        enabled: bool,
        existing_roots: &Vec<String>,
    ) -> (r: Result<String, String>)
        requires
            queue_wf(old(self).state@),
        ensures
            queue_wf(final(self).state@),
            r is Err <==> (trim(plugin_id@).len() == 0 || !group_keys(
                groups_view(registry.versions_by_id@),
            ).contains(trim(plugin_id@))),
            r matches Err(e) ==> final(self).state@ == old(self).state@ && e@ == if trim(
                plugin_id@,
            ).len() == 0 {
                "plugin id is required"@
            } else {
                "plugin "@ + trim(plugin_id@) + " is not installed"@
            },
            r matches Ok(id) ==> id@ == trim(plugin_id@),
            (r is Ok && enabled) ==> final(self).state@ == refreshes_queued(
                old(self).state@,
                strings_view(existing_roots@),
                trim(plugin_id@),
            ),
            (r is Ok && !enabled) ==> final(self).state@ == (QueueView {
                processing_jobs: crate::queue::keys_without(
                    old(self).state@.processing_jobs,
                    trim(plugin_id@),
                ),
                ..crate::queue::without_plugin_jobs(old(self).state@, trim(plugin_id@))
            }),
    {
        let id = trim_str(plugin_id);
        if id.as_str().unicode_len() == 0 {
            return Err(to_string("plugin id is required"));
        }
        if !plugin_installed(registry, id.as_str()) {
            return Err(concat3("plugin ", id.as_str(), " is not installed"));
        }
        if enabled {
            self.queue_refreshes(id.as_str(), existing_roots);
        } else {
            self.state.drop_runtime_jobs_for_plugin(id.as_str());
        }
        Ok(id)
    }

    /// Checks a request to make a version of a plugin the active one: the
    /// plugin and the version must be installed.
    pub fn set_active_plugin_version(&self, registry: &PluginRegistry, plugin_id: &str, version: &str) -> (r:
        Result<(), String>)
        ensures
            r is Ok <==> version_installed(*registry, plugin_id@, version@),
            r matches Err(e) ==> e@ == if !group_keys(groups_view(registry.versions_by_id@)).contains(
                plugin_id@,
            ) {
                "plugin "@ + plugin_id@ + " is not installed"@
            } else {
                "plugin "@ + plugin_id@ + " version "@ + version@ + " is not installed"@
            },
    {
        if !plugin_installed(registry, plugin_id) {
            return Err(concat3("plugin ", plugin_id, " is not installed"));
        }
        let k = find_versions(registry, plugin_id);
        let vs = &registry.versions_by_id[k].versions;
        let found = has_version(vs, version);
        proof {
            let keys = group_keys(groups_view(registry.versions_by_id@));
            assert(groups_view(registry.versions_by_id@)[k as int].1 == plugins_view(vs@));
        }
        if found {
            proof {
                let keys = group_keys(groups_view(registry.versions_by_id@));
                assert(first_index(keys, plugin_id@) == Some(k as int));
                let j = choose|j: int|
                    0 <= j < plugins_view(vs@).len() && plugins_view(vs@)[j].version == version@;
                let g = groups_view(registry.versions_by_id@)[first_index(keys, plugin_id@)->0];
                assert(g.1[j].version == version@);
            }
            return Ok(());
        }
        let mut msg = concat3("plugin ", plugin_id, " version ");
        msg.append(version);
        msg.append(" is not installed");
        Err(msg)
    }
}

pub fn indexing_state(q: &RuntimeState) -> (r: String)
    ensures
        r@ == indexing_state_of(q@),
{
    if q.paused() {
        to_string("paused")
    } else if q.worker_running() || q.scanner_running() {
        to_string("running")
    } else if q.jobs_len() > 0 || q.pending_jobs_len() > 0 || q.pending_refreshes_len() > 0 {
        to_string("queued")
    } else {
        to_string("idle")
    }
}

pub fn plugin_state(q: &RuntimeState) -> (r: String)
    ensures
        r@ == plugin_state_of(q@),
{
    if q.paused() || (!q.worker_running() && !q.scanner_running() && q.jobs_len() == 0
        && q.pending_jobs_len() == 0 && q.pending_refreshes_len() == 0) {
        to_string("idle")
    } else {
        to_string("working")
    }
}

/// The source paths to retry for an issue type.
pub open spec fn retry_paths(rows: Seq<PluginIssueRow>, code: Seq<char>) -> Seq<Seq<char>>
    decreases rows.len(),
{
    if rows.len() == 0 {
        seq![]
    } else {
        let r = retry_paths(rows.drop_last(), code);
        let row = rows.last();
        let row_code = match row.error_code {
            Some(c) => c@,
            None => row.status@,
        };
        if row.status@ != "ignored"@ && row_code == code {
            r.push(row.source_path@)
        } else {
            r
        }
    }
}

fn required_issue_type(plugin_id: &str, error_code: &str) -> (r: Result<(String, String), String>)
    ensures
        r is Err <==> (trim(plugin_id@).len() == 0 || trim(error_code@).len() == 0),
        r matches Err(e) ==> e@ == "plugin id and error code are required"@,
        r matches Ok(p) ==> p.0@ == trim(plugin_id@) && p.1@ == trim(error_code@),
{
    let id = trim_str(plugin_id);
    let code = trim_str(error_code);
    if id.as_str().unicode_len() == 0 || code.as_str().unicode_len() == 0 {
        return Err(to_string("plugin id and error code are required"));
    }
    Ok((id, code))
}

/// Whether some version of the plugin is installed with this version text.
pub open spec fn version_installed(registry: PluginRegistry, plugin_id: Seq<char>, version: Seq<char>) -> bool {
    let keys = group_keys(groups_view(registry.versions_by_id@));
    &&& keys.contains(plugin_id)
    &&& exists|j: int|
        0 <= j < groups_view(registry.versions_by_id@)[first_index(keys, plugin_id)->0].1.len()
            && groups_view(registry.versions_by_id@)[first_index(keys, plugin_id)->0].1[j].version
            == version
}

fn has_version(vs: &Vec<RegisteredPlugin>, version: &str) -> (r: bool)
    ensures
        r == exists|j: int| 0 <= j < plugins_view(vs@).len() && plugins_view(vs@)[j].version == version@,
{
    let mut i: usize = 0;
    while i < vs.len()
        invariant
            i <= vs.len(),
            forall|j: int| 0 <= j < i ==> plugins_view(vs@)[j].version != version@,
        decreases vs.len() - i,
    {
        if str_eq(vs[i].version.as_str(), version) {
            assert(plugins_view(vs@)[i as int].version == version@);
            return true;
        }
        i = i + 1;
    }
    false
}

fn plugin_installed(registry: &PluginRegistry, plugin_id: &str) -> (r: bool)
    ensures
        r == group_keys(groups_view(registry.versions_by_id@)).contains(plugin_id@),
{
    let ghost keys = group_keys(groups_view(registry.versions_by_id@));
    let mut i: usize = 0;
    while i < registry.versions_by_id.len()
        invariant
            i <= registry.versions_by_id.len(),
            keys == group_keys(groups_view(registry.versions_by_id@)),
            forall|j: int| 0 <= j < i ==> keys[j] != plugin_id@,
        decreases registry.versions_by_id.len() - i,
    {
        if str_eq(registry.versions_by_id[i].plugin_id.as_str(), plugin_id) {
            assert(keys[i as int] == plugin_id@);
            return true;
        }
        i = i + 1;
    }
    false
}

fn find_versions(registry: &PluginRegistry, plugin_id: &str) -> (k: usize)
    requires
        group_keys(groups_view(registry.versions_by_id@)).contains(plugin_id@),
    ensures
        k < registry.versions_by_id.len(),
        first_index(group_keys(groups_view(registry.versions_by_id@)), plugin_id@) == Some(k as int),
{
    let ghost keys = group_keys(groups_view(registry.versions_by_id@));
    let mut i: usize = 0;
    while i < registry.versions_by_id.len()
        invariant
            i <= registry.versions_by_id.len(),
            keys == group_keys(groups_view(registry.versions_by_id@)),
            keys.contains(plugin_id@),
            forall|j: int| 0 <= j < i ==> keys[j] != plugin_id@,
        decreases registry.versions_by_id.len() - i,
    {
        if str_eq(registry.versions_by_id[i].plugin_id.as_str(), plugin_id) {
            proof {
                lemma_first_index_unique(keys, plugin_id@, i as int);
            }
            return i;
        }
        i = i + 1;
    }
    proof {
        let w = choose|w: int| 0 <= w < keys.len() && keys[w] == plugin_id@;
        assert(keys[w] != plugin_id@);
    }
    0
}

// ---------------------------------------------------------------------------
// Scanning

/// `ScanAction` as a mathematical value.
pub enum ScanActionView {
    Enqueue(u32),
    SyncIgnored,
    MarkStaleThenEnqueue(Seq<char>, u32),
    MarkReady,
    Touch,
}

impl View for ScanAction {
    type V = ScanActionView;

    open spec fn view(&self) -> ScanActionView {
        match self {
            ScanAction::Enqueue(a) => ScanActionView::Enqueue(*a),
            ScanAction::SyncIgnored => ScanActionView::SyncIgnored,
            ScanAction::MarkStaleThenEnqueue(m, a) => ScanActionView::MarkStaleThenEnqueue(m@, *a),
            ScanAction::MarkReady => ScanActionView::MarkReady,
            ScanAction::Touch => ScanActionView::Touch,
        }
    }
}

pub open spec fn at_least_one(n: u32) -> u32 {
    if n == 0 {
        1
    } else {
        n
    }
}

/// What a scan does with a file that a plugin handles, given the file's
/// row in the database (if any), the active plugin version, the file's
/// size and modification time, whether its cache is valid, and whether its
/// retry time has come.
pub open spec fn scan_action_of(
    row: Option<IndexedFileRow>,
    plugin_version: Seq<char>,
    source_size: i64,
    source_mtime: Seq<char>,
    cache_ready: bool,
    retry_ready: bool,
) -> ScanActionView {
    match row {
        None => ScanActionView::Enqueue(1),
        Some(r) => {
            let status = r.status@;
            if status == "ignored"@ {
                ScanActionView::SyncIgnored
            } else if r.source_size != source_size || r.source_mtime@ != source_mtime
                || !version_satisfies(plugin_version, r.plugin_version@) {
                ScanActionView::MarkStaleThenEnqueue("Source file or plugin version changed"@, 1)
            } else if cache_ready {
                ScanActionView::MarkReady
            } else if status == "failed"@ {
                if r.attempts >= 4 || !retry_ready {
                    ScanActionView::Touch
                } else {
                    ScanActionView::Enqueue((r.attempts + 1) as u32)
                }
            } else if status == "stale"@ || status == "missing"@ || status == "queued"@ || status
                == "processing"@ {
                ScanActionView::Enqueue(at_least_one(r.attempts))
            } else if status == "skipped"@ {
                ScanActionView::Touch
            } else {
                ScanActionView::MarkStaleThenEnqueue("Cache missing"@, at_least_one(r.attempts))
            }
        },
    }
}

/// Decides what a scan does with a file that a plugin handles.
pub fn scan_action(
    row: Option<&IndexedFileRow>,
    plugin_version: &str,
    source_size: i64,
    source_mtime: &str,
    cache_ready: bool,
    retry_ready: bool,
) -> (r: ScanAction)
    ensures
        r@ == scan_action_of(
            match row {
                Some(x) => Some(*x),
                None => None,
            },
            plugin_version@,
            source_size,
            source_mtime@,
            cache_ready,
            retry_ready,
        ),
{
    let r = match row {
        None => {
            return ScanAction::Enqueue(1);
        },
        Some(r) => r,
    };
    let status = r.status.as_str();
    if str_eq(status, "ignored") {
        return ScanAction::SyncIgnored;
    }
    if r.source_size != source_size || !str_eq(r.source_mtime.as_str(), source_mtime)
        || !plugin_version_satisfies_selected(plugin_version, r.plugin_version.as_str()) {
        return ScanAction::MarkStaleThenEnqueue(to_string("Source file or plugin version changed"), 1);
    }
    if cache_ready {
        return ScanAction::MarkReady;
    }
    let attempts = if r.attempts == 0 {
        1
    } else {
        r.attempts
    };
    if str_eq(status, "failed") {
        if r.attempts >= 4 || !retry_ready {
            return ScanAction::Touch;
        }
        return ScanAction::Enqueue(r.attempts + 1);
    }
    if str_eq(status, "stale") || str_eq(status, "missing") || str_eq(status, "queued") || str_eq(
        status,
        "processing",
    ) {
        return ScanAction::Enqueue(attempts);
    }
    if str_eq(status, "skipped") {
        return ScanAction::Touch;
    }
    ScanAction::MarkStaleThenEnqueue(to_string("Cache missing"), attempts)
}

/// What a scan does with a plugin file whose row still matches it (same
/// size, same modification time, a plugin version at least the recorded
/// one): an ignored file stays ignored; a file with a valid cache is marked
/// ready; otherwise a stale, missing, queued or processing file is sent to
/// the plugin again with its attempts so far (at least one), a skipped file
/// is only touched, a failed file is sent again with one more attempt once
/// its retry time has come and it has failed fewer than four times (else
/// only touched), and a file in any other state is marked stale and sent
/// again. A file with no row is sent for the first time, and a row that no
/// longer matches its file is marked stale and sent again from the first
/// attempt.
pub proof fn law_scan_decisions(
    row: IndexedFileRow,
    plugin_version: Seq<char>,
    source_size: i64,
    source_mtime: Seq<char>,
    cache_ready: bool,
    retry_ready: bool,
)
    ensures
        scan_action_of(None, plugin_version, source_size, source_mtime, cache_ready, retry_ready)
            == ScanActionView::Enqueue(1),
        ({
            let status = row.status@;
            let act = scan_action_of(
                Some(row),
                plugin_version,
                source_size,
                source_mtime,
                cache_ready,
                retry_ready,
            );
            let matches_file = row.source_size == source_size && row.source_mtime@ == source_mtime
                && version_satisfies(plugin_version, row.plugin_version@);
            let so_far: u32 = if row.attempts == 0 { 1 } else { row.attempts };
            &&& status == "ignored"@ ==> act == ScanActionView::SyncIgnored
            &&& status != "ignored"@ && !matches_file ==> act == ScanActionView::MarkStaleThenEnqueue(
                "Source file or plugin version changed"@,
                1,
            )
            &&& status != "ignored"@ && matches_file && cache_ready ==> act == ScanActionView::MarkReady
            &&& matches_file && !cache_ready && (status == "stale"@ || status == "missing"@ || status
                == "queued"@ || status == "processing"@) ==> act == ScanActionView::Enqueue(so_far)
            &&& matches_file && !cache_ready && status == "skipped"@ ==> act == ScanActionView::Touch
            &&& matches_file && !cache_ready && status == "failed"@ ==> act == (if row.attempts < 4
                && retry_ready {
                ScanActionView::Enqueue((row.attempts + 1) as u32)
            } else {
                ScanActionView::Touch
            })
            &&& matches_file && !cache_ready && status != "ignored"@ && status != "failed"@ && status
                != "stale"@ && status != "missing"@ && status != "queued"@ && status != "processing"@
                && status != "skipped"@ ==> act == ScanActionView::MarkStaleThenEnqueue(
                "Cache missing"@,
                so_far,
            )
        }),
{
    reveal_strlit("ignored");
    reveal_strlit("failed");
    reveal_strlit("stale");
    reveal_strlit("missing");
    reveal_strlit("queued");
    reveal_strlit("processing");
    reveal_strlit("skipped");
    let status = row.status@;
    assert("ignored"@.len() == 7 && "processing"@.len() == 10 && "missing"@.len() == 7);
    assert("ignored"@[0] == 'i' && "missing"@[0] == 'm' && "skipped"@[0] == 's');
    assert("failed"@[0] == 'f' && "queued"@[0] == 'q' && "stale"@.len() == 5);
    if status == "stale"@ || status == "missing"@ || status == "queued"@ || status == "processing"@ {
        assert(status != "ignored"@ && status != "failed"@);
    }
    if status == "skipped"@ {
        assert(status != "ignored"@ && status != "failed"@);
    }
}

/// Names of folders that scans never enter.
pub open spec fn excluded_name(n: Seq<char>) -> bool {
    n == ".git"@ || n == "node_modules"@ || n == "target"@ || n == "dist"@
}

/// Whether `path` lies in one of `roots`, read in `style`.
pub open spec fn under_some(style: PathStyle, path: Seq<char>, roots: Seq<Seq<char>>) -> bool {
    exists|k: int| 0 <= k < roots.len() && lies_under(style, path, #[trigger] roots[k])
}

/// Whether a scan enters `path`, read in `style`: not inside a plugin folder
/// or an index root, and not named `.git`, `node_modules`, `target` or
/// `dist`.
pub open spec fn scan_entry_allowed_of(
    style: PathStyle,
    path: Seq<char>,
    plugin_roots: Seq<Seq<char>>,
    index_roots: Seq<Seq<char>>,
) -> bool {
    &&& !under_some(style, path, plugin_roots)
    &&& !under_some(style, path, index_roots)
    &&& !(file_name_of(comps_in(style, path)) matches Some(n) && excluded_name(n))
}

fn under_any(style: PathStyle, path: &str, roots: &Vec<String>) -> (r: bool)
    ensures
        r == under_some(style, path@, strings_view(roots@)),
{
    let mut i: usize = 0;
    while i < roots.len()
        invariant
            i <= roots.len(),
            forall|k: int| 0 <= k < i ==> !lies_under(style, path@, #[trigger] strings_view(roots@)[k]),
        decreases roots.len() - i,
    {
        assert(strings_view(roots@)[i as int] == roots@[i as int]@);
        if lies_under_exec(style, path, roots[i].as_str()) {
            return true;
        }
        i = i + 1;
    }
    false
}

/// The attempt count a retry starts from: the recorded one, at least 1, or
/// 1 for a file with no record.
pub fn retry_attempts(recorded: Option<u32>) -> (r: u32)
    ensures
        r == match recorded {
            Some(a) => if a == 0 {
                1
            } else {
                a
            },
            None => 1,
        },
{
    match recorded {
        Some(a) => if a == 0 {
            1
        } else {
            a
        },
        None => 1,
    }
}

/// The attempt count kept when an issue is ignored: the recorded one, or 0
/// for a file with no record.
pub fn ignored_attempts(recorded: Option<u32>) -> (r: u32)
    ensures
        r == match recorded {
            Some(a) => a,
            None => 0,
        },
{
    match recorded {
        Some(a) => a,
        None => 0,
    }
}

/// The attempt count of a file whose issue is no longer ignored: the
/// recorded one (0 without a record), at least 1.
pub open spec fn unignored_attempts(recorded: Option<u32>) -> u32 {
    match recorded {
        Some(a) => if a == 0 {
            1
        } else {
            a
        },
        None => 1,
    }
}

/// What a file whose issue is no longer ignored is recorded as, and
/// whether it is rescanned: stale ("Re-enabled") and rescanned when the
/// source file exists, missing otherwise.
pub fn unignore_update(
    db: &StateDb,
    source_path: &str,
    plugin_id: &str,
    recorded: Option<u32>,
    source_exists: bool,
) -> (r: (StatusUpdate, bool))
    ensures
        r.1 == source_exists,
        source_exists ==> update_is(
            r.0,
            source_path@,
            plugin_id@,
            "stale"@,
            Some("stale_source"@),
            Some("Re-enabled"@),
            None,
            unignored_attempts(recorded),
            None,
        ),
        !source_exists ==> update_is(
            r.0,
            source_path@,
            plugin_id@,
            "missing"@,
            Some("missing_source"@),
            Some("Source file is missing"@),
            None,
            unignored_attempts(recorded),
            None,
        ),
{
    let attempts = retry_attempts(recorded);
    if source_exists {
        (db.mark_stale(source_path, plugin_id, attempts, Some("Re-enabled")), true)
    } else {
        (db.mark_missing(source_path, plugin_id, attempts), false)
    }
}

/// Whether a recorded row of a scanned root is marked missing: the scan did
/// not see its source file for its plugin, and the file is gone.
pub open spec fn marks_missing(
    seen: Seq<(Seq<char>, Seq<char>)>,
    source_path: Seq<char>,
    plugin_id: Seq<char>,
    source_exists: bool,
) -> bool {
    !seen.contains((source_path, plugin_id)) && !source_exists
}

pub open spec fn pairs_view(v: Seq<(String, String)>) -> Seq<(Seq<char>, Seq<char>)> {
    v.map_values(|p: (String, String)| (p.0@, p.1@))
}

/// Whether the row of `source_path` and `plugin_id` is marked missing after
/// a scan that saw the pairs `seen`, `source_exists` telling whether the
/// source file is still there.
pub fn row_marked_missing(
    seen: &Vec<(String, String)>,
    source_path: &str,
    plugin_id: &str,
    source_exists: bool,
) -> (r: bool)
    ensures
        r == marks_missing(pairs_view(seen@), source_path@, plugin_id@, source_exists),
{
    let mut i: usize = 0;
    while i < seen.len()
        invariant
            i <= seen.len(),
            forall|j: int| 0 <= j < i ==> pairs_view(seen@)[j] != (source_path@, plugin_id@),
        decreases seen.len() - i,
    {
        if str_eq(seen[i].0.as_str(), source_path) && str_eq(seen[i].1.as_str(), plugin_id) {
            assert(pairs_view(seen@)[i as int] == (source_path@, plugin_id@));
            return false;
        }
        i = i + 1;
    }
    assert(!pairs_view(seen@).contains((source_path@, plugin_id@)));
    !source_exists
}

/// Whether a scan enters `path`, paths read in `style`.
pub fn scan_entry_allowed(style: PathStyle, path: &str, plugin_roots: &Vec<String>, index_roots: &Vec<String>) -> (r: bool)
    ensures
        r == scan_entry_allowed_of(style, path@, strings_view(plugin_roots@), strings_view(index_roots@)),
{
    if under_any(style, path, plugin_roots) {
        return false;
    }
    if under_any(style, path, index_roots) {
        return false;
    }
    let p = read_path(style, path);
    match crate::path::file_name_chars(&p.comps) {
        Some(n) => {
            let name = crate::text::string_from_chars(&n);
            let s = name.as_str();
            !(str_eq(s, ".git") || str_eq(s, "node_modules") || str_eq(s, "target") || str_eq(s, "dist"))
        },
        None => true,
    }
}

// ---------------------------------------------------------------------------
// Installed plugins

pub struct InstalledView {
    pub id: Seq<char>,
    pub name: Seq<char>,
    pub version: Seq<char>,
    pub is_active: bool,
    pub enabled: bool,
    pub requires_entitlement: bool,
    pub handles: Seq<Seq<char>>,
    pub root_path: Seq<char>,
    pub capabilities: PluginCapabilitySummary,
}

impl View for InstalledPluginInfo {
    type V = InstalledView;

    open spec fn view(&self) -> InstalledView {
        InstalledView {
            id: self.id@,
            name: self.name@,
            version: self.version@,
            is_active: self.is_active,
            enabled: self.enabled,
            requires_entitlement: self.requires_entitlement,
            handles: strings_view(self.handles@),
            root_path: self.root_path@,
            capabilities: self.capabilities,
        }
    }
}

pub open spec fn installed_view(v: Seq<InstalledPluginInfo>) -> Seq<InstalledView> {
    v.map_values(|p: InstalledPluginInfo| p@)
}

/// Whether `x` is listed before `e`: by name, then active first, then newer
/// version first.
pub open spec fn listed_before(x: InstalledView, e: InstalledView) -> bool {
    if x.name != e.name {
        text_le(x.name, e.name)
    } else if x.is_active != e.is_active {
        x.is_active
    } else {
        version_older(e.version, x.version)
    }
}

/// `x` added to a listing, before the first entry it is listed before and
/// after all others (a stable sort).
pub open spec fn insert_listed(s: Seq<InstalledView>, x: InstalledView) -> Seq<InstalledView>
    decreases s.len(),
{
    if s.len() == 0 {
        seq![x]
    } else if listed_before(x, s[0]) {
        seq![x] + s
    } else {
        seq![s[0]] + insert_listed(s.drop_first(), x)
    }
}

pub open spec fn sorted_listing(s: Seq<InstalledView>) -> Seq<InstalledView>
    decreases s.len(),
{
    if s.len() == 0 {
        s
    } else {
        insert_listed(sorted_listing(s.drop_last()), s.last())
    }
}

/// The entry for one installed version.
pub open spec fn installed_of(
    p: RegisteredPluginView,
    active: Seq<RegisteredPluginView>,
    disabled: Seq<Seq<char>>,
) -> InstalledView {
    InstalledView {
        id: p.id,
        name: p.name,
        version: p.version,
        is_active: match first_index(active.map_values(|a: RegisteredPluginView| a.id), p.id) {
            Some(k) => active[k].version == p.version,
            None => false,
        },
        enabled: !disabled.contains(p.id),
        requires_entitlement: p.requires_entitlement,
        handles: p.handles,
        root_path: p.root_dir,
        capabilities: PluginCapabilitySummary {
            text: p.capabilities.text,
            layout: p.capabilities.layout,
            ocr: p.capabilities.ocr,
        },
    }
}

/// Every installed version, group by group.
pub open spec fn all_versions(gs: Seq<crate::registry::VersionGroup>) -> Seq<RegisteredPluginView>
    decreases gs.len(),
{
    if gs.len() == 0 {
        seq![]
    } else {
        all_versions(gs.drop_last()) + gs.last().1
    }
}

fn find_active(registry: &PluginRegistry, id: &str) -> (r: Option<usize>)
    ensures
        ({
            let keys = plugins_view(registry.by_id@).map_values(|a: RegisteredPluginView| a.id);
            match r {
                Some(k) => k < registry.by_id.len() && first_index(keys, id@) == Some(k as int),
                None => first_index(keys, id@) is None,
            }
        }),
{
    let ghost keys = plugins_view(registry.by_id@).map_values(|a: RegisteredPluginView| a.id);
    let mut i: usize = 0;
    while i < registry.by_id.len()
        invariant
            i <= registry.by_id.len(),
            keys == plugins_view(registry.by_id@).map_values(|a: RegisteredPluginView| a.id),
            forall|j: int| 0 <= j < i ==> keys[j] != id@,
        decreases registry.by_id.len() - i,
    {
        if str_eq(registry.by_id[i].id.as_str(), id) {
            proof {
                lemma_first_index_unique(keys, id@, i as int);
            }
            return Some(i);
        }
        i = i + 1;
    }
    proof {
        lemma_first_index_none(keys, id@);
    }
    None
}

fn installed_info(p: &RegisteredPlugin, registry: &PluginRegistry, disabled: &Vec<String>) -> (r: InstalledPluginInfo)
    ensures
        r@ == installed_of(p@, plugins_view(registry.by_id@), strings_view(disabled@)),
{
    let is_active = match find_active(registry, p.id.as_str()) {
        Some(k) => str_eq(registry.by_id[k].version.as_str(), p.version.as_str()),
        None => false,
    };
    let enabled = !crate::lookup::contains_string(disabled, &crate::text::chars_of(p.id.as_str()));
    InstalledPluginInfo {
        id: p.id.clone(),
        name: p.name.clone(),
        version: p.version.clone(),
        is_active,
        enabled,
        requires_entitlement: p.requires_entitlement,
        handles: clone_strings(&p.handles),
        root_path: p.root_dir.clone(),
        capabilities: PluginCapabilitySummary {
            text: p.capabilities.text,
            layout: p.capabilities.layout,
            ocr: p.capabilities.ocr,
        },
    }
}

fn insert_listed_exec(v: &mut Vec<InstalledPluginInfo>, x: InstalledPluginInfo)
    ensures
        installed_view(final(v)@) == insert_listed(installed_view(old(v)@), x@),
{
    let ghost s = installed_view(v@);
    let mut k: usize = 0;
    assert(s.skip(0) =~= s);
    while k < v.len() && !listed_before_exec(&x, &v[k])
        invariant
            s == installed_view(v@),
            k <= v.len(),
            insert_listed(s, x@) == s.take(k as int) + insert_listed(s.skip(k as int), x@),
        decreases v.len() - k,
    {
        assert(s.skip(k as int)[0] == s[k as int]);
        assert(s.skip(k as int).drop_first() =~= s.skip(k + 1));
        assert(s.take(k + 1) =~= s.take(k as int) + seq![s[k as int]]);
        assert(insert_listed(s, x@) =~= s.take(k + 1) + insert_listed(s.skip(k + 1), x@));
        k = k + 1;
    }
    if k < v.len() {
        assert(s.skip(k as int)[0] == s[k as int]);
    } else {
        assert(s.skip(k as int) =~= Seq::<InstalledView>::empty());
    }
    v.insert(k, x);
    assert(installed_view(v@) =~= s.take(k as int) + insert_listed(s.skip(k as int), x@));
}

fn listed_before_exec(x: &InstalledPluginInfo, e: &InstalledPluginInfo) -> (r: bool)
    ensures
        r == listed_before(x@, e@),
{
    if !str_eq(x.name.as_str(), e.name.as_str()) {
        text_le_exec(x.name.as_str(), e.name.as_str())
    } else if x.is_active != e.is_active {
        x.is_active
    } else {
        is_older(e.version.as_str(), x.version.as_str())
    }
}

/// Every installed version of every plugin, for the settings view: by name,
/// the active version first, then newer versions first; `disabled` names
/// the plugins the user turned off.
pub fn discovered_plugins(registry: &PluginRegistry, disabled: &Vec<String>) -> (r: Vec<InstalledPluginInfo>)
    ensures
        installed_view(r@) == sorted_listing(
            all_versions(groups_view(registry.versions_by_id@)).map_values(
                |p: RegisteredPluginView|
                    installed_of(p, plugins_view(registry.by_id@), strings_view(disabled@)),
            ),
        ),
{
    let ghost gv = groups_view(registry.versions_by_id@);
    let ghost f = |p: RegisteredPluginView|
        installed_of(p, plugins_view(registry.by_id@), strings_view(disabled@));
    let mut out: Vec<InstalledPluginInfo> = Vec::new();
    let ghost done: Seq<RegisteredPluginView> = Seq::empty();
    let mut g: usize = 0;
    assert(gv.take(0) =~= Seq::<crate::registry::VersionGroup>::empty());
    assert(installed_view(out@) =~= sorted_listing(all_versions(gv.take(0)).map_values(f)));
    while g < registry.versions_by_id.len()
        invariant
            g <= registry.versions_by_id.len(),
            gv == groups_view(registry.versions_by_id@),
            f == (|p: RegisteredPluginView|
                installed_of(p, plugins_view(registry.by_id@), strings_view(disabled@))),
            installed_view(out@) == sorted_listing(all_versions(gv.take(g as int)).map_values(f)),
        decreases registry.versions_by_id.len() - g,
    {
        let vs = &registry.versions_by_id[g].versions;
        let ghost base = all_versions(gv.take(g as int));
        assert(gv.take(g + 1).drop_last() =~= gv.take(g as int));
        assert(gv.take(g + 1).last().1 == plugins_view(vs@));
        let mut i: usize = 0;
        assert(base + plugins_view(vs@).take(0) =~= base);
        while i < vs.len()
            invariant
                i <= vs.len(),
                vs == &registry.versions_by_id@[g as int].versions,
                f == (|p: RegisteredPluginView|
                    installed_of(p, plugins_view(registry.by_id@), strings_view(disabled@))),
                installed_view(out@) == sorted_listing(
                    (base + plugins_view(vs@).take(i as int)).map_values(f),
                ),
            decreases vs.len() - i,
        {
            let info = installed_info(&vs[i], registry, disabled);
            let ghost prev = (base + plugins_view(vs@).take(i as int)).map_values(f);
            let ghost next = (base + plugins_view(vs@).take(i + 1)).map_values(f);
            assert(next =~= prev.push(f(vs@[i as int]@)));
            assert(next.drop_last() =~= prev);
            insert_listed_exec(&mut out, info);
            i = i + 1;
        }
        assert(base + plugins_view(vs@).take(vs.len() as int) =~= all_versions(gv.take(g + 1)));
        g = g + 1;
    }
    assert(gv.take(registry.versions_by_id.len() as int) =~= gv);
    out
}

// ---------------------------------------------------------------------------
// Finishing a job

/// How a plugin run is closed in the database.
#[derive(Debug)]
pub struct RunEnd {
    pub status: String,
    pub error_code: Option<String>,
    pub error_message: Option<String>,
}

/// What came of a job.
#[derive(Debug)]
pub enum JobResult {
    /// Its plugin is no longer installed.
    PluginRemoved,
    /// The plugin's outputs are in place.
    Indexed,
    /// Indexing failed and the source file is gone.
    SourceMissing,
    /// Indexing failed; the failure as the user sees it.
    Failed(FailureDisplay),
}

/// What the worker writes after a job: the file's new status (none when it
/// is ready, which the database records with the file's size and time), and
/// how the run ends.
#[derive(Debug)]
pub struct JobRecord {
    pub update: Option<StatusUpdate>,
    pub run: RunEnd,
}

pub open spec fn run_end_is(
    r: RunEnd,
    status: Seq<char>,
    code: Option<Seq<char>>,
    message: Option<Seq<char>>,
) -> bool {
    r.status@ == status && opt_string(r.error_code) == code && opt_string(r.error_message) == message
}

fn run_end(status: &str, code: Option<&str>, message: Option<&str>) -> (r: RunEnd)
    ensures
        run_end_is(r, status@, opt_view(code), opt_view(message)),
{
    RunEnd {
        status: to_string(status),
        error_code: match code {
            Some(c) => Some(to_string(c)),
            None => None,
        },
        error_message: match message {
            Some(m) => Some(to_string(m)),
            None => None,
        },
    }
}

/// Decides what the worker records for a finished job: a removed plugin
/// skips the file; a vanished source is missing; a failure is
/// recorded with its code, message, details (as the hint, when there are
/// any) and the next retry time `retry_after`.
pub fn job_record(db: &StateDb, job: &PluginJob, result: &JobResult, retry_after: Option<&str>) -> (r:
    JobRecord)
    ensures
        match *result {
            JobResult::PluginRemoved => {
                &&& r.update matches Some(u) && update_is(
                    u,
                    job.source_path@,
                    job.plugin_id@,
                    "skipped"@,
                    Some("skipped"@),
                    Some("Plugin is no longer installed"@),
                    None,
                    at_least_one(job.attempts),
                    None,
                )
                &&& run_end_is(
                    r.run,
                    "skipped"@,
                    Some("plugin_removed"@),
                    Some("Plugin is no longer installed"@),
                )
            },
            JobResult::Indexed => r.update is None && run_end_is(r.run, "ready"@, None, None),
            JobResult::SourceMissing => {
                &&& r.update matches Some(u) && update_is(
                    u,
                    job.source_path@,
                    job.plugin_id@,
                    "missing"@,
                    Some("missing_source"@),
                    Some("Source file is missing"@),
                    None,
                    job.attempts,
                    None,
                )
                &&& run_end_is(
                    r.run,
                    "missing"@,
                    Some("missing_source"@),
                    Some("Source file is missing"@),
                )
            },
            JobResult::Failed(display) => {
            &&& r.update matches Some(u) && update_is(
                u,
                job.source_path@,
                job.plugin_id@,
                "failed"@,
                Some(display.code@),
                Some(display.message@),
                if display.details@.len() == 0 {
                    None
                } else {
                    Some(display.details@)
                },
                job.attempts,
                opt_view(retry_after),
            )
            &&& run_end_is(r.run, "failed"@, Some(display.code@), Some(display.message@))
            },
        },
{
    match result {
        JobResult::PluginRemoved => {
            let attempts = if job.attempts == 0 {
            1
            } else {
            job.attempts
            };
            let update = db.mark_skipped(
            job.source_path.as_str(),
            job.plugin_id.as_str(),
            attempts,
            "Plugin is no longer installed",
            );
            JobRecord {
            update: Some(update),
            run: run_end(
                "skipped",
                Some("plugin_removed"),
                Some("Plugin is no longer installed"),
            ),
            }
        },
        JobResult::Indexed => JobRecord { update: None, run: run_end("ready", None, None) },
        JobResult::SourceMissing => {
            let update = db.mark_missing(job.source_path.as_str(), job.plugin_id.as_str(), job.attempts);
            JobRecord {
            update: Some(update),
            run: run_end("missing", Some("missing_source"), Some("Source file is missing")),
            }
        },
        JobResult::Failed(display) => {
            let hint = if display.details.as_str().unicode_len() == 0 {
                None
            } else {
                Some(display.details.as_str())
            };
            let update = db.mark_failed(
                job.source_path.as_str(),
                job.plugin_id.as_str(),
                job.attempts,
                display.code.as_str(),
                display.message.as_str(),
                hint,
                retry_after,
            );
            JobRecord {
                update: Some(update),
                run: run_end(
                    "failed",
                    Some(display.code.as_str()),
                    Some(display.message.as_str()),
                ),
            }
        },
    }
}

proof fn lemma_refreshes_keep_pause(q: QueueView, roots: Seq<Seq<char>>, plugin_id: Seq<char>)
    ensures
        refreshes_queued(q, roots, plugin_id).paused == q.paused,
    decreases roots.len(),
{
    if roots.len() > 0 {
        lemma_refreshes_keep_pause(q, roots.drop_last(), plugin_id);
    }
}

/// The paused flag stays as it was set until the next `set_paused`: queuing
/// a scan root, queuing plugin rescans, forgetting the queued work, and a
/// search starting or finishing all leave it as it was, and `status`
/// reports it.
pub proof fn law_pause_persists(q: QueueView, root: Seq<char>, roots: Seq<Seq<char>>, plugin_id: Seq<char>, search_active: usize)
    ensures
        crate::queue::root_queued(q, root).paused == q.paused,
        refreshes_queued(q, roots, plugin_id).paused == q.paused,
        (QueueView {
            pending_roots: Seq::empty(),
            queued_roots: Set::empty(),
            pending_refreshes: Seq::empty(),
            queued_refreshes: Set::empty(),
            active_refreshes: Set::empty(),
            pending_jobs: Seq::empty(),
            pending_job_keys: Set::empty(),
            jobs: Seq::empty(),
            queued_jobs: Set::empty(),
            processing_jobs: Set::empty(),
            ..q
        }).paused == q.paused,
        (QueueView { search_active, ..q }).paused == q.paused,
{
    lemma_refreshes_keep_pause(q, roots, plugin_id);
}

} // verus!
