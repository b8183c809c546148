//! The indexing runtime's queues: folders waiting to be scanned, plugin
//! refreshes, and plugin jobs (pending, queued for the worker, processing).
//! A job is known by its source path and plugin id; a job that is pending,
//! queued or processing is never enqueued twice.

use vstd::prelude::*;
use crate::registry::strings_view;
use crate::text::{str_eq, to_string, u64_to_decimal, concat};

use std::collections::VecDeque;

verus! {

/// A source path (or scan root) together with a plugin id.
#[derive(Debug)]
pub struct PathKey {
    pub path: String,
    pub plugin_id: String,
}

pub type Key = (Seq<char>, Seq<char>);

/// One plugin run to make: a source file, its plugin, the attempt number,
/// and the run's id.
#[derive(Debug)]
pub struct PluginJob {
    pub source_path: String,
    pub plugin_id: String,
    pub attempts: u32,
    pub run_id: String,
}

pub struct JobView {
    pub source_path: Seq<char>,
    pub plugin_id: Seq<char>,
    pub attempts: u32,
    pub run_id: Seq<char>,
}

impl View for PluginJob {
    type V = JobView;

    open spec fn view(&self) -> JobView {
        JobView {
            source_path: self.source_path@,
            plugin_id: self.plugin_id@,
            attempts: self.attempts,
            run_id: self.run_id@,
        }
    }
}

impl View for PathKey {
    type V = Key;

    open spec fn view(&self) -> Key {
        (self.path@, self.plugin_id@)
    }
}

/// What the scanner does next: scan a root, or rescan a root for one plugin.
#[derive(Debug)]
pub enum ScanTask {
    Root(String),
    PluginRefresh(PathKey),
}

/// What became of a job handed to the queue.
#[derive(Debug, Clone, Copy, PartialEq, Eq, Structural)]
pub enum EnqueueOutcome {
    /// A job for the same file and plugin is pending, queued or processing.
    Duplicate,
    /// The job's plugin is not installed any more.
    PluginMissing,
    Enqueued,
}

pub open spec fn job_key(j: JobView) -> Key {
    (j.source_path, j.plugin_id)
}

pub open spec fn jobs_view(v: Seq<PluginJob>) -> Seq<JobView> {
    v.map_values(|j: PluginJob| j@)
}

pub open spec fn job_keys(v: Seq<JobView>) -> Seq<Key> {
    v.map_values(|j: JobView| job_key(j))
}

pub open spec fn keys_view(v: Seq<PathKey>) -> Seq<Key> {
    v.map_values(|k: PathKey| k@)
}

/// The most jobs queued for the worker at once.
pub const ACTIVE_QUEUE_TARGET: usize = 16;

/// The queues as mathematical values.
pub struct QueueView {
    pub pending_roots: Seq<Seq<char>>,
    pub queued_roots: Set<Seq<char>>,
    pub active_roots: Set<Seq<char>>,
    pub pending_refreshes: Seq<Key>,
    pub queued_refreshes: Set<Key>,
    pub active_refreshes: Set<Key>,
    pub pending_jobs: Seq<JobView>,
    pub pending_job_keys: Set<Key>,
    pub jobs: Seq<JobView>,
    pub queued_jobs: Set<Key>,
    pub processing_jobs: Set<Key>,
    pub paused: bool,
    pub scanner_running: bool,
    pub worker_running: bool,
    pub search_active: usize,
    pub run_counter: u64,
}

/// The queues after a rescan of `root` for `plugin_id` is asked for: it is
/// queued at the back unless it is queued or running already.
pub open spec fn refresh_queued(q: QueueView, root: Seq<char>, plugin_id: Seq<char>) -> QueueView {
    if q.queued_refreshes.contains((root, plugin_id)) || q.active_refreshes.contains(
        (root, plugin_id),
    ) {
        q
    } else {
        QueueView {
            pending_refreshes: q.pending_refreshes.push((root, plugin_id)),
            queued_refreshes: q.queued_refreshes.insert((root, plugin_id)),
            ..q
        }
    }
}

/// The queues after rescans of `roots` (in order) are asked for.
pub open spec fn refreshes_queued(q: QueueView, roots: Seq<Seq<char>>, plugin_id: Seq<char>) -> QueueView
    decreases roots.len(),
{
    if roots.len() == 0 {
        q
    } else {
        refresh_queued(refreshes_queued(q, roots.drop_last(), plugin_id), roots.last(), plugin_id)
    }
}

/// The runtime's queues and flags.
#[derive(Debug)]
pub struct RuntimeState {
    pending_roots: VecDeque<String>,
    queued_roots: Vec<String>,
    active_roots: Vec<String>,
    pending_refreshes: VecDeque<PathKey>,
    queued_refreshes: Vec<PathKey>,
    active_refreshes: Vec<PathKey>,
    pending_jobs: VecDeque<PluginJob>,
    pending_job_keys: Vec<PathKey>,
    jobs: VecDeque<PluginJob>,
    queued_jobs: Vec<PathKey>,
    processing_jobs: Vec<PathKey>,
    paused: bool,
    scanner_running: bool,
    worker_running: bool,
    search_active: usize,
    run_counter: u64,
}

impl View for RuntimeState {
    type V = QueueView;

    closed spec fn view(&self) -> QueueView {
        QueueView {
            pending_roots: strings_view(self.pending_roots@),
            queued_roots: strings_view(self.queued_roots@).to_set(),
            active_roots: strings_view(self.active_roots@).to_set(),
            pending_refreshes: keys_view(self.pending_refreshes@),
            queued_refreshes: keys_view(self.queued_refreshes@).to_set(),
            active_refreshes: keys_view(self.active_refreshes@).to_set(),
            pending_jobs: jobs_view(self.pending_jobs@),
            pending_job_keys: keys_view(self.pending_job_keys@).to_set(),
            jobs: jobs_view(self.jobs@),
            queued_jobs: keys_view(self.queued_jobs@).to_set(),
            processing_jobs: keys_view(self.processing_jobs@).to_set(),
            paused: self.paused,
            scanner_running: self.scanner_running,
            worker_running: self.worker_running,
            search_active: self.search_active,
            run_counter: self.run_counter,
        }
    }
}

/// What the queues always keep: each key set is the set of keys of its
/// list, no list holds a key twice, and a job key is in at most one of
/// pending, queued and processing.
pub open spec fn queue_wf(q: QueueView) -> bool {
    &&& q.queued_roots == q.pending_roots.to_set()
    &&& q.pending_roots.no_duplicates()
    &&& q.queued_refreshes == q.pending_refreshes.to_set()
    &&& q.pending_refreshes.no_duplicates()
    &&& q.pending_job_keys == job_keys(q.pending_jobs).to_set()
    &&& job_keys(q.pending_jobs).no_duplicates()
    &&& q.queued_jobs == job_keys(q.jobs).to_set()
    &&& job_keys(q.jobs).no_duplicates()
    &&& q.pending_job_keys.disjoint(q.queued_jobs)
    &&& q.pending_job_keys.disjoint(q.processing_jobs)
    &&& q.queued_jobs.disjoint(q.processing_jobs)
}

/// Whether a job for this file and plugin is pending, queued or processing.
pub open spec fn job_known(q: QueueView, k: Key) -> bool {
    q.pending_job_keys.contains(k) || q.queued_jobs.contains(k) || q.processing_jobs.contains(k)
}

/// The sequence without the jobs of one plugin, in order.
pub open spec fn jobs_without(s: Seq<JobView>, plugin_id: Seq<char>) -> Seq<JobView>
    decreases s.len(),
{
    if s.len() == 0 {
        s
    } else {
        let r = jobs_without(s.drop_last(), plugin_id);
        if s.last().plugin_id != plugin_id {
            r.push(s.last())
        } else {
            r
        }
    }
}

/// The keys of a set that do not belong to one plugin.
pub open spec fn keys_without(s: Set<Key>, plugin_id: Seq<char>) -> Set<Key> {
    s.filter(|k: Key| k.1 != plugin_id)
}

/// The queues after the jobs of one plugin leave pending and queued.
pub open spec fn without_plugin_jobs(q: QueueView, plugin_id: Seq<char>) -> QueueView {
    QueueView {
        pending_jobs: jobs_without(q.pending_jobs, plugin_id),
        pending_job_keys: keys_without(q.pending_job_keys, plugin_id),
        jobs: jobs_without(q.jobs, plugin_id),
        queued_jobs: keys_without(q.queued_jobs, plugin_id),
        ..q
    }
}

/// How many pending jobs move to the worker's queue.
pub open spec fn promoted_count(q: QueueView) -> int {
    let room = ACTIVE_QUEUE_TARGET - q.jobs.len();
    if room <= 0 {
        0
    } else if room < q.pending_jobs.len() {
        room
    } else {
        q.pending_jobs.len() as int
    }
}

/// The queues after pending jobs fill the worker's queue up to its target,
/// first come first.
pub open spec fn promoted(q: QueueView) -> QueueView {
    let n = promoted_count(q);
    let moved = q.pending_jobs.take(n);
    QueueView {
        pending_jobs: q.pending_jobs.skip(n),
        pending_job_keys: job_keys(q.pending_jobs.skip(n)).to_set(),
        jobs: q.jobs + moved,
        queued_jobs: q.queued_jobs.union(job_keys(moved).to_set()),
        ..q
    }
}

/// The queues after a new job becomes pending.
pub open spec fn enqueued(q: QueueView, j: JobView, priority_front: bool) -> QueueView {
    QueueView {
        pending_jobs: if priority_front {
            seq![j] + q.pending_jobs
        } else {
            q.pending_jobs.push(j)
        },
        pending_job_keys: q.pending_job_keys.insert(job_key(j)),
        ..q
    }
}

/// Whether nothing is queued, active or running.
pub open spec fn idle(q: QueueView) -> bool {
    &&& q.pending_roots.len() == 0
    &&& q.active_roots.is_empty()
    &&& q.pending_refreshes.len() == 0
    &&& q.active_refreshes.is_empty()
    &&& q.pending_jobs.len() == 0
    &&& q.jobs.len() == 0
    &&& q.processing_jobs.is_empty()
    &&& !q.scanner_running
    &&& !q.worker_running
    &&& q.search_active == 0
}

// ---------------------------------------------------------------------------
// Lemmas

proof fn lemma_jobs_without(s: Seq<JobView>, plugin_id: Seq<char>)
    ensures
        forall|j: JobView| #[trigger] jobs_without(s, plugin_id).contains(j) <==> (s.contains(j)
            && j.plugin_id != plugin_id),
        job_keys(s).no_duplicates() ==> job_keys(jobs_without(s, plugin_id)).no_duplicates(),
        forall|k: Key| #[trigger] job_keys(jobs_without(s, plugin_id)).contains(k) <==> (job_keys(
            s,
        ).contains(k) && k.1 != plugin_id),
    decreases s.len(),
{
    if s.len() > 0 {
        let d = s.drop_last();
        lemma_jobs_without(d, plugin_id);
        let r = jobs_without(d, plugin_id);
        assert(s =~= d.push(s.last()));
        assert(job_keys(s) =~= job_keys(d).push(job_key(s.last())));
        if s.last().plugin_id != plugin_id {
            assert(job_keys(r.push(s.last())) =~= job_keys(r).push(job_key(s.last())));
        }
        let w = jobs_without(s, plugin_id);
        assert(w == if s.last().plugin_id != plugin_id {
            r.push(s.last())
        } else {
            r
        });
        assert forall|j: JobView| #[trigger] w.contains(j) <==> (s.contains(j) && j.plugin_id
            != plugin_id) by {
            if s.contains(j) && j.plugin_id != plugin_id {
                let i = choose|i: int| 0 <= i < s.len() && s[i] == j;
                if i < s.len() - 1 {
                    assert(d[i] == j);
                    assert(d.contains(j));
                    assert(r.contains(j));
                    let m = choose|m: int| 0 <= m < r.len() && r[m] == j;
                    assert(w[m] == j);
                } else {
                    assert(w[w.len() - 1] == j);
                }
            }
            if w.contains(j) {
                let m = choose|m: int| 0 <= m < w.len() && w[m] == j;
                if m < r.len() {
                    assert(r[m] == j);
                    assert(r.contains(j));
                    let i = choose|i: int| 0 <= i < d.len() && d[i] == j;
                    assert(s[i] == j);
                } else {
                    assert(s[s.len() - 1] == j);
                }
            }
        }
        assert forall|k: Key| #[trigger] job_keys(jobs_without(s, plugin_id)).contains(k) <==> (
        job_keys(s).contains(k) && k.1 != plugin_id) by {
            if job_keys(s).contains(k) && k.1 != plugin_id {
                let i = choose|i: int| 0 <= i < job_keys(s).len() && job_keys(s)[i] == k;
                assert(s.contains(s[i]));
                assert(jobs_without(s, plugin_id).contains(s[i]));
                let m = choose|m: int|
                    0 <= m < jobs_without(s, plugin_id).len() && jobs_without(s, plugin_id)[m]
                        == s[i];
                assert(job_keys(jobs_without(s, plugin_id))[m] == k);
            }
            if job_keys(jobs_without(s, plugin_id)).contains(k) {
                let m = choose|m: int|
                    0 <= m < job_keys(jobs_without(s, plugin_id)).len() && job_keys(
                        jobs_without(s, plugin_id),
                    )[m] == k;
                let j = jobs_without(s, plugin_id)[m];
                assert(jobs_without(s, plugin_id).contains(j));
                assert(s.contains(j));
                let i = choose|i: int| 0 <= i < s.len() && s[i] == j;
                assert(job_keys(s)[i] == k);
            }
        }
        if job_keys(s).no_duplicates() {
            assert(job_keys(d).no_duplicates()) by {
                assert forall|a: int, b: int|
                    0 <= a < job_keys(d).len() && 0 <= b < job_keys(d).len() && a != b implies job_keys(
                    d,
                )[a] != job_keys(d)[b] by {
                    assert(job_keys(d)[a] == job_keys(s)[a]);
                    assert(job_keys(d)[b] == job_keys(s)[b]);
                }
            }
            if s.last().plugin_id != plugin_id {
                let kl = job_key(s.last());
                assert(!job_keys(r).contains(kl)) by {
                    if job_keys(r).contains(kl) {
                        assert(job_keys(d).contains(kl));
                        let i = choose|i: int| 0 <= i < job_keys(d).len() && job_keys(d)[i] == kl;
                        assert(job_keys(s)[i] == job_keys(s)[s.len() - 1]);
                    }
                }
                let t = job_keys(r).push(kl);
                assert(t.no_duplicates()) by {
                    assert forall|a: int, b: int|
                        0 <= a < t.len() && 0 <= b < t.len() && a != b implies t[a] != t[b] by {
                        if a == t.len() - 1 {
                            assert(job_keys(r).contains(t[b]));
                        } else if b == t.len() - 1 {
                            assert(job_keys(r).contains(t[a]));
                        }
                    }
                }
            }
        }
    }
}

proof fn lemma_drop_first_keys(s: Seq<JobView>)
    requires
        s.len() > 0,
        job_keys(s).no_duplicates(),
    ensures
        job_keys(s.drop_first()).no_duplicates(),
        job_keys(s.drop_first()).to_set() == job_keys(s).to_set().remove(job_key(s[0])),
{
    let t = job_keys(s);
    let u = job_keys(s.drop_first());
    assert(u =~= t.drop_first());
    assert forall|k: Key| #[trigger] u.to_set().contains(k) <==> t.to_set().remove(
        job_key(s[0]),
    ).contains(k) by {
        if u.contains(k) {
            let i = choose|i: int| 0 <= i < u.len() && u[i] == k;
            assert(t[i + 1] == k);
            assert(t[0] != t[i + 1]);
        }
        if t.contains(k) && k != job_key(s[0]) {
            let i = choose|i: int| 0 <= i < t.len() && t[i] == k;
            assert(i != 0);
            assert(u[i - 1] == k);
        }
    }
    assert(u.to_set() =~= t.to_set().remove(job_key(s[0])));
}

proof fn lemma_push_keys(s: Seq<JobView>, j: JobView)
    requires
        job_keys(s).no_duplicates(),
        !job_keys(s).to_set().contains(job_key(j)),
    ensures
        job_keys(s.push(j)).no_duplicates(),
        job_keys(s.push(j)).to_set() == job_keys(s).to_set().insert(job_key(j)),
        job_keys(seq![j] + s).no_duplicates(),
        job_keys(seq![j] + s).to_set() == job_keys(s).to_set().insert(job_key(j)),
{
    let t = job_keys(s);
    let a = job_keys(s.push(j));
    let b = job_keys(seq![j] + s);
    assert(a =~= t.push(job_key(j)));
    assert(b =~= seq![job_key(j)] + t);
    assert(!t.contains(job_key(j)));
    assert forall|x: int, y: int| 0 <= x < a.len() && 0 <= y < a.len() && x != y implies a[x]
        != a[y] by {
        if x == a.len() - 1 {
            assert(t.contains(a[y]));
        } else if y == a.len() - 1 {
            assert(t.contains(a[x]));
        }
    }
    assert forall|x: int, y: int| 0 <= x < b.len() && 0 <= y < b.len() && x != y implies b[x]
        != b[y] by {
        if x == 0 {
            assert(t[y - 1] == b[y]);
            assert(t.contains(b[y]));
        } else if y == 0 {
            assert(t[x - 1] == b[x]);
            assert(t.contains(b[x]));
        } else {
            assert(b[x] == t[x - 1]);
            assert(b[y] == t[y - 1]);
        }
    }
    assert forall|k: Key| #[trigger] a.to_set().contains(k) <==> t.to_set().insert(
        job_key(j),
    ).contains(k) by {
        if a.contains(k) {
            let i = choose|i: int| 0 <= i < a.len() && a[i] == k;
            if i < t.len() {
                assert(t[i] == k);
            }
        }
        if t.contains(k) {
            let i = choose|i: int| 0 <= i < t.len() && t[i] == k;
            assert(a[i] == k);
        }
        if k == job_key(j) {
            assert(a[t.len() as int] == k);
        }
    }
    assert forall|k: Key| #[trigger] b.to_set().contains(k) <==> t.to_set().insert(
        job_key(j),
    ).contains(k) by {
        if b.contains(k) {
            let i = choose|i: int| 0 <= i < b.len() && b[i] == k;
            if i > 0 {
                assert(t[i - 1] == k);
            }
        }
        if t.contains(k) {
            let i = choose|i: int| 0 <= i < t.len() && t[i] == k;
            assert(b[i + 1] == k);
        }
        if k == job_key(j) {
            assert(b[0] == k);
        }
    }
    assert(a.to_set() =~= t.to_set().insert(job_key(j)));
    assert(b.to_set() =~= t.to_set().insert(job_key(j)));
}

proof fn lemma_seq_push_set<A>(s: Seq<A>, x: A)
    ensures
        s.push(x).to_set() == s.to_set().insert(x),
{
    assert forall|k: A| #[trigger] s.push(x).to_set().contains(k) <==> s.to_set().insert(
        x,
    ).contains(k) by {
        if s.push(x).contains(k) {
            let i = choose|i: int| 0 <= i < s.push(x).len() && s.push(x)[i] == k;
            if i < s.len() {
                assert(s[i] == k);
            }
        }
        if s.contains(k) {
            let i = choose|i: int| 0 <= i < s.len() && s[i] == k;
            assert(s.push(x)[i] == k);
        }
        if k == x {
            assert(s.push(x)[s.len() as int] == k);
        }
    }
    assert(s.push(x).to_set() =~= s.to_set().insert(x));
}

proof fn lemma_seq_front_set<A>(s: Seq<A>, x: A)
    requires
        s.no_duplicates(),
        !s.contains(x),
    ensures
        (seq![x] + s).to_set() == s.to_set().insert(x),
        (seq![x] + s).no_duplicates(),
{
    let b = seq![x] + s;
    assert forall|k: A| #[trigger] b.to_set().contains(k) <==> s.to_set().insert(x).contains(k) by {
        if b.contains(k) {
            let i = choose|i: int| 0 <= i < b.len() && b[i] == k;
            if i > 0 {
                assert(s[i - 1] == k);
            }
        }
        if s.contains(k) {
            let i = choose|i: int| 0 <= i < s.len() && s[i] == k;
            assert(b[i + 1] == k);
        }
        if k == x {
            assert(b[0] == k);
        }
    }
    assert(b.to_set() =~= s.to_set().insert(x));
    assert forall|p: int, q: int| 0 <= p < b.len() && 0 <= q < b.len() && p != q implies b[p]
        != b[q] by {
        if p == 0 {
            assert(s[q - 1] == b[q]);
        } else if q == 0 {
            assert(s[p - 1] == b[p]);
        } else {
            assert(b[p] == s[p - 1]);
            assert(b[q] == s[q - 1]);
        }
    }
}

proof fn lemma_seq_drop_first_set<A>(s: Seq<A>)
    requires
        s.len() > 0,
        s.no_duplicates(),
    ensures
        s.drop_first().to_set() == s.to_set().remove(s[0]),
        s.drop_first().no_duplicates(),
{
    let u = s.drop_first();
    assert forall|k: A| #[trigger] u.to_set().contains(k) <==> s.to_set().remove(s[0]).contains(
        k,
    ) by {
        if u.contains(k) {
            let i = choose|i: int| 0 <= i < u.len() && u[i] == k;
            assert(s[i + 1] == k);
            assert(s[0] != s[i + 1]);
        }
        if s.contains(k) && k != s[0] {
            let i = choose|i: int| 0 <= i < s.len() && s[i] == k;
            assert(u[i - 1] == k);
        }
    }
    assert(u.to_set() =~= s.to_set().remove(s[0]));
    assert forall|p: int, q: int| 0 <= p < u.len() && 0 <= q < u.len() && p != q implies u[p]
        != u[q] by {
        assert(u[p] == s[p + 1]);
        assert(u[q] == s[q + 1]);
    }
}

proof fn lemma_empty_set<A>(s: Seq<A>)
    ensures
        s.to_set().is_empty() <==> s.len() == 0,
{
    if s.len() > 0 {
        assert(s.to_set().contains(s[0]));
    } else {
        assert(s.to_set() =~= Set::<A>::empty());
    }
}

// ---------------------------------------------------------------------------
// Sets kept in vectors

fn has_text(v: &Vec<String>, x: &str) -> (r: bool)
    ensures
        r == strings_view(v@).to_set().contains(x@),
{
    let mut i: usize = 0;
    while i < v.len()
        invariant
            i <= v.len(),
            forall|j: int| 0 <= j < i ==> strings_view(v@)[j] != x@,
        decreases v.len() - i,
    {
        if str_eq(v[i].as_str(), x) {
            assert(strings_view(v@)[i as int] == x@);
            return true;
        }
        i = i + 1;
    }
    false
}

fn remove_text(v: &mut Vec<String>, x: &str)
    ensures
        strings_view(final(v)@).to_set() == strings_view(old(v)@).to_set().remove(x@),
{
    let ghost old_set = strings_view(v@).to_set();
    let mut out: Vec<String> = Vec::new();
    let mut i: usize = 0;
    while i < v.len()
        invariant
            i <= v.len(),
            old_set == strings_view(v@).to_set(),
            forall|k: Seq<char>| #[trigger] strings_view(out@).contains(k) <==> (k != x@ && exists|
                j: int,
            | 0 <= j < i && strings_view(v@)[j] == k),
        decreases v.len() - i,
    {
        if !str_eq(v[i].as_str(), x) {
            let s = v[i].clone();
            let ghost before = strings_view(out@);
            out.push(s);
            assert(strings_view(out@) =~= before.push(s@));
            assert forall|k: Seq<char>| #[trigger] strings_view(out@).contains(k) <==> (k != x@
                && exists|j: int| 0 <= j < i + 1 && strings_view(v@)[j] == k) by {
                if strings_view(out@).contains(k) {
                    let m = choose|m: int| 0 <= m < strings_view(out@).len() && strings_view(out@)[m] == k;
                    if m < before.len() {
                        assert(before.contains(k));
                    } else {
                        assert(strings_view(v@)[i as int] == k);
                    }
                }
                if k != x@ && exists|j: int| 0 <= j < i + 1 && strings_view(v@)[j] == k {
                    let j = choose|j: int| 0 <= j < i + 1 && strings_view(v@)[j] == k;
                    if j < i {
                        assert(before.contains(k));
                        let m = choose|m: int| 0 <= m < before.len() && before[m] == k;
                        assert(strings_view(out@)[m] == k);
                    } else {
                        assert(strings_view(out@)[before.len() as int] == k);
                    }
                }
            }
        } else {
            assert forall|k: Seq<char>| #[trigger] strings_view(out@).contains(k) <==> (k != x@
                && exists|j: int| 0 <= j < i + 1 && strings_view(v@)[j] == k) by {
                if k != x@ && exists|j: int| 0 <= j < i + 1 && strings_view(v@)[j] == k {
                    let j = choose|j: int| 0 <= j < i + 1 && strings_view(v@)[j] == k;
                    assert(j < i);
                }
            }
        }
        i = i + 1;
    }
    assert forall|k: Seq<char>| #[trigger] strings_view(out@).to_set().contains(k) <==> old_set.remove(
        x@,
    ).contains(k) by {
        if old_set.contains(k) && k != x@ {
            let j = choose|j: int| 0 <= j < strings_view(v@).len() && strings_view(v@)[j] == k;
        }
    }
    assert(strings_view(out@).to_set() =~= old_set.remove(x@));
    *v = out;
}

fn has_key(v: &Vec<PathKey>, path: &str, plugin_id: &str) -> (r: bool)
    ensures
        r == keys_view(v@).to_set().contains((path@, plugin_id@)),
{
    let mut i: usize = 0;
    while i < v.len()
        invariant
            i <= v.len(),
            forall|j: int| 0 <= j < i ==> keys_view(v@)[j] != (path@, plugin_id@),
        decreases v.len() - i,
    {
        if str_eq(v[i].path.as_str(), path) && str_eq(v[i].plugin_id.as_str(), plugin_id) {
            assert(keys_view(v@)[i as int] == (path@, plugin_id@));
            return true;
        }
        i = i + 1;
    }
    false
}

fn add_key(v: &mut Vec<PathKey>, path: &str, plugin_id: &str)
    ensures
        keys_view(final(v)@).to_set() == keys_view(old(v)@).to_set().insert((path@, plugin_id@)),
{
    let k = PathKey { path: to_string(path), plugin_id: to_string(plugin_id) };
    let ghost before = keys_view(v@);
    v.push(k);
    assert(keys_view(v@) =~= before.push((path@, plugin_id@)));
    proof {
        lemma_seq_push_set(before, (path@, plugin_id@));
    }
}

/// Keeps the keys of `v` that `keep` accepts: all keys but one, or all keys
/// of other plugins.
fn retain_keys(v: &mut Vec<PathKey>, drop_path: Option<&str>, plugin_id: &str)
    ensures
        keys_view(final(v)@).to_set() == match drop_path {
            Some(p) => keys_view(old(v)@).to_set().remove((p@, plugin_id@)),
            None => keys_without(keys_view(old(v)@).to_set(), plugin_id@),
        },
{
    let ghost old_keys = keys_view(v@);
    let ghost dropped = |k: Key|
        match drop_path {
            Some(p) => k == (p@, plugin_id@),
            None => k.1 == plugin_id@,
        };
    let mut out: Vec<PathKey> = Vec::new();
    let mut i: usize = 0;
    while i < v.len()
        invariant
            i <= v.len(),
            old_keys == keys_view(v@),
            dropped == (|k: Key|
                match drop_path {
                    Some(p) => k == (p@, plugin_id@),
                    None => k.1 == plugin_id@,
                }),
            forall|k: Key| #[trigger] keys_view(out@).contains(k) <==> (!dropped(k) && exists|
                j: int,
            | 0 <= j < i && old_keys[j] == k),
        decreases v.len() - i,
    {
        let same_plugin = str_eq(v[i].plugin_id.as_str(), plugin_id);
        let drop = match drop_path {
            Some(p) => same_plugin && str_eq(v[i].path.as_str(), p),
            None => same_plugin,
        };
        assert(drop == dropped(old_keys[i as int]));
        if !drop {
            let k = PathKey { path: v[i].path.clone(), plugin_id: v[i].plugin_id.clone() };
            let ghost before = keys_view(out@);
            out.push(k);
            assert(keys_view(out@) =~= before.push(old_keys[i as int]));
            assert forall|k: Key| #[trigger] keys_view(out@).contains(k) <==> (!dropped(k) && exists|
                j: int,
            | 0 <= j < i + 1 && old_keys[j] == k) by {
                if keys_view(out@).contains(k) {
                    let m = choose|m: int| 0 <= m < keys_view(out@).len() && keys_view(out@)[m] == k;
                    if m < before.len() {
                        assert(before.contains(k));
                    } else {
                        assert(old_keys[i as int] == k);
                    }
                }
                if !dropped(k) && exists|j: int| 0 <= j < i + 1 && old_keys[j] == k {
                    let j = choose|j: int| 0 <= j < i + 1 && old_keys[j] == k;
                    if j < i {
                        assert(before.contains(k));
                        let m = choose|m: int| 0 <= m < before.len() && before[m] == k;
                        assert(keys_view(out@)[m] == k);
                    } else {
                        assert(keys_view(out@)[before.len() as int] == k);
                    }
                }
            }
        } else {
            assert forall|k: Key| #[trigger] keys_view(out@).contains(k) <==> (!dropped(k) && exists|
                j: int,
            | 0 <= j < i + 1 && old_keys[j] == k) by {
                if !dropped(k) && exists|j: int| 0 <= j < i + 1 && old_keys[j] == k {
                    let j = choose|j: int| 0 <= j < i + 1 && old_keys[j] == k;
                    assert(j < i);
                }
            }
        }
        i = i + 1;
    }
    let ghost target = match drop_path {
        Some(p) => old_keys.to_set().remove((p@, plugin_id@)),
        None => keys_without(old_keys.to_set(), plugin_id@),
    };
    assert forall|k: Key| #[trigger] keys_view(out@).to_set().contains(k) <==> target.contains(k) by {
        if old_keys.contains(k) && !dropped(k) {
            let j = choose|j: int| 0 <= j < old_keys.len() && old_keys[j] == k;
        }
    }
    assert(keys_view(out@).to_set() =~= target);
    *v = out;
}

fn clone_job(j: &PluginJob) -> (r: PluginJob)
    ensures
        r@ == j@,
{
    PluginJob {
        source_path: j.source_path.clone(),
        plugin_id: j.plugin_id.clone(),
        attempts: j.attempts,
        run_id: j.run_id.clone(),
    }
}

fn retain_jobs(v: &mut VecDeque<PluginJob>, plugin_id: &str)
    ensures
        jobs_view(final(v)@) == jobs_without(jobs_view(old(v)@), plugin_id@),
{
    let ghost s = jobs_view(v@);
    let mut out: VecDeque<PluginJob> = VecDeque::new();
    let mut i: usize = 0;
    assert(s.take(0) =~= Seq::<JobView>::empty());
    assert(jobs_view(out@) =~= jobs_without(s.take(0), plugin_id@));
    while i < v.len()
        invariant
            i <= v.len(),
            s == jobs_view(v@),
            jobs_view(out@) == jobs_without(s.take(i as int), plugin_id@),
        decreases v.len() - i,
    {
        assert(s.take(i + 1).drop_last() =~= s.take(i as int));
        assert(s.take(i + 1).last() == v@[i as int]@);
        if !str_eq(v[i].plugin_id.as_str(), plugin_id) {
            let j = clone_job(&v[i]);
            let ghost before = jobs_view(out@);
            out.push_back(j);
            assert(jobs_view(out@) =~= before.push(j@));
        }
        i = i + 1;
    }
    assert(s.take(i as int) =~= s);
    *v = out;
}

/// The root is queued for a scan or being scanned.
pub open spec fn root_known(q: QueueView, root: Seq<char>) -> bool {
    q.queued_roots.contains(root) || q.active_roots.contains(root)
}

/// The queues once `root` is queued for a scan, ahead of the others.
pub open spec fn root_queued(q: QueueView, root: Seq<char>) -> QueueView {
    QueueView {
        pending_roots: seq![root] + q.pending_roots,
        queued_roots: q.queued_roots.insert(root),
        ..q
    }
}

impl RuntimeState {
    /// Empty queues, not paused, nothing running; run ids start at 1.
    pub fn new() -> (r: RuntimeState)
        ensures
            queue_wf(r@),
            idle(r@),
            !r@.paused,
            r@.run_counter == 1,
            r@.queued_roots.is_empty(),
            r@.queued_refreshes.is_empty(),
            r@.pending_job_keys.is_empty(),
            r@.queued_jobs.is_empty(),
    {
        let r = RuntimeState {
            pending_roots: VecDeque::new(),
            queued_roots: Vec::new(),
            active_roots: Vec::new(),
            pending_refreshes: VecDeque::new(),
            queued_refreshes: Vec::new(),
            active_refreshes: Vec::new(),
            pending_jobs: VecDeque::new(),
            pending_job_keys: Vec::new(),
            jobs: VecDeque::new(),
            queued_jobs: Vec::new(),
            processing_jobs: Vec::new(),
            paused: false,
            scanner_running: false,
            worker_running: false,
            search_active: 0,
            run_counter: 1,
        };
        assert(r@.queued_roots =~= Set::<Seq<char>>::empty());
        assert(r@.active_roots =~= Set::<Seq<char>>::empty());
        assert(r@.queued_refreshes =~= Set::<Key>::empty());
        assert(r@.active_refreshes =~= Set::<Key>::empty());
        assert(r@.pending_job_keys =~= Set::<Key>::empty());
        assert(r@.queued_jobs =~= Set::<Key>::empty());
        assert(r@.processing_jobs =~= Set::<Key>::empty());
        assert(r@.pending_roots.to_set() =~= Set::<Seq<char>>::empty());
        assert(r@.pending_refreshes.to_set() =~= Set::<Key>::empty());
        assert(job_keys(r@.pending_jobs).to_set() =~= Set::<Key>::empty());
        assert(job_keys(r@.jobs).to_set() =~= Set::<Key>::empty());
        r
    }

    /// Queues `root` for a scan, ahead of the others, unless it is queued
    /// or being scanned; tells whether it was queued.
    pub fn queue_root(&mut self, root: &str) -> (queued: bool)
        requires
            queue_wf(old(self)@),
        ensures
            queue_wf(final(self)@),
            queued == !root_known(old(self)@, root@),
            queued ==> final(self)@ == root_queued(old(self)@, root@),
            !queued ==> final(self)@ == old(self)@,
    {
        if has_text(&self.queued_roots, root) || has_text(&self.active_roots, root) {
            return false;
        }
        let ghost before = self@;
        let ghost roots = strings_view(self.pending_roots@);
        let ghost qs = strings_view(self.queued_roots@);
        self.queued_roots.push(to_string(root));
        self.pending_roots.push_front(to_string(root));
        proof {
            assert(strings_view(self.queued_roots@) =~= qs.push(root@));
            lemma_seq_push_set(qs, root@);
            assert(strings_view(self.pending_roots@) =~= seq![root@] + roots);
            lemma_seq_front_set(roots, root@);
            assert(self@ == (QueueView {
                pending_roots: seq![root@] + before.pending_roots,
                queued_roots: before.queued_roots.insert(root@),
                ..before
            }));
        }
        true
    }

    /// Queues a rescan of `root` for one plugin, unless the same rescan is
    /// queued or running; tells whether it was queued.
    pub fn queue_refresh(&mut self, root: &str, plugin_id: &str) -> (queued: bool)
        requires
            queue_wf(old(self)@),
        ensures
            queue_wf(final(self)@),
            queued == !(old(self)@.queued_refreshes.contains((root@, plugin_id@))
                || old(self)@.active_refreshes.contains((root@, plugin_id@))),
            queued ==> final(self)@ == (QueueView {
                pending_refreshes: old(self)@.pending_refreshes.push((root@, plugin_id@)),
                queued_refreshes: old(self)@.queued_refreshes.insert((root@, plugin_id@)),
                ..old(self)@
            }),
            !queued ==> final(self)@ == old(self)@,
    {
        if has_key(&self.queued_refreshes, root, plugin_id) || has_key(
            &self.active_refreshes,
            root,
            plugin_id,
        ) {
            return false;
        }
        let ghost before = self@;
        let ghost rs = keys_view(self.pending_refreshes@);
        add_key(&mut self.queued_refreshes, root, plugin_id);
        self.pending_refreshes.push_back(PathKey { path: to_string(root), plugin_id: to_string(plugin_id) });
        proof {
            assert(keys_view(self.pending_refreshes@) =~= rs.push((root@, plugin_id@)));
            lemma_seq_push_set(rs, (root@, plugin_id@));
            assert(!rs.contains((root@, plugin_id@)));
            assert(rs.push((root@, plugin_id@)).no_duplicates()) by {
                let t = rs.push((root@, plugin_id@));
                assert forall|a: int, b: int| 0 <= a < t.len() && 0 <= b < t.len() && a != b implies t[a]
                    != t[b] by {
                    if a == t.len() - 1 {
                        assert(rs.contains(t[b]));
                    } else if b == t.len() - 1 {
                        assert(rs.contains(t[a]));
                    }
                }
            }
        }
        true
    }

    /// Whether a job for this file and plugin is pending, queued or
    /// processing.
    pub fn job_known(&self, source_path: &str, plugin_id: &str) -> (r: bool)
        ensures
            r == job_known(self@, (source_path@, plugin_id@)),
    {
        has_key(&self.pending_job_keys, source_path, plugin_id) || has_key(
            &self.queued_jobs,
            source_path,
            plugin_id,
        ) || has_key(&self.processing_jobs, source_path, plugin_id)
    }

    /// Hands a job to the queue: a job already known, or one whose plugin is
    /// not installed, changes nothing; any other job becomes pending, at the
    /// front when it has priority.
    pub fn enqueue_pending_job(&mut self, job: PluginJob, priority_front: bool, plugin_registered: bool) -> (r:
        EnqueueOutcome)
        requires
            queue_wf(old(self)@),
        ensures
            queue_wf(final(self)@),
            r == (if job_known(old(self)@, job_key(job@)) {
                EnqueueOutcome::Duplicate
            } else if !plugin_registered {
                EnqueueOutcome::PluginMissing
            } else {
                EnqueueOutcome::Enqueued
            }),
            r != EnqueueOutcome::Enqueued ==> final(self)@ == old(self)@,
            r == EnqueueOutcome::Enqueued ==> final(self)@ == enqueued(old(self)@, job@, priority_front),
    {
        if self.job_known(job.source_path.as_str(), job.plugin_id.as_str()) {
            return EnqueueOutcome::Duplicate;
        }
        if !plugin_registered {
            return EnqueueOutcome::PluginMissing;
        }
        let ghost before = self@;
        let ghost jv = job@;
        add_key(&mut self.pending_job_keys, job.source_path.as_str(), job.plugin_id.as_str());
        let ghost ps = jobs_view(self.pending_jobs@);
        if priority_front {
            self.pending_jobs.push_front(job);
            assert(jobs_view(self.pending_jobs@) =~= seq![jv] + ps);
        } else {
            self.pending_jobs.push_back(job);
            assert(jobs_view(self.pending_jobs@) =~= ps.push(jv));
        }
        proof {
            lemma_push_keys(ps, jv);
        }
        EnqueueOutcome::Enqueued
    }

    /// Moves pending jobs, first come first, to the worker's queue until it
    /// holds its target number of jobs or nothing is pending.
    pub fn promote_pending_jobs(&mut self)
        requires
            queue_wf(old(self)@),
        ensures
            queue_wf(final(self)@),
            final(self)@ == promoted(old(self)@),
    {
        let ghost q0 = self@;
        let ghost n = promoted_count(q0);
        let mut moved: usize = 0;
        assert(q0.pending_jobs.skip(0) =~= q0.pending_jobs);
        assert(q0.jobs + q0.pending_jobs.take(0) =~= q0.jobs);
        assert(job_keys(q0.pending_jobs.take(0)).to_set() =~= Set::<Key>::empty());
        assert(q0.queued_jobs.union(Set::<Key>::empty()) =~= q0.queued_jobs);
        while self.jobs.len() < ACTIVE_QUEUE_TARGET && self.pending_jobs.len() > 0
            invariant
                queue_wf(self@),
                q0 == old(self)@,
                queue_wf(q0),
                n == promoted_count(q0),
                moved <= q0.pending_jobs.len(),
                moved > 0 ==> q0.jobs.len() + moved <= ACTIVE_QUEUE_TARGET,
                self@ == (QueueView {
                    pending_jobs: q0.pending_jobs.skip(moved as int),
                    pending_job_keys: job_keys(q0.pending_jobs.skip(moved as int)).to_set(),
                    jobs: q0.jobs + q0.pending_jobs.take(moved as int),
                    queued_jobs: q0.queued_jobs.union(
                        job_keys(q0.pending_jobs.take(moved as int)).to_set(),
                    ),
                    ..q0
                }),
            decreases self.pending_jobs.len(),
        {
            let ghost q = self@;
            let job = self.pending_jobs.pop_front().unwrap();
            let ghost jv = job@;
            assert(jv == q.pending_jobs[0]);
            assert(jobs_view(self.pending_jobs@) =~= q.pending_jobs.drop_first());
            proof {
                lemma_drop_first_keys(q.pending_jobs);
            }
            retain_keys(&mut self.pending_job_keys, Some(job.source_path.as_str()), job.plugin_id.as_str());
            add_key(&mut self.queued_jobs, job.source_path.as_str(), job.plugin_id.as_str());
            let ghost js = jobs_view(self.jobs@);
            self.jobs.push_back(job);
            assert(jobs_view(self.jobs@) =~= js.push(jv));
            proof {
                assert(job_keys(q.pending_jobs).to_set().contains(job_key(jv))) by {
                    assert(job_keys(q.pending_jobs)[0] == job_key(jv));
                }
                assert(!q.queued_jobs.contains(job_key(jv)));
                lemma_push_keys(q.jobs, jv);
                assert(q0.pending_jobs.skip(moved as int).drop_first() =~= q0.pending_jobs.skip(
                    moved + 1,
                ));
                assert(q0.pending_jobs.take(moved + 1) =~= q0.pending_jobs.take(moved as int).push(
                    jv,
                ));
                assert(q0.jobs + q0.pending_jobs.take(moved + 1) =~= (q0.jobs
                    + q0.pending_jobs.take(moved as int)).push(jv));
                assert(job_keys(q0.pending_jobs.take(moved + 1)) =~= job_keys(
                    q0.pending_jobs.take(moved as int),
                ).push(job_key(jv)));
                lemma_seq_push_set(job_keys(q0.pending_jobs.take(moved as int)), job_key(jv));
                assert(q0.queued_jobs.union(job_keys(q0.pending_jobs.take(moved + 1)).to_set())
                    =~= q.queued_jobs.insert(job_key(jv)));
                assert(self@.pending_job_keys =~= job_keys(q0.pending_jobs.skip(moved + 1)).to_set());
            }
            moved = moved + 1;
        }
        proof {
            let room = ACTIVE_QUEUE_TARGET - q0.jobs.len();
            assert(self@.jobs.len() == q0.jobs.len() + moved);
            if self.jobs.len() >= ACTIVE_QUEUE_TARGET {
                assert(moved == n);
            } else {
                assert(moved == q0.pending_jobs.len());
                assert(moved == n);
            }
        }
    }

    /// Promotes pending jobs and, when a job is queued, nothing is paused
    /// and no search runs, hands the first queued job to the worker (now
    /// processing it); otherwise the worker is idle.
    pub fn next_worker_job(&mut self) -> (r: Option<PluginJob>)
        requires
            queue_wf(old(self)@),
        ensures
            queue_wf(final(self)@),
            ({
                let p = promoted(old(self)@);
                if p.jobs.len() > 0 && !p.paused && p.search_active == 0 {
                    &&& r matches Some(j) && j@ == p.jobs[0]
                    &&& final(self)@ == (QueueView {
                        jobs: p.jobs.drop_first(),
                        queued_jobs: p.queued_jobs.remove(job_key(p.jobs[0])),
                        processing_jobs: p.processing_jobs.insert(job_key(p.jobs[0])),
                        worker_running: true,
                        ..p
                    })
                } else {
                    &&& r is None
                    &&& final(self)@ == (QueueView { worker_running: false, ..p })
                }
            }),
    {
        self.promote_pending_jobs();
        if self.jobs.len() == 0 || self.paused || self.search_active != 0 {
            self.worker_running = false;
            return None;
        }
        let ghost p = self@;
        let job = self.jobs.pop_front().unwrap();
        let ghost jv = job@;
        assert(jobs_view(self.jobs@) =~= p.jobs.drop_first());
        proof {
            lemma_drop_first_keys(p.jobs);
            assert(job_keys(p.jobs)[0] == job_key(jv));
        }
        retain_keys(&mut self.queued_jobs, Some(job.source_path.as_str()), job.plugin_id.as_str());
        add_key(&mut self.processing_jobs, job.source_path.as_str(), job.plugin_id.as_str());
        self.worker_running = true;
        proof {
            assert(p.queued_jobs.contains(job_key(jv))) by {
                assert(job_keys(p.jobs).contains(job_key(jv)));
            }
        }
        Some(job)
    }

    /// The worker is done with a job.
    pub fn finish_job(&mut self, source_path: &str, plugin_id: &str)
        requires
            queue_wf(old(self)@),
        ensures
            queue_wf(final(self)@),
            final(self)@ == (QueueView {
                processing_jobs: old(self)@.processing_jobs.remove((source_path@, plugin_id@)),
                worker_running: false,
                ..old(self)@
            }),
    {
        retain_keys(&mut self.processing_jobs, Some(source_path), plugin_id);
        self.worker_running = false;
    }

    /// The scanner's next task: the first plugin refresh, else the first
    /// root, unless nothing is queued or indexing is paused.
    pub fn next_scan_task(&mut self) -> (r: Option<ScanTask>)
        requires
            queue_wf(old(self)@),
        ensures
            queue_wf(final(self)@),
            ({
                let q = old(self)@;
                if (q.pending_roots.len() == 0 && q.pending_refreshes.len() == 0) || q.paused {
                    r is None && final(self)@ == (QueueView { scanner_running: false, ..q })
                } else if q.pending_refreshes.len() > 0 {
                    &&& r matches Some(ScanTask::PluginRefresh(k)) && k@ == q.pending_refreshes[0]
                    &&& final(self)@ == (QueueView {
                        pending_refreshes: q.pending_refreshes.drop_first(),
                        queued_refreshes: q.queued_refreshes.remove(q.pending_refreshes[0]),
                        active_refreshes: q.active_refreshes.insert(q.pending_refreshes[0]),
                        scanner_running: true,
                        ..q
                    })
                } else {
                    &&& r matches Some(ScanTask::Root(root)) && root@ == q.pending_roots[0]
                    &&& final(self)@ == (QueueView {
                        pending_roots: q.pending_roots.drop_first(),
                        queued_roots: q.queued_roots.remove(q.pending_roots[0]),
                        active_roots: q.active_roots.insert(q.pending_roots[0]),
                        scanner_running: true,
                        ..q
                    })
                }
            }),
    {
        let ghost q = self@;
        if (self.pending_roots.len() == 0 && self.pending_refreshes.len() == 0) || self.paused {
            self.scanner_running = false;
            return None;
        }
        if self.pending_refreshes.len() > 0 {
            let k = self.pending_refreshes.pop_front().unwrap();
            assert(keys_view(self.pending_refreshes@) =~= q.pending_refreshes.drop_first());
            proof {
                lemma_seq_drop_first_set(q.pending_refreshes);
            }
            retain_keys(&mut self.queued_refreshes, Some(k.path.as_str()), k.plugin_id.as_str());
            add_key(&mut self.active_refreshes, k.path.as_str(), k.plugin_id.as_str());
            self.scanner_running = true;
            Some(ScanTask::PluginRefresh(k))
        } else {
            let root = self.pending_roots.pop_front().unwrap();
            assert(strings_view(self.pending_roots@) =~= q.pending_roots.drop_first());
            proof {
                lemma_seq_drop_first_set(q.pending_roots);
            }
            remove_text(&mut self.queued_roots, root.as_str());
            let ghost act = strings_view(self.active_roots@);
            self.active_roots.push(root.clone());
            proof {
                assert(strings_view(self.active_roots@) =~= act.push(root@));
                lemma_seq_push_set(act, root@);
            }
            self.scanner_running = true;
            Some(ScanTask::Root(root))
        }
    }

    /// The scanner is done with a task; it keeps running while anything is
    /// queued.
    pub fn finish_scan_task(&mut self, task: &ScanTask)
        requires
            queue_wf(old(self)@),
        ensures
            queue_wf(final(self)@),
            ({
                let q = old(self)@;
                let running = !(q.pending_roots.len() == 0 && q.pending_refreshes.len() == 0);
                match task {
                    ScanTask::Root(root) => final(self)@ == (QueueView {
                        active_roots: q.active_roots.remove(root@),
                        scanner_running: running,
                        ..q
                    }),
                    ScanTask::PluginRefresh(k) => final(self)@ == (QueueView {
                        active_refreshes: q.active_refreshes.remove(k@),
                        scanner_running: running,
                        ..q
                    }),
                }
            }),
    {
        match task {
            ScanTask::Root(root) => {
                remove_text(&mut self.active_roots, root.as_str());
            },
            ScanTask::PluginRefresh(k) => {
                retain_keys(&mut self.active_refreshes, Some(k.path.as_str()), k.plugin_id.as_str());
            },
        }
        self.scanner_running = !(self.pending_roots.len() == 0 && self.pending_refreshes.len() == 0);
    }

    /// A search started (the worker waits while any runs).
    pub fn search_started(&mut self)
        ensures
            final(self)@ == (QueueView {
                search_active: if old(self)@.search_active == usize::MAX {
                    0
                } else {
                    (old(self)@.search_active + 1) as usize
                },
                ..old(self)@
            }),
    {
        self.search_active = if self.search_active == usize::MAX {
            0
        } else {
            self.search_active + 1
        };
    }

    /// A search finished.
    pub fn search_finished(&mut self)
        ensures
            final(self)@ == (QueueView {
                search_active: if old(self)@.search_active == 0 {
                    usize::MAX
                } else {
                    (old(self)@.search_active - 1) as usize
                },
                ..old(self)@
            }),
    {
        self.search_active = if self.search_active == 0 {
            usize::MAX
        } else {
            self.search_active - 1
        };
    }

    pub fn paused(&self) -> (r: bool)
        ensures
            r == self@.paused,
    {
        self.paused
    }

    pub fn worker_running(&self) -> (r: bool)
        ensures
            r == self@.worker_running,
    {
        self.worker_running
    }

    pub fn scanner_running(&self) -> (r: bool)
        ensures
            r == self@.scanner_running,
    {
        self.scanner_running
    }

    /// How many jobs wait in the worker's queue.
    pub fn jobs_len(&self) -> (r: usize)
        ensures
            r == self@.jobs.len(),
    {
        self.jobs.len()
    }

    /// How many jobs are pending.
    pub fn pending_jobs_len(&self) -> (r: usize)
        ensures
            r == self@.pending_jobs.len(),
    {
        self.pending_jobs.len()
    }

    /// How many plugin refreshes are pending.
    pub fn pending_refreshes_len(&self) -> (r: usize)
        ensures
            r == self@.pending_refreshes.len(),
    {
        self.pending_refreshes.len()
    }

    /// Whether a search is running.
    pub fn search_active(&self) -> (r: bool)
        ensures
            r == (self@.search_active > 0),
    {
        self.search_active > 0
    }

    /// A fresh run id, `plugin-run-<n>`, from a counter that starts at 1.
    pub fn next_run_id(&mut self) -> (r: String)
        ensures
            r@ == "plugin-run-"@ + crate::text::decimal(old(self)@.run_counter as nat),
            final(self)@ == (QueueView {
                run_counter: if old(self)@.run_counter == u64::MAX {
                    0
                } else {
                    (old(self)@.run_counter + 1) as u64
                },
                ..old(self)@
            }),
    {
        let n = self.run_counter;
        self.run_counter = if n == u64::MAX {
            0
        } else {
            n + 1
        };
        let d = u64_to_decimal(n);
        concat("plugin-run-", d.as_str())
    }

    /// Pauses or resumes indexing.
    pub fn set_paused(&mut self, paused: bool)
        ensures
            final(self)@ == (QueueView { paused, ..old(self)@ }),
    {
        self.paused = paused;
    }

    /// Forgets every queued root, refresh and job (the scans that run go
    /// on).
    pub fn rebuild(&mut self)
        requires
            queue_wf(old(self)@),
        ensures
            queue_wf(final(self)@),
            final(self)@ == (QueueView {
                pending_roots: Seq::empty(),
                queued_roots: Set::empty(),
                pending_refreshes: Seq::empty(),
                queued_refreshes: Set::empty(),
                active_refreshes: Set::empty(),
                pending_jobs: Seq::empty(),
                pending_job_keys: Set::empty(),
                jobs: Seq::empty(),
                queued_jobs: Set::empty(),
                processing_jobs: Set::empty(),
                ..old(self)@
            }),
    {
        self.pending_jobs = VecDeque::new();
        self.pending_job_keys = Vec::new();
        self.jobs = VecDeque::new();
        self.queued_jobs = Vec::new();
        self.processing_jobs = Vec::new();
        self.pending_roots = VecDeque::new();
        self.queued_roots = Vec::new();
        self.pending_refreshes = VecDeque::new();
        self.queued_refreshes = Vec::new();
        self.active_refreshes = Vec::new();
        assert(self@.queued_roots =~= Set::<Seq<char>>::empty());
        assert(self@.queued_refreshes =~= Set::<Key>::empty());
        assert(self@.active_refreshes =~= Set::<Key>::empty());
        assert(self@.pending_job_keys =~= Set::<Key>::empty());
        assert(self@.queued_jobs =~= Set::<Key>::empty());
        assert(self@.processing_jobs =~= Set::<Key>::empty());
        assert(self@.pending_roots =~= Seq::<Seq<char>>::empty());
        assert(self@.pending_refreshes =~= Seq::<Key>::empty());
        assert(self@.pending_jobs =~= Seq::<JobView>::empty());
        assert(self@.jobs =~= Seq::<JobView>::empty());
        assert(Seq::<Seq<char>>::empty().to_set() =~= Set::<Seq<char>>::empty());
        assert(Seq::<Key>::empty().to_set() =~= Set::<Key>::empty());
        assert(job_keys(Seq::<JobView>::empty()) =~= Seq::<Key>::empty());
    }

    /// Takes the jobs of one plugin out of the pending and worker queues
    /// (the job that is processing finishes).
    pub fn drop_pending_plugin_jobs(&mut self, plugin_id: &str)
        requires
            queue_wf(old(self)@),
        ensures
            queue_wf(final(self)@),
            final(self)@ == without_plugin_jobs(old(self)@, plugin_id@),
    {
        let ghost q = self@;
        retain_jobs(&mut self.pending_jobs, plugin_id);
        retain_keys(&mut self.pending_job_keys, None, plugin_id);
        retain_jobs(&mut self.jobs, plugin_id);
        retain_keys(&mut self.queued_jobs, None, plugin_id);
        proof {
            lemma_jobs_without(q.pending_jobs, plugin_id@);
            lemma_jobs_without(q.jobs, plugin_id@);
            assert(self@.pending_job_keys =~= job_keys(self@.pending_jobs).to_set());
            assert(self@.queued_jobs =~= job_keys(self@.jobs).to_set());
        }
    }

    /// Takes every job of one plugin out of the queues, the processing one
    /// included.
    pub fn drop_runtime_jobs_for_plugin(&mut self, plugin_id: &str)
        requires
            queue_wf(old(self)@),
        ensures
            queue_wf(final(self)@),
            final(self)@ == (QueueView {
                processing_jobs: keys_without(old(self)@.processing_jobs, plugin_id@),
                ..without_plugin_jobs(old(self)@, plugin_id@)
            }),
    {
        self.drop_pending_plugin_jobs(plugin_id);
        retain_keys(&mut self.processing_jobs, None, plugin_id);
    }

    /// Whether nothing is queued, scanned, processed or searched.
    pub fn is_idle(&self) -> (r: bool)
        ensures
            r == idle(self@),
    {
        proof {
            lemma_empty_set(strings_view(self.active_roots@));
            lemma_empty_set(keys_view(self.active_refreshes@));
            lemma_empty_set(keys_view(self.processing_jobs@));
        }
        self.pending_roots.len() == 0 && self.active_roots.len() == 0
            && self.pending_refreshes.len() == 0 && self.active_refreshes.len() == 0
            && self.pending_jobs.len() == 0 && self.jobs.len() == 0
            && self.processing_jobs.len() == 0 && !self.scanner_running && !self.worker_running
            && self.search_active == 0
    }
}

// ---------------------------------------------------------------------------
// Laws

/// A job that was enqueued is known from then on, so enqueuing it again
/// (at the front or at the back) is a duplicate that changes nothing.
pub proof fn law_enqueued_job_is_known(q: QueueView, j: JobView, front: bool, again: JobView)
    requires
        queue_wf(q),
        !job_known(q, job_key(j)),
        job_key(again) == job_key(j),
    ensures
        queue_wf(enqueued(q, j, front)),
        job_known(enqueued(q, j, front), job_key(again)),
{
    lemma_push_keys(q.pending_jobs, j);
}

/// Promotion moves jobs from the front of the pending queue to the back of
/// the worker's queue: the two queues read together keep their order, and
/// the worker's queue grows to at most its target.
pub proof fn law_promotion_keeps_order(q: QueueView)
    requires
        queue_wf(q),
    ensures
        promoted(q).jobs + promoted(q).pending_jobs == q.jobs + q.pending_jobs,
        q.jobs.len() <= ACTIVE_QUEUE_TARGET ==> promoted(q).jobs.len() <= ACTIVE_QUEUE_TARGET,
        promoted(q).jobs.len() < ACTIVE_QUEUE_TARGET ==> promoted(q).pending_jobs.len() == 0,
{
    let n = promoted_count(q);
    assert(q.pending_jobs.take(n) + q.pending_jobs.skip(n) =~= q.pending_jobs);
    assert(q.jobs + q.pending_jobs.take(n) + q.pending_jobs.skip(n) =~= q.jobs + q.pending_jobs);
}

/// After a plugin's jobs are dropped, no pending, queued or processing job
/// belongs to it, and every job of another plugin stays where it was.
pub proof fn law_dropped_plugin_has_no_jobs(q: QueueView, plugin_id: Seq<char>)
    requires
        queue_wf(q),
    ensures
        ({
            let d = without_plugin_jobs(q, plugin_id);
            &&& forall|j: JobView| #[trigger] d.pending_jobs.contains(j) ==> j.plugin_id != plugin_id
            &&& forall|j: JobView| #[trigger] d.jobs.contains(j) ==> j.plugin_id != plugin_id
            &&& forall|k: Key| #[trigger] d.pending_job_keys.contains(k) ==> k.1 != plugin_id
            &&& forall|k: Key| #[trigger] d.queued_jobs.contains(k) ==> k.1 != plugin_id
            &&& forall|k: Key| #[trigger] keys_without(q.processing_jobs, plugin_id).contains(k) ==> k.1 != plugin_id
            &&& forall|j: JobView| #[trigger] q.pending_jobs.contains(j) && j.plugin_id != plugin_id ==> d.pending_jobs.contains(j)
            &&& forall|j: JobView| #[trigger] q.jobs.contains(j) && j.plugin_id != plugin_id ==> d.jobs.contains(j)
        }),
{
    lemma_jobs_without(q.pending_jobs, plugin_id);
    lemma_jobs_without(q.jobs, plugin_id);
}

/// A root that was queued for a scan is not queued twice: once queued it
/// is known, so asking again (which queues only unknown roots) changes
/// nothing until the scanner takes it; and it is the next root scanned.
pub proof fn law_queued_root_not_requeued(q: QueueView, root: Seq<char>)
    requires
        !root_known(q, root),
    ensures
        root_known(root_queued(q, root), root),
        root_queued(q, root).pending_roots[0] == root,
        root_queued(q, root).pending_roots.drop_first() == q.pending_roots,
{
    assert((seq![root] + q.pending_roots).drop_first() =~= q.pending_roots);
}

} // verus!
