//! Indexing one file with its plugin: which plugin handles a source file,
//! what a plugin run's failure says, and when the text path recorded in a
//! plugin's meta output is rewritten to the final text path.

use vstd::prelude::*;
use crate::classifier::{classify_path, FileClassifier, FileKind, FileKindView};
use crate::failure_state::FailureDisplay;
use crate::lookup::{first_index, lemma_first_index_none, lemma_first_index_unique};
use crate::path::{
    comps_equal, comps_view, components, file_name_chars, file_name_of, is_rooted, parent_comps,
    path_comps, Comp, Component,
};
use crate::registry::{active_ids, PluginRegistry, RegisteredPlugin, RegisteredPluginView};
use crate::text::{chars_eq, concat, concat3, str_eq, to_string, trim, trim_str, u64_to_decimal};
use crate::meta::{rfc3339_instant, rfc3339_instant_of, SmMeta};
use crate::versions::{plugin_version_satisfies_selected, version_satisfies};
use crate::json::{
    json_node_at, json_nodes_at, json_with_member, member_pointer, member_pointer_of,
    set_member_string, JsonNode, JsonNodeView,
};

verus! {

/// Whether the plugin's cached output was still valid or was made anew.
#[derive(Debug, Clone, Copy, PartialEq, Eq, Structural)]
pub enum IndexOutcome {
    Ready,
    Indexed,
}

/// What indexing one file gave.
#[derive(Debug, Clone)]
pub struct IndexResult {
    pub outcome: IndexOutcome,
    pub plugin_id: String,
    pub source_path: String,
    pub text_path: String,
    pub meta_path: String,
    pub cache_status: String,
}

/// A plugin run that failed, as the user sees it.
#[derive(Debug)]
pub struct IndexFailure {
    pub display: FailureDisplay,
}

/// The state of a file's cached text and meta.
#[derive(Debug, Clone, Copy, PartialEq, Eq, Structural)]
pub enum CacheStatus {
    Ready,
    MissingText,
    MissingMeta,
    StaleSourceSize,
    StaleSourceMtime,
    StalePlugin,
    InvalidMeta,
    InvalidText,
}

pub open spec fn cache_status_text(s: CacheStatus) -> Seq<char> {
    match s {
        CacheStatus::Ready => "ready"@,
        CacheStatus::MissingText => "missing_text"@,
        CacheStatus::MissingMeta => "missing_meta"@,
        CacheStatus::StaleSourceSize => "stale_source_size"@,
        CacheStatus::StaleSourceMtime => "stale_source_mtime"@,
        CacheStatus::StalePlugin => "stale_plugin"@,
        CacheStatus::InvalidMeta => "invalid_meta"@,
        CacheStatus::InvalidText => "invalid_text"@,
    }
}

/// The name of a cache state.
pub fn cache_status_name(status: &CacheStatus) -> (r: &'static str)
    ensures
        r@ == cache_status_text(*status),
{
    match status {
        CacheStatus::Ready => "ready",
        CacheStatus::MissingText => "missing_text",
        CacheStatus::MissingMeta => "missing_meta",
        CacheStatus::StaleSourceSize => "stale_source_size",
        CacheStatus::StaleSourceMtime => "stale_source_mtime",
        CacheStatus::StalePlugin => "stale_plugin",
        CacheStatus::InvalidMeta => "invalid_meta",
        CacheStatus::InvalidText => "invalid_text",
    }
}

/// The error when a plugin's outputs fail their check: the cache state,
/// and the problem in brackets when one is known.
pub fn validation_error(status: &CacheStatus, problem: Option<&str>) -> (r: String)
    ensures
        r@ == "plugin outputs failed validation: "@ + cache_status_text(*status) + match problem {
            Some(p) => " ("@ + p@ + ")"@,
            None => seq![],
        },
{
    let mut r = concat("plugin outputs failed validation: ", cache_status_name(status));
    match problem {
        Some(p) => {
            r.append(" (");
            r.append(p);
            r.append(")");
        },
        None => {
            proof {
                assert(r@ + seq![] =~= r@);
            }
        },
    }
    r
}

/// The `{:?}` text of a kind that no plugin handles.
pub open spec fn kind_debug_text(k: FileKindView) -> Seq<char> {
    match k {
        FileKindView::NativeText => "NativeText"@,
        FileKindView::GeneratedSmText => "GeneratedSmText"@,
        FileKindView::SmMeta => "SmMeta"@,
        FileKindView::PluginBinary => "PluginBinary"@,
        FileKindView::PluginManifest => "PluginManifest"@,
        FileKindView::SupportedByPlugin(_) => "SupportedByPlugin"@,
        FileKindView::UnsupportedBinary => "UnsupportedBinary"@,
        FileKindView::Ignored => "Ignored"@,
    }
}

fn kind_debug(k: &FileKind) -> (r: &'static str)
    requires
        !(k@ is SupportedByPlugin),
    ensures
        r@ == kind_debug_text(k@),
{
    match k {
        FileKind::NativeText => "NativeText",
        FileKind::GeneratedSmText => "GeneratedSmText",
        FileKind::SmMeta => "SmMeta",
        FileKind::PluginBinary => "PluginBinary",
        FileKind::PluginManifest => "PluginManifest",
        FileKind::SupportedByPlugin { .. } => "SupportedByPlugin",
        FileKind::UnsupportedBinary => "UnsupportedBinary",
        FileKind::Ignored => "Ignored",
    }
}

/// The plugin that indexes a source file: the active plugin of the id that
/// the classifier names.
pub open spec fn plugin_for_source_of(c: FileClassifier, reg: PluginRegistry, source: Seq<char>) -> Result<
    RegisteredPluginView,
    Seq<char>,
> {
    match classify_path(c.path_style(), c.known(), c.roots(), c.registered(), source) {
        FileKindView::SupportedByPlugin(id) => match first_index(active_ids(reg), id) {
            Some(k) => Ok(reg.by_id@[k]@),
            None => Err("plugin "@ + id + " is not registered"@),
        },
        other => Err("source file is not handled by a plugin: "@ + kind_debug_text(other)),
    }
}

/// The plugin that indexes a source file.
#[verifier::loop_isolation(false)]
pub fn plugin_for_source<'a>(
    classifier: &FileClassifier,
    registry: &'a PluginRegistry,
    source_path: &str,
) -> (r: Result<&'a RegisteredPlugin, String>)
    ensures
        match (r, plugin_for_source_of(*classifier, *registry, source_path@)) {
            (Ok(p), Ok(v)) => p@ == v,
            (Err(e), Err(f)) => e@ == f,
            _ => false,
        },
{
    let kind = classifier.classify(source_path);
    match &kind {
        FileKind::SupportedByPlugin { plugin_id } => {
            let ghost keys = active_ids(*registry);
            let mut i: usize = 0;
            while i < registry.by_id.len()
                invariant
                    i <= registry.by_id.len(),
                    keys == active_ids(*registry),
                    forall|j: int| 0 <= j < i ==> keys[j] != plugin_id@,
                decreases registry.by_id.len() - i,
            {
                if str_eq(registry.by_id[i].id.as_str(), plugin_id.as_str()) {
                    proof {
                        lemma_first_index_unique(keys, plugin_id@, i as int);
                    }
                    return Ok(&registry.by_id[i]);
                }
                i = i + 1;
            }
            proof {
                lemma_first_index_none(keys, plugin_id@);
            }
            Err(concat3("plugin ", plugin_id.as_str(), " is not registered"))
        },
        other => {
            let d = kind_debug(other);
            Err(concat("source file is not handled by a plugin: ", d))
        },
    }
}

// ---------------------------------------------------------------------------
// Plugin runs

/// How a plugin process ended.
#[derive(Debug, Clone)]
pub enum PluginExit {
    /// It exited; `status` is the exit status as `Display` writes it.
    Exited { success: bool, status: String },
    /// It ran past its timeout and was killed.
    TimedOut,
}

/// The error of a plugin run, if it failed; `stderr` is what the plugin
/// wrote to its error stream.
pub open spec fn plugin_run_error_of(exit: PluginExit, stderr: Seq<char>, timeout_seconds: u64) -> Option<Seq<char>> {
    let err = trim(stderr);
    match exit {
        PluginExit::Exited { success, status } => if success {
            None
        } else if err.len() == 0 {
            Some("plugin exited with status "@ + status@)
        } else {
            Some("plugin failed: "@ + err)
        },
        PluginExit::TimedOut => if err.len() == 0 {
            Some("plugin timed out after "@ + crate::text::decimal(timeout_seconds as nat) + " seconds"@)
        } else {
            Some(
                "plugin timed out after "@ + crate::text::decimal(timeout_seconds as nat) + " seconds: "@
                    + err,
            )
        },
    }
}

/// The error of a plugin run, if it failed.
pub fn plugin_run_error(exit: &PluginExit, stderr: &str, timeout_seconds: u64) -> (r: Option<String>)
    ensures
        match r {
            Some(e) => plugin_run_error_of(*exit, stderr@, timeout_seconds) == Some(e@),
            None => plugin_run_error_of(*exit, stderr@, timeout_seconds) is None,
        },
{
    let err = trim_str(stderr);
    let empty = err.as_str().unicode_len() == 0;
    match exit {
        PluginExit::Exited { success, status } => {
            if *success {
                None
            } else if empty {
                Some(concat("plugin exited with status ", status.as_str()))
            } else {
                Some(concat("plugin failed: ", err.as_str()))
            }
        },
        PluginExit::TimedOut => {
            let n = u64_to_decimal(timeout_seconds);
            if empty {
                Some(concat3("plugin timed out after ", n.as_str(), " seconds"))
            } else {
                let mut m = concat3("plugin timed out after ", n.as_str(), " seconds: ");
                m.append(err.as_str());
                Some(m)
            }
        },
    }
}

// ---------------------------------------------------------------------------
// The text path recorded in a meta output

/// A path with `.` dropped and `..` taking off the last component, read
/// without the file system.
pub open spec fn lexical(cs: Seq<Comp>) -> Seq<Comp>
    decreases cs.len(),
{
    if cs.len() == 0 {
        seq![]
    } else {
        let p = lexical(cs.drop_last());
        match cs.last() {
            Comp::Cur => p,
            Comp::Parent => match parent_comps(p) {
                Some(q) => q,
                None => p,
            },
            Comp::Root => seq![Comp::Root],
            c => p.push(c),
        }
    }
}

/// The path recorded in a meta file, read against the meta file's
/// directory when it is relative.
pub open spec fn resolved_recorded(meta_path: Seq<char>, recorded: Seq<char>) -> Seq<Comp> {
    if is_rooted(recorded) {
        path_comps(recorded)
    } else {
        let base = match parent_comps(path_comps(meta_path)) {
            Some(p) => p,
            None => seq![],
        };
        base + path_comps(recorded)
    }
}

/// Whether the recorded path names a file with the desired (or the
/// alternate) name in the desired path's directory.
pub open spec fn sibling_matches(current: Seq<Comp>, desired: Seq<char>, alternate: Option<Seq<char>>) -> bool {
    match (parent_comps(current), parent_comps(path_comps(desired))) {
        (Some(cp), Some(dp)) => {
            &&& lexical(cp) == lexical(dp)
            &&& file_name_of(current) is Some
            &&& (file_name_of(current) == file_name_of(path_comps(desired)) || match alternate {
                Some(a) => file_name_of(current) == file_name_of(path_comps(a)),
                None => false,
            })
        },
        _ => false,
    }
}

/// Whether the text path recorded in a meta output is rewritten to the
/// desired path: when it names the desired path, the alternate path, or a
/// file of either name beside the desired path.
pub open spec fn meta_path_rewrite(
    meta_path: Seq<char>,
    recorded: Seq<char>,
    desired: Seq<char>,
    alternate: Option<Seq<char>>,
) -> bool {
    let current = lexical(resolved_recorded(meta_path, recorded));
    ||| current == lexical(path_comps(desired))
    ||| (alternate matches Some(a) && lexical(path_comps(a)) == current)
    ||| sibling_matches(current, desired, alternate)
}

fn clone_comps(cs: &Vec<Component>) -> (r: Vec<Component>)
    ensures
        comps_view(r@) == comps_view(cs@),
{
    crate::registry::clone_comps(cs)
}

fn pop_parent(cs: &mut Vec<Component>)
    ensures
        comps_view(final(cs)@) == match parent_comps(comps_view(old(cs)@)) {
            Some(q) => q,
            None => comps_view(old(cs)@),
        },
{
    if cs.len() == 0 {
        return;
    }
    let last_root = match &cs[cs.len() - 1] {
        Component::RootDir => true,
        _ => false,
    };
    assert(comps_view(cs@).last() == cs@[cs.len() - 1]@);
    if last_root {
        return;
    }
    let ghost before = comps_view(cs@);
    cs.pop();
    assert(comps_view(cs@) =~= before.drop_last());
}

/// `normalize_lexical_path`: `.` dropped, `..` pops.
pub fn normalize_lexical_path(cs: &Vec<Component>) -> (r: Vec<Component>)
    ensures
        comps_view(r@) == lexical(comps_view(cs@)),
{
    let ghost cv = comps_view(cs@);
    let mut out: Vec<Component> = Vec::new();
    let mut i: usize = 0;
    assert(cv.take(0) =~= Seq::<Comp>::empty());
    while i < cs.len()
        invariant
            i <= cs.len(),
            cv == comps_view(cs@),
            comps_view(out@) == lexical(cv.take(i as int)),
        decreases cs.len() - i,
    {
        assert(cv.take(i + 1).drop_last() =~= cv.take(i as int));
        assert(cv.take(i + 1).last() == cs@[i as int]@);
        match &cs[i] {
            Component::CurDir => {},
            Component::ParentDir => {
                pop_parent(&mut out);
            },
            Component::RootDir => {
                out = Vec::new();
                out.push(Component::RootDir);
                assert(comps_view(out@) =~= seq![Comp::Root]);
            },
            Component::Normal(t) => {
                let ghost before = comps_view(out@);
                out.push(Component::Normal(t.clone()));
                assert(comps_view(out@) =~= before.push(cs@[i as int]@));
            },
        }
        i = i + 1;
    }
    assert(cv.take(cs.len() as int) =~= cv);
    out
}

fn resolve_recorded_meta_path(meta_path: &str, recorded: &str) -> (r: Vec<Component>)
    ensures
        comps_view(r@) == resolved_recorded(meta_path@, recorded@),
{
    let rec = components(recorded);
    if crate::path::is_absolute(recorded) {
        return rec;
    }
    let mut base = components(meta_path);
    let ghost m = comps_view(base@);
    if base.len() == 0 {
        return rec;
    }
    let last_root = match &base[base.len() - 1] {
        Component::RootDir => true,
        _ => false,
    };
    assert(comps_view(base@).last() == base@[base.len() - 1]@);
    if last_root {
        assert(Seq::<Comp>::empty() + comps_view(rec@) =~= comps_view(rec@));
        return rec;
    }
    base.pop();
    assert(comps_view(base@) =~= m.drop_last());
    crate::registry::append_comps(&mut base, &rec);
    base
}

fn same_name(a: &Option<Vec<char>>, b: &Option<Vec<char>>) -> (r: bool)
    ensures
        r == (match a {
            Some(x) => Some(x@),
            None => None::<Seq<char>>,
        } == match b {
            Some(y) => Some(y@),
            None => None::<Seq<char>>,
        }),
{
    match (a, b) {
        (Some(x), Some(y)) => chars_eq(x, y),
        (None, None) => true,
        _ => false,
    }
}

fn sibling_name_matches(current: &Vec<Component>, desired: &str, alternate: Option<&str>) -> (r: bool)
    ensures
        r == sibling_matches(
            comps_view(current@),
            desired@,
            match alternate {
                Some(a) => Some(a@),
                None => None,
            },
        ),
{
    let d = components(desired);
    let mut cp = clone_comps(current);
    let mut dp = clone_comps(&d);
    if cp.len() == 0 || dp.len() == 0 {
        return false;
    }
    let c_root = match &cp[cp.len() - 1] {
        Component::RootDir => true,
        _ => false,
    };
    let d_root = match &dp[dp.len() - 1] {
        Component::RootDir => true,
        _ => false,
    };
    assert(comps_view(cp@).last() == cp@[cp.len() - 1]@);
    assert(comps_view(dp@).last() == dp@[dp.len() - 1]@);
    if c_root || d_root {
        return false;
    }
    let ghost c0 = comps_view(cp@);
    let ghost d0 = comps_view(dp@);
    cp.pop();
    dp.pop();
    assert(comps_view(cp@) =~= c0.drop_last());
    assert(comps_view(dp@) =~= d0.drop_last());
    let cn = normalize_lexical_path(&cp);
    let dn = normalize_lexical_path(&dp);
    if !comps_equal(&cn, &dn) {
        return false;
    }
    let current_name = file_name_chars(current);
    let desired_name = file_name_chars(&d);
    let alternate_name = match alternate {
        Some(a) => {
            let ac = components(a);
            file_name_chars(&ac)
        },
        None => None,
    };
    current_name.is_some() && (same_name(&current_name, &desired_name) || same_name(
        &current_name,
        &alternate_name,
    ))
}

/// The state of a file's cached outputs and, for an invalid one, why: the
/// text output's size (when it exists), whether the meta output is a file,
/// the meta document read from it (or why it could not be read), the source
/// file's size and modification time (when it can be read), and the plugin
/// that should have made the outputs.
pub open spec fn cache_verdict_of(
    text_size: Option<u64>,
    meta_is_file: bool,
    meta: Result<&SmMeta, String>,
    source: Option<(u64, Seq<char>)>,
    plugin: Option<RegisteredPluginView>,
) -> (CacheStatus, Option<Seq<char>>) {
    match text_size {
        None => (CacheStatus::MissingText, None),
        Some(text_len) => if !meta_is_file {
            (CacheStatus::MissingMeta, None)
        } else {
            match meta {
                Err(e) => (CacheStatus::InvalidMeta, Some(e@)),
                Ok(m) => match source {
                    None => (CacheStatus::StaleSourceSize, None),
                    Some((size, mtime)) => if m.source.size != size {
                        (CacheStatus::StaleSourceSize, None)
                    } else if rfc3339_instant(m.source.mtime@) != rfc3339_instant(mtime) {
                        (CacheStatus::StaleSourceMtime, None)
                    } else if plugin matches Some(p) && (m.generator.plugin_id@ != p.id
                        || !version_satisfies(p.version, m.generator.plugin_version@)) {
                        (CacheStatus::StalePlugin, None)
                    } else if m.text.length_bytes matches Some(l) && l != text_len {
                        (CacheStatus::InvalidText, Some("text length does not match"@))
                    } else {
                        (CacheStatus::Ready, None)
                    },
                },
            }
        },
    }
}

/// Judges a file's cached outputs: the text output's size (when it
/// exists), whether the meta output is a file, the meta document read from
/// it (or why it could not be read), the source file's size and RFC 3339
/// modification time (when it can be read), and the plugin that should have
/// made the outputs. The times are compared as instants.
pub fn cache_verdict(
    text_size: Option<u64>,
    meta_is_file: bool,
    meta: Result<&SmMeta, String>,
    source: Option<(u64, &str)>,
    plugin: Option<&RegisteredPlugin>,
) -> (r: (CacheStatus, Option<String>))
    ensures
        ({
            let v = cache_verdict_of(
                text_size,
                meta_is_file,
                meta,
                match source {
                    Some((size, mtime)) => Some((size, mtime@)),
                    None => None,
                },
                match plugin {
                    Some(p) => Some(p@),
                    None => None,
                },
            );
            &&& r.0 == v.0
            &&& match v.1 {
                Some(e) => r.1 matches Some(m) && m@ == e,
                None => r.1 is None,
            }
        }),
{
    let text_len = match text_size {
        None => {
            return (CacheStatus::MissingText, None);
        },
        Some(n) => n,
    };
    if !meta_is_file {
        return (CacheStatus::MissingMeta, None);
    }
    let m = match meta {
        Err(e) => {
            return (CacheStatus::InvalidMeta, Some(e));
        },
        Ok(m) => m,
    };
    let (size, mtime) = match source {
        None => {
            return (CacheStatus::StaleSourceSize, None);
        },
        Some(s) => s,
    };
    if m.source.size != size {
        return (CacheStatus::StaleSourceSize, None);
    }
    let recorded = rfc3339_instant_of(m.source.mtime.as_str());
    let actual = rfc3339_instant_of(mtime);
    let same_instant = match (recorded, actual) {
        (Some(a), Some(b)) => a == b,
        (None, None) => true,
        _ => false,
    };
    if !same_instant {
        return (CacheStatus::StaleSourceMtime, None);
    }
    match plugin {
        Some(p) => {
            if !str_eq(m.generator.plugin_id.as_str(), p.id.as_str())
                || !plugin_version_satisfies_selected(
                    p.version.as_str(),
                    m.generator.plugin_version.as_str(),
                ) {
                return (CacheStatus::StalePlugin, None);
            }
        },
        None => {},
    }
    match m.text.length_bytes {
        Some(l) => {
            if l != text_len {
                return (CacheStatus::InvalidText, Some(to_string("text length does not match")));
            }
        },
        None => {},
    }
    (CacheStatus::Ready, None)
}

/// The pointer to the `text` object of a meta document.
pub open spec fn text_pointer() -> Seq<char> {
    member_pointer(Seq::empty(), "text"@)
}

/// The pointer to the path of the text output in a meta document.
pub open spec fn text_path_pointer() -> Seq<char> {
    member_pointer(text_pointer(), "path"@)
}

/// What pointing the text path of the meta document `doc` (the file at
/// `meta_path`) at `desired` gives: an error when `doc` is not JSON, is not
/// an object with a `text` object, or has no `text.path` string; no new
/// text when the recorded path is kept; else the rewritten document.
pub open spec fn meta_rewrite_outcome(
    doc: Seq<char>,
    meta_path: Seq<char>,
    desired: Seq<char>,
    alternate: Option<Seq<char>>,
) -> Result<Option<Option<Seq<char>>>, Seq<char>> {
    match json_node_at(doc, Seq::empty()) {
        None => Err("failed parsing plugin meta output "@ + meta_path),
        Some(root) => if root != JsonNodeView::Object || json_node_at(doc, text_pointer()) != Some(
            JsonNodeView::Object,
        ) {
            Err("plugin meta output is missing text object"@)
        } else {
            match json_node_at(doc, text_path_pointer()) {
                Some(JsonNodeView::Str(recorded)) => if meta_path_rewrite(
                    meta_path,
                    recorded,
                    desired,
                    alternate,
                ) {
                    Ok(Some(json_with_member(doc, "text"@, "path"@, desired)))
                } else {
                    Ok(None)
                },
                _ => Err("plugin meta output is missing text.path"@),
            }
        },
    }
}

/// The meta document `meta_json`, read from `meta_path`, with its text path
/// pointed at `desired` when it names the text output the plugin wrote;
/// `None` when the recorded path stays.
pub fn rewritten_meta_text(meta_json: &str, meta_path: &str, desired: &str, alternate: Option<&str>) -> (r: Result<Option<String>, String>)
    ensures
        match meta_rewrite_outcome(
            meta_json@,
            meta_path@,
            desired@,
            match alternate {
                Some(a) => Some(a@),
                None => None,
            },
        ) {
            Err(e) => r matches Err(m) && m@ == e,
            Ok(None) => r matches Ok(None),
            Ok(Some(t)) => r matches Ok(Some(m)) && t == Some(m@),
        },
        r matches Ok(Some(m)) ==> json_node_at(m@, Seq::empty()) == Some(JsonNodeView::Object)
            && json_node_at(m@, text_pointer()) == Some(JsonNodeView::Object) && json_node_at(
            m@,
            text_path_pointer(),
        ) == Some(JsonNodeView::Str(desired@)),
{
    let root = to_string("");
    let text = member_pointer_of("", "text");
    let text_path = member_pointer_of(text.as_str(), "path");
    let mut ps: Vec<String> = Vec::new();
    ps.push(root);
    ps.push(text);
    ps.push(text_path);
    proof {
        reveal_strlit("");
    }
    assert(ps@[0]@ == Seq::<char>::empty());
    assert(ps@[1]@ == text_pointer());
    assert(ps@[2]@ == text_path_pointer());
    let found = json_nodes_at(meta_json, &ps);
    match found {
        None => {
            assert(json_node_at(meta_json@, ps@[0]@) is None);
            Err(concat("failed parsing plugin meta output ", meta_path))
        },
        Some(ns) => {
            assert(json_node_at(meta_json@, ps@[0]@) == Some(ns@[0]@));
            assert(json_node_at(meta_json@, ps@[1]@) == Some(ns@[1]@));
            assert(json_node_at(meta_json@, ps@[2]@) == Some(ns@[2]@));
            let objects = match (&ns[0], &ns[1]) {
                (JsonNode::Object, JsonNode::Object) => true,
                _ => false,
            };
            if !objects {
                return Err(to_string("plugin meta output is missing text object"));
            }
            match &ns[2] {
                JsonNode::Str(recorded) => {
                    if meta_text_path_needs_rewrite(meta_path, recorded.as_str(), desired, alternate) {
                        match set_member_string(meta_json, "text", "path", desired) {
                            Some(t) => Ok(Some(t)),
                            None => Err(to_string("plugin meta output is missing text object")),
                        }
                    } else {
                        Ok(None)
                    }
                },
                _ => Err(to_string("plugin meta output is missing text.path")),
            }
        },
    }
}

/// Whether the text path `recorded` in the meta output at `meta_path` is
/// rewritten to `desired`.
pub fn meta_text_path_needs_rewrite(meta_path: &str, recorded: &str, desired: &str, alternate: Option<&str>) -> (r: bool)
    ensures
        r == meta_path_rewrite(
            meta_path@,
            recorded@,
            desired@,
            match alternate {
                Some(a) => Some(a@),
                None => None,
            },
        ),
{
    let resolved = resolve_recorded_meta_path(meta_path, recorded);
    let current = normalize_lexical_path(&resolved);
    let dc = components(desired);
    let dn = normalize_lexical_path(&dc);
    if comps_equal(&current, &dn) {
        return true;
    }
    match alternate {
        Some(a) => {
            let ac = components(a);
            let an = normalize_lexical_path(&ac);
            if comps_equal(&an, &current) {
                return true;
            }
        },
        None => {},
    }
    sibling_name_matches(&current, desired, alternate)
}

/// Pointing a meta document's text path at the temporary output and then
/// back at the final output undoes itself. A document whose recorded text
/// path (absolute, or relative to the meta file's folder) names the final
/// output `final_path` is rewritten to name `tmp_path` (the final output as
/// the alternate); the rewritten document, which reads back naming
/// `tmp_path`, is rewritten to name `final_path` again (the temporary
/// output as the alternate). The temporary path is absolute.
pub proof fn law_meta_rewrites_undo(
    doc: Seq<char>,
    rewritten: Seq<char>,
    meta_path: Seq<char>,
    recorded: Seq<char>,
    final_path: Seq<char>,
    tmp_path: Seq<char>,
)
    requires
        json_node_at(doc, Seq::empty()) == Some(JsonNodeView::Object),
        json_node_at(doc, text_pointer()) == Some(JsonNodeView::Object),
        json_node_at(doc, text_path_pointer()) == Some(JsonNodeView::Str(recorded)),
        lexical(resolved_recorded(meta_path, recorded)) == lexical(path_comps(final_path)),
        is_rooted(tmp_path),
        json_with_member(doc, "text"@, "path"@, tmp_path) == Some(rewritten),
        json_node_at(rewritten, Seq::empty()) == Some(JsonNodeView::Object),
        json_node_at(rewritten, text_pointer()) == Some(JsonNodeView::Object),
        json_node_at(rewritten, text_path_pointer()) == Some(JsonNodeView::Str(tmp_path)),
    ensures
        meta_rewrite_outcome(doc, meta_path, tmp_path, Some(final_path)) == Ok::<
            Option<Option<Seq<char>>>,
            Seq<char>,
        >(Some(Some(rewritten))),
        meta_rewrite_outcome(rewritten, meta_path, final_path, Some(tmp_path)) == Ok::<
            Option<Option<Seq<char>>>,
            Seq<char>,
        >(Some(json_with_member(rewritten, "text"@, "path"@, final_path))),
{
    assert(meta_path_rewrite(meta_path, recorded, tmp_path, Some(final_path)));
    assert(meta_path_rewrite(meta_path, tmp_path, final_path, Some(tmp_path)));
}

} // verus!
