//! The plugin registry: installed plugin versions, the active version of each
//! plugin, and which plugin handles which file extension.

use vstd::prelude::*;
use crate::manifest::{
    current_platform, manifest_error, platform_for, platform_name, PluginCapabilities, PluginManifest, PluginPermission,
    PluginPlatform,
};
use crate::path::{
    comps_view, components, join_comps, join_string, parent_comps, path_comps, Comp, Component,
};
use crate::lookup::{contains_string, first_index, lemma_first_index_none, lemma_first_index_unique};
use vstd::multiset::Multiset;
use crate::text::{chars_of, concat, concat3, str_eq, to_string};
use crate::versions::{is_older, lemma_not_older_than_older, same_kind, version_older};

verus! {

/// A plugin whose manifest was read and whose binary was found.
#[derive(Debug)]
pub struct RegisteredPlugin {
    pub id: String,
    pub name: String,
    pub version: String,
    pub root_dir: String,
    pub command: String,
    pub args: Vec<String>,
    pub handles: Vec<String>,
    pub requires_entitlement: bool,
    pub timeout_seconds: u64,
    pub capabilities: PluginCapabilities,
    pub permissions: Vec<PluginPermission>,
}

/// Every installed version of one plugin, newest first.
#[derive(Debug)]
pub struct PluginVersions {
    pub plugin_id: String,
    pub versions: Vec<RegisteredPlugin>,
}

/// The plugins that handle one extension.
#[derive(Debug)]
pub struct ExtensionPlugins {
    pub extension: String,
    pub plugin_ids: Vec<String>,
}

/// A preferred (pinned) version of a plugin.
#[derive(Debug, Clone)]
pub struct PreferredVersion {
    pub plugin_id: String,
    pub version: String,
}

/// What plugin discovery found: the active plugin of each id, all versions
/// of each id, the plugins of each extension, and the plugin directories
/// (which searches and scans leave alone).
#[derive(Debug)]
pub struct PluginRegistry {
    pub by_id: Vec<RegisteredPlugin>,
    pub versions_by_id: Vec<PluginVersions>,
    pub by_extension: Vec<ExtensionPlugins>,
    pub ignored_paths: Vec<String>,
}

/// A manifest that could not be registered, and why.
#[derive(Debug)]
pub struct PluginDiscoveryIssue {
    pub manifest_path: String,
    pub message: String,
}

/// The registry together with the manifests that failed.
#[derive(Debug)]
pub struct PluginDiscoveryReport {
    pub registry: PluginRegistry,
    pub issues: Vec<PluginDiscoveryIssue>,
}

pub open spec fn strings_view(v: Seq<String>) -> Seq<Seq<char>> {
    v.map_values(|s: String| s@)
}

/// A registered plugin as a mathematical value.
pub struct RegisteredPluginView {
    pub id: Seq<char>,
    pub name: Seq<char>,
    pub version: Seq<char>,
    pub root_dir: Seq<char>,
    pub command: Seq<char>,
    pub args: Seq<Seq<char>>,
    pub handles: Seq<Seq<char>>,
    pub requires_entitlement: bool,
    pub timeout_seconds: u64,
    pub capabilities: PluginCapabilities,
    pub permissions: Seq<PluginPermission>,
}

impl View for RegisteredPlugin {
    type V = RegisteredPluginView;

    open spec fn view(&self) -> RegisteredPluginView {
        RegisteredPluginView {
            id: self.id@,
            name: self.name@,
            version: self.version@,
            root_dir: self.root_dir@,
            command: self.command@,
            args: strings_view(self.args@),
            handles: strings_view(self.handles@),
            requires_entitlement: self.requires_entitlement,
            timeout_seconds: self.timeout_seconds,
            capabilities: self.capabilities,
            permissions: self.permissions@,
        }
    }
}

pub open spec fn plugins_view(v: Seq<RegisteredPlugin>) -> Seq<RegisteredPluginView> {
    v.map_values(|p: RegisteredPlugin| p@)
}

pub fn clone_strings(v: &Vec<String>) -> (r: Vec<String>)
    ensures
        strings_view(r@) == strings_view(v@),
{
    let mut out: Vec<String> = Vec::new();
    let mut i: usize = 0;
    while i < v.len()
        invariant
            i <= v.len(),
            strings_view(out@) == strings_view(v@).take(i as int),
        decreases v.len() - i,
    {
        let s = v[i].clone();
        let ghost before = strings_view(out@);
        out.push(s);
        assert(strings_view(out@) =~= before.push(v@[i as int]@));
        assert(strings_view(v@).take(i + 1) =~= strings_view(v@).take(i as int).push(
            v@[i as int]@,
        ));
        i = i + 1;
    }
    assert(strings_view(v@).take(v.len() as int) =~= strings_view(v@));
    out
}

pub fn clone_permissions(v: &Vec<PluginPermission>) -> (r: Vec<PluginPermission>)
    ensures
        r@ == v@,
{
    let mut out: Vec<PluginPermission> = Vec::new();
    let mut i: usize = 0;
    while i < v.len()
        invariant
            i <= v.len(),
            out@ == v@.take(i as int),
        decreases v.len() - i,
    {
        out.push(v[i]);
        assert(out@ =~= v@.take(i + 1));
        i = i + 1;
    }
    assert(v@.take(v.len() as int) =~= v@);
    out
}

impl RegisteredPlugin {
    /// A copy of this record.
    pub fn duplicate(&self) -> (r: RegisteredPlugin)
        ensures
            r@ == self@,
    {
        RegisteredPlugin {
            id: self.id.clone(),
            name: self.name.clone(),
            version: self.version.clone(),
            root_dir: self.root_dir.clone(),
            command: self.command.clone(),
            args: clone_strings(&self.args),
            handles: clone_strings(&self.handles),
            requires_entitlement: self.requires_entitlement,
            timeout_seconds: self.timeout_seconds,
            capabilities: self.capabilities,
            permissions: clone_permissions(&self.permissions),
        }
    }
}

/// The ids of the active plugins, in order.
pub open spec fn active_ids(reg: PluginRegistry) -> Seq<Seq<char>> {
    reg.by_id@.map_values(|p: RegisteredPlugin| p.id@)
}

/// The extensions of the extension table, in order.
pub open spec fn extension_keys(reg: PluginRegistry) -> Seq<Seq<char>> {
    reg.by_extension@.map_values(|e: ExtensionPlugins| e.extension@)
}

/// One `plugin.toml` found below a plugin root: where it is, what reading
/// it gave (the manifest, or why it could not be read or parsed), and
/// whether the two places where its entry binary may lie hold a file
/// ([`plugin_command_paths`] names them).
#[derive(Debug)]
pub struct PluginCandidate {
    pub plugin_root: String,
    pub manifest_path: String,
    pub manifest: Result<PluginManifest, String>,
    pub flat_command_is_file: bool,
    pub platform_command_is_file: bool,
}

/// The directory of a manifest: its parent, or the plugin root when it has
/// none.
pub open spec fn plugin_dir_text(root: Seq<char>, manifest_path: Seq<char>) -> Seq<char> {
    match parent_comps(path_comps(manifest_path)) {
        Some(cs) => join_comps(cs),
        None => root,
    }
}

pub open spec fn bin_comp() -> Comp {
    Comp::Normal(seq!['b', 'i', 'n'])
}

/// `<dir>/bin/<command>`.
pub open spec fn flat_command_text(dir: Seq<char>, command: Seq<char>) -> Seq<char> {
    join_comps(path_comps(dir).push(bin_comp()) + path_comps(command))
}

/// `<dir>/bin/<platform>/<command>`.
pub open spec fn platform_command_text(
    dir: Seq<char>,
    command: Seq<char>,
    platform: PluginPlatform,
) -> Seq<char> {
    join_comps(
        path_comps(dir).push(bin_comp()).push(Comp::Normal(platform_name(platform))) + path_comps(
            command,
        ),
    )
}

pub open spec fn manifest_supports(m: PluginManifest, platform: PluginPlatform) -> bool {
    match m.platforms {
        None => true,
        Some(ps) => ps@.contains(platform),
    }
}

/// The registered plugin that a valid manifest in `dir` with the entry
/// binary `command` gives.
pub open spec fn registered_view(m: PluginManifest, dir: Seq<char>, command: Seq<char>) -> RegisteredPluginView {
    RegisteredPluginView {
        id: m.id@,
        name: m.name@,
        version: m.version@,
        root_dir: dir,
        command,
        args: strings_view(m.entry.args@),
        handles: strings_view(m.handles@),
        requires_entitlement: m.requires_entitlement,
        timeout_seconds: match m.timeout_seconds {
            Some(t) => t,
            None => crate::manifest::DEFAULT_TIMEOUT_SECONDS,
        },
        capabilities: m.capabilities,
        permissions: m.permissions@,
    }
}

/// What registering a candidate gives: the plugin, or the error message.
pub open spec fn registration(c: PluginCandidate, platform: PluginPlatform) -> Result<
    RegisteredPluginView,
    Seq<char>,
> {
    match c.manifest {
        Err(e) => Err(e@),
        Ok(m) => match manifest_error(m) {
            Some(e) => Err(e),
            None => {
                let dir = plugin_dir_text(c.plugin_root@, c.manifest_path@);
                let flat = flat_command_text(dir, m.entry.command@);
                let plat = platform_command_text(dir, m.entry.command@, platform);
                if !manifest_supports(m, platform) {
                    Err("plugin does not support platform "@ + platform_name(platform))
                } else if c.flat_command_is_file {
                    Ok(registered_view(m, dir, flat))
                } else if c.platform_command_is_file {
                    Ok(registered_view(m, dir, plat))
                } else {
                    Err("plugin entry binary is missing at "@ + flat + " or "@ + plat)
                }
            },
        },
    }
}

/// The directory of the manifest at `manifest_path` found below `plugin_root`.
pub fn plugin_dir_of(plugin_root: &str, manifest_path: &str) -> (r: String)
    ensures
        r@ == plugin_dir_text(plugin_root@, manifest_path@),
{
    let mut cs = components(manifest_path);
    if cs.len() == 0 {
        return to_string(plugin_root);
    }
    let last_is_root = match &cs[cs.len() - 1] {
        Component::RootDir => true,
        _ => false,
    };
    assert(comps_view(cs@).last() == cs@[cs.len() - 1]@);
    if last_is_root {
        return to_string(plugin_root);
    }
    let ghost before = comps_view(cs@);
    cs.pop();
    assert(comps_view(cs@) =~= before.drop_last());
    join_string(&cs)
}

/// Where the entry binary `command` of a plugin in `plugin_dir` may lie:
/// `bin/<command>`, then `bin/<platform>/<command>`.
pub fn plugin_command_paths(plugin_dir: &str, command: &str, platform: PluginPlatform) -> (r: (
    String,
    String,
))
    ensures
        r.0@ == flat_command_text(plugin_dir@, command@),
        r.1@ == platform_command_text(plugin_dir@, command@, platform),
{
    let dir = components(plugin_dir);
    let cmd = components(command);
    let mut flat = clone_comps(&dir);
    let mut bin: Vec<char> = Vec::new();
    bin.push('b');
    bin.push('i');
    bin.push('n');
    let ghost d = comps_view(dir@);
    assert(bin@ =~= seq!['b', 'i', 'n']);
    let ghost before = comps_view(flat@);
    flat.push(Component::Normal(bin));
    assert(comps_view(flat@) =~= d.push(bin_comp()));
    let mut plat = clone_comps(&flat);
    let name = crate::text::chars_of(platform.as_str());
    let ghost before2 = comps_view(plat@);
    plat.push(Component::Normal(name));
    assert(comps_view(plat@) =~= before2.push(Comp::Normal(name@)));
    assert(comps_view(plat@) =~= d.push(bin_comp()).push(Comp::Normal(platform_name(platform))));
    append_comps(&mut flat, &cmd);
    append_comps(&mut plat, &cmd);
    (join_string(&flat), join_string(&plat))
}

pub fn clone_comps(cs: &Vec<Component>) -> (r: Vec<Component>)
    ensures
        comps_view(r@) == comps_view(cs@),
{
    let mut out: Vec<Component> = Vec::new();
    let mut i: usize = 0;
    while i < cs.len()
        invariant
            i <= cs.len(),
            comps_view(out@) == comps_view(cs@).take(i as int),
        decreases cs.len() - i,
    {
        let c = crate::path::comp_clone(&cs[i]);
        let ghost before = comps_view(out@);
        out.push(c);
        assert(comps_view(out@) =~= before.push(c@));
        assert(comps_view(cs@).take(i + 1) =~= comps_view(cs@).take(i as int).push(cs@[i as int]@));
        i = i + 1;
    }
    assert(comps_view(cs@).take(cs.len() as int) =~= comps_view(cs@));
    out
}

pub fn append_comps(out: &mut Vec<Component>, cs: &Vec<Component>)
    ensures
        comps_view(final(out)@) == comps_view(old(out)@) + comps_view(cs@),
{
    let ghost start = comps_view(out@);
    let mut i: usize = 0;
    while i < cs.len()
        invariant
            i <= cs.len(),
            comps_view(out@) == start + comps_view(cs@).take(i as int),
        decreases cs.len() - i,
    {
        let c = crate::path::comp_clone(&cs[i]);
        let ghost before = comps_view(out@);
        out.push(c);
        assert(comps_view(out@) =~= before.push(c@));
        assert(comps_view(cs@).take(i + 1) =~= comps_view(cs@).take(i as int).push(cs@[i as int]@));
        i = i + 1;
    }
    assert(comps_view(cs@).take(cs.len() as int) =~= comps_view(cs@));
}

/// Registers the plugin of one candidate: the manifest must have been read
/// and meet its rules, the plugin must support `platform`, and its entry
/// binary must lie at one of the two places, the flat one first.
pub fn register_plugin(c: &PluginCandidate, platform: PluginPlatform) -> (r: Result<
    RegisteredPlugin,
    String,
>)
    ensures
        r is Ok <==> registration(*c, platform) is Ok,
        r matches Ok(p) ==> registration(*c, platform) == Ok::<RegisteredPluginView, Seq<char>>(p@),
        r matches Err(e) ==> registration(*c, platform) == Err::<RegisteredPluginView, Seq<char>>(e@),
{
    let m = match &c.manifest {
        Err(e) => {
            return Err(e.clone());
        },
        Ok(m) => m,
    };
    match m.validate() {
        Err(e) => {
            return Err(e);
        },
        Ok(()) => {},
    }
    let dir = plugin_dir_of(c.plugin_root.as_str(), c.manifest_path.as_str());
    let (flat, plat) = plugin_command_paths(dir.as_str(), m.entry.command.as_str(), platform);
    if !m.supports_platform(platform) {
        return Err(concat("plugin does not support platform ", platform.as_str()));
    }
    let command = if c.flat_command_is_file {
        flat
    } else if c.platform_command_is_file {
        plat
    } else {
        let mut msg = concat3("plugin entry binary is missing at ", flat.as_str(), " or ");
        msg.append(plat.as_str());
        return Err(msg);
    };
    Ok(
        RegisteredPlugin {
            id: m.id.clone(),
            name: m.name.clone(),
            version: m.version.clone(),
            root_dir: dir,
            command,
            args: clone_strings(&m.entry.args),
            handles: clone_strings(&m.handles),
            requires_entitlement: m.requires_entitlement,
            timeout_seconds: m.timeout_seconds(),
            capabilities: m.capabilities,
            permissions: clone_permissions(&m.permissions),
        },
    )
}

// ---------------------------------------------------------------------------
// Discovery

/// `x` added to the list of versions `s`, kept newest first: it goes before
/// the first version older than it, after all others (a stable sort).
pub open spec fn insert_newest(s: Seq<RegisteredPluginView>, x: RegisteredPluginView) -> Seq<
    RegisteredPluginView,
>
    decreases s.len(),
{
    if s.len() == 0 {
        seq![x]
    } else if version_older(s[0].version, x.version) {
        seq![x] + s
    } else {
        seq![s[0]] + insert_newest(s.drop_first(), x)
    }
}

pub type VersionGroup = (Seq<char>, Seq<RegisteredPluginView>);

pub open spec fn group_keys(gs: Seq<VersionGroup>) -> Seq<Seq<char>> {
    gs.map_values(|g: VersionGroup| g.0)
}

pub open spec fn group_view(g: PluginVersions) -> VersionGroup {
    (g.plugin_id@, plugins_view(g.versions@))
}

pub open spec fn groups_view(gs: Seq<PluginVersions>) -> Seq<VersionGroup> {
    gs.map_values(|g: PluginVersions| group_view(g))
}

/// A registered plugin added to the version lists, by plugin id in the
/// order the ids were first seen.
pub open spec fn add_version(gs: Seq<VersionGroup>, p: RegisteredPluginView) -> Seq<VersionGroup> {
    match first_index(group_keys(gs), p.id) {
        Some(k) => gs.update(k, (gs[k].0, insert_newest(gs[k].1, p))),
        None => gs.push((p.id, seq![p])),
    }
}

/// The version lists of the plugins that registered.
pub open spec fn version_groups(rs: Seq<Result<RegisteredPluginView, Seq<char>>>) -> Seq<
    VersionGroup,
>
    decreases rs.len(),
{
    if rs.len() == 0 {
        seq![]
    } else {
        let g = version_groups(rs.drop_last());
        match rs.last() {
            Ok(p) => add_version(g, p),
            Err(_) => g,
        }
    }
}

pub open spec fn registrations(cs: Seq<PluginCandidate>, platform: PluginPlatform) -> Seq<
    Result<RegisteredPluginView, Seq<char>>,
> {
    cs.map_values(|c: PluginCandidate| registration(c, platform))
}

/// The candidates that failed: manifest path and message, in order.
pub open spec fn issues_of(cs: Seq<PluginCandidate>, platform: PluginPlatform) -> Seq<
    (Seq<char>, Seq<char>),
>
    decreases cs.len(),
{
    if cs.len() == 0 {
        seq![]
    } else {
        let r = issues_of(cs.drop_last(), platform);
        match registration(cs.last(), platform) {
            Ok(_) => r,
            Err(e) => r.push((cs.last().manifest_path@, e)),
        }
    }
}

pub open spec fn issues_view(v: Seq<PluginDiscoveryIssue>) -> Seq<(Seq<char>, Seq<char>)> {
    v.map_values(|i: PluginDiscoveryIssue| (i.manifest_path@, i.message@))
}

pub open spec fn push_unique(s: Seq<Seq<char>>, x: Seq<char>) -> Seq<Seq<char>> {
    if s.contains(x) {
        s
    } else {
        s.push(x)
    }
}

/// The plugin directories of the candidates, each once, in order.
pub open spec fn ignored_of(cs: Seq<PluginCandidate>) -> Seq<Seq<char>>
    decreases cs.len(),
{
    if cs.len() == 0 {
        seq![]
    } else {
        push_unique(
            ignored_of(cs.drop_last()),
            plugin_dir_text(cs.last().plugin_root@, cs.last().manifest_path@),
        )
    }
}

pub open spec fn prefs_view(v: Seq<PreferredVersion>) -> Seq<(Seq<char>, Seq<char>)> {
    v.map_values(|p: PreferredVersion| (p.plugin_id@, p.version@))
}

/// The preferred version of a plugin: the first preference for its id.
pub open spec fn preferred_for(prefs: Seq<(Seq<char>, Seq<char>)>, id: Seq<char>) -> Option<
    Seq<char>,
> {
    match first_index(prefs.map_values(|p: (Seq<char>, Seq<char>)| p.0), id) {
        Some(k) => Some(prefs[k].1),
        None => None,
    }
}

pub open spec fn version_texts(vs: Seq<RegisteredPluginView>) -> Seq<Seq<char>> {
    vs.map_values(|p: RegisteredPluginView| p.version)
}

/// The active version: the preferred one when it is installed, else the
/// newest.
pub open spec fn select_active(vs: Seq<RegisteredPluginView>, preferred: Option<Seq<char>>) -> Option<
    RegisteredPluginView,
> {
    let newest = if vs.len() > 0 {
        Some(vs[0])
    } else {
        None
    };
    match preferred {
        Some(v) => match first_index(version_texts(vs), v) {
            Some(k) => Some(vs[k]),
            None => newest,
        },
        None => newest,
    }
}

/// The active plugin of each id, in the order of the version lists.
pub open spec fn active_plugins(gs: Seq<VersionGroup>, prefs: Seq<(Seq<char>, Seq<char>)>) -> Seq<
    RegisteredPluginView,
>
    decreases gs.len(),
{
    if gs.len() == 0 {
        seq![]
    } else {
        let r = active_plugins(gs.drop_last(), prefs);
        match select_active(gs.last().1, preferred_for(prefs, gs.last().0)) {
            Some(p) => r.push(p),
            None => r,
        }
    }
}

pub type ExtensionEntry = (Seq<char>, Seq<Seq<char>>);

pub open spec fn entry_keys(es: Seq<ExtensionEntry>) -> Seq<Seq<char>> {
    es.map_values(|e: ExtensionEntry| e.0)
}

pub open spec fn extension_entries_view(v: Seq<ExtensionPlugins>) -> Seq<ExtensionEntry> {
    v.map_values(|e: ExtensionPlugins| (e.extension@, strings_view(e.plugin_ids@)))
}

/// The plugin `id` added to the entry of the extension `h`.
pub open spec fn add_handle(es: Seq<ExtensionEntry>, h: Seq<char>, id: Seq<char>) -> Seq<
    ExtensionEntry,
> {
    match first_index(entry_keys(es), h) {
        Some(k) => es.update(k, (es[k].0, es[k].1.push(id))),
        None => es.push((h, seq![id])),
    }
}

pub open spec fn add_handles(es: Seq<ExtensionEntry>, hs: Seq<Seq<char>>, id: Seq<char>) -> Seq<
    ExtensionEntry,
>
    decreases hs.len(),
{
    if hs.len() == 0 {
        es
    } else {
        add_handle(add_handles(es, hs.drop_last(), id), hs.last(), id)
    }
}

/// For each extension, the plugins that handle it, in the order of `ps`.
pub open spec fn extension_table(ps: Seq<RegisteredPluginView>) -> Seq<ExtensionEntry>
    decreases ps.len(),
{
    if ps.len() == 0 {
        seq![]
    } else {
        add_handles(extension_table(ps.drop_last()), ps.last().handles, ps.last().id)
    }
}

/// A version list in which no version is older than one after it.
pub open spec fn newest_first(vs: Seq<RegisteredPluginView>) -> bool {
    forall|i: int, j: int|
        0 <= i < j < vs.len() ==> !version_older(#[trigger] vs[i].version, #[trigger] vs[j].version)
}

/// A version list whose versions are all semantic versions, or none is.
pub open spec fn one_kind(vs: Seq<RegisteredPluginView>) -> bool {
    forall|i: int, j: int|
        0 <= i < vs.len() && 0 <= j < vs.len() ==> same_kind(#[trigger] vs[i].version, #[trigger] vs[j].version)
}

/// Each version list of one kind comes newest first.
pub open spec fn groups_newest_first(gs: Seq<VersionGroup>) -> bool {
    forall|i: int| 0 <= i < gs.len() ==> (one_kind(#[trigger] gs[i].1) ==> newest_first(gs[i].1))
}

fn insert_newest_first(vs: &mut Vec<RegisteredPlugin>, p: RegisteredPlugin)
    ensures
        plugins_view(final(vs)@) == insert_newest(plugins_view(old(vs)@), p@),
        newest_first(plugins_view(old(vs)@)) && one_kind(plugins_view(final(vs)@)) ==> newest_first(
            plugins_view(final(vs)@),
        ),
        one_kind(plugins_view(final(vs)@)) ==> one_kind(plugins_view(old(vs)@)),
{
    let ghost s = plugins_view(vs@);
    let ghost x = p@;
    let mut k: usize = 0;
    assert(s.skip(0) =~= s);
    while k < vs.len() && !is_older(vs[k].version.as_str(), p.version.as_str())
        invariant
            s == plugins_view(vs@),
            x == p@,
            k <= vs.len(),
            insert_newest(s, p@) == s.take(k as int) + insert_newest(s.skip(k as int), p@),
            forall|j: int| 0 <= j < k ==> !version_older(#[trigger] s[j].version, x.version),
        decreases vs.len() - k,
    {
        assert(s.skip(k as int)[0] == s[k as int]);
        assert(s.skip(k as int).drop_first() =~= s.skip(k + 1));
        assert(s.take(k + 1) =~= s.take(k as int) + seq![s[k as int]]);
        assert(insert_newest(s, p@) =~= s.take(k + 1) + insert_newest(s.skip(k + 1), p@));
        k = k + 1;
    }
    let older = k < vs.len() && is_older(vs[k].version.as_str(), p.version.as_str());
    if k < vs.len() {
        assert(s.skip(k as int)[0] == s[k as int]);
        assert(insert_newest(s.skip(k as int), p@) == seq![p@] + s.skip(k as int));
    } else {
        assert(s.skip(k as int) =~= Seq::<RegisteredPluginView>::empty());
    }
    vs.insert(k, p);
    let ghost r = plugins_view(vs@);
    assert(r =~= s.take(k as int) + insert_newest(s.skip(k as int), x));
    assert(r =~= s.take(k as int) + seq![x] + s.skip(k as int));
    proof {
        if one_kind(r) {
            assert forall|i: int, j: int| 0 <= i < s.len() && 0 <= j < s.len() implies same_kind(
                #[trigger] s[i].version,
                #[trigger] s[j].version,
            ) by {
                let ri = if i < k { i } else { i + 1 };
                let rj = if j < k { j } else { j + 1 };
                assert(r[ri] == s[i] && r[rj] == s[j]);
                assert(same_kind(r[ri].version, r[rj].version));
            }
        }
        if newest_first(s) && one_kind(r) {
            assert(r.len() == s.len() + 1);
            assert(r[k as int] == x);
            assert forall|i: int, j: int| 0 <= i < j < r.len() implies !version_older(
                #[trigger] r[i].version,
                #[trigger] r[j].version,
            ) by {
                if j < k {
                    assert(r[i] == s[i] && r[j] == s[j]);
                } else if j == k {
                    assert(r[i] == s[i]);
                } else if i < k {
                    assert(r[i] == s[i] && r[j] == s[j - 1]);
                } else if i == k {
                    let m = j - 1;
                    assert(r[j] == s[m]);
                    assert(k < s.len());
                    assert(same_kind(s[k as int].version, x.version)) by {
                        assert(r[k + 1] == s[k as int]);
                        assert(same_kind(r[k + 1].version, r[k as int].version));
                    }
                    assert(older);
                    assert(same_kind(s[m].version, s[k as int].version)) by {
                        assert(r[k + 1] == s[k as int]);
                        assert(same_kind(r[j].version, r[k + 1].version));
                    }
                    if m > k {
                        assert(!version_older(s[k as int].version, s[m].version));
                    }
                    lemma_not_older_than_older(s[m].version, s[k as int].version, x.version);
                } else {
                    assert(r[i] == s[i - 1] && r[j] == s[j - 1]);
                }
            }
        }
    }
}

fn find_group(gs: &Vec<PluginVersions>, id: &str) -> (r: Option<usize>)
    ensures
        r is Some <==> first_index(group_keys(groups_view(gs@)), id@) is Some,
        r matches Some(k) ==> first_index(group_keys(groups_view(gs@)), id@) == Some(k as int),
{
    let ghost keys = group_keys(groups_view(gs@));
    let mut i: usize = 0;
    while i < gs.len()
        invariant
            i <= gs.len(),
            keys == group_keys(groups_view(gs@)),
            forall|j: int| 0 <= j < i ==> keys[j] != id@,
        decreases gs.len() - i,
    {
        if str_eq(gs[i].plugin_id.as_str(), id) {
            proof {
                lemma_first_index_unique(keys, id@, i as int);
            }
            return Some(i);
        }
        i = i + 1;
    }
    proof {
        lemma_first_index_none(keys, id@);
    }
    None
}

fn add_version_exec(gs: &mut Vec<PluginVersions>, p: RegisteredPlugin)
    ensures
        groups_view(final(gs)@) == add_version(groups_view(old(gs)@), p@),
        groups_newest_first(groups_view(old(gs)@)) ==> groups_newest_first(groups_view(final(gs)@)),
{
    let ghost before = groups_view(gs@);
    match find_group(gs, p.id.as_str()) {
        Some(k) => {
            let mut g = gs.remove(k);
            assert(group_view(g) == before[k as int]);
            insert_newest_first(&mut g.versions, p);
            gs.insert(k, g);
            assert(groups_view(gs@) =~= add_version(before, p@));
            proof {
                let after = groups_view(gs@);
                if groups_newest_first(before) {
                    assert forall|i: int| 0 <= i < after.len() && one_kind(#[trigger] after[i].1) implies newest_first(
                        after[i].1,
                    ) by {
                        if i != k {
                            assert(after[i] == before[i]);
                        } else {
                            assert(after[i].1 == plugins_view(g.versions@));
                        }
                    }
                }
            }
        },
        None => {
            let id = p.id.clone();
            let mut versions: Vec<RegisteredPlugin> = Vec::new();
            let ghost pv = p@;
            versions.push(p);
            assert(plugins_view(versions@) =~= seq![pv]);
            gs.push(PluginVersions { plugin_id: id, versions });
            assert(groups_view(gs@) =~= add_version(before, pv));
            proof {
                let after = groups_view(gs@);
                if groups_newest_first(before) {
                    assert forall|i: int| 0 <= i < after.len() && one_kind(#[trigger] after[i].1) implies newest_first(
                        after[i].1,
                    ) by {
                        if i < before.len() {
                            assert(after[i] == before[i]);
                        } else {
                            assert(after[i].1 =~= seq![pv]);
                        }
                    }
                }
            }
        },
    }
}

fn find_preferred(prefs: &Vec<PreferredVersion>, id: &str) -> (r: Option<usize>)
    ensures
        r is Some <==> preferred_for(prefs_view(prefs@), id@) is Some,
        r matches Some(k) ==> k < prefs.len() && preferred_for(prefs_view(prefs@), id@) == Some(
            prefs@[k as int].version@,
        ),
{
    let ghost keys = prefs_view(prefs@).map_values(|p: (Seq<char>, Seq<char>)| p.0);
    let mut i: usize = 0;
    while i < prefs.len()
        invariant
            i <= prefs.len(),
            keys == prefs_view(prefs@).map_values(|p: (Seq<char>, Seq<char>)| p.0),
            forall|j: int| 0 <= j < i ==> keys[j] != id@,
        decreases prefs.len() - i,
    {
        if str_eq(prefs[i].plugin_id.as_str(), id) {
            proof {
                lemma_first_index_unique(keys, id@, i as int);
            }
            return Some(i);
        }
        i = i + 1;
    }
    proof {
        lemma_first_index_none(keys, id@);
    }
    None
}

pub open spec fn opt_text(o: Option<&str>) -> Option<Seq<char>> {
    match o {
        Some(v) => Some(v@),
        None => None,
    }
}

fn select_active_index(vs: &Vec<RegisteredPlugin>, preferred: Option<&str>) -> (r: Option<usize>)
    ensures
        r is Some <==> select_active(plugins_view(vs@), opt_text(preferred)) is Some,
        r matches Some(k) ==> k < vs.len() && select_active(
            plugins_view(vs@),
            opt_text(preferred),
        ) == Some(vs@[k as int]@),
{
    let ghost s = plugins_view(vs@);
    match preferred {
        Some(v) => {
            assert(opt_text(preferred) == Some(v@));
            let ghost keys = version_texts(s);
            let mut i: usize = 0;
            while i < vs.len()
                invariant
                    i <= vs.len(),
                    s == plugins_view(vs@),
                    keys == version_texts(s),
                    opt_text(preferred) == Some(v@),
                    forall|j: int| 0 <= j < i ==> keys[j] != v@,
                decreases vs.len() - i,
            {
                if str_eq(vs[i].version.as_str(), v) {
                    proof {
                        assert(keys[i as int] == v@);
                        lemma_first_index_unique(keys, v@, i as int);
                        assert(s[i as int] == vs@[i as int]@);
                        assert(select_active(s, opt_text(preferred)) == Some(s[i as int]));
                    }
                    return Some(i);
                }
                i = i + 1;
            }
            proof {
                lemma_first_index_none(keys, v@);
            }
        },
        None => {},
    }
    if vs.len() > 0 {
        Some(0)
    } else {
        None
    }
}

fn find_entry(es: &Vec<ExtensionPlugins>, h: &str) -> (r: Option<usize>)
    ensures
        r is Some <==> first_index(entry_keys(extension_entries_view(es@)), h@) is Some,
        r matches Some(k) ==> first_index(entry_keys(extension_entries_view(es@)), h@) == Some(
            k as int,
        ),
{
    let ghost keys = entry_keys(extension_entries_view(es@));
    let mut i: usize = 0;
    while i < es.len()
        invariant
            i <= es.len(),
            keys == entry_keys(extension_entries_view(es@)),
            forall|j: int| 0 <= j < i ==> keys[j] != h@,
        decreases es.len() - i,
    {
        if str_eq(es[i].extension.as_str(), h) {
            proof {
                lemma_first_index_unique(keys, h@, i as int);
            }
            return Some(i);
        }
        i = i + 1;
    }
    proof {
        lemma_first_index_none(keys, h@);
    }
    None
}

fn add_handle_exec(es: &mut Vec<ExtensionPlugins>, h: &String, id: &String)
    ensures
        extension_entries_view(final(es)@) == add_handle(
            extension_entries_view(old(es)@),
            h@,
            id@,
        ),
{
    let ghost before = extension_entries_view(es@);
    match find_entry(es, h.as_str()) {
        Some(k) => {
            let mut e = es.remove(k);
            let ghost ids = strings_view(e.plugin_ids@);
            assert(ids == before[k as int].1);
            let idc = id.clone();
            e.plugin_ids.push(idc);
            assert(strings_view(e.plugin_ids@) =~= ids.push(id@));
            es.insert(k, e);
            assert(extension_entries_view(es@) =~= add_handle(before, h@, id@));
        },
        None => {
            let mut ids: Vec<String> = Vec::new();
            ids.push(id.clone());
            assert(strings_view(ids@) =~= seq![id@]);
            es.push(ExtensionPlugins { extension: h.clone(), plugin_ids: ids });
            assert(extension_entries_view(es@) =~= add_handle(before, h@, id@));
        },
    }
}

fn extension_table_exec(ps: &Vec<RegisteredPlugin>) -> (r: Vec<ExtensionPlugins>)
    ensures
        extension_entries_view(r@) == extension_table(plugins_view(ps@)),
{
    let ghost pv = plugins_view(ps@);
    let mut es: Vec<ExtensionPlugins> = Vec::new();
    let mut i: usize = 0;
    assert(extension_entries_view(es@) =~= Seq::<ExtensionEntry>::empty());
    while i < ps.len()
        invariant
            i <= ps.len(),
            pv == plugins_view(ps@),
            extension_entries_view(es@) == extension_table(pv.take(i as int)),
        decreases ps.len() - i,
    {
        let p = &ps[i];
        let ghost base = extension_entries_view(es@);
        let mut j: usize = 0;
        while j < p.handles.len()
            invariant
                j <= p.handles.len(),
                p == ps@[i as int],
                extension_entries_view(es@) == add_handles(
                    base,
                    strings_view(p.handles@).take(j as int),
                    p.id@,
                ),
            decreases p.handles.len() - j,
        {
            add_handle_exec(&mut es, &p.handles[j], &p.id);
            assert(strings_view(p.handles@).take(j + 1).drop_last() =~= strings_view(
                p.handles@,
            ).take(j as int));
            j = j + 1;
        }
        assert(strings_view(p.handles@).take(p.handles.len() as int) =~= strings_view(
            p.handles@,
        ));
        assert(pv.take(i + 1).drop_last() =~= pv.take(i as int));
        i = i + 1;
    }
    assert(pv.take(ps.len() as int) =~= pv);
    es
}

impl PluginRegistry {
    /// Registers the candidates, in order, for `platform`: each plugin
    /// directory is ignored by searches and scans; each plugin that
    /// registers joins the version list of its id (newest first); each that
    /// does not is reported as an issue. The active version of each id is
    /// the preferred one when it is installed, else the newest; each
    /// extension lists the active plugins that handle it. A version list
    /// whose versions are all semantic versions, or none is, comes out with
    /// no version older than one after it.
    pub fn discover_for_platform_with_preferences(
        candidates: &Vec<PluginCandidate>,
        platform: PluginPlatform,
        preferred_versions: &Vec<PreferredVersion>,
    ) -> (r: PluginDiscoveryReport)
        ensures
            strings_view(r.registry.ignored_paths@) == ignored_of(candidates@),
            groups_view(r.registry.versions_by_id@) == version_groups(
                registrations(candidates@, platform),
            ),
            plugins_view(r.registry.by_id@) == active_plugins(
                version_groups(registrations(candidates@, platform)),
                prefs_view(preferred_versions@),
            ),
            extension_entries_view(r.registry.by_extension@) == extension_table(
                plugins_view(r.registry.by_id@),
            ),
            issues_view(r.issues@) == issues_of(candidates@, platform),
            strings_view(r.registry.ignored_paths@).no_duplicates(),
            group_keys(groups_view(r.registry.versions_by_id@)).no_duplicates(),
            plugin_ids(plugins_view(r.registry.by_id@)) == group_keys(
                groups_view(r.registry.versions_by_id@),
            ),
            entry_keys(extension_entries_view(r.registry.by_extension@)).no_duplicates(),
            groups_newest_first(groups_view(r.registry.versions_by_id@)),
    {
        proof {
            law_registry_keys_distinct(candidates@, platform, prefs_view(preferred_versions@));
        }
        let ghost cs = candidates@;
        let ghost regs = registrations(cs, platform);
        let mut ignored: Vec<String> = Vec::new();
        let mut groups: Vec<PluginVersions> = Vec::new();
        let mut issues: Vec<PluginDiscoveryIssue> = Vec::new();
        let mut i: usize = 0;
        assert(strings_view(ignored@) =~= Seq::<Seq<char>>::empty());
        assert(groups_view(groups@) =~= Seq::<VersionGroup>::empty());
        assert(issues_view(issues@) =~= Seq::<(Seq<char>, Seq<char>)>::empty());
        assert(cs.take(0) =~= Seq::<PluginCandidate>::empty());
        assert(regs.take(0) =~= Seq::<Result<RegisteredPluginView, Seq<char>>>::empty());
        while i < candidates.len()
            invariant
                i <= candidates.len(),
                cs == candidates@,
                regs == registrations(cs, platform),
                strings_view(ignored@) == ignored_of(cs.take(i as int)),
                groups_view(groups@) == version_groups(regs.take(i as int)),
                issues_view(issues@) == issues_of(cs.take(i as int), platform),
                groups_newest_first(groups_view(groups@)),
            decreases candidates.len() - i,
        {
            let c = &candidates[i];
            assert(cs.take(i + 1).drop_last() =~= cs.take(i as int));
            assert(regs.take(i + 1).drop_last() =~= regs.take(i as int));
            assert(regs.take(i + 1).last() == registration(*c, platform));
            let dir = plugin_dir_of(c.plugin_root.as_str(), c.manifest_path.as_str());
            let dir_chars = chars_of(dir.as_str());
            let ghost ig = strings_view(ignored@);
            if !contains_string(&ignored, &dir_chars) {
                ignored.push(dir);
                assert(strings_view(ignored@) =~= ig.push(dir_chars@));
            }
            assert(strings_view(ignored@) == push_unique(ig, dir_chars@));
            match register_plugin(c, platform) {
                Ok(p) => {
                    add_version_exec(&mut groups, p);
                },
                Err(e) => {
                    let ghost before = issues_view(issues@);
                    let issue = PluginDiscoveryIssue {
                        manifest_path: c.manifest_path.clone(),
                        message: e,
                    };
                    issues.push(issue);
                    assert(issues_view(issues@) =~= before.push((c.manifest_path@, e@)));
                },
            }
            i = i + 1;
        }
        assert(cs.take(candidates.len() as int) =~= cs);
        assert(regs.take(candidates.len() as int) =~= regs);

        let ghost gv = groups_view(groups@);
        let ghost pv = prefs_view(preferred_versions@);
        let mut by_id: Vec<RegisteredPlugin> = Vec::new();
        let mut g: usize = 0;
        assert(plugins_view(by_id@) =~= Seq::<RegisteredPluginView>::empty());
        assert(gv.take(0) =~= Seq::<VersionGroup>::empty());
        while g < groups.len()
            invariant
                g <= groups.len(),
                gv == groups_view(groups@),
                pv == prefs_view(preferred_versions@),
                plugins_view(by_id@) == active_plugins(gv.take(g as int), pv),
            decreases groups.len() - g,
        {
            let group = &groups[g];
            assert(gv.take(g + 1).drop_last() =~= gv.take(g as int));
            assert(gv.take(g + 1).last() == group_view(*group));
            let pref: Option<&str> = match find_preferred(preferred_versions, group.plugin_id.as_str()) {
                Some(k) => Some(preferred_versions[k].version.as_str()),
                None => None,
            };
            assert(opt_text(pref) == preferred_for(pv, group.plugin_id@));
            match select_active_index(&group.versions, pref) {
                Some(k) => {
                    let active = group.versions[k].duplicate();
                    let ghost before = plugins_view(by_id@);
                    by_id.push(active);
                    assert(plugins_view(by_id@) =~= before.push(active@));
                },
                None => {},
            }
            g = g + 1;
        }
        assert(gv.take(groups.len() as int) =~= gv);
        let by_extension = extension_table_exec(&by_id);
        PluginDiscoveryReport {
            registry: PluginRegistry {
                by_id,
                versions_by_id: groups,
                by_extension,
                ignored_paths: ignored,
            },
            issues,
        }
    }

    /// Discovery for `platform` with no preferred versions.
    pub fn discover_for_platform(candidates: &Vec<PluginCandidate>, platform: PluginPlatform) -> (r:
        PluginDiscoveryReport)
        ensures
            strings_view(r.registry.ignored_paths@) == ignored_of(candidates@),
            groups_view(r.registry.versions_by_id@) == version_groups(
                registrations(candidates@, platform),
            ),
            plugins_view(r.registry.by_id@) == active_plugins(
                version_groups(registrations(candidates@, platform)),
                Seq::empty(),
            ),
            extension_entries_view(r.registry.by_extension@) == extension_table(
                plugins_view(r.registry.by_id@),
            ),
            issues_view(r.issues@) == issues_of(candidates@, platform),
    {
        let none: Vec<PreferredVersion> = Vec::new();
        assert(prefs_view(none@) =~= Seq::<(Seq<char>, Seq<char>)>::empty());
        Self::discover_for_platform_with_preferences(candidates, platform, &none)
    }

    /// Discovery for the platform of the operating system `os` and the
    /// architecture `arch`; an error when no plugin platform matches them.
    pub fn discover(candidates: &Vec<PluginCandidate>, os: &str, arch: &str) -> (r: Result<
        PluginDiscoveryReport,
        String,
    >)
        ensures
            r is Ok <==> platform_for(os@, arch@) is Some,
            r matches Err(e) ==> e@ == "unsupported plugin platform "@ + os@ + "-"@ + arch@,
            r matches Ok(rep) ==> {
                let platform = platform_for(os@, arch@)->0;
                &&& strings_view(rep.registry.ignored_paths@) == ignored_of(candidates@)
                &&& groups_view(rep.registry.versions_by_id@) == version_groups(
                    registrations(candidates@, platform),
                )
                &&& plugins_view(rep.registry.by_id@) == active_plugins(
                    version_groups(registrations(candidates@, platform)),
                    Seq::empty(),
                )
                &&& extension_entries_view(rep.registry.by_extension@) == extension_table(
                    plugins_view(rep.registry.by_id@),
                )
                &&& issues_view(rep.issues@) == issues_of(candidates@, platform)
            },
    {
        let platform = current_platform(os, arch)?;
        Ok(Self::discover_for_platform(candidates, platform))
    }

    /// The active plugin of the first plugin listed for `extension`.
    #[verifier::loop_isolation(false)]
    pub fn plugin_for_extension(&self, extension: &str) -> (r: Option<&RegisteredPlugin>)
        ensures
            r is Some <==> plugin_for_extension_of(*self, extension@) is Some,
            r matches Some(p) ==> plugin_for_extension_of(*self, extension@) == Some(p@),
    {
        let k = match find_entry(&self.by_extension, extension) {
            Some(k) => k,
            None => {
                return None;
            },
        };
        let ids = &self.by_extension[k].plugin_ids;
        if ids.len() == 0 {
            return None;
        }
        let id = chars_of(ids[0].as_str());
        let ghost keys = active_ids(*self);
        let mut i: usize = 0;
        while i < self.by_id.len()
            invariant
                i <= self.by_id.len(),
                keys == active_ids(*self),
                forall|j: int| 0 <= j < i ==> keys[j] != id@,
            decreases self.by_id.len() - i,
        {
            if str_eq(self.by_id[i].id.as_str(), ids[0].as_str()) {
                proof {
                    lemma_first_index_unique(keys, id@, i as int);
                }
                return Some(&self.by_id[i]);
            }
            i = i + 1;
        }
        proof {
            lemma_first_index_none(keys, id@);
        }
        None
    }
}

/// Adding a version to a version list keeps every version that was there
/// and adds the new one once: the list is a rearrangement of the registered
/// versions.
pub proof fn law_version_list_keeps_every_version(s: Seq<RegisteredPluginView>, x: RegisteredPluginView)
    ensures
        insert_newest(s, x).to_multiset() == s.to_multiset().insert(x),
        insert_newest(s, x).len() == s.len() + 1,
    decreases s.len(),
{
    broadcast use vstd::seq_lib::group_to_multiset_ensures;
    broadcast use vstd::multiset::group_multiset_axioms;

    if s.len() == 0 {
        assert(insert_newest(s, x) =~= seq![x]);
        assert(seq![x] =~= Seq::<RegisteredPluginView>::empty().push(x));
    } else if version_older(s[0].version, x.version) {
        vstd::seq_lib::lemma_multiset_commutative(seq![x], s);
        assert(seq![x] =~= Seq::<RegisteredPluginView>::empty().push(x));
        assert(seq![x].to_multiset() =~= Multiset::empty().insert(x));
        assert((seq![x] + s).to_multiset() =~= s.to_multiset().insert(x));
    } else {
        law_version_list_keeps_every_version(s.drop_first(), x);
        let rest = insert_newest(s.drop_first(), x);
        vstd::seq_lib::lemma_multiset_commutative(seq![s[0]], rest);
        vstd::seq_lib::lemma_multiset_commutative(seq![s[0]], s.drop_first());
        assert(seq![s[0]] + s.drop_first() =~= s);
        assert(seq![s[0]] =~= Seq::<RegisteredPluginView>::empty().push(s[0]));
        assert(seq![s[0]].to_multiset() =~= Multiset::empty().insert(s[0]));
        assert((seq![s[0]] + rest).to_multiset() =~= s.to_multiset().insert(x));
    }
}

/// The active version is the preferred one when it is installed, and the
/// first (newest) one otherwise.
pub proof fn law_preferred_version_wins(vs: Seq<RegisteredPluginView>, preferred: Option<Seq<char>>)
    requires
        vs.len() > 0,
    ensures
        (preferred matches Some(v) && version_texts(vs).contains(v)) ==> (select_active(vs, preferred)
            matches Some(p) && p.version == preferred->0),
        (preferred is None || !version_texts(vs).contains(preferred->0)) ==> select_active(
            vs,
            preferred,
        ) == Some(vs[0]),
{
    match preferred {
        Some(v) => {
            crate::lookup::lemma_first_index_some(version_texts(vs), v);
        },
        None => {},
    }
}

/// The plugin for an extension: the active plugin whose id is listed first
/// for the extension.
pub open spec fn plugin_for_extension_of(reg: PluginRegistry, ext: Seq<char>) -> Option<
    RegisteredPluginView,
> {
    match first_index(entry_keys(extension_entries_view(reg.by_extension@)), ext) {
        None => None,
        Some(k) => {
            let ids = reg.by_extension@[k].plugin_ids@;
            if ids.len() == 0 {
                None
            } else {
                match first_index(active_ids(reg), ids[0]@) {
                    Some(j) => Some(reg.by_id@[j]@),
                    None => None,
                }
            }
        },
    }
}

// ---------------------------------------------------------------------------
// The registry's keys are distinct

/// The ids of a list of plugins.
pub open spec fn plugin_ids(ps: Seq<RegisteredPluginView>) -> Seq<Seq<char>> {
    ps.map_values(|p: RegisteredPluginView| p.id)
}

/// Each version list holds at least one plugin, all of its own id.
pub open spec fn groups_ok(gs: Seq<VersionGroup>) -> bool {
    forall|i: int|
        0 <= i < gs.len() ==> (#[trigger] gs[i]).1.len() > 0 && forall|j: int|
            0 <= j < gs[i].1.len() ==> (#[trigger] gs[i].1[j]).id == gs[i].0
}

proof fn lemma_push_unique_distinct(s: Seq<Seq<char>>, x: Seq<char>)
    requires
        s.no_duplicates(),
    ensures
        push_unique(s, x).no_duplicates(),
{
    if !s.contains(x) {
        let t = s.push(x);
        assert forall|a: int, b: int| 0 <= a < t.len() && 0 <= b < t.len() && a != b implies t[a]
            != t[b] by {
            if a == t.len() - 1 {
                assert(s.contains(t[b]));
            } else if b == t.len() - 1 {
                assert(s.contains(t[a]));
            }
        }
    }
}

proof fn lemma_ignored_distinct(cs: Seq<PluginCandidate>)
    ensures
        ignored_of(cs).no_duplicates(),
    decreases cs.len(),
{
    if cs.len() > 0 {
        lemma_ignored_distinct(cs.drop_last());
        lemma_push_unique_distinct(
            ignored_of(cs.drop_last()),
            plugin_dir_text(cs.last().plugin_root@, cs.last().manifest_path@),
        );
    }
}

proof fn lemma_insert_newest_members(s: Seq<RegisteredPluginView>, x: RegisteredPluginView)
    ensures
        insert_newest(s, x).len() == s.len() + 1,
        forall|j: int|
            0 <= j < insert_newest(s, x).len() ==> #[trigger] insert_newest(s, x)[j] == x
                || s.contains(insert_newest(s, x)[j]),
    decreases s.len(),
{
    if s.len() > 0 && !version_older(s[0].version, x.version) {
        let t = s.drop_first();
        lemma_insert_newest_members(t, x);
        let r = insert_newest(s, x);
        assert forall|j: int| 0 <= j < r.len() implies #[trigger] r[j] == x || s.contains(r[j]) by {
            if j == 0 {
                assert(r[0] == s[0]);
            } else {
                assert(r[j] == insert_newest(t, x)[j - 1]);
                if insert_newest(t, x)[j - 1] != x {
                    let k = choose|k: int| 0 <= k < t.len() && t[k] == insert_newest(t, x)[j - 1];
                    assert(s[k + 1] == t[k]);
                }
            }
        }
    } else if s.len() > 0 {
        let r = insert_newest(s, x);
        assert forall|j: int| 0 <= j < r.len() implies #[trigger] r[j] == x || s.contains(r[j]) by {
            if j > 0 {
                assert(r[j] == s[j - 1]);
            }
        }
    }
}

proof fn lemma_add_version_ok(gs: Seq<VersionGroup>, p: RegisteredPluginView)
    requires
        group_keys(gs).no_duplicates(),
        groups_ok(gs),
    ensures
        group_keys(add_version(gs, p)).no_duplicates(),
        groups_ok(add_version(gs, p)),
{
    let keys = group_keys(gs);
    crate::lookup::lemma_first_index_some(keys, p.id);
    let r = add_version(gs, p);
    match first_index(keys, p.id) {
        Some(k) => {
            lemma_insert_newest_members(gs[k].1, p);
            assert(group_keys(r) =~= keys) by {
                assert forall|i: int| 0 <= i < keys.len() implies group_keys(r)[i] == keys[i] by {
                    if i == k {
                        assert(r[k].0 == gs[k].0);
                    }
                }
            }
            assert forall|i: int| 0 <= i < r.len() implies (#[trigger] r[i]).1.len() > 0
                && forall|j: int| 0 <= j < r[i].1.len() ==> (#[trigger] r[i].1[j]).id == r[i].0 by {
                if i == k {
                    assert(keys[k] == p.id);
                    assert forall|j: int| 0 <= j < r[i].1.len() implies (#[trigger] r[i].1[j]).id
                        == r[i].0 by {
                        let y = r[i].1[j];
                        if y != p {
                            let m = choose|m: int| 0 <= m < gs[k].1.len() && gs[k].1[m] == y;
                            assert(gs[k].1[m].id == gs[k].0);
                        }
                    }
                }
            }
        },
        None => {
            assert(!keys.contains(p.id));
            assert(group_keys(r) =~= keys.push(p.id));
            lemma_push_unique_distinct(keys, p.id);
            assert(push_unique(keys, p.id) == keys.push(p.id));
            assert forall|i: int| 0 <= i < r.len() implies (#[trigger] r[i]).1.len() > 0
                && forall|j: int| 0 <= j < r[i].1.len() ==> (#[trigger] r[i].1[j]).id == r[i].0 by {
                if i < gs.len() {
                    assert(r[i] == gs[i]);
                }
            }
        },
    }
}

proof fn lemma_version_groups_ok(rs: Seq<Result<RegisteredPluginView, Seq<char>>>)
    ensures
        group_keys(version_groups(rs)).no_duplicates(),
        groups_ok(version_groups(rs)),
    decreases rs.len(),
{
    if rs.len() == 0 {
        assert(group_keys(version_groups(rs)) =~= Seq::<Seq<char>>::empty());
    } else {
        lemma_version_groups_ok(rs.drop_last());
        match rs.last() {
            Ok(p) => lemma_add_version_ok(version_groups(rs.drop_last()), p),
            Err(_) => {},
        }
    }
}

proof fn lemma_active_ids(gs: Seq<VersionGroup>, prefs: Seq<(Seq<char>, Seq<char>)>)
    requires
        groups_ok(gs),
    ensures
        plugin_ids(active_plugins(gs, prefs)) == group_keys(gs),
    decreases gs.len(),
{
    if gs.len() == 0 {
        assert(plugin_ids(active_plugins(gs, prefs)) =~= group_keys(gs));
    } else {
        let d = gs.drop_last();
        assert(groups_ok(d)) by {
            assert forall|i: int| 0 <= i < d.len() implies (#[trigger] d[i]).1.len() > 0
                && forall|j: int| 0 <= j < d[i].1.len() ==> (#[trigger] d[i].1[j]).id == d[i].0 by {
                assert(d[i] == gs[i]);
            }
        }
        lemma_active_ids(d, prefs);
        let g = gs.last();
        assert(gs[gs.len() - 1] == g);
        let vs = g.1;
        let pref = preferred_for(prefs, g.0);
        let chosen = select_active(vs, pref);
        assert(chosen is Some && chosen->0.id == g.0) by {
            match pref {
                Some(v) => {
                    crate::lookup::lemma_first_index_some(version_texts(vs), v);
                    match first_index(version_texts(vs), v) {
                        Some(k) => {
                            assert(vs[k].id == g.0);
                        },
                        None => {
                            assert(vs[0].id == g.0);
                        },
                    }
                },
                None => {
                    assert(vs[0].id == g.0);
                },
            }
        }
        assert(plugin_ids(active_plugins(gs, prefs)) =~= plugin_ids(active_plugins(d, prefs)).push(
            g.0,
        ));
        assert(group_keys(gs) =~= group_keys(d).push(g.0));
    }
}

proof fn lemma_add_handle_distinct(es: Seq<ExtensionEntry>, h: Seq<char>, id: Seq<char>)
    requires
        entry_keys(es).no_duplicates(),
    ensures
        entry_keys(add_handle(es, h, id)).no_duplicates(),
{
    let keys = entry_keys(es);
    crate::lookup::lemma_first_index_some(keys, h);
    match first_index(keys, h) {
        Some(k) => {
            assert(entry_keys(add_handle(es, h, id)) =~= keys);
        },
        None => {
            assert(entry_keys(add_handle(es, h, id)) =~= keys.push(h));
            lemma_push_unique_distinct(keys, h);
        },
    }
}

proof fn lemma_add_handles_distinct(es: Seq<ExtensionEntry>, hs: Seq<Seq<char>>, id: Seq<char>)
    requires
        entry_keys(es).no_duplicates(),
    ensures
        entry_keys(add_handles(es, hs, id)).no_duplicates(),
    decreases hs.len(),
{
    if hs.len() > 0 {
        lemma_add_handles_distinct(es, hs.drop_last(), id);
        lemma_add_handle_distinct(add_handles(es, hs.drop_last(), id), hs.last(), id);
    }
}

proof fn lemma_extension_table_distinct(ps: Seq<RegisteredPluginView>)
    ensures
        entry_keys(extension_table(ps)).no_duplicates(),
    decreases ps.len(),
{
    if ps.len() == 0 {
        assert(entry_keys(extension_table(ps)) =~= Seq::<Seq<char>>::empty());
    } else {
        lemma_extension_table_distinct(ps.drop_last());
        lemma_add_handles_distinct(extension_table(ps.drop_last()), ps.last().handles, ps.last().id);
    }
}

/// The keys of a discovered registry are distinct, as a map's are: the
/// ignored folders, the ids of the version lists (each list holding only
/// plugins of its id), and the extensions; and there is one active plugin
/// per version list, of the list's id.
pub proof fn law_registry_keys_distinct(cs: Seq<PluginCandidate>, platform: PluginPlatform, prefs: Seq<
    (Seq<char>, Seq<char>),
>)
    ensures
        ignored_of(cs).no_duplicates(),
        group_keys(version_groups(registrations(cs, platform))).no_duplicates(),
        groups_ok(version_groups(registrations(cs, platform))),
        plugin_ids(active_plugins(version_groups(registrations(cs, platform)), prefs)) == group_keys(
            version_groups(registrations(cs, platform)),
        ),
        entry_keys(extension_table(active_plugins(version_groups(registrations(cs, platform)), prefs)))
            .no_duplicates(),
{
    lemma_ignored_distinct(cs);
    lemma_version_groups_ok(registrations(cs, platform));
    lemma_active_ids(version_groups(registrations(cs, platform)), prefs);
    lemma_extension_table_distinct(active_plugins(version_groups(registrations(cs, platform)), prefs));
}

} // verus!
