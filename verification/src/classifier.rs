//! Classifies files for searching and indexing: native text, generated
//! sidecars, plugin files, files a plugin can turn into text, and the rest.

use vstd::prelude::*;
use crate::lookup::{first_index, is_first_index, lemma_first_index_none, lemma_first_index_unique};
use crate::index_paths::{comps_in, join_in, lies_under, lies_under_exec, prefix_in, read_path, write_path};
use crate::winpath::{host_path_style, PathStyle};
use crate::path::{
    comp_eq, comps_prefix, comps_starts_with, comps_view, components, extension_chars,
    extension_of, file_name_chars, file_name_of, join_comps, join_string, last_index_of, path_comps,
    set_file_name, with_file_name_comps, Comp, Component,
};
use crate::registry::{strings_view, ExtensionPlugins, PluginRegistry};
use crate::text::{
    chars_eq, chars_of, concat_chars, ends_with_chars, has_suffix, lower_chars, lower_seq,
    strip_suffix_chars, trim_start_char, trim_start_char_chars,
};

verus! {

/// What a file is to the search and the indexer.
#[derive(Debug, Clone, PartialEq, Eq)]
pub enum FileKind {
    NativeText,
    GeneratedSmText,
    SmMeta,
    PluginBinary,
    PluginManifest,
    SupportedByPlugin { plugin_id: String },
    UnsupportedBinary,
    Ignored,
}

/// `FileKind` as a mathematical value.
pub enum FileKindView {
    NativeText,
    GeneratedSmText,
    SmMeta,
    PluginBinary,
    PluginManifest,
    SupportedByPlugin(Seq<char>),
    UnsupportedBinary,
    Ignored,
}

impl View for FileKind {
    type V = FileKindView;

    open spec fn view(&self) -> FileKindView {
        match self {
            FileKind::NativeText => FileKindView::NativeText,
            FileKind::GeneratedSmText => FileKindView::GeneratedSmText,
            FileKind::SmMeta => FileKindView::SmMeta,
            FileKind::PluginBinary => FileKindView::PluginBinary,
            FileKind::PluginManifest => FileKindView::PluginManifest,
            FileKind::SupportedByPlugin { plugin_id } => FileKindView::SupportedByPlugin(
                plugin_id@,
            ),
            FileKind::UnsupportedBinary => FileKindView::UnsupportedBinary,
            FileKind::Ignored => FileKindView::Ignored,
        }
    }
}

/// One extension and the plugin that handles it.
#[derive(Debug, Clone)]
pub struct ExtensionPlugin {
    pub extension: String,
    pub plugin_id: String,
}

/// Classifies paths against the known text extensions, the plugin folders and
/// the extensions that plugins handle.
#[derive(Debug, Clone)]
pub struct FileClassifier {
    known_text_extensions: Vec<String>,
    plugin_roots: Vec<String>,
    registered_extensions: Vec<ExtensionPlugin>,
    style: PathStyle,
}

/// The extensions that are searched as text without a plugin.
pub open spec fn default_text_extensions() -> Seq<Seq<char>> {
    seq![
        "c"@, "cpp"@, "css"@, "csv"@, "go"@, "h"@, "html"@, "java"@, "js"@, "json"@, "jsonl"@,
        "jsx"@, "log"@, "md"@, "mjs"@, "py"@, "rb"@, "rs"@, "sh"@, "sql"@, "svg"@, "svelte"@,
        "toml"@, "ts"@, "tsx"@, "txt"@, "xml"@, "yaml"@, "yml"@,
    ]
}

/// For each extension that some plugin handles, the first such plugin.
pub open spec fn registered_of(e: Seq<ExtensionPlugins>) -> Seq<(Seq<char>, Seq<char>)>
    decreases e.len(),
{
    if e.len() == 0 {
        seq![]
    } else {
        let r = registered_of(e.drop_last());
        let x = e.last();
        if x.plugin_ids@.len() > 0 {
            r.push((x.extension@, x.plugin_ids@[0]@))
        } else {
            r
        }
    }
}

/// The plugin registered for `ext`: the first entry with that extension.
pub open spec fn registered_plugin_for(reg: Seq<(Seq<char>, Seq<char>)>, ext: Seq<char>) -> Option<
    Seq<char>,
> {
    match first_index(reg.map_values(|p: (Seq<char>, Seq<char>)| p.0), ext) {
        Some(k) => Some(reg[k].1),
        None => None,
    }
}

/// What a file inside a plugin folder is.
pub open spec fn plugin_internal_kind(cs: Seq<Comp>) -> FileKindView {
    match file_name_of(cs) {
        None => FileKindView::Ignored,
        Some(n) => if n == "plugin.toml"@ {
            FileKindView::PluginManifest
        } else if cs.contains(Comp::Normal("bin"@)) {
            FileKindView::PluginBinary
        } else {
            FileKindView::Ignored
        },
    }
}

/// Whether `path` lies in one of `roots`, read in `style`.
pub open spec fn in_some_root(style: PathStyle, path: Seq<char>, roots: Seq<Seq<char>>) -> bool {
    exists|k: int| 0 <= k < roots.len() && lies_under(style, path, #[trigger] roots[k])
}

/// The classification of `path`.
pub open spec fn classify_path(
    style: PathStyle,
    known: Seq<Seq<char>>,
    roots: Seq<Seq<char>>,
    reg: Seq<(Seq<char>, Seq<char>)>,
    path: Seq<char>,
) -> FileKindView {
    let cs = comps_in(style, path);
    if in_some_root(style, path, roots) {
        plugin_internal_kind(cs)
    } else {
        match file_name_of(cs) {
            None => FileKindView::Ignored,
            Some(n) => if has_suffix(n, ".sm.txt.tmp"@) || has_suffix(n, ".sm.meta.tmp"@) {
                FileKindView::Ignored
            } else if has_suffix(n, ".sm.meta"@) {
                FileKindView::SmMeta
            } else if has_suffix(n, ".sm.txt"@) {
                FileKindView::GeneratedSmText
            } else {
                match extension_of(n) {
                    None => FileKindView::NativeText,
                    Some(e) => {
                        let ext = seq!['.'] + lower_seq(e);
                        match registered_plugin_for(reg, ext) {
                            Some(id) => FileKindView::SupportedByPlugin(id),
                            None => if known.contains(trim_start_char(ext, '.')) {
                                FileKindView::NativeText
                            } else {
                                FileKindView::UnsupportedBinary
                            },
                        }
                    },
                }
            },
        }
    }
}

impl FileClassifier {
    /// The known text extensions, lower-cased.
    pub closed spec fn known(self) -> Seq<Seq<char>> {
        strings_view(self.known_text_extensions@)
    }

    /// The plugin folders.
    pub closed spec fn roots(self) -> Seq<Seq<char>> {
        strings_view(self.plugin_roots@)
    }

    /// How the classifier reads paths.
    pub closed spec fn path_style(self) -> PathStyle {
        self.style
    }

    /// Each handled extension with its plugin.
    pub closed spec fn registered(self) -> Seq<(Seq<char>, Seq<char>)> {
        self.registered_extensions@.map_values(|e: ExtensionPlugin| (e.extension@, e.plugin_id@))
    }

    /// A classifier for the default text extensions, reading paths in the
    /// style of the platform.
    pub fn new(registry: &PluginRegistry) -> (r: Self)
        ensures
            r.known() == default_text_extensions().map_values(|s: Seq<char>| lower_seq(s)),
            r.roots() == strings_view(registry.ignored_paths@),
            r.registered() == registered_of(registry.by_extension@),
    {
        Self::new_in(host_path_style(), registry)
    }

    /// A classifier for the default text extensions, reading paths in
    /// `style`: the classifier given the default extensions.
    pub fn new_in(style: PathStyle, registry: &PluginRegistry) -> (r: Self)
        ensures
            r.known() == default_text_extensions().map_values(|s: Seq<char>| lower_seq(s)),
            r.roots() == strings_view(registry.ignored_paths@),
            r.registered() == registered_of(registry.by_extension@),
            r.path_style() == style,
    {
        let exts = default_text_extension_list();
        Self::with_known_text_extensions_in(style, registry, exts)
    }

    /// A classifier for the given text extensions (compared lower-cased),
    /// reading paths in the style of the platform.
    pub fn with_known_text_extensions(registry: &PluginRegistry, extensions: Vec<String>) -> (r:
        Self)
        ensures
            r.known() == strings_view(extensions@).map_values(|s: Seq<char>| lower_seq(s)),
            r.roots() == strings_view(registry.ignored_paths@),
            r.registered() == registered_of(registry.by_extension@),
    {
        Self::with_known_text_extensions_in(host_path_style(), registry, extensions)
    }

    /// A classifier for the given text extensions (compared lower-cased),
    /// reading paths in `style`.
    pub fn with_known_text_extensions_in(
        style: PathStyle,
        registry: &PluginRegistry,
        extensions: Vec<String>,
    ) -> (r: Self)
        ensures
            r.known() == strings_view(extensions@).map_values(|s: Seq<char>| lower_seq(s)),
            r.roots() == strings_view(registry.ignored_paths@),
            r.registered() == registered_of(registry.by_extension@),
            r.path_style() == style,
    {
        let mut registered: Vec<ExtensionPlugin> = Vec::new();
        let mut i: usize = 0;
        let ghost e = registry.by_extension@;
        assert(e.take(0) =~= Seq::<ExtensionPlugins>::empty());
        while i < registry.by_extension.len()
            invariant
                i <= e.len(),
                e == registry.by_extension@,
                registered@.map_values(|x: ExtensionPlugin| (x.extension@, x.plugin_id@))
                    == registered_of(e.take(i as int)),
            decreases e.len() - i,
        {
            let entry = &registry.by_extension[i];
            assert(e.take(i + 1).drop_last() =~= e.take(i as int));
            assert(e.take(i + 1).last() == e[i as int]);
            let ghost before = registered@;
            if entry.plugin_ids.len() > 0 {
                registered.push(
                    ExtensionPlugin {
                        extension: entry.extension.clone(),
                        plugin_id: entry.plugin_ids[0].clone(),
                    },
                );
                assert(registered@.map_values(|x: ExtensionPlugin| (x.extension@, x.plugin_id@))
                    =~= before.map_values(|x: ExtensionPlugin| (x.extension@, x.plugin_id@)).push(
                    (e[i as int].extension@, e[i as int].plugin_ids@[0]@),
                ));
            }
            i = i + 1;
        }
        assert(e.take(e.len() as int) =~= e);
        let mut known: Vec<String> = Vec::new();
        let mut j: usize = 0;
        let ghost want = strings_view(extensions@).map_values(|s: Seq<char>| lower_seq(s));
        while j < extensions.len()
            invariant
                j <= extensions.len(),
                want == strings_view(extensions@).map_values(|s: Seq<char>| lower_seq(s)),
                strings_view(known@) == want.take(j as int),
            decreases extensions.len() - j,
        {
            let lowered = crate::text::to_ascii_lowercase(extensions[j].as_str());
            let ghost before = strings_view(known@);
            known.push(lowered);
            assert(strings_view(known@) =~= before.push(lower_seq(extensions@[j as int]@)));
            assert(want.take(j + 1) =~= want.take(j as int).push(want[j as int]));
            j = j + 1;
        }
        assert(want.take(extensions.len() as int) =~= want);
        let mut roots: Vec<String> = Vec::new();
        let mut k: usize = 0;
        while k < registry.ignored_paths.len()
            invariant
                k <= registry.ignored_paths.len(),
                strings_view(roots@) == strings_view(registry.ignored_paths@).take(k as int),
            decreases registry.ignored_paths.len() - k,
        {
            let ghost before = strings_view(roots@);
            roots.push(registry.ignored_paths[k].clone());
            assert(strings_view(roots@) =~= before.push(registry.ignored_paths@[k as int]@));
            assert(strings_view(registry.ignored_paths@).take(k + 1) =~= strings_view(
                registry.ignored_paths@,
            ).take(k as int).push(registry.ignored_paths@[k as int]@));
            k = k + 1;
        }
        assert(strings_view(registry.ignored_paths@).take(registry.ignored_paths.len() as int)
            =~= strings_view(registry.ignored_paths@));
        FileClassifier {
            known_text_extensions: known,
            plugin_roots: roots,
            registered_extensions: registered,
            style,
        }
    }

    /// The same classifier, reading paths in `style`.
    pub fn with_path_style(self, style: PathStyle) -> (r: Self)
        ensures
            r.known() == self.known(),
            r.roots() == self.roots(),
            r.registered() == self.registered(),
            r.path_style() == style,
    {
        FileClassifier { style, ..self }
    }

    /// What `path` is.
    pub fn classify(&self, path: &str) -> (r: FileKind)
        ensures
            r@ == classify_path(self.path_style(), self.known(), self.roots(), self.registered(), path@),
    {
        if self.is_in_plugin_root(path) {
            return self.classify_plugin_internal(path);
        }
        let cs = read_path(self.style, path).comps;
        let name = match file_name_chars(&cs) {
            None => return FileKind::Ignored,
            Some(n) => n,
        };
        if ends_with_chars(&name, &chars_of(".sm.txt.tmp")) || ends_with_chars(
            &name,
            &chars_of(".sm.meta.tmp"),
        ) {
            return FileKind::Ignored;
        }
        if ends_with_chars(&name, &chars_of(".sm.meta")) {
            return FileKind::SmMeta;
        }
        if ends_with_chars(&name, &chars_of(".sm.txt")) {
            return FileKind::GeneratedSmText;
        }
        match extension_chars(&name) {
            None => FileKind::NativeText,
            Some(e) => {
                let mut ext: Vec<char> = Vec::new();
                ext.push('.');
                let lowered = lower_chars(&e);
                let ext = concat_chars(&ext, &lowered);
                assert(ext@ =~= seq!['.'] + lower_seq(e@));
                match self.registered_lookup(&ext) {
                    Some(id) => FileKind::SupportedByPlugin { plugin_id: id },
                    None => {
                        let trimmed = trim_start_char_chars(&ext, '.');
                        if crate::lookup::contains_string(&self.known_text_extensions, &trimmed) {
                            FileKind::NativeText
                        } else {
                            FileKind::UnsupportedBinary
                        }
                    },
                }
            },
        }
    }

    /// Whether `path` is native text or generated sidecar text.
    pub fn is_searchable(&self, path: &str) -> (r: bool)
        ensures
            r == (classify_path(self.path_style(), self.known(), self.roots(), self.registered(), path@)
                == FileKindView::NativeText || classify_path(
                self.path_style(),
                self.known(),
                self.roots(),
                self.registered(),
                path@,
            ) == FileKindView::GeneratedSmText),
    {
        match self.classify(path) {
            FileKind::NativeText | FileKind::GeneratedSmText => true,
            _ => false,
        }
    }

    fn registered_lookup(&self, ext: &Vec<char>) -> (r: Option<String>)
        ensures
            r is Some <==> registered_plugin_for(self.registered(), ext@) is Some,
            r matches Some(id) ==> registered_plugin_for(self.registered(), ext@) == Some(id@),
    {
        let ghost keys = self.registered().map_values(|p: (Seq<char>, Seq<char>)| p.0);
        let mut i: usize = 0;
        while i < self.registered_extensions.len()
            invariant
                i <= self.registered_extensions.len(),
                keys == self.registered().map_values(|p: (Seq<char>, Seq<char>)| p.0),
                keys.len() == self.registered_extensions.len(),
                forall|j: int| 0 <= j < i ==> keys[j] != ext@,
            decreases self.registered_extensions.len() - i,
        {
            let cand = chars_of(self.registered_extensions[i].extension.as_str());
            assert(keys[i as int] == self.registered_extensions@[i as int].extension@);
            if chars_eq(&cand, ext) {
                proof {
                    assert(is_first_index(keys, ext@, i as int));
                    lemma_first_index_unique(keys, ext@, i as int);
                }
                return Some(self.registered_extensions[i].plugin_id.clone());
            }
            i = i + 1;
        }
        proof {
            lemma_first_index_none(keys, ext@);
        }
        None
    }

    /// Whether `path` lies inside a plugin folder.
    fn is_in_plugin_root(&self, path: &str) -> (r: bool)
        ensures
            r == in_some_root(self.path_style(), path@, self.roots()),
    {
        let mut i: usize = 0;
        while i < self.plugin_roots.len()
            invariant
                i <= self.plugin_roots.len(),
                self.roots().len() == self.plugin_roots.len(),
                forall|j: int|
                    0 <= j < i ==> !lies_under(self.path_style(), path@, #[trigger] self.roots()[j]),
            decreases self.plugin_roots.len() - i,
        {
            assert(self.roots()[i as int] == self.plugin_roots@[i as int]@);
            if lies_under_exec(self.style, path, self.plugin_roots[i].as_str()) {
                return true;
            }
            i = i + 1;
        }
        false
    }

    /// What a file inside a plugin folder is.
    fn classify_plugin_internal(&self, path: &str) -> (r: FileKind)
        ensures
            r@ == plugin_internal_kind(comps_in(self.path_style(), path@)),
    {
        let cs = read_path(self.style, path).comps;
        classify_plugin_internal_comps(&cs)
    }
}

#[verifier::loop_isolation(false)]
fn classify_plugin_internal_comps(cs: &Vec<Component>) -> (r: FileKind)
    ensures
        r@ == plugin_internal_kind(comps_view(cs@)),
{
    let name = match file_name_chars(cs) {
        None => return FileKind::Ignored,
        Some(n) => n,
    };
    if chars_eq(&name, &chars_of("plugin.toml")) {
        return FileKind::PluginManifest;
    }
    let bin = Component::Normal(chars_of("bin"));
    let mut i: usize = 0;
    while i < cs.len()
        invariant
            i <= cs.len(),
            bin@ == Comp::Normal("bin"@),
            forall|j: int| 0 <= j < i ==> comps_view(cs@)[j] != Comp::Normal("bin"@),
        decreases cs.len() - i,
    {
        if comp_eq(&cs[i], &bin) {
            assert(comps_view(cs@)[i as int] == Comp::Normal("bin"@));
            return FileKind::PluginBinary;
        }
        i = i + 1;
    }
    FileKind::Ignored
}

fn default_text_extension_list() -> (r: Vec<String>)
    ensures
        strings_view(r@) == default_text_extensions(),
{
    let mut v: Vec<String> = Vec::new();
    v.push(crate::text::to_string("c"));
    v.push(crate::text::to_string("cpp"));
    v.push(crate::text::to_string("css"));
    v.push(crate::text::to_string("csv"));
    v.push(crate::text::to_string("go"));
    v.push(crate::text::to_string("h"));
    v.push(crate::text::to_string("html"));
    v.push(crate::text::to_string("java"));
    v.push(crate::text::to_string("js"));
    v.push(crate::text::to_string("json"));
    v.push(crate::text::to_string("jsonl"));
    v.push(crate::text::to_string("jsx"));
    v.push(crate::text::to_string("log"));
    v.push(crate::text::to_string("md"));
    v.push(crate::text::to_string("mjs"));
    v.push(crate::text::to_string("py"));
    v.push(crate::text::to_string("rb"));
    v.push(crate::text::to_string("rs"));
    v.push(crate::text::to_string("sh"));
    v.push(crate::text::to_string("sql"));
    v.push(crate::text::to_string("svg"));
    v.push(crate::text::to_string("svelte"));
    v.push(crate::text::to_string("toml"));
    v.push(crate::text::to_string("ts"));
    v.push(crate::text::to_string("tsx"));
    v.push(crate::text::to_string("txt"));
    v.push(crate::text::to_string("xml"));
    v.push(crate::text::to_string("yaml"));
    v.push(crate::text::to_string("yml"));
    assert(strings_view(v@) =~= default_text_extensions());
    v
}

/// Whether `path`, read in `style`, names a generated text file.
pub open spec fn is_sm_text_in(style: PathStyle, path: Seq<char>) -> bool {
    file_name_of(comps_in(style, path)) matches Some(n) && has_suffix(n, ".sm.txt"@)
}

/// Whether `path`, read in `style`, names a generated text file.
pub fn is_sm_text_for(style: PathStyle, path: &str) -> (r: bool)
    ensures
        r == is_sm_text_in(style, path@),
{
    let cs = read_path(style, path).comps;
    match file_name_chars(&cs) {
        None => false,
        Some(n) => ends_with_chars(&n, &chars_of(".sm.txt")),
    }
}

/// Whether `path` names a generated text file, read in the style of the
/// platform: the Unix or the Windows answer, which is the answer when they
/// agree.
pub fn is_sm_text(path: &str) -> (r: bool)
    ensures
        r == is_sm_text_in(PathStyle::Unix, path@) || r == is_sm_text_in(PathStyle::Windows, path@),
        is_sm_text_in(PathStyle::Unix, path@) == is_sm_text_in(PathStyle::Windows, path@) ==> r
            == is_sm_text_in(PathStyle::Unix, path@),
{
    is_sm_text_for(host_path_style(), path)
}

/// The generated text path read in `style` with its name's `.sm.txt`
/// suffix replaced by `extra`, if the name has that suffix.
pub open spec fn sibling_of_sm_text_in(style: PathStyle, path: Seq<char>, extra: Seq<char>) -> Option<
    Seq<char>,
> {
    let cs = comps_in(style, path);
    match file_name_of(cs) {
        None => None,
        Some(n) => if has_suffix(n, ".sm.txt"@) {
            Some(
                join_in(
                    style,
                    prefix_in(style, path),
                    with_file_name_comps(cs, n.subrange(0, n.len() - ".sm.txt"@.len()) + extra),
                ),
            )
        } else {
            None
        },
    }
}

/// `sibling_of_sm_text_in` on Unix.
pub open spec fn sibling_of_sm_text(path: Seq<char>, extra: Seq<char>) -> Option<Seq<char>> {
    sibling_of_sm_text_in(PathStyle::Unix, path, extra)
}

/// The sibling in `style` or in the other style of the platform.
pub open spec fn sibling_on_host(path: Seq<char>, extra: Seq<char>, r: Option<String>) -> bool {
    ||| (r is Some <==> sibling_of_sm_text_in(PathStyle::Unix, path, extra) is Some) && (r matches Some(
        s,
    ) ==> sibling_of_sm_text_in(PathStyle::Unix, path, extra) == Some(s@))
    ||| (r is Some <==> sibling_of_sm_text_in(PathStyle::Windows, path, extra) is Some) && (
    r matches Some(s) ==> sibling_of_sm_text_in(PathStyle::Windows, path, extra) == Some(s@))
}

/// The generated text path `path`, read in `style`, with its name's
/// `.sm.txt` suffix replaced by `extra`.
pub fn sibling_of_sm_text_for(style: PathStyle, path: &str, extra: &str) -> (r: Option<String>)
    ensures
        r is Some <==> sibling_of_sm_text_in(style, path@, extra@) is Some,
        r matches Some(s) ==> sibling_of_sm_text_in(style, path@, extra@) == Some(s@),
{
    let p = read_path(style, path);
    let mut cs = p.comps;
    let name = match file_name_chars(&cs) {
        None => return None,
        Some(n) => n,
    };
    let stem = match strip_suffix_chars(&name, &chars_of(".sm.txt")) {
        None => return None,
        Some(s) => s,
    };
    let full = concat_chars(&stem, &chars_of(extra));
    set_file_name(&mut cs, full);
    Some(write_path(style, &p.prefix_text, &cs))
}

/// The source file that a generated text file was made from.
pub fn source_for_sm_text(path: &str) -> (r: Option<String>)
    ensures
        sibling_on_host(path@, ""@, r),
{
    sibling_of_sm_text_for(host_path_style(), path, "")
}

/// The metadata file beside a generated text file.
pub fn meta_for_sm_text(path: &str) -> (r: Option<String>)
    ensures
        sibling_on_host(path@, ".sm.meta"@, r),
{
    sibling_of_sm_text_for(host_path_style(), path, ".sm.meta")
}

/// The generated text path of a source file: its name with `.sm.txt`
/// added.
pub open spec fn sm_text_of(src: Seq<char>) -> Seq<char> {
    let cs = path_comps(src);
    join_comps(with_file_name_comps(cs, file_name_of(cs)->0 + ".sm.txt"@))
}

/// The generated text of a source file leads back to the source (in
/// normalized form) and to the metadata file beside it.
pub proof fn law_sidecars_lead_back_to_source(src: Seq<char>)
    requires
        file_name_of(path_comps(src)) is Some,
    ensures
        sibling_of_sm_text(sm_text_of(src), ""@) == Some(join_comps(path_comps(src))),
        sibling_of_sm_text(sm_text_of(src), ".sm.meta"@) == Some(
            join_comps(
                with_file_name_comps(path_comps(src), file_name_of(path_comps(src))->0 + ".sm.meta"@),
            ),
        ),
{
    reveal_strlit(".sm.txt");
    reveal_strlit("");
    let cs = path_comps(src);
    let n = file_name_of(cs)->0;
    let sfx = ".sm.txt"@;
    let name = n + sfx;
    crate::path::lemma_path_comps_wf(src);
    assert(cs[cs.len() - 1] == cs.last());
    assert(crate::path::normal_name_ok(n));
    assert(crate::path::normal_name_ok(name)) by {
        if name.contains('/') {
            let k = choose|k: int| 0 <= k < name.len() && name[k] == '/';
            if k < n.len() {
                assert(n[k] == '/');
                assert(n.contains('/'));
            }
        }
    }
    let cs2 = with_file_name_comps(cs, name);
    assert(cs2 == cs.drop_last().push(Comp::Normal(name)));
    assert(crate::path::wf_comps(cs2)) by {
        assert forall|i: int| 0 <= i < cs2.len() implies match #[trigger] cs2[i] {
            Comp::Root => i == 0,
            Comp::Cur => i == 0,
            Comp::Parent => true,
            Comp::Normal(t) => crate::path::normal_name_ok(t),
        } by {
            if i < cs2.len() - 1 {
                assert(cs2[i] == cs[i]);
            }
        }
    }
    crate::path::lemma_comps_of_join(cs2);
    assert(file_name_of(cs2) == Some(name));
    assert(has_suffix(name, sfx)) by {
        assert(name.subrange(name.len() - sfx.len(), name.len() as int) =~= sfx);
    }
    assert(name.subrange(0, name.len() - sfx.len()) =~= n);
    assert(n + ""@ =~= n);
    assert(with_file_name_comps(cs2, n) =~= cs) by {
        assert(cs.drop_last().push(Comp::Normal(n)) =~= cs);
    }
    assert(with_file_name_comps(cs2, n + ".sm.meta"@) =~= with_file_name_comps(cs, n + ".sm.meta"@));
}

/// The plain classifier is the one given the default text extensions:
/// reading paths in the same style, the two classify every path alike.
pub proof fn law_new_uses_default_extensions(
    style: PathStyle,
    reg: PluginRegistry,
    extensions: Seq<Seq<char>>,
    path: Seq<char>,
)
    requires
        extensions == default_text_extensions(),
    ensures
        classify_path(
            style,
            default_text_extensions().map_values(|s: Seq<char>| lower_seq(s)),
            strings_view(reg.ignored_paths@),
            registered_of(reg.by_extension@),
            path,
        ) == classify_path(
            style,
            extensions.map_values(|s: Seq<char>| lower_seq(s)),
            strings_view(reg.ignored_paths@),
            registered_of(reg.by_extension@),
            path,
        ),
{
}

proof fn lemma_last_occurrence(s: Seq<char>, c: char)
    requires
        s.contains(c),
    ensures
        exists|k: int| 0 <= k < s.len() && s[k] == c && forall|j: int| k < j < s.len() ==> s[j] != c,
    decreases s.len(),
{
    if s.last() == c {
        assert(0 <= s.len() - 1 < s.len() && s[s.len() - 1] == c);
    } else {
        let t = s.drop_last();
        assert(t.contains(c)) by {
            let i = choose|i: int| 0 <= i < s.len() && s[i] == c;
            assert(i < s.len() - 1);
            assert(t[i] == c);
        }
        lemma_last_occurrence(t, c);
        let k = choose|k: int| 0 <= k < t.len() && t[k] == c && forall|j: int| k < j < t.len() ==> t[j] != c;
        assert(s[k] == c);
        assert forall|j: int| k < j < s.len() implies s[j] != c by {
            if j < t.len() {
                assert(t[j] == s[j]);
            }
        }
    }
}

/// Whether `e`, compared lower-cased, is one of the extensions a plain
/// classifier searches as text.
pub open spec fn searched_as_text(e: Seq<char>) -> bool {
    let l = lower_seq(e);
    ||| l == lower_seq("c"@) || l == lower_seq("cpp"@) || l == lower_seq("css"@)
    ||| l == lower_seq("csv"@) || l == lower_seq("go"@) || l == lower_seq("h"@)
    ||| l == lower_seq("html"@) || l == lower_seq("java"@) || l == lower_seq("js"@)
    ||| l == lower_seq("json"@) || l == lower_seq("jsonl"@) || l == lower_seq("jsx"@)
    ||| l == lower_seq("log"@) || l == lower_seq("md"@) || l == lower_seq("mjs"@)
    ||| l == lower_seq("py"@) || l == lower_seq("rb"@) || l == lower_seq("rs"@)
    ||| l == lower_seq("sh"@) || l == lower_seq("sql"@) || l == lower_seq("svg"@)
    ||| l == lower_seq("svelte"@) || l == lower_seq("toml"@) || l == lower_seq("ts"@)
    ||| l == lower_seq("tsx"@) || l == lower_seq("txt"@) || l == lower_seq("xml"@)
    ||| l == lower_seq("yaml"@) || l == lower_seq("yml"@)
}

/// A plain classifier (`new`, `new_in`) searches as text every file whose
/// extension is one of c, cpp, css, csv, go, h, html, java, js, json,
/// jsonl, jsx, log, md, mjs, py, rb, rs, sh, sql, svg, svelte, toml, ts,
/// tsx, txt, xml, yaml and yml (in any case), when no plugin handles it:
/// a file that a classifier without text extensions takes for a binary is
/// native text to the plain classifier.
pub proof fn law_default_text_extensions_are_searched(
    style: PathStyle,
    reg: PluginRegistry,
    path: Seq<char>,
    name: Seq<char>,
    ext: Seq<char>,
)
    requires
        file_name_of(comps_in(style, path)) == Some(name),
        extension_of(name) == Some(ext),
        searched_as_text(ext),
        classify_path(
            style,
            seq![],
            strings_view(reg.ignored_paths@),
            registered_of(reg.by_extension@),
            path,
        ) == FileKindView::UnsupportedBinary,
    ensures
        classify_path(
            style,
            default_text_extensions().map_values(|s: Seq<char>| lower_seq(s)),
            strings_view(reg.ignored_paths@),
            registered_of(reg.by_extension@),
            path,
        ) == FileKindView::NativeText,
{
    let known = default_text_extensions().map_values(|s: Seq<char>| lower_seq(s));
    let d = default_text_extensions();
    let l = lower_seq(ext);
    assert(!l.contains('.')) by {
        lemma_last_occurrence(name, '.');
        let j = last_index_of(name, '.');
        assert(ext == name.subrange(j + 1, name.len() as int));
        assert forall|m: int| 0 <= m < l.len() implies l[m] != '.' by {
            assert(ext[m] == name[j + 1 + m]);
        }
    }
    assert(trim_start_char(seq!['.'] + l, '.') == l) by {
        let t = seq!['.'] + l;
        assert(t[0] == '.');
        assert(t.drop_first() =~= l);
        if l.len() > 0 {
            assert(l[0] != '.');
        }
        assert(trim_start_char(l, '.') == l);
        assert(trim_start_char(t, '.') == trim_start_char(t.drop_first(), '.'));
    }
    let k: int = if l == lower_seq("c"@) { 0 } else if l == lower_seq("cpp"@) { 1 } else if l
        == lower_seq("css"@) { 2 } else if l == lower_seq("csv"@) { 3 } else if l == lower_seq(
        "go"@,
    ) { 4 } else if l == lower_seq("h"@) { 5 } else if l == lower_seq("html"@) { 6 } else if l
        == lower_seq("java"@) { 7 } else if l == lower_seq("js"@) { 8 } else if l == lower_seq(
        "json"@,
    ) { 9 } else if l == lower_seq("jsonl"@) { 10 } else if l == lower_seq("jsx"@) { 11 } else if l
        == lower_seq("log"@) { 12 } else if l == lower_seq("md"@) { 13 } else if l == lower_seq(
        "mjs"@,
    ) { 14 } else if l == lower_seq("py"@) { 15 } else if l == lower_seq("rb"@) { 16 } else if l
        == lower_seq("rs"@) { 17 } else if l == lower_seq("sh"@) { 18 } else if l == lower_seq(
        "sql"@,
    ) { 19 } else if l == lower_seq("svg"@) { 20 } else if l == lower_seq("svelte"@) { 21 } else if l
        == lower_seq("toml"@) { 22 } else if l == lower_seq("ts"@) { 23 } else if l == lower_seq(
        "tsx"@,
    ) { 24 } else if l == lower_seq("txt"@) { 25 } else if l == lower_seq("xml"@) { 26 } else if l
        == lower_seq("yaml"@) { 27 } else { 28 };
    assert(known[k] == l);
    assert(known.contains(l));
    assert(!Seq::<Seq<char>>::empty().contains(l));
}

} // verus!
