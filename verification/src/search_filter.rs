//! The `--glob` exclusions that keep a search away from sidecar files,
//! plugin manifests, files that plugins handle, and plugin directories.

use vstd::prelude::*;
use crate::index_paths::{comps_in, lies_under, lies_under_exec, read_path};
use crate::order::{sort_strings, sorted_texts};
use crate::path::{comp_text, comps_strip_prefix, comps_view, Comp, Component};
use crate::path_order::{sort_paths, sorted_paths};
use crate::winpath::{host_path_style, win_text, PathStyle};
use crate::registry::{extension_keys, strings_view, PluginRegistry};
use crate::text::{append_chars, concat, concat3, string_from_chars, to_string};

verus! {

/// The text of `texts` joined with `/` between them (`join("/")`).
pub open spec fn join_with_slash(texts: Seq<Seq<char>>) -> Seq<char>
    decreases texts.len(),
{
    if texts.len() == 0 {
        seq![]
    } else if texts.len() == 1 {
        texts[0]
    } else {
        join_with_slash(texts.drop_last()) + seq!['/'] + texts.last()
    }
}

/// The text of a component in `style`.
pub open spec fn text_in(style: PathStyle, c: Comp) -> Seq<char> {
    match style {
        PathStyle::Unix => comp_text(c),
        PathStyle::Windows => win_text(c),
    }
}

/// A component list written with `/` between the components' texts.
pub open spec fn normalized_text(style: PathStyle, cs: Seq<Comp>) -> Seq<char> {
    join_with_slash(cs.map_values(|c: Comp| text_in(style, c)))
}

/// `plugin_root` relative to `search_root`, both read in `style`, written
/// with `/`, when it lies strictly below it (`Path::strip_prefix`).
pub open spec fn relative_glob(style: PathStyle, search_root: Seq<char>, plugin_root: Seq<char>) -> Option<
    Seq<char>,
> {
    let base = comps_in(style, search_root);
    let cs = comps_in(style, plugin_root);
    if lies_under(style, plugin_root, search_root) {
        let text = normalized_text(style, cs.subrange(base.len() as int, cs.len() as int));
        if text.len() == 0 {
            None
        } else {
            Some(text)
        }
    } else {
        None
    }
}

pub open spec fn fixed_excludes() -> Seq<Seq<char>> {
    seq!["!**/*.sm.meta"@, "!**/*.sm.txt.tmp"@, "!**/*.sm.meta.tmp"@, "!**/plugin.toml"@]
}

/// The exclusion of every file with the extension `ext`.
pub open spec fn extension_glob(ext: Seq<char>) -> Seq<char> {
    "!**/*"@ + ext
}

pub open spec fn extension_globs(exts: Seq<Seq<char>>) -> Seq<Seq<char>> {
    exts.map_values(|e: Seq<char>| extension_glob(e))
}

/// The exclusion of everything below the directory `rel`.
pub open spec fn directory_glob(rel: Seq<char>) -> Seq<char> {
    "!"@ + rel + "/**"@
}

/// The exclusions of the plugin directories below `search_root`, in order.
pub open spec fn directory_globs(style: PathStyle, search_root: Seq<char>, roots: Seq<Seq<char>>) -> Seq<
    Seq<char>,
>
    decreases roots.len(),
{
    if roots.len() == 0 {
        seq![]
    } else {
        directory_globs(style, search_root, roots.drop_last()) + match relative_glob(
            style,
            search_root,
            roots.last(),
        ) {
            Some(rel) => seq![directory_glob(rel)],
            None => seq![],
        }
    }
}

/// The exclusions of a search below `search_root`, paths read in `style`:
/// the fixed ones, then one per plugin extension in ascending order, then
/// one per plugin directory below the root in ascending order of the
/// directories as paths.
pub open spec fn search_excludes(style: PathStyle, search_root: Seq<char>, reg: PluginRegistry) -> Seq<
    Seq<char>,
> {
    fixed_excludes() + extension_globs(sorted_texts(extension_keys(reg))) + directory_globs(
        style,
        search_root,
        sorted_paths(style, strings_view(reg.ignored_paths@)),
    )
}

/// `--glob` followed by each pattern, pattern by pattern.
pub open spec fn glob_args(globs: Seq<Seq<char>>) -> Seq<Seq<char>>
    decreases globs.len(),
{
    if globs.len() == 0 {
        seq![]
    } else {
        glob_args(globs.drop_last()) + seq!["--glob"@, globs.last()]
    }
}

/// The exclusion patterns handed to the search tool.
#[derive(Debug)]
pub struct SearchFilter {
    exclude_globs: Vec<String>,
}

impl View for SearchFilter {
    type V = Seq<Seq<char>>;

    closed spec fn view(&self) -> Seq<Seq<char>> {
        strings_view(self.exclude_globs@)
    }
}

fn normalize_path(style: PathStyle, cs: &Vec<Component>) -> (r: String)
    ensures
        r@ == normalized_text(style, comps_view(cs@)),
{
    let mut out: Vec<char> = Vec::new();
    let mut i: usize = 0;
    let ghost texts = comps_view(cs@).map_values(|c: Comp| text_in(style, c));
    while i < cs.len()
        invariant
            i <= cs.len(),
            texts == comps_view(cs@).map_values(|c: Comp| text_in(style, c)),
            out@ == join_with_slash(texts.take(i as int)),
        decreases cs.len() - i,
    {
        assert(texts.take(i + 1).drop_last() =~= texts.take(i as int));
        let t = match &cs[i] {
            Component::RootDir => {
                let mut v = Vec::new();
                match style {
                    PathStyle::Unix => v.push('/'),
                    PathStyle::Windows => v.push('\\'),
                }
                v
            },
            Component::CurDir => {
                let mut v = Vec::new();
                v.push('.');
                v
            },
            Component::ParentDir => {
                let mut v = Vec::new();
                v.push('.');
                v.push('.');
                v
            },
            Component::Normal(t) => t.clone(),
        };
        assert(t@ =~= texts[i as int]);
        if i > 0 {
            out.push('/');
        }
        append_chars(&mut out, &t);
        proof {
            if i == 0 {
                assert(out@ =~= texts.take(1)[0]);
            } else {
                assert(out@ =~= join_with_slash(texts.take(i as int)) + seq!['/'] + texts[i as int]);
            }
        }
        i = i + 1;
    }
    assert(texts.take(cs.len() as int) =~= texts);
    string_from_chars(&out)
}

fn relative_glob_exec(style: PathStyle, search_root: &str, plugin_root: &str) -> (r: Option<String>)
    ensures
        r is Some <==> relative_glob(style, search_root@, plugin_root@) is Some,
        r matches Some(t) ==> relative_glob(style, search_root@, plugin_root@) == Some(t@),
{
    if !lies_under_exec(style, plugin_root, search_root) {
        return None;
    }
    let base = read_path(style, search_root).comps;
    let cs = read_path(style, plugin_root).comps;
    match comps_strip_prefix(&cs, &base) {
        None => None,
        Some(rest) => {
            let text = normalize_path(style, &rest);
            if text.as_str().unicode_len() == 0 {
                None
            } else {
                Some(text)
            }
        },
    }
}

impl SearchFilter {
    /// The exclusions for a search below `search_root` with the plugins of
    /// `registry`, paths read in the style of the platform.
    pub fn for_search_root(search_root: &str, registry: &PluginRegistry) -> (r: SearchFilter)
        ensures
            r@ == search_excludes(PathStyle::Unix, search_root@, *registry) || r@ == search_excludes(
                PathStyle::Windows,
                search_root@,
                *registry,
            ),
    {
        SearchFilter::for_search_root_in(host_path_style(), search_root, registry)
    }

    /// The exclusions for a search below `search_root` with the plugins of
    /// `registry`, paths read in `style`.
    pub fn for_search_root_in(style: PathStyle, search_root: &str, registry: &PluginRegistry) -> (r:
        SearchFilter)
        ensures
            r@ == search_excludes(style, search_root@, *registry),
    {
        let mut exclude_globs: Vec<String> = Vec::new();
        exclude_globs.push(to_string("!**/*.sm.meta"));
        exclude_globs.push(to_string("!**/*.sm.txt.tmp"));
        exclude_globs.push(to_string("!**/*.sm.meta.tmp"));
        exclude_globs.push(to_string("!**/plugin.toml"));
        assert(strings_view(exclude_globs@) =~= fixed_excludes());

        let mut keys: Vec<String> = Vec::new();
        let mut k: usize = 0;
        while k < registry.by_extension.len()
            invariant
                k <= registry.by_extension.len(),
                strings_view(keys@) == extension_keys(*registry).take(k as int),
            decreases registry.by_extension.len() - k,
        {
            let e = registry.by_extension[k].extension.clone();
            let ghost before = strings_view(keys@);
            keys.push(e);
            assert(strings_view(keys@) =~= before.push(e@));
            assert(strings_view(keys@) =~= extension_keys(*registry).take(k + 1));
            k = k + 1;
        }
        assert(extension_keys(*registry).take(k as int) =~= extension_keys(*registry));
        let exts = sort_strings(&keys);
        let ghost ext_view = strings_view(exts@);
        let mut i: usize = 0;
        while i < exts.len()
            invariant
                i <= exts.len(),
                ext_view == strings_view(exts@),
                strings_view(exclude_globs@) == fixed_excludes() + extension_globs(
                    ext_view.take(i as int),
                ),
            decreases exts.len() - i,
        {
            let g = concat("!**/*", exts[i].as_str());
            assert(g@ == extension_glob(ext_view[i as int]));
            let ghost before = strings_view(exclude_globs@);
            exclude_globs.push(g);
            assert(strings_view(exclude_globs@) =~= before.push(g@));
            assert(extension_globs(ext_view.take(i + 1)) =~= extension_globs(
                ext_view.take(i as int),
            ).push(extension_glob(ext_view[i as int])));
            assert(strings_view(exclude_globs@) =~= fixed_excludes() + extension_globs(
                ext_view.take(i + 1),
            ));
            i = i + 1;
        }
        assert(ext_view.take(exts.len() as int) =~= ext_view);

        let roots = sort_paths(style, &registry.ignored_paths);
        let ghost root_view = strings_view(roots@);
        let ghost head = strings_view(exclude_globs@);
        let mut j: usize = 0;
        while j < roots.len()
            invariant
                j <= roots.len(),
                root_view == strings_view(roots@),
                strings_view(exclude_globs@) == head + directory_globs(
                    style,
                    search_root@,
                    root_view.take(j as int),
                ),
            decreases roots.len() - j,
        {
            assert(root_view.take(j + 1).drop_last() =~= root_view.take(j as int));
            match relative_glob_exec(style, search_root, roots[j].as_str()) {
                Some(rel) => {
                    let g = concat3("!", rel.as_str(), "/**");
                    assert(g@ == directory_glob(rel@));
                    let ghost before = strings_view(exclude_globs@);
                    exclude_globs.push(g);
                    assert(strings_view(exclude_globs@) =~= before.push(g@));
                    assert(strings_view(exclude_globs@) =~= head + directory_globs(
                        style,
                        search_root@,
                        root_view.take(j + 1),
                    ));
                },
                None => {
                    assert(directory_globs(style, search_root@, root_view.take(j + 1))
                        =~= directory_globs(style, search_root@, root_view.take(j as int)));
                },
            }
            j = j + 1;
        }
        assert(root_view.take(roots.len() as int) =~= root_view);
        SearchFilter { exclude_globs }
    }

    /// The exclusion patterns, in order.
    pub fn exclude_globs(&self) -> (r: &[String])
        ensures
            strings_view(r@) == self@,
    {
        self.exclude_globs.as_slice()
    }

    /// Appends `--glob` and the pattern to `args`, for each pattern in order.
    pub fn apply_to_args(&self, args: &mut Vec<String>)
        ensures
            strings_view(final(args)@) == strings_view(old(args)@) + glob_args(self@),
    {
        let ghost start = strings_view(args@);
        let ghost globs = self@;
        let mut i: usize = 0;
        while i < self.exclude_globs.len()
            invariant
                i <= self.exclude_globs.len(),
                globs == self@,
                globs == strings_view(self.exclude_globs@),
                strings_view(args@) == start + glob_args(globs.take(i as int)),
            decreases self.exclude_globs.len() - i,
        {
            let flag = to_string("--glob");
            let pat = self.exclude_globs[i].clone();
            assert(pat@ == globs[i as int]);
            let ghost before = strings_view(args@);
            args.push(flag);
            args.push(pat);
            assert(strings_view(args@) =~= before + seq![flag@, pat@]);
            assert(globs.take(i + 1).drop_last() =~= globs.take(i as int));
            assert(strings_view(args@) =~= start + glob_args(globs.take(i + 1)));
            i = i + 1;
        }
        assert(globs.take(self.exclude_globs.len() as int) =~= globs);
    }
}

/// Every extension that a plugin handles is excluded from searches, and so
/// are the plugins' meta files, so a search finds a document through its
/// generated text only.
pub proof fn law_plugin_extensions_excluded(
    style: PathStyle,
    search_root: Seq<char>,
    reg: PluginRegistry,
    ext: Seq<char>,
)
    requires
        extension_keys(reg).contains(ext),
    ensures
        search_excludes(style, search_root, reg).contains(extension_glob(ext)),
        search_excludes(style, search_root, reg).contains("!**/*.sm.meta"@),
{
    broadcast use vstd::seq_lib::group_to_multiset_ensures;

    let keys = extension_keys(reg);
    crate::order::lemma_text_order_total();
    keys.lemma_sort_by_ensures(crate::order::text_leq());
    let sorted = sorted_texts(keys);
    assert(keys.to_multiset().count(ext) > 0);
    assert(sorted.contains(ext));
    let i = choose|i: int| 0 <= i < sorted.len() && sorted[i] == ext;
    let eg = extension_globs(sorted);
    assert(eg[i] == extension_glob(ext));
    let all = search_excludes(style, search_root, reg);
    let head = fixed_excludes() + eg;
    assert(head[fixed_excludes().len() + i] == extension_glob(ext));
    assert(all[fixed_excludes().len() + i] == extension_glob(ext));
    assert(all[0] == "!**/*.sm.meta"@);
}

} // verus!
