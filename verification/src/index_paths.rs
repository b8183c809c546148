//! Where generated sidecar files live: every source path is mirrored under an
//! index root, and a mirrored text path leads back to its source.
//!
//! Paths are read and written as component lists, in the style of a
//! platform (`PathStyle`): Unix paths (see `path`) or Windows paths, whose
//! drive, share, verbatim or device prefix is mirrored as a name of its own
//! (see `winpath`). Results are the normalized form of the path: the
//! components the platform path type would hold, written with single
//! separators. The functions without a style read paths in the style of the
//! platform the library runs on.

use vstd::prelude::*;
use crate::path::{
    comps_prefix, comps_strip_prefix, comps_starts_with, comps_view, components, file_name_chars,
    file_name_of, join_comps, join_string, lemma_comps_of_join, lemma_path_comps_wf,
    normal_name_ok, parent_comps, path_comps, set_file_name, with_file_name_comps, wf_comps, Comp,
    Component,
};
use crate::text::{
    chars_of, concat_chars, has_suffix, string_from_chars, strip_suffix_chars,
};
use crate::winpath::{
    host_path_style, kind_view, prefix_eq, prefix_kind, prefix_text, win_comps, win_components,
    win_join, win_join_string, win_text, win_text_chars, PathStyle, PrefixKind, WinPath, WinPrefix,
};
use crate::winpath::{
    ascii_upper, is_ascii_alpha, lemma_join_names, lemma_name_text, lemma_names_drop_last,
    lemma_read_drive_root, lemma_read_drive_rooted, lemma_upper_letter, win_name_ok, win_names_ok,
};

verus! {

/// A component that is copied into the mirror: the root and a leading `.`
/// are dropped.
pub open spec fn is_mirrored(c: Comp) -> bool {
    c != Comp::Root && c != Comp::Cur
}

/// The relative path under an index root that mirrors a source path.
pub open spec fn mirror_rel(cs: Seq<Comp>) -> Seq<Comp>
    decreases cs.len(),
{
    if cs.len() == 0 {
        seq![]
    } else if is_mirrored(cs.last()) {
        mirror_rel(cs.drop_last()).push(cs.last())
    } else {
        mirror_rel(cs.drop_last())
    }
}

/// The source's file name, or nothing when it has none.
pub open spec fn source_name_of(src: Seq<char>) -> Seq<char> {
    match file_name_of(path_comps(src)) {
        Some(n) => n,
        None => seq![],
    }
}

/// The components of the mirror file for `src` under `root` whose name is
/// the source's file name followed by `suffix`.
pub open spec fn mirror_file_comps(root: Seq<char>, src: Seq<char>, suffix: Seq<char>) -> Seq<
    Comp,
> {
    with_file_name_comps(
        path_comps(root) + mirror_rel(path_comps(src)),
        source_name_of(src) + suffix,
    )
}

/// The source path that a mirrored text path under `root` stands for.
pub open spec fn source_from_mirror(text: Seq<char>, root: Seq<char>) -> Option<Seq<char>> {
    let t = path_comps(text);
    let r = path_comps(root);
    if !comps_prefix(t, r) {
        None
    } else {
        let rel = t.subrange(r.len() as int, t.len() as int);
        match file_name_of(rel) {
            None => None,
            Some(n) => if !has_suffix(n, ".sm.txt"@) {
                None
            } else {
                Some(
                    join_comps(
                        with_file_name_comps(
                            seq![Comp::Root] + rel,
                            n.subrange(0, n.len() - ".sm.txt"@.len()),
                        ),
                    ),
                )
            },
        }
    }
}

/// The database file beside the first index root.
pub open spec fn state_db_path_for(index_roots: Seq<Seq<char>>) -> Option<Seq<char>> {
    if index_roots.len() == 0 {
        None
    } else {
        match parent_comps(path_comps(index_roots[0])) {
            None => None,
            Some(p) => Some(join_comps(p.push(Comp::Normal("searchmonkey.sqlite"@)))),
        }
    }
}

/// `c` with `:`, `\` and `/` replaced by `_`.
pub open spec fn sanitize_char(c: char) -> char {
    if c == ':' || c == '\\' || c == '/' {
        '_'
    } else {
        c
    }
}

pub fn mirror_relative_comps(cs: &Vec<Component>) -> (r: Vec<Component>)
    ensures
        comps_view(r@) == mirror_rel(comps_view(cs@)),
{
    let mut out: Vec<Component> = Vec::new();
    let mut i: usize = 0;
    assert(comps_view(cs@).take(0) =~= Seq::<Comp>::empty());
    while i < cs.len()
        invariant
            i <= cs.len(),
            comps_view(out@) == mirror_rel(comps_view(cs@).take(i as int)),
        decreases cs.len() - i,
    {
        let ghost pre = comps_view(cs@).take(i as int);
        let ghost post = comps_view(cs@).take(i + 1);
        assert(post.drop_last() =~= pre);
        assert(post.last() == cs@[i as int]@);
        let ghost before = comps_view(out@);
        match &cs[i] {
            Component::Normal(t) => {
                out.push(Component::Normal(t.clone()));
                assert(comps_view(out@) =~= before.push(cs@[i as int]@));
            },
            Component::ParentDir => {
                out.push(Component::ParentDir);
                assert(comps_view(out@) =~= before.push(cs@[i as int]@));
            },
            _ => {},
        }
        i = i + 1;
    }
    assert(comps_view(cs@).take(cs.len() as int) =~= comps_view(cs@));
    out
}

/// The relative path under an index root that mirrors `source_path` in
/// `style`: its names and `..` components (on Windows, after a name for its
/// prefix), without the root.
pub fn mirror_relative_path_for(style: PathStyle, source_path: &str) -> (r: String)
    ensures
        r@ == join_in(style, Seq::<char>::empty(), mirror_rel_in(style, source_path@)),
{
    let rel = mirror_rel_exec(style, source_path);
    let empty: Vec<char> = Vec::new();
    assert(empty@ =~= Seq::<char>::empty());
    write_path(style, &empty, &rel)
}

/// The relative path under an index root that mirrors `source_path`.
pub fn mirror_relative_path(source_path: &str) -> (r: String)
    ensures
        r@ == join_in(PathStyle::Unix, Seq::<char>::empty(), mirror_rel_in(PathStyle::Unix, source_path@))
            || r@ == join_in(
            PathStyle::Windows,
            Seq::<char>::empty(),
            mirror_rel_in(PathStyle::Windows, source_path@),
        ),
{
    mirror_relative_path_for(host_path_style(), source_path)
}

/// `t` with `:`, `\` and `/` replaced by `_`.
pub open spec fn sanitize_seq(t: Seq<char>) -> Seq<char> {
    t.map_values(|c: char| sanitize_char(c))
}

/// The name a Windows prefix is mirrored as: the drive letter,
/// `UNC_server_share`, `VERBATIM_name` or `DEVICE_name`, sanitized.
pub open spec fn prefix_mirror_name(k: PrefixKind) -> Seq<char> {
    match k {
        PrefixKind::Disk(d) => seq![d],
        PrefixKind::VerbatimDisk(d) => seq![d],
        PrefixKind::UNC(a, b) => "UNC_"@ + sanitize_seq(a) + "_"@ + sanitize_seq(b),
        PrefixKind::VerbatimUNC(a, b) => "UNC_"@ + sanitize_seq(a) + "_"@ + sanitize_seq(b),
        PrefixKind::Verbatim(v) => "VERBATIM_"@ + sanitize_seq(v),
        PrefixKind::DeviceNS(v) => "DEVICE_"@ + sanitize_seq(v),
    }
}

/// The components of `s` read in `style` (on Windows, those after the
/// prefix).
pub open spec fn comps_in(style: PathStyle, s: Seq<char>) -> Seq<Comp> {
    match style {
        PathStyle::Unix => path_comps(s),
        PathStyle::Windows => win_comps(s),
    }
}

/// The text of the prefix of `s` in `style` (Unix paths have none).
pub open spec fn prefix_in(style: PathStyle, s: Seq<char>) -> Seq<char> {
    match style {
        PathStyle::Unix => Seq::<char>::empty(),
        PathStyle::Windows => prefix_text(s),
    }
}

/// The text of a path with prefix text `p` and components `cs` in `style`.
pub open spec fn join_in(style: PathStyle, p: Seq<char>, cs: Seq<Comp>) -> Seq<char> {
    match style {
        PathStyle::Unix => join_comps(cs),
        PathStyle::Windows => win_join(p, cs),
    }
}

/// The relative path under an index root that mirrors `s` in `style`: a
/// Windows prefix becomes a name of its own.
pub open spec fn mirror_rel_in(style: PathStyle, s: Seq<char>) -> Seq<Comp> {
    match style {
        PathStyle::Unix => mirror_rel(path_comps(s)),
        PathStyle::Windows => match prefix_kind(s) {
            Some(k) => seq![Comp::Normal(prefix_mirror_name(k))] + mirror_rel(win_comps(s)),
            None => mirror_rel(win_comps(s)),
        },
    }
}

/// The file name of `src` in `style`, or nothing.
pub open spec fn source_name_in(style: PathStyle, src: Seq<char>) -> Seq<char> {
    match file_name_of(comps_in(style, src)) {
        Some(n) => n,
        None => seq![],
    }
}

/// The text of the mirror file for `src` under `root` in `style`, named
/// after the source's file name followed by `suffix`.
pub open spec fn mirror_file_in(style: PathStyle, root: Seq<char>, src: Seq<char>, suffix: Seq<
    char,
>) -> Seq<char> {
    join_in(
        style,
        prefix_in(style, root),
        with_file_name_comps(
            comps_in(style, root) + mirror_rel_in(style, src),
            source_name_in(style, src) + suffix,
        ),
    )
}

/// The mirror file for `src` under `root` in the style of the platform,
/// Unix or Windows.
pub open spec fn mirror_file_on_host(root: Seq<char>, src: Seq<char>, suffix: Seq<char>, r: Seq<
    char,
>) -> bool {
    r == mirror_file_in(PathStyle::Unix, root, src, suffix) || r == mirror_file_in(
        PathStyle::Windows,
        root,
        src,
        suffix,
    )
}

/// On Unix the mirror file is the text of `mirror_file_comps`.
pub proof fn lemma_mirror_file_unix(root: Seq<char>, src: Seq<char>, suffix: Seq<char>)
    ensures
        mirror_file_in(PathStyle::Unix, root, src, suffix) == join_comps(
            mirror_file_comps(root, src, suffix),
        ),
{
}

/// `v` with `:`, `\` and `/` replaced by `_`.
fn sanitize_chars(v: &Vec<char>) -> (r: Vec<char>)
    ensures
        r@ == sanitize_seq(v@),
{
    let mut out: Vec<char> = Vec::new();
    let mut i: usize = 0;
    while i < v.len()
        invariant
            i <= v.len(),
            out@ == v@.subrange(0, i as int).map_values(|c: char| sanitize_char(c)),
        decreases v.len() - i,
    {
        let c = v[i];
        let d = if c == ':' || c == '\\' || c == '/' {
            '_'
        } else {
            c
        };
        out.push(d);
        assert(out@ =~= v@.subrange(0, i + 1).map_values(|c: char| sanitize_char(c)));
        i = i + 1;
    }
    assert(v@.subrange(0, v@.len() as int) =~= v@);
    out
}

/// The name a Windows prefix is mirrored as.
fn prefix_mirror_name_chars(k: &WinPrefix) -> (r: Vec<char>)
    ensures
        r@ == prefix_mirror_name(k@),
{
    match k {
        WinPrefix::Disk(d) => {
            let mut v = Vec::new();
            v.push(*d);
            assert(v@ =~= seq![*d]);
            v
        },
        WinPrefix::VerbatimDisk(d) => {
            let mut v = Vec::new();
            v.push(*d);
            assert(v@ =~= seq![*d]);
            v
        },
        WinPrefix::UNC(a, b) => concat_chars(
            &concat_chars(&concat_chars(&chars_of("UNC_"), &sanitize_chars(a)), &chars_of("_")),
            &sanitize_chars(b),
        ),
        WinPrefix::VerbatimUNC(a, b) => concat_chars(
            &concat_chars(&concat_chars(&chars_of("UNC_"), &sanitize_chars(a)), &chars_of("_")),
            &sanitize_chars(b),
        ),
        WinPrefix::Verbatim(v) => concat_chars(&chars_of("VERBATIM_"), &sanitize_chars(v)),
        WinPrefix::DeviceNS(v) => concat_chars(&chars_of("DEVICE_"), &sanitize_chars(v)),
    }
}

/// The path `s` read in `style`.
pub fn read_path(style: PathStyle, s: &str) -> (r: WinPath)
    ensures
        kind_view(r.prefix) == match style {
            PathStyle::Unix => None,
            PathStyle::Windows => prefix_kind(s@),
        },
        r.prefix_text@ == prefix_in(style, s@),
        comps_view(r.comps@) == comps_in(style, s@),
{
    match style {
        PathStyle::Unix => {
            let v: Vec<char> = Vec::new();
            assert(v@ =~= Seq::<char>::empty());
            WinPath { prefix: None, prefix_text: v, comps: components(s) }
        },
        PathStyle::Windows => win_components(s),
    }
}

/// The text of a path with prefix text `p` and components `cs` in `style`.
pub fn write_path(style: PathStyle, p: &Vec<char>, cs: &Vec<Component>) -> (r: String)
    ensures
        r@ == join_in(style, p@, comps_view(cs@)),
{
    match style {
        PathStyle::Unix => join_string(cs),
        PathStyle::Windows => win_join_string(p, cs),
    }
}

/// The relative components that mirror the path `s` in `style`.
fn mirror_rel_exec(style: PathStyle, s: &str) -> (r: Vec<Component>)
    ensures
        comps_view(r@) == mirror_rel_in(style, s@),
{
    let p = read_path(style, s);
    let rel = mirror_relative_comps(&p.comps);
    match p.prefix {
        None => {
            proof {
                if style == PathStyle::Windows {
                    assert(prefix_kind(s@) is None);
                }
            }
            rel
        },
        Some(k) => {
            let mut out: Vec<Component> = Vec::new();
            out.push(Component::Normal(prefix_mirror_name_chars(&k)));
            let ghost first = comps_view(out@);
            append_comps(&mut out, &rel);
            assert(comps_view(out@) =~= seq![Comp::Normal(prefix_mirror_name(k@))] + comps_view(rel@));
            out
        },
    }
}

/// Appends the components `rel` to `cs`.
fn append_comps(cs: &mut Vec<Component>, rel: &Vec<Component>)
    ensures
        comps_view(final(cs)@) == comps_view(old(cs)@) + comps_view(rel@),
{
    let ghost base = comps_view(cs@);
    let mut i: usize = 0;
    while i < rel.len()
        invariant
            i <= rel.len(),
            comps_view(cs@) == base + comps_view(rel@).take(i as int),
        decreases rel.len() - i,
    {
        let c = crate::path::comp_clone(&rel[i]);
        let ghost before = comps_view(cs@);
        cs.push(c);
        assert(comps_view(cs@) =~= before.push(rel@[i as int]@));
        assert(comps_view(rel@).take(i + 1) =~= comps_view(rel@).take(i as int).push(
            comps_view(rel@)[i as int],
        ));
        i = i + 1;
    }
    assert(comps_view(rel@).take(rel.len() as int) =~= comps_view(rel@));
}

/// The mirror file for `source_path` under `index_root` in `style`, named
/// after the source's file name followed by `suffix`.
pub fn mirror_file_path_for(style: PathStyle, index_root: &str, source_path: &str, suffix: &str) -> (r: String)
    ensures
        r@ == mirror_file_in(style, index_root@, source_path@, suffix@),
{
    let src = read_path(style, source_path);
    let name: Vec<char> = match file_name_chars(&src.comps) {
        Some(n) => n,
        None => Vec::new(),
    };
    assert(name@ == source_name_in(style, source_path@));
    let rel = mirror_rel_exec(style, source_path);
    let root = read_path(style, index_root);
    let mut cs = root.comps;
    append_comps(&mut cs, &rel);
    let sfx = chars_of(suffix);
    let full = concat_chars(&name, &sfx);
    set_file_name(&mut cs, full);
    write_path(style, &root.prefix_text, &cs)
}

/// The mirrored generated-text path of `source_path` under `index_root` in
/// `style`.
pub fn mirror_text_path_for(style: PathStyle, index_root: &str, source_path: &str) -> (r: String)
    ensures
        r@ == mirror_file_in(style, index_root@, source_path@, ".sm.txt"@),
{
    mirror_file_path_for(style, index_root, source_path, ".sm.txt")
}

/// The mirrored generated-text path of `source_path` under `index_root`.
pub fn mirror_text_path(index_root: &str, source_path: &str) -> (r: String)
    ensures
        mirror_file_on_host(index_root@, source_path@, ".sm.txt"@, r@),
{
    mirror_file_path_for(host_path_style(), index_root, source_path, ".sm.txt")
}

/// The mirrored metadata path of `source_path` under `index_root`.
pub fn mirror_meta_path(index_root: &str, source_path: &str) -> (r: String)
    ensures
        mirror_file_on_host(index_root@, source_path@, ".sm.meta"@, r@),
{
    mirror_file_path_for(host_path_style(), index_root, source_path, ".sm.meta")
}

/// Where a plugin writes the text before it is promoted.
pub fn mirror_text_tmp_path(index_root: &str, source_path: &str) -> (r: String)
    ensures
        mirror_file_on_host(index_root@, source_path@, ".sm.txt.tmp"@, r@),
{
    mirror_file_path_for(host_path_style(), index_root, source_path, ".sm.txt.tmp")
}

/// Where a plugin writes the metadata before it is promoted.
pub fn mirror_meta_tmp_path(index_root: &str, source_path: &str) -> (r: String)
    ensures
        mirror_file_on_host(index_root@, source_path@, ".sm.meta.tmp"@, r@),
{
    mirror_file_path_for(host_path_style(), index_root, source_path, ".sm.meta.tmp")
}

/// The mirrored failure-state path of `source_path` under `index_root`.
pub fn mirror_failure_state_path(index_root: &str, source_path: &str) -> (r: String)
    ensures
        mirror_file_on_host(index_root@, source_path@, ".sm.state"@, r@),
{
    mirror_file_path_for(host_path_style(), index_root, source_path, ".sm.state")
}

/// The directory under `root` in `style` that mirrors the directory
/// `search`.
pub open spec fn mirror_search_in(style: PathStyle, root: Seq<char>, search: Seq<char>) -> Seq<
    char,
> {
    join_in(style, prefix_in(style, root), comps_in(style, root) + mirror_rel_in(style, search))
}

/// The directory under `index_root` in `style` that mirrors the directory
/// `search_path`.
pub fn mirror_search_path_for(style: PathStyle, index_root: &str, search_path: &str) -> (r: String)
    ensures
        r@ == mirror_search_in(style, index_root@, search_path@),
{
    let rel = mirror_rel_exec(style, search_path);
    let root = read_path(style, index_root);
    let mut cs = root.comps;
    append_comps(&mut cs, &rel);
    write_path(style, &root.prefix_text, &cs)
}

/// The directory under `index_root` that mirrors the directory `search_path`.
pub fn mirror_search_path(index_root: &str, search_path: &str) -> (r: String)
    ensures
        r@ == mirror_search_in(PathStyle::Unix, index_root@, search_path@) || r@
            == mirror_search_in(PathStyle::Windows, index_root@, search_path@),
{
    mirror_search_path_for(host_path_style(), index_root, search_path)
}

/// The source path that the generated text file `text_path` under
/// `index_root` was made from on Unix: the part below the root, read from
/// `/`, with the `.sm.txt` suffix taken off its name.
fn source_path_from_mirror_text_path_with_root_unix(text_path: &str, index_root: &str) -> (r:
    Option<String>)
    ensures
        r is Some <==> source_from_mirror(text_path@, index_root@) is Some,
        r matches Some(s) ==> source_from_mirror(text_path@, index_root@) == Some(s@),
{
    let t = components(text_path);
    let root = components(index_root);
    let rel = match comps_strip_prefix(&t, &root) {
        Some(rel) => rel,
        None => return None,
    };
    let name = match file_name_chars(&rel) {
        Some(n) => n,
        None => return None,
    };
    let sfx = chars_of(".sm.txt");
    let source_name = match strip_suffix_chars(&name, &sfx) {
        Some(n) => n,
        None => return None,
    };
    let mut cs: Vec<Component> = Vec::new();
    cs.push(Component::RootDir);
    let ghost base = comps_view(cs@);
    assert(base =~= seq![Comp::Root]);
    let mut i: usize = 0;
    while i < rel.len()
        invariant
            i <= rel.len(),
            base == seq![Comp::Root],
            comps_view(cs@) == base + comps_view(rel@).take(i as int),
        decreases rel.len() - i,
    {
        let c = crate::path::comp_clone(&rel[i]);
        let ghost before = comps_view(cs@);
        cs.push(c);
        assert(comps_view(cs@) =~= before.push(rel@[i as int]@));
        assert(comps_view(rel@).take(i + 1) =~= comps_view(rel@).take(i as int).push(
            comps_view(rel@)[i as int],
        ));
        i = i + 1;
    }
    assert(comps_view(rel@).take(rel.len() as int) =~= comps_view(rel@));
    set_file_name(&mut cs, source_name);
    Some(join_string(&cs))
}

/// Whether the path `text` lies in the directory `root` in `style`
/// (`Path::starts_with`: on Windows the prefixes are the same too).
pub open spec fn lies_under(style: PathStyle, text: Seq<char>, root: Seq<char>) -> bool {
    &&& (style == PathStyle::Windows ==> prefix_kind(text) == prefix_kind(root))
    &&& comps_prefix(comps_in(style, text), comps_in(style, root))
}

/// The source path that a mirrored text path under `root` stands for, in
/// `style`. On Windows the first name below the root is read as a drive
/// letter: the source is that name followed by `:\`, then the rest of the
/// names, with the `.sm.txt` suffix taken off the last one.
pub open spec fn source_from_mirror_in(style: PathStyle, text: Seq<char>, root: Seq<char>) -> Option<
    Seq<char>,
> {
    match style {
        PathStyle::Unix => source_from_mirror(text, root),
        PathStyle::Windows => {
            let t = win_comps(text);
            let r = win_comps(root);
            if !lies_under(style, text, root) {
                None
            } else {
                let rel = t.subrange(r.len() as int, t.len() as int);
                match file_name_of(rel) {
                    None => None,
                    Some(n) => if !has_suffix(n, ".sm.txt"@) {
                        None
                    } else {
                        let base = win_text(rel[0]) + ":\\"@;
                        Some(
                            win_join(
                                prefix_text(base),
                                with_file_name_comps(
                                    win_comps(base) + rel.subrange(1, rel.len() as int),
                                    n.subrange(0, n.len() - ".sm.txt"@.len()),
                                ),
                            ),
                        )
                    },
                }
            }
        },
    }
}

/// The source path that the generated text file `text_path` under
/// `index_root` was made from, read in `style`.
pub fn source_path_from_mirror_text_path_with_root_for(
    style: PathStyle,
    text_path: &str,
    index_root: &str,
) -> (r: Option<String>)
    ensures
        r is Some <==> source_from_mirror_in(style, text_path@, index_root@) is Some,
        r matches Some(s) ==> source_from_mirror_in(style, text_path@, index_root@) == Some(s@),
{
    match style {
        PathStyle::Unix => source_path_from_mirror_text_path_with_root_unix(text_path, index_root),
        PathStyle::Windows => {
            let t = win_components(text_path);
            let root = win_components(index_root);
            if !prefix_eq(&t.prefix, &root.prefix) {
                return None;
            }
            let rel = match comps_strip_prefix(&t.comps, &root.comps) {
                Some(rel) => rel,
                None => return None,
            };
            let name = match file_name_chars(&rel) {
                Some(n) => n,
                None => return None,
            };
            let sfx = chars_of(".sm.txt");
            let source_name = match strip_suffix_chars(&name, &sfx) {
                Some(n) => n,
                None => return None,
            };
            let drive = win_text_chars(&rel[0]);
            let base_chars = concat_chars(&drive, &chars_of(":\\"));
            let base = string_from_chars(&base_chars);
            let b = win_components(base.as_str());
            let mut cs = b.comps;
            let ghost start = comps_view(cs@);
            let mut i: usize = 1;
            while i < rel.len()
                invariant
                    1 <= i <= rel.len(),
                    comps_view(cs@) == start + comps_view(rel@).subrange(1, i as int),
                decreases rel.len() - i,
            {
                let c = crate::path::comp_clone(&rel[i]);
                let ghost before = comps_view(cs@);
                cs.push(c);
                assert(comps_view(cs@) =~= before.push(rel@[i as int]@));
                assert(comps_view(rel@).subrange(1, i + 1) =~= comps_view(rel@).subrange(
                    1,
                    i as int,
                ).push(comps_view(rel@)[i as int]));
                i = i + 1;
            }
            set_file_name(&mut cs, source_name);
            Some(win_join_string(&b.prefix_text, &cs))
        },
    }
}

/// The source path that the generated text file `text_path` under
/// `index_root` was made from.
pub fn source_path_from_mirror_text_path_with_root(text_path: &str, index_root: &str) -> (r:
    Option<String>)
    ensures
        ({
            let u = source_from_mirror_in(PathStyle::Unix, text_path@, index_root@);
            let w = source_from_mirror_in(PathStyle::Windows, text_path@, index_root@);
            ||| (r is Some <==> u is Some) && (r matches Some(s) ==> u == Some(s@))
            ||| (r is Some <==> w is Some) && (r matches Some(s) ==> w == Some(s@))
        }),
{
    source_path_from_mirror_text_path_with_root_for(host_path_style(), text_path, index_root)
}

/// The source path of a generated text file read under the first of
/// `roots` that it lies in, in `style`.
pub open spec fn source_from_roots_in(style: PathStyle, text: Seq<char>, roots: Seq<Seq<char>>) -> Option<
    Seq<char>,
>
    decreases roots.len(),
{
    if roots.len() == 0 {
        None
    } else if lies_under(style, text, roots[0]) {
        source_from_mirror_in(style, text, roots[0])
    } else {
        source_from_roots_in(style, text, roots.subrange(1, roots.len() as int))
    }
}

/// Whether the path `text` lies in the directory `root` in `style`.
pub fn lies_under_exec(style: PathStyle, text: &str, root: &str) -> (r: bool)
    ensures
        r == lies_under(style, text@, root@),
{
    let t = read_path(style, text);
    let b = read_path(style, root);
    match style {
        PathStyle::Unix => comps_starts_with(&t.comps, &b.comps),
        PathStyle::Windows => prefix_eq(&t.prefix, &b.prefix) && comps_starts_with(
            &t.comps,
            &b.comps,
        ),
    }
}

/// The source path of a generated text file, read in `style` under the
/// first of `index_roots` that the text path lies in; nothing when it lies
/// in none.
pub fn source_path_from_mirror_text_path_for(
    style: PathStyle,
    text_path: &str,
    index_roots: &Vec<String>,
) -> (r: Option<String>)
    ensures
        ({
            let e = source_from_roots_in(style, text_path@, index_roots@.map_values(|s: String| s@));
            &&& r is Some <==> e is Some
            &&& r matches Some(s) ==> e == Some(s@)
        }),
{
    let ghost roots = index_roots@.map_values(|s: String| s@);
    let mut i: usize = 0;
    assert(roots.subrange(0, roots.len() as int) =~= roots);
    while i < index_roots.len()
        invariant
            i <= index_roots.len(),
            roots == index_roots@.map_values(|s: String| s@),
            source_from_roots_in(style, text_path@, roots) == source_from_roots_in(
                style,
                text_path@,
                roots.subrange(i as int, roots.len() as int),
            ),
        decreases index_roots.len() - i,
    {
        let ghost rest = roots.subrange(i as int, roots.len() as int);
        assert(rest[0] == index_roots@[i as int]@);
        assert(rest.subrange(1, rest.len() as int) =~= roots.subrange(i + 1, roots.len() as int));
        if lies_under_exec(style, text_path, index_roots[i].as_str()) {
            return source_path_from_mirror_text_path_with_root_for(
                style,
                text_path,
                index_roots[i].as_str(),
            );
        }
        i = i + 1;
    }
    assert(roots.subrange(i as int, roots.len() as int) =~= Seq::<Seq<char>>::empty());
    None
}

/// The source path of a generated text file, read under the first of
/// `index_roots` that the text path lies in; nothing when it lies in none.
pub fn source_path_from_mirror_text_path(text_path: &str, index_roots: &Vec<String>) -> (r:
    Option<String>)
    ensures
        ({
            let roots = index_roots@.map_values(|s: String| s@);
            let u = source_from_roots_in(PathStyle::Unix, text_path@, roots);
            let w = source_from_roots_in(PathStyle::Windows, text_path@, roots);
            ||| (r is Some <==> u is Some) && (r matches Some(s) ==> u == Some(s@))
            ||| (r is Some <==> w is Some) && (r matches Some(s) ==> w == Some(s@))
        }),
{
    source_path_from_mirror_text_path_for(host_path_style(), text_path, index_roots)
}

/// The database file beside the first index root, read and written in
/// `style`.
pub open spec fn state_db_path_in(style: PathStyle, index_roots: Seq<Seq<char>>) -> Option<Seq<char>> {
    if index_roots.len() == 0 {
        None
    } else {
        match parent_comps(comps_in(style, index_roots[0])) {
            None => None,
            Some(p) => Some(
                join_in(
                    style,
                    prefix_in(style, index_roots[0]),
                    p.push(Comp::Normal("searchmonkey.sqlite"@)),
                ),
            ),
        }
    }
}

/// On Unix the database path is `state_db_path_for`.
pub proof fn lemma_state_db_path_unix(index_roots: Seq<Seq<char>>)
    ensures
        state_db_path_in(PathStyle::Unix, index_roots) == state_db_path_for(index_roots),
{
}

/// The path `dir` with the name `name` pushed onto it, in `style`
/// (`Path::join` with a plain name).
pub fn join_name_for(style: PathStyle, dir: &str, name: &str) -> (r: String)
    ensures
        r@ == join_in(style, prefix_in(style, dir@), comps_in(style, dir@).push(Comp::Normal(name@))),
{
    let p = read_path(style, dir);
    let mut cs = p.comps;
    let ghost before = comps_view(cs@);
    let n = chars_of(name);
    cs.push(Component::Normal(n));
    assert(comps_view(cs@) =~= before.push(Comp::Normal(name@)));
    write_path(style, &p.prefix_text, &cs)
}

/// The state database path in `style`: `searchmonkey.sqlite` in the
/// directory that holds the first index root.
pub fn default_state_db_path_for(style: PathStyle, index_roots: &Vec<String>) -> (r: Option<String>)
    ensures
        r is Some <==> state_db_path_in(style, index_roots@.map_values(|s: String| s@)) is Some,
        r matches Some(p) ==> state_db_path_in(style, index_roots@.map_values(|s: String| s@))
            == Some(p@),
{
    let ghost roots = index_roots@.map_values(|s: String| s@);
    if index_roots.len() == 0 {
        return None;
    }
    assert(roots[0] == index_roots@[0]@);
    let p = read_path(style, index_roots[0].as_str());
    let mut cs = p.comps;
    if cs.len() == 0 {
        return None;
    }
    let last_is_root = match &cs[cs.len() - 1] {
        Component::RootDir => true,
        _ => false,
    };
    assert(comps_view(cs@).last() == cs@[cs.len() - 1]@);
    if last_is_root {
        return None;
    }
    let ghost before = comps_view(cs@);
    cs.pop();
    assert(comps_view(cs@) =~= before.drop_last());
    let name = chars_of("searchmonkey.sqlite");
    let ghost mid = comps_view(cs@);
    cs.push(Component::Normal(name));
    assert(comps_view(cs@) =~= mid.push(Comp::Normal("searchmonkey.sqlite"@)));
    Some(write_path(style, &p.prefix_text, &cs))
}

/// The state database path: `searchmonkey.sqlite` in the directory that
/// holds the first index root.
pub fn default_state_db_path(index_roots: &Vec<String>) -> (r: Option<String>)
    ensures
        ({
            let roots = index_roots@.map_values(|s: String| s@);
            let u = state_db_path_in(PathStyle::Unix, roots);
            let w = state_db_path_in(PathStyle::Windows, roots);
            ||| (r is Some <==> u is Some) && (r matches Some(p) ==> u == Some(p@))
            ||| (r is Some <==> w is Some) && (r matches Some(p) ==> w == Some(p@))
        }),
{
    default_state_db_path_for(host_path_style(), index_roots)
}

/// `value` with `:`, `\` and `/` replaced by `_`.
pub fn sanitize_component_text(value: &str) -> (r: String)
    ensures
        r@ == value@.map_values(|c: char| sanitize_char(c)),
{
    let v = chars_of(value);
    let mut out: Vec<char> = Vec::new();
    let mut i: usize = 0;
    while i < v.len()
        invariant
            i <= v.len(),
            out@ == v@.subrange(0, i as int).map_values(|c: char| sanitize_char(c)),
        decreases v.len() - i,
    {
        let c = v[i];
        let d = if c == ':' || c == '\\' || c == '/' {
            '_'
        } else {
            c
        };
        out.push(d);
        assert(out@ =~= v@.subrange(0, i + 1).map_values(|c: char| sanitize_char(c)));
        i = i + 1;
    }
    assert(v@.subrange(0, v@.len() as int) =~= v@);
    string_from_chars(&out)
}

// ---------------------------------------------------------------------------
// The round trip from a source path to its mirrored text path and back

proof fn lemma_mirror_rel_names(cs: Seq<Comp>)
    requires
        wf_comps(cs),
    ensures
        forall|i: int|
            0 <= i < mirror_rel(cs).len() ==> match #[trigger] mirror_rel(cs)[i] {
                Comp::Root => false,
                Comp::Cur => false,
                Comp::Parent => true,
                Comp::Normal(t) => normal_name_ok(t),
            },
        cs.len() > 0 && cs[0] == Comp::Root ==> mirror_rel(cs) == cs.subrange(1, cs.len() as int),
    decreases cs.len(),
{
    if cs.len() > 0 {
        let d = cs.drop_last();
        assert(wf_comps(d)) by {
            assert forall|i: int| 0 <= i < d.len() implies match #[trigger] d[i] {
                Comp::Root => i == 0,
                Comp::Cur => i == 0,
                Comp::Parent => true,
                Comp::Normal(t) => normal_name_ok(t),
            } by {
                assert(d[i] == cs[i]);
            }
        }
        lemma_mirror_rel_names(d);
        let c = cs.last();
        assert(cs[cs.len() - 1] == c);
        let m = mirror_rel(cs);
        assert forall|i: int| 0 <= i < m.len() implies match #[trigger] m[i] {
            Comp::Root => false,
            Comp::Cur => false,
            Comp::Parent => true,
            Comp::Normal(t) => normal_name_ok(t),
        } by {
            if i < mirror_rel(d).len() {
                assert(m[i] == mirror_rel(d)[i]);
            }
        }
        if cs[0] == Comp::Root {
            if cs.len() == 1 {
                assert(mirror_rel(d) == Seq::<Comp>::empty());
                assert(cs.subrange(1, 1) =~= Seq::<Comp>::empty());
            } else {
                assert(d[0] == Comp::Root);
                assert(is_mirrored(c)) by {
                    if c == Comp::Root || c == Comp::Cur {
                        assert(cs.len() - 1 == 0);
                    }
                }
                assert(cs.subrange(1, cs.len() as int) =~= d.subrange(1, d.len() as int).push(c));
            }
        }
    }
}

/// A source path that begins at the root and ends with a file name is
/// recovered, in normalized form, from its mirrored text path under any
/// index root.
#[verifier::spinoff_prover]
#[verifier::rlimit(40)]
pub proof fn law_mirror_text_round_trip(root: Seq<char>, src: Seq<char>)
    requires
        path_comps(src).len() > 0 && path_comps(src)[0] == Comp::Root,
        file_name_of(path_comps(src)) is Some,
    ensures
        source_from_mirror(join_comps(mirror_file_comps(root, src, ".sm.txt"@)), root) == Some(
            join_comps(path_comps(src)),
        ),
{
    reveal_strlit(".sm.txt");
    let sfx = ".sm.txt"@;
    let r = path_comps(root);
    let s = path_comps(src);
    lemma_path_comps_wf(root);
    lemma_path_comps_wf(src);
    lemma_mirror_rel_names(s);
    let rel = mirror_rel(s);
    let n = source_name_of(src);
    assert(normal_name_ok(n)) by {
        assert(s[s.len() - 1] == s.last());
    }
    let name = n + sfx;
    assert(normal_name_ok(name)) by {
        if name.contains('/') {
            let k = choose|k: int| 0 <= k < name.len() && name[k] == '/';
            if k < n.len() {
                assert(n[k] == '/');
            }
        }
        assert(name.len() > 2);
    }
    assert(rel.len() > 0 && rel.last() == s.last()) by {
        assert(s.len() >= 2) by {
            if s.len() == 1 {
                assert(s.last() == s[0]);
            }
        }
        assert(rel =~= s.subrange(1, s.len() as int));
        assert(rel.last() == s[s.len() - 1]);
    }
    assert(file_name_of(r + rel) is Some) by {
        assert((r + rel).last() == rel.last());
    }
    let m = with_file_name_comps(r + rel, name);
    assert(m =~= r + rel.drop_last().push(Comp::Normal(name)));
    let rel2 = rel.drop_last().push(Comp::Normal(name));
    assert(wf_comps(m)) by {
        assert forall|i: int| 0 <= i < m.len() implies match #[trigger] m[i] {
            Comp::Root => i == 0,
            Comp::Cur => i == 0,
            Comp::Parent => true,
            Comp::Normal(t) => normal_name_ok(t),
        } by {
            if i < r.len() {
                assert(m[i] == r[i]);
            } else if i < m.len() - 1 {
                assert(m[i] == rel[i - r.len()]);
            }
        }
    }
    lemma_comps_of_join(m);
    let text = join_comps(m);
    assert(path_comps(text) == m);
    assert(comps_prefix(m, r)) by {
        assert(m.subrange(0, r.len() as int) =~= r);
    }
    assert(m.subrange(r.len() as int, m.len() as int) =~= rel2);
    assert(file_name_of(rel2) == Some(name));
    assert(has_suffix(name, sfx)) by {
        assert(name.subrange(name.len() - sfx.len(), name.len() as int) =~= sfx);
    }
    assert(name.subrange(0, name.len() - sfx.len()) =~= n);
    let back = with_file_name_comps(seq![Comp::Root] + rel2, n);
    assert(back =~= s) by {
        assert(s =~= seq![Comp::Root] + rel);
        assert(rel =~= rel.drop_last().push(Comp::Normal(n)));
        assert((seq![Comp::Root] + rel2).last() == Comp::Normal(name));
    }
}

proof fn lemma_mirror_rel_win_names(ns: Seq<Comp>)
    requires
        win_names_ok(ns),
    ensures
        mirror_rel(ns) == ns,
        mirror_rel(seq![Comp::Root] + ns) == ns,
    decreases ns.len(),
{
    let r = seq![Comp::Root];
    if ns.len() == 0 {
        assert(r + ns =~= r);
        assert(r.drop_last() =~= Seq::<Comp>::empty());
        assert(r.last() == Comp::Root);
        assert(mirror_rel(r) == mirror_rel(Seq::<Comp>::empty()));
        assert(mirror_rel(ns) =~= Seq::<Comp>::empty());
    } else {
        let d = ns.drop_last();
        let c = ns.last();
        lemma_names_drop_last(ns);
        lemma_mirror_rel_win_names(d);
        assert(is_mirrored(c));
        assert((r + ns).drop_last() =~= r + d);
        assert((r + ns).last() == c);
        assert(d.push(c) =~= ns);
    }
}

/// The drive letter of a drive prefix, plain or verbatim.
pub open spec fn drive_letter(k: Option<PrefixKind>) -> Option<char> {
    match k {
        Some(PrefixKind::Disk(d)) => Some(d),
        Some(PrefixKind::VerbatimDisk(d)) => Some(d),
        _ => None,
    }
}

proof fn lemma_drive_prefix(s: Seq<char>)
    requires
        prefix_kind(s) matches Some(PrefixKind::Disk(_)),
    ensures
        s.len() >= 2,
        is_ascii_alpha(s[0]),
        s[1] == ':',
        prefix_text(s) == s.subrange(0, 2),
        prefix_kind(s) == Some(PrefixKind::Disk(ascii_upper(s[0]))),
{
}

proof fn lemma_drive_letter_upper(s: Seq<char>)
    requires
        drive_letter(prefix_kind(s)) is Some,
    ensures
        is_ascii_alpha(drive_letter(prefix_kind(s))->0),
        ascii_upper(drive_letter(prefix_kind(s))->0) == drive_letter(prefix_kind(s))->0,
{
    if s.len() >= 4 && s[0] == '\\' && s[1] == '\\' && s[2] == '?' && s[3] == '\\' {
        let r = s.subrange(4, s.len() as int);
        lemma_upper_letter(r[0]);
    } else {
        lemma_upper_letter(s[0]);
    }
}

/// A Windows source path on a drive, from its root down to a file name, is
/// recovered from its mirrored text path under an index root on a drive:
/// as its drive letter and `:`, the root and the same names.
#[verifier::spinoff_prover]
#[verifier::rlimit(40)]
pub proof fn law_windows_mirror_text_round_trip(root: Seq<char>, src: Seq<char>)
    requires
        prefix_kind(root) matches Some(PrefixKind::Disk(_)),
        win_comps(root).len() > 0 && win_comps(root)[0] == Comp::Root,
        win_names_ok(win_comps(root).drop_first()),
        drive_letter(prefix_kind(src)) is Some,
        win_comps(src).len() > 0 && win_comps(src)[0] == Comp::Root,
        win_names_ok(win_comps(src).drop_first()),
        file_name_of(win_comps(src)) is Some,
    ensures
        source_from_mirror_in(
            PathStyle::Windows,
            mirror_file_in(PathStyle::Windows, root, src, ".sm.txt"@),
            root,
        ) == Some(win_join(seq![drive_letter(prefix_kind(src))->0, ':'], win_comps(src))),
{
    reveal_strlit(".sm.txt");
    reveal_strlit(":\\");
    let e = Seq::<char>::empty();
    let sfx = ".sm.txt"@;
    let w = PathStyle::Windows;
    let rc = win_comps(root);
    let rn = rc.drop_first();
    let sc = win_comps(src);
    let sn = sc.drop_first();
    let d = drive_letter(prefix_kind(src))->0;
    lemma_drive_letter_upper(src);
    lemma_drive_prefix(root);
    let pt = prefix_text(root);
    assert(rc =~= seq![Comp::Root] + rn);
    assert(sc =~= seq![Comp::Root] + sn);
    // the source's names, the last of which is its file name
    assert(sn.len() > 0) by {
        if sn.len() == 0 {
            assert(sc =~= seq![Comp::Root]);
            assert(sc.last() == Comp::Root);
        }
    }
    let n = file_name_of(sc)->0;
    assert(sc.last() == sn.last());
    assert(sn.last() == Comp::Normal(n));
    lemma_names_drop_last(sn);
    assert(win_name_ok(Comp::Normal(n)));
    // the mirror's relative path: the drive as a name, then the names
    lemma_mirror_rel_win_names(sn);
    let dn = Comp::Normal(seq![d]);
    assert(mirror_rel_in(w, src) == seq![dn] + sn);
    assert(win_name_ok(dn)) by {
        assert(seq![d].len() == 1);
        if seq![d].contains('\\') || seq![d].contains('/') {
            let k = choose|k: int| 0 <= k < 1 && (seq![d][k] == '\\' || seq![d][k] == '/');
            assert(seq![d][k] == d);
        }
        assert(seq![d] != seq!['.']) by {
            assert(seq![d][0] == d);
            assert(seq!['.'][0] == '.');
        }
        assert(seq![d] != seq!['.', '.']) by {
            assert(seq![d].len() != seq!['.', '.'].len());
        }
    }
    let name = n + sfx;
    assert(win_name_ok(Comp::Normal(name))) by {
        lemma_name_text(Comp::Normal(n));
        if name.contains('\\') || name.contains('/') {
            let k = choose|k: int| 0 <= k < name.len() && (name[k] == '\\' || name[k] == '/');
            if k < n.len() {
                assert(name[k] == n[k]);
                assert(n.contains(n[k]));
            } else {
                assert(name[k] == sfx[k - n.len()]);
            }
        }
        assert(name.len() > 2);
        assert(name != seq!['.']) by {
            assert(name.len() != seq!['.'].len());
        }
        assert(name != seq!['.', '.']) by {
            assert(name.len() != seq!['.', '.'].len());
        }
    }
    let full = rc + (seq![dn] + sn);
    assert(file_name_of(full) == Some(n)) by {
        assert(full.last() == sn.last());
    }
    let sn2 = sn.drop_last().push(Comp::Normal(name));
    let m = rn + (seq![dn] + sn2);
    assert(with_file_name_comps(full, name) =~= seq![Comp::Root] + m);
    assert(win_names_ok(m)) by {
        assert forall|i: int| 0 <= i < m.len() implies win_name_ok(#[trigger] m[i]) by {
            if i < rn.len() {
                assert(m[i] == rn[i]);
            } else if i == rn.len() {
                assert(m[i] == dn);
            } else if i < m.len() - 1 {
                assert(m[i] == sn[i - rn.len() - 1]);
            } else {
                assert(m[i] == Comp::Normal(name));
            }
        }
    }
    // the text of the mirror file reads back as the root's drive and root,
    // then the names
    let text = mirror_file_in(w, root, src, sfx);
    assert(text == win_join(pt, seq![Comp::Root] + m));
    lemma_join_names(pt, m);
    assert(pt.len() == 2 && pt[0] == root[0] && pt[1] == ':');
    lemma_read_drive_rooted(pt, m);
    assert(text == pt + seq!['\\'] + win_join(e, m));
    assert(prefix_kind(text) == prefix_kind(root));
    assert(win_comps(text) == seq![Comp::Root] + m);
    assert(comps_prefix(win_comps(text), rc)) by {
        assert((seq![Comp::Root] + m).subrange(0, rc.len() as int) =~= rc);
    }
    assert(lies_under(w, text, root));
    let t = win_comps(text);
    let rel = t.subrange(rc.len() as int, t.len() as int);
    assert(rel =~= seq![dn] + sn2);
    assert(file_name_of(rel) == Some(name)) by {
        assert(rel.last() == Comp::Normal(name));
    }
    assert(has_suffix(name, sfx)) by {
        assert(name.subrange(name.len() - sfx.len(), name.len() as int) =~= sfx);
    }
    assert(name.subrange(0, name.len() - sfx.len()) =~= n);
    // the source is rebuilt from the drive name
    assert(rel[0] == dn);
    let base = win_text(dn) + ":\\"@;
    let dt = seq![d, ':'];
    assert(base =~= dt + seq!['\\']);
    lemma_read_drive_root(dt);
    assert(prefix_text(base) == dt);
    assert(win_comps(base) == seq![Comp::Root]);
    let tail = rel.subrange(1, rel.len() as int);
    assert(tail =~= sn2);
    assert(file_name_of(seq![Comp::Root] + tail) is Some) by {
        assert((seq![Comp::Root] + tail).last() == Comp::Normal(name));
    }
    assert(with_file_name_comps(seq![Comp::Root] + tail, n) =~= sc) by {
        assert(sn =~= sn.drop_last().push(Comp::Normal(n)));
    }
}

} // verus!
