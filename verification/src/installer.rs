//! Installing a `.smplugin` package: which entry names of the archive are
//! safe, which directory of the unpacked archive is the plugin, and where
//! it is installed.

use vstd::prelude::*;
use crate::path::{
    comps_equal, comps_view, components, extension_of, file_name_of, join_comps, join_string,
    lemma_comps_of_join, lemma_path_comps_wf, normal_name_ok, parent_comps, path_comps, wf_comps,
    Comp, Component,
};
use crate::text::{str_eq, to_string};

verus! {

/// A plugin that was installed: its id, version and directory.
#[derive(Debug, Clone)]
pub struct InstalledPluginPackage {
    pub plugin_id: String,
    pub version: String,
    pub install_dir: String,
}

/// Why an archive entry name is refused, if it is.
pub open spec fn entry_path_error(name: Seq<char>) -> Option<Seq<char>> {
    let cs = path_comps(name);
    if name.len() > 0 && name[0] == '/' {
        Some("plugin archive contains an absolute path"@)
    } else if exists|i: int| 0 <= i < cs.len() && !(cs[i] is Normal || cs[i] is Cur) {
        Some("plugin archive contains an invalid path"@)
    } else if normal_names(cs).len() == 0 {
        Some("plugin archive contains an empty path"@)
    } else {
        None
    }
}

/// The names among the components.
pub open spec fn normal_names(cs: Seq<Comp>) -> Seq<Comp>
    decreases cs.len(),
{
    if cs.len() == 0 {
        seq![]
    } else if cs.last() is Normal {
        normal_names(cs.drop_last()).push(cs.last())
    } else {
        normal_names(cs.drop_last())
    }
}

/// The path an accepted entry is unpacked to: the names of its path.
pub open spec fn entry_path_of(name: Seq<char>) -> Seq<char> {
    join_comps(normal_names(path_comps(name)))
}

proof fn lemma_normal_names(cs: Seq<Comp>)
    requires
        wf_comps(cs),
    ensures
        wf_comps(normal_names(cs)),
        forall|i: int| 0 <= i < normal_names(cs).len() ==> #[trigger] normal_names(cs)[i] is Normal,
    decreases cs.len(),
{
    if cs.len() > 0 {
        let t = cs.drop_last();
        assert forall|i: int| 0 <= i < t.len() implies match #[trigger] t[i] {
            Comp::Root => i == 0,
            Comp::Cur => i == 0,
            Comp::Parent => true,
            Comp::Normal(n) => normal_name_ok(n),
        } by {
            assert(t[i] == cs[i]);
        }
        lemma_normal_names(t);
        let last = cs[cs.len() - 1];
        assert(last == cs.last());
    }
}

/// An accepted archive entry stays inside the folder it is unpacked to:
/// its path is made of names only, at least one, so it is relative and
/// never climbs out.
pub proof fn law_entry_stays_inside(name: Seq<char>)
    ensures
        entry_path_error(name) is None ==> {
            let cs = path_comps(entry_path_of(name));
            &&& cs.len() > 0
            &&& forall|i: int| 0 <= i < cs.len() ==> #[trigger] cs[i] is Normal
        },
{
    let cs = path_comps(name);
    lemma_path_comps_wf(name);
    lemma_normal_names(cs);
    lemma_comps_of_join(normal_names(cs));
}

/// The relative path an archive entry is unpacked to: its names, without
/// `.` components; absolute names, `..` and empty names are refused.
pub fn safe_entry_path(name: &str) -> (r: Result<String, String>)
    ensures
        r is Err <==> entry_path_error(name@) is Some,
        r matches Err(e) ==> entry_path_error(name@) == Some(e@),
        r matches Ok(p) ==> p@ == entry_path_of(name@),
{
    if crate::path::is_absolute(name) {
        return Err(to_string("plugin archive contains an absolute path"));
    }
    let cs = components(name);
    let ghost cv = comps_view(cs@);
    let mut clean: Vec<Component> = Vec::new();
    let mut i: usize = 0;
    assert(cv.take(0) =~= Seq::<Comp>::empty());
    while i < cs.len()
        invariant
            i <= cs.len(),
            cv == comps_view(cs@),
            cv == path_comps(name@),
            !(name@.len() > 0 && name@[0] == '/'),
            forall|j: int| 0 <= j < i ==> (cv[j] is Normal || cv[j] is Cur),
            comps_view(clean@) == normal_names(cv.take(i as int)),
        decreases cs.len() - i,
    {
        assert(cv.take(i + 1).drop_last() =~= cv.take(i as int));
        assert(cv.take(i + 1).last() == cv[i as int]);
        match &cs[i] {
            Component::Normal(t) => {
                let ghost before = comps_view(clean@);
                clean.push(Component::Normal(t.clone()));
                assert(comps_view(clean@) =~= before.push(cv[i as int]));
            },
            Component::CurDir => {},
            _ => {
                assert(!(cv[i as int] is Normal || cv[i as int] is Cur));
                return Err(to_string("plugin archive contains an invalid path"));
            },
        }
        i = i + 1;
    }
    assert(cv.take(cs.len() as int) =~= cv);
    if clean.len() == 0 {
        return Err(to_string("plugin archive contains an empty path"));
    }
    Ok(join_string(&clean))
}

/// Why the unpacked archive holds no single plugin directory, if it does
/// not; `manifests` are the `plugin.toml` files found below `temp_root`.
pub open spec fn package_root_of(temp_root: Seq<char>, manifests: Seq<Seq<char>>) -> Result<
    Seq<char>,
    Seq<char>,
> {
    if manifests.len() == 0 {
        Err("plugin archive does not contain plugin.toml"@)
    } else if manifests.len() > 1 {
        Err("plugin archive must contain exactly one plugin.toml"@)
    } else {
        match parent_comps(path_comps(manifests[0])) {
            None => Err("plugin manifest must live inside a directory"@),
            Some(dir) => if dir == path_comps(temp_root) {
                Ok(join_comps(dir))
            } else if parent_comps(dir) == Some(path_comps(temp_root)) {
                Ok(join_comps(dir))
            } else {
                Err("plugin archive must unpack to a single plugin directory"@)
            },
        }
    }
}

/// The plugin directory of an unpacked archive: the directory of its one
/// manifest, which must be the archive's top or a directory right below
/// it.
pub fn detect_package_root(temp_root: &str, manifests: &Vec<String>) -> (r: Result<String, String>)
    ensures
        match (r, package_root_of(temp_root@, manifests@.map_values(|m: String| m@))) {
            (Ok(p), Ok(q)) => p@ == q,
            (Err(e), Err(f)) => e@ == f,
            _ => false,
        },
{
    if manifests.len() == 0 {
        return Err(to_string("plugin archive does not contain plugin.toml"));
    }
    if manifests.len() > 1 {
        return Err(to_string("plugin archive must contain exactly one plugin.toml"));
    }
    assert(manifests@.map_values(|m: String| m@)[0] == manifests@[0]@);
    let mut dir = components(manifests[0].as_str());
    if dir.len() == 0 {
        return Err(to_string("plugin manifest must live inside a directory"));
    }
    let last_is_root = match &dir[dir.len() - 1] {
        Component::RootDir => true,
        _ => false,
    };
    assert(comps_view(dir@).last() == dir@[dir.len() - 1]@);
    if last_is_root {
        return Err(to_string("plugin manifest must live inside a directory"));
    }
    let ghost whole = comps_view(dir@);
    dir.pop();
    assert(comps_view(dir@) =~= whole.drop_last());
    let root = components(temp_root);
    if comps_equal(&dir, &root) {
        return Ok(join_string(&dir));
    }
    if dir.len() > 0 {
        let last_root = match &dir[dir.len() - 1] {
            Component::RootDir => true,
            _ => false,
        };
        assert(comps_view(dir@).last() == dir@[dir.len() - 1]@);
        if !last_root {
            let mut up = crate::registry::clone_comps(&dir);
            let ghost d = comps_view(up@);
            up.pop();
            assert(comps_view(up@) =~= d.drop_last());
            if comps_equal(&up, &root) {
                return Ok(join_string(&dir));
            }
        }
    }
    Err(to_string("plugin archive must unpack to a single plugin directory"))
}

/// Whether the archive's name ends in `.smplugin`.
pub open spec fn is_package_name(archive_path: Seq<char>) -> bool {
    match file_name_of(path_comps(archive_path)) {
        Some(n) => extension_of(n) == Some("smplugin"@),
        None => false,
    }
}

/// Checks that the archive is a `.smplugin` package.
pub fn check_package_extension(archive_path: &str) -> (r: Result<(), String>)
    ensures
        r is Ok <==> is_package_name(archive_path@),
        r matches Err(e) ==> e@ == "plugin package must use the .smplugin extension"@,
{
    let cs = components(archive_path);
    let ok = match crate::path::file_name_chars(&cs) {
        Some(n) => match crate::path::extension_chars(&n) {
            Some(e) => {
                let es = crate::text::string_from_chars(&e);
                str_eq(es.as_str(), "smplugin")
            },
            None => false,
        },
        None => false,
    };
    if ok {
        Ok(())
    } else {
        Err(to_string("plugin package must use the .smplugin extension"))
    }
}

/// Where a plugin version is installed: `<plugin_root>/<id>/<version>`.
pub open spec fn install_dir_of(plugin_root: Seq<char>, id: Seq<char>, version: Seq<char>) -> Seq<char> {
    join_comps(path_comps(plugin_root) + path_comps(id) + path_comps(version))
}

pub fn install_dir_for(plugin_root: &str, plugin_id: &str, version: &str) -> (r: String)
    ensures
        r@ == install_dir_of(plugin_root@, plugin_id@, version@),
{
    let mut cs = components(plugin_root);
    let a = components(plugin_id);
    let b = components(version);
    let ghost c0 = comps_view(cs@);
    crate::registry::append_comps(&mut cs, &a);
    crate::registry::append_comps(&mut cs, &b);
    join_string(&cs)
}

} // verus!
