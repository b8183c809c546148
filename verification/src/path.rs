//! Unix path semantics over strings: a path is read as the sequence of its
//! components (root, `.`, `..`, names), as `std::path::Path::components`
//! reads it on Unix, and written back by pushing components one by one, as
//! `PathBuf::push` does.

use vstd::prelude::*;
use crate::text::{append_chars, chars_eq, chars_of, rfind_char, string_from_chars};

verus! {

/// One component of a path, as a mathematical value.
pub enum Comp {
    Root,
    Cur,
    Parent,
    Normal(Seq<char>),
}

/// One component of a path.
#[derive(Debug, Clone)]
pub enum Component {
    RootDir,
    CurDir,
    ParentDir,
    Normal(Vec<char>),
}

impl View for Component {
    type V = Comp;

    open spec fn view(&self) -> Comp {
        match self {
            Component::RootDir => Comp::Root,
            Component::CurDir => Comp::Cur,
            Component::ParentDir => Comp::Parent,
            Component::Normal(v) => Comp::Normal(v@),
        }
    }
}

pub open spec fn comps_view(v: Seq<Component>) -> Seq<Comp> {
    v.map_values(|c: Component| c@)
}

/// The pieces of `s` between `/` separators, empty pieces included.
pub open spec fn split_slash(s: Seq<char>) -> Seq<Seq<char>>
    decreases s.len(),
{
    if s.len() == 0 {
        seq![Seq::<char>::empty()]
    } else {
        let r = split_slash(s.drop_last());
        if s.last() == '/' {
            r.push(Seq::<char>::empty())
        } else {
            r.update(r.len() - 1, r.last().push(s.last()))
        }
    }
}

/// The component a piece between separators stands for: empty pieces and `.`
/// stand for nothing.
pub open spec fn seg_comp(g: Seq<char>) -> Seq<Comp> {
    if g.len() == 0 || g == seq!['.'] {
        seq![]
    } else if g == seq!['.', '.'] {
        seq![Comp::Parent]
    } else {
        seq![Comp::Normal(g)]
    }
}

pub open spec fn seg_comps(segs: Seq<Seq<char>>) -> Seq<Comp>
    decreases segs.len(),
{
    if segs.len() == 0 {
        seq![]
    } else {
        seg_comps(segs.drop_last()) + seg_comp(segs.last())
    }
}

pub open spec fn is_rooted(s: Seq<char>) -> bool {
    s.len() > 0 && s[0] == '/'
}

/// A relative path that begins with a `.` component.
pub open spec fn starts_with_cur(s: Seq<char>) -> bool {
    !is_rooted(s) && s.len() > 0 && s[0] == '.' && (s.len() == 1 || s[1] == '/')
}

pub open spec fn head_comps(s: Seq<char>) -> Seq<Comp> {
    if is_rooted(s) {
        seq![Comp::Root]
    } else if starts_with_cur(s) {
        seq![Comp::Cur]
    } else {
        seq![]
    }
}

/// The components of the path `s` (`Path::components` on Unix).
pub open spec fn path_comps(s: Seq<char>) -> Seq<Comp> {
    head_comps(s) + seg_comps(split_slash(s))
}

/// The text of one component (`Component::as_os_str`).
pub open spec fn comp_text(c: Comp) -> Seq<char> {
    match c {
        Comp::Root => seq!['/'],
        Comp::Cur => seq!['.'],
        Comp::Parent => seq!['.', '.'],
        Comp::Normal(t) => t,
    }
}

/// The text of a path built by pushing `cs` one by one onto an empty path
/// (`PathBuf::push`): a root restarts the path, and a separator is put
/// between two components unless the text already ends with one.
pub open spec fn join_comps(cs: Seq<Comp>) -> Seq<char>
    decreases cs.len(),
{
    if cs.len() == 0 {
        seq![]
    } else {
        let p = join_comps(cs.drop_last());
        match cs.last() {
            Comp::Root => seq!['/'],
            c => if p.len() == 0 || p.last() == '/' {
                p + comp_text(c)
            } else {
                p + seq!['/'] + comp_text(c)
            },
        }
    }
}

pub open spec fn normal_name_ok(t: Seq<char>) -> bool {
    &&& t.len() > 0
    &&& !t.contains('/')
    &&& t != seq!['.']
    &&& t != seq!['.', '.']
}

/// A component list that some path string has: a root or a `.` only in
/// front, and names that are not empty, hold no separator, and are not `.`
/// or `..`.
pub open spec fn wf_comps(cs: Seq<Comp>) -> bool {
    forall|i: int|
        0 <= i < cs.len() ==> match #[trigger] cs[i] {
            Comp::Root => i == 0,
            Comp::Cur => i == 0,
            Comp::Parent => true,
            Comp::Normal(t) => normal_name_ok(t),
        }
}

/// The last component's name, if the last component is a name
/// (`Path::file_name`).
pub open spec fn file_name_of(cs: Seq<Comp>) -> Option<Seq<char>> {
    if cs.len() > 0 {
        match cs.last() {
            Comp::Normal(t) => Some(t),
            _ => None,
        }
    } else {
        None
    }
}

/// `PathBuf::set_file_name` on component lists: the last name, if any, is
/// replaced; otherwise the name is added.
pub open spec fn with_file_name_comps(cs: Seq<Comp>, name: Seq<char>) -> Seq<Comp> {
    if file_name_of(cs) is Some {
        cs.drop_last().push(Comp::Normal(name))
    } else {
        cs.push(Comp::Normal(name))
    }
}

/// `Path::parent` on component lists.
pub open spec fn parent_comps(cs: Seq<Comp>) -> Option<Seq<Comp>> {
    if cs.len() == 0 || cs.last() == Comp::Root {
        None
    } else {
        Some(cs.drop_last())
    }
}

/// `Path::starts_with`: `base`'s components are a prefix of `cs`.
pub open spec fn comps_prefix(cs: Seq<Comp>, base: Seq<Comp>) -> bool {
    base.len() <= cs.len() && cs.subrange(0, base.len() as int) == base
}

/// The extension of a file name (`Path::extension`): the text after the last
/// `.`, unless there is none, it is the first character, or the name is `..`.
pub open spec fn extension_of(name: Seq<char>) -> Option<Seq<char>> {
    if name == seq!['.', '.'] || !name.contains('.') {
        None
    } else {
        let k = last_index_of(name, '.');
        if k == 0 {
            None
        } else {
            Some(name.subrange(k + 1, name.len() as int))
        }
    }
}

pub open spec fn last_index_of(s: Seq<char>, c: char) -> int {
    choose|k: int| 0 <= k < s.len() && s[k] == c && forall|j: int| k < j < s.len() ==> s[j] != c
}

// ---------------------------------------------------------------------------
// Lemmas

pub proof fn lemma_split_nonempty(s: Seq<char>)
    ensures
        split_slash(s).len() >= 1,
    decreases s.len(),
{
    if s.len() > 0 {
        lemma_split_nonempty(s.drop_last());
    }
}

proof fn lemma_split_no_slash(t: Seq<char>)
    requires
        !t.contains('/'),
    ensures
        split_slash(t) == seq![t],
    decreases t.len(),
{
    if t.len() > 0 {
        assert(!t.drop_last().contains('/')) by {
            if t.drop_last().contains('/') {
                let k = choose|k: int| 0 <= k < t.drop_last().len() && t.drop_last()[k] == '/';
                assert(t[k] == '/');
            }
        }
        lemma_split_no_slash(t.drop_last());
        assert(t.last() != '/') by {
            assert(t[t.len() - 1] == t.last());
        }
        assert(t.drop_last().push(t.last()) =~= t);
    } else {
        assert(t =~= Seq::<char>::empty());
    }
}

proof fn lemma_split_sep_append(p: Seq<char>, t: Seq<char>)
    requires
        !t.contains('/'),
    ensures
        split_slash(p + seq!['/'] + t) == split_slash(p).push(t),
    decreases t.len(),
{
    let s = p + seq!['/'] + t;
    if t.len() == 0 {
        assert(s.drop_last() =~= p);
        assert(t =~= Seq::<char>::empty());
    } else {
        let t2 = t.drop_last();
        assert(!t2.contains('/')) by {
            if t2.contains('/') {
                let k = choose|k: int| 0 <= k < t2.len() && t2[k] == '/';
                assert(t[k] == '/');
            }
        }
        lemma_split_sep_append(p, t2);
        assert(s.drop_last() =~= p + seq!['/'] + t2);
        assert(s.last() == t.last());
        assert(t.last() != '/') by {
            assert(t[t.len() - 1] == t.last());
        }
        lemma_split_nonempty(p);
        assert(t2.push(t.last()) =~= t);
        assert(split_slash(p).push(t2).update(split_slash(p).len() as int, t2.push(t.last()))
            =~= split_slash(p).push(t));
    }
}

proof fn lemma_seg_comps_push(segs: Seq<Seq<char>>, g: Seq<char>)
    ensures
        seg_comps(segs.push(g)) == seg_comps(segs) + seg_comp(g),
{
    assert(segs.push(g).drop_last() =~= segs);
}

proof fn lemma_join_nonempty(cs: Seq<Comp>)
    requires
        cs.len() > 0,
        wf_comps(cs),
    ensures
        join_comps(cs).len() > 0,
{
    let c = cs.last();
    assert(cs[cs.len() - 1] == c);
    match c {
        Comp::Normal(t) => {
            assert(t.len() > 0);
        },
        _ => {},
    }
}

/// The text of a well-formed component list other than `[Root]` does not end
/// with a separator.
proof fn lemma_join_last(cs: Seq<Comp>)
    requires
        wf_comps(cs),
        cs.len() > 0,
    ensures
        join_comps(cs).last() == '/' <==> cs == seq![Comp::Root],
        join_comps(cs)[0] == '/' <==> cs[0] == Comp::Root,
        cs[0] == Comp::Cur ==> join_comps(cs)[0] == '.' && (join_comps(cs).len() == 1
            || join_comps(cs)[1] == '/'),
        cs[0] != Comp::Cur && cs[0] != Comp::Root ==> !starts_with_cur(join_comps(cs)),
        join_comps(cs).len() == 1 ==> cs.len() == 1,
    decreases cs.len(),
{
    let c = cs.last();
    if cs.len() == 1 {
        match c {
            Comp::Normal(t) => {
                assert(cs[0] == c);
                assert(join_comps(cs.drop_last()) == Seq::<char>::empty());
                assert(join_comps(cs) =~= t);
                assert(t.last() != '/') by {
                    assert(t[t.len() - 1] == t.last());
                }
                assert(t[0] != '/') by {
                    assert(t.contains(t[0]));
                }
                if t.len() > 1 && t[0] == '.' {
                    assert(t[1] != '/') by {
                        assert(t.contains(t[1]));
                    }
                }
                if t.len() == 1 && t[0] == '.' {
                    assert(t =~= seq!['.']);
                }
            },
            Comp::Root => {
                assert(cs[0] == c);
                assert(join_comps(cs) =~= seq!['/']);
                assert(cs =~= seq![Comp::Root]);
            },
            Comp::Cur => {
                assert(cs[0] == c);
                assert(join_comps(cs.drop_last()) == Seq::<char>::empty());
                assert(join_comps(cs) =~= seq!['.']);
            },
            Comp::Parent => {
                assert(cs[0] == c);
                assert(join_comps(cs.drop_last()) == Seq::<char>::empty());
                assert(join_comps(cs) =~= seq!['.', '.']);
            },
        }
    } else {
        let d = cs.drop_last();
        assert(wf_comps(d)) by {
            assert forall|i: int| 0 <= i < d.len() implies match #[trigger] d[i] {
                Comp::Root => i == 0,
                Comp::Cur => i == 0,
                Comp::Parent => true,
                Comp::Normal(t) => normal_name_ok(t),
            } by {
                assert(d[i] == cs[i]);
            }
        }
        lemma_join_last(d);
        lemma_join_nonempty(d);
        assert(cs[cs.len() - 1] == c);
        let p = join_comps(d);
        assert(d[0] == cs[0]);
        match c {
            Comp::Root => {
                assert(false);
            },
            Comp::Cur => {
                assert(false);
            },
            _ => {
                let t = comp_text(c);
                assert(t.len() > 0);
                assert(t.last() != '/') by {
                    match c {
                        Comp::Normal(n) => {
                            assert(n[n.len() - 1] == n.last());
                            assert(n.contains(n.last()));
                        },
                        _ => {},
                    }
                }
                if p.last() == '/' {
                    assert(d == seq![Comp::Root]);
                    assert(join_comps(cs) =~= p + t);
                    assert((p + t).last() == t.last());
                    assert(cs != seq![Comp::Root]);
                } else {
                    assert(join_comps(cs) =~= p + seq!['/'] + t);
                    assert((p + seq!['/'] + t).last() == t.last());
                    assert(cs.len() != 1);
                }
                assert(join_comps(cs)[0] == p[0]);
                if p.len() > 1 {
                    assert(join_comps(cs)[1] == p[1]);
                } else {
                    // p is a single character: "/", "." or a one-letter name
                    if p.last() != '/' {
                        assert(join_comps(cs)[1] == '/');
                        assert(d.len() == 1);
                        assert(d[0] == cs[0]);
                        match d[0] {
                            Comp::Normal(n) => {
                                assert(join_comps(d.drop_last()) == Seq::<char>::empty());
                                assert(p =~= n);
                                if n[0] == '.' {
                                    assert(n =~= seq!['.']);
                                }
                            },
                            Comp::Parent => {
                                assert(join_comps(d.drop_last()) == Seq::<char>::empty());
                                assert(p =~= seq!['.', '.']);
                            },
                            _ => {},
                        }
                    }
                }
            },
        }
    }
}

/// Reading back the text of a well-formed component list gives the list.
pub proof fn lemma_comps_of_join(cs: Seq<Comp>)
    requires
        wf_comps(cs),
    ensures
        path_comps(join_comps(cs)) == cs,
    decreases cs.len(),
{
    if cs.len() == 0 {
        assert(join_comps(cs) == Seq::<char>::empty());
        lemma_seg_comps_push(Seq::<Seq<char>>::empty(), Seq::<char>::empty());
        assert(seq![Seq::<char>::empty()] =~= Seq::<Seq<char>>::empty().push(Seq::<char>::empty()));
        assert(path_comps(Seq::<char>::empty()) =~= Seq::<Comp>::empty());
        assert(cs =~= Seq::<Comp>::empty());
    } else {
        let c = cs.last();
        assert(cs[cs.len() - 1] == c);
        let d = cs.drop_last();
        assert(wf_comps(d)) by {
            assert forall|i: int| 0 <= i < d.len() implies match #[trigger] d[i] {
                Comp::Root => i == 0,
                Comp::Cur => i == 0,
                Comp::Parent => true,
                Comp::Normal(t) => normal_name_ok(t),
            } by {
                assert(d[i] == cs[i]);
            }
        }
        lemma_comps_of_join(d);
        lemma_join_last(cs);
        let p = join_comps(d);
        let s = join_comps(cs);
        if cs.len() == 1 {
            assert(cs[0] == c);
            assert(p == Seq::<char>::empty());
            match c {
                Comp::Root => {
                    assert(s == seq!['/']);
                    assert(s =~= Seq::<char>::empty() + seq!['/'] + Seq::<char>::empty());
                    lemma_split_sep_append(Seq::<char>::empty(), Seq::<char>::empty());
                    lemma_seg_comps_push(seq![Seq::<char>::empty()], Seq::<char>::empty());
                    assert(seq![Seq::<char>::empty()].drop_last() =~= Seq::<Seq<char>>::empty());
                    assert(path_comps(s) =~= seq![Comp::Root]);
                    assert(cs =~= seq![Comp::Root]);
                },
                Comp::Cur => {
                    assert(s =~= seq!['.']);
                    lemma_split_no_slash(seq!['.']);
                    lemma_seg_comps_push(Seq::<Seq<char>>::empty(), seq!['.']);
                    assert(seq![seq!['.']] =~= Seq::<Seq<char>>::empty().push(seq!['.']));
                    assert(path_comps(s) =~= seq![Comp::Cur]);
                    assert(cs =~= seq![Comp::Cur]);
                },
                Comp::Parent => {
                    assert(s =~= seq!['.', '.']);
                    assert(!seq!['.', '.'].contains('/')) by {
                        if seq!['.', '.'].contains('/') {
                            let k = choose|k: int| 0 <= k < 2 && seq!['.', '.'][k] == '/';
                        }
                    }
                    lemma_split_no_slash(seq!['.', '.']);
                    lemma_seg_comps_push(Seq::<Seq<char>>::empty(), seq!['.', '.']);
                    assert(seq![seq!['.', '.']] =~= Seq::<Seq<char>>::empty().push(
                        seq!['.', '.'],
                    ));
                    assert(path_comps(s) =~= seq![Comp::Parent]);
                    assert(cs =~= seq![Comp::Parent]);
                },
                Comp::Normal(t) => {
                    assert(normal_name_ok(t));
                    assert(s =~= t);
                    lemma_split_no_slash(t);
                    lemma_seg_comps_push(Seq::<Seq<char>>::empty(), t);
                    assert(seq![t] =~= Seq::<Seq<char>>::empty().push(t));
                    assert(!is_rooted(s));
                    assert(path_comps(s) =~= seq![Comp::Normal(t)]);
                    assert(cs =~= seq![Comp::Normal(t)]);
                },
            }
        } else {
            lemma_join_last(d);
            lemma_join_nonempty(d);
            let t = comp_text(c);
            assert(!t.contains('/')) by {
                match c {
                    Comp::Normal(n) => {},
                    Comp::Parent => {
                        if t.contains('/') {
                            let k = choose|k: int| 0 <= k < t.len() && t[k] == '/';
                        }
                    },
                    _ => {
                        assert(false);
                    },
                }
            }
            assert(seg_comp(t) == seq![c]) by {
                match c {
                    Comp::Normal(n) => {},
                    Comp::Parent => {},
                    _ => {},
                }
            }
            if p.last() == '/' {
                // d is [Root], so the text is "/" followed by t
                assert(d =~= seq![Comp::Root]);
                assert(p =~= seq!['/']);
                assert(s =~= Seq::<char>::empty() + seq!['/'] + t);
                lemma_split_sep_append(Seq::<char>::empty(), t);
                lemma_seg_comps_push(seq![Seq::<char>::empty()], t);
                lemma_seg_comps_push(Seq::<Seq<char>>::empty(), Seq::<char>::empty());
                assert(seq![Seq::<char>::empty()] =~= Seq::<Seq<char>>::empty().push(
                    Seq::<char>::empty(),
                ));
                assert(is_rooted(s));
                assert(path_comps(s) =~= seq![Comp::Root] + seq![c]);
                assert(cs =~= seq![Comp::Root, c]);
            } else {
                assert(s =~= p + seq!['/'] + t);
                lemma_split_sep_append(p, t);
                lemma_seg_comps_push(split_slash(p), t);
                assert(head_comps(s) == head_comps(p)) by {
                    assert(s[0] == p[0]);
                    if p.len() > 1 {
                        assert(s[1] == p[1]);
                    } else {
                        assert(s[1] == '/');
                    }
                }
                assert(path_comps(s) =~= path_comps(p) + seq![c]);
                assert(cs =~= d.push(c));
            }
        }
    }
}

proof fn lemma_split_pieces_no_slash(s: Seq<char>)
    ensures
        forall|k: int| 0 <= k < split_slash(s).len() ==> !(#[trigger] split_slash(s)[k]).contains('/'),
    decreases s.len(),
{
    if s.len() > 0 {
        lemma_split_pieces_no_slash(s.drop_last());
        lemma_split_nonempty(s.drop_last());
        let r = split_slash(s.drop_last());
        if s.last() != '/' {
            let u = r.update(r.len() - 1, r.last().push(s.last()));
            assert forall|k: int| 0 <= k < u.len() implies !(#[trigger] u[k]).contains('/') by {
                if k == r.len() - 1 {
                    let g = r.last().push(s.last());
                    if g.contains('/') {
                        let m = choose|m: int| 0 <= m < g.len() && g[m] == '/';
                        if m < r.last().len() {
                            assert(r[r.len() - 1].contains('/')) by {
                                assert(r[r.len() - 1][m] == '/');
                            }
                        }
                    }
                }
            }
        } else {
            let u = r.push(Seq::<char>::empty());
            assert forall|k: int| 0 <= k < u.len() implies !(#[trigger] u[k]).contains('/') by {
                if k < r.len() {
                    assert(u[k] == r[k]);
                }
            }
        }
    }
}

proof fn lemma_seg_comps_wf(segs: Seq<Seq<char>>)
    requires
        forall|k: int| 0 <= k < segs.len() ==> !(#[trigger] segs[k]).contains('/'),
    ensures
        forall|i: int|
            0 <= i < seg_comps(segs).len() ==> match #[trigger] seg_comps(segs)[i] {
                Comp::Root => false,
                Comp::Cur => false,
                Comp::Parent => true,
                Comp::Normal(t) => normal_name_ok(t),
            },
    decreases segs.len(),
{
    if segs.len() > 0 {
        let d = segs.drop_last();
        assert forall|k: int| 0 <= k < d.len() implies !(#[trigger] d[k]).contains('/') by {
            assert(d[k] == segs[k]);
        }
        lemma_seg_comps_wf(d);
        let g = segs.last();
        assert(!g.contains('/')) by {
            assert(segs[segs.len() - 1] == g);
        }
        let a = seg_comps(d);
        let r = seg_comps(segs);
        assert(r == a + seg_comp(g));
        assert forall|i: int| 0 <= i < r.len() implies match #[trigger] r[i] {
            Comp::Root => false,
            Comp::Cur => false,
            Comp::Parent => true,
            Comp::Normal(t) => normal_name_ok(t),
        } by {
            if i < a.len() {
                assert(r[i] == a[i]);
            }
        }
    }
}

/// The components of any path text are well formed.
pub proof fn lemma_path_comps_wf(s: Seq<char>)
    ensures
        wf_comps(path_comps(s)),
{
    lemma_split_pieces_no_slash(s);
    lemma_seg_comps_wf(split_slash(s));
    let h = head_comps(s);
    let t = seg_comps(split_slash(s));
    let cs = path_comps(s);
    assert forall|i: int| 0 <= i < cs.len() implies match #[trigger] cs[i] {
        Comp::Root => i == 0,
        Comp::Cur => i == 0,
        Comp::Parent => true,
        Comp::Normal(n) => normal_name_ok(n),
    } by {
        if i >= h.len() {
            assert(cs[i] == t[i - h.len()]);
        } else {
            assert(cs[i] == h[i]);
        }
    }
}

// ---------------------------------------------------------------------------
// Executable functions

/// Whether the piece `g` is `.`.
fn is_dot(g: &Vec<char>) -> (r: bool)
    ensures
        r == (g@ == seq!['.']),
{
    let r = g.len() == 1 && g[0] == '.';
    proof {
        if g@.len() == 1 && g@[0] == '.' {
            assert(g@ =~= seq!['.']);
        }
    }
    r
}

fn is_dot_dot(g: &Vec<char>) -> (r: bool)
    ensures
        r == (g@ == seq!['.', '.']),
{
    let r = g.len() == 2 && g[0] == '.' && g[1] == '.';
    proof {
        if g@.len() == 2 && g@[0] == '.' && g@[1] == '.' {
            assert(g@ =~= seq!['.', '.']);
        }
    }
    r
}

/// Appends the component that the piece `g` stands for.
fn push_segment(out: &mut Vec<Component>, g: Vec<char>)
    ensures
        comps_view(final(out)@) == comps_view(old(out)@) + seg_comp(g@),
{
    let ghost before = comps_view(out@);
    if g.len() == 0 || is_dot(&g) {
        assert(comps_view(out@) =~= before + seg_comp(g@));
    } else if is_dot_dot(&g) {
        out.push(Component::ParentDir);
        assert(comps_view(out@) =~= before + seg_comp(g@));
    } else {
        out.push(Component::Normal(g));
        assert(comps_view(out@) =~= before + seg_comp(g@));
    }
}

/// The components of the path `s` (`Path::components` on Unix).
pub fn components(s: &str) -> (r: Vec<Component>)
    ensures
        comps_view(r@) == path_comps(s@),
{
    let v = chars_of(s);
    let n = v.len();
    let mut out: Vec<Component> = Vec::new();
    let rooted = n > 0 && v[0] == '/';
    let cur = !rooted && n > 0 && v[0] == '.' && (n == 1 || v[1] == '/');
    if rooted {
        out.push(Component::RootDir);
    } else if cur {
        out.push(Component::CurDir);
    }
    assert(comps_view(out@) =~= head_comps(v@));
    let mut seg: Vec<char> = Vec::new();
    let mut i: usize = 0;
    assert(v@.take(0) =~= Seq::<char>::empty());
    while i < n
        invariant
            n == v.len(),
            i <= n,
            split_slash(v@.take(i as int)).len() >= 1,
            comps_view(out@) == head_comps(v@) + seg_comps(
                split_slash(v@.take(i as int)).drop_last(),
            ),
            seg@ == split_slash(v@.take(i as int)).last(),
        decreases n - i,
    {
        let ghost segs = split_slash(v@.take(i as int));
        assert(v@.take(i + 1).drop_last() =~= v@.take(i as int));
        assert(v@.take(i + 1).last() == v@[i as int]);
        if v[i] == '/' {
            let g = seg;
            seg = Vec::new();
            push_segment(&mut out, g);
            proof {
                lemma_seg_comps_push(segs.drop_last(), segs.last());
                assert(segs.drop_last().push(segs.last()) =~= segs);
                assert(split_slash(v@.take(i + 1)) == segs.push(Seq::<char>::empty()));
                assert(segs.push(Seq::<char>::empty()).drop_last() =~= segs);
            }
        } else {
            seg.push(v[i]);
            proof {
                let u = segs.update(segs.len() - 1, segs.last().push(v@[i as int]));
                assert(split_slash(v@.take(i + 1)) == u);
                assert(u.drop_last() =~= segs.drop_last());
            }
        }
        i = i + 1;
    }
    let ghost segs = split_slash(v@.take(n as int));
    push_segment(&mut out, seg);
    proof {
        lemma_seg_comps_push(segs.drop_last(), segs.last());
        assert(segs.drop_last().push(segs.last()) =~= segs);
        assert(v@.take(n as int) =~= v@);
    }
    out
}

fn comp_text_chars(c: &Component) -> (r: Vec<char>)
    ensures
        r@ == comp_text(c@),
{
    match c {
        Component::RootDir => {
            let mut v = Vec::new();
            v.push('/');
            assert(v@ =~= seq!['/']);
            v
        },
        Component::CurDir => {
            let mut v = Vec::new();
            v.push('.');
            assert(v@ =~= seq!['.']);
            v
        },
        Component::ParentDir => {
            let mut v = Vec::new();
            v.push('.');
            v.push('.');
            assert(v@ =~= seq!['.', '.']);
            v
        },
        Component::Normal(t) => t.clone(),
    }
}

/// The characters of the path built by pushing `cs` one by one.
pub fn join_chars(cs: &Vec<Component>) -> (r: Vec<char>)
    ensures
        r@ == join_comps(comps_view(cs@)),
{
    let mut out: Vec<char> = Vec::new();
    let mut i: usize = 0;
    assert(comps_view(cs@).take(0) =~= Seq::<Comp>::empty());
    while i < cs.len()
        invariant
            i <= cs.len(),
            out@ == join_comps(comps_view(cs@).take(i as int)),
        decreases cs.len() - i,
    {
        let ghost pre = comps_view(cs@).take(i as int);
        let ghost post = comps_view(cs@).take(i + 1);
        assert(post.drop_last() =~= pre);
        assert(post.last() == cs@[i as int]@);
        match &cs[i] {
            Component::RootDir => {
                out = Vec::new();
                out.push('/');
                assert(out@ =~= seq!['/']);
            },
            c => {
                let t = comp_text_chars(c);
                if out.len() == 0 || out[out.len() - 1] == '/' {
                    append_chars(&mut out, &t);
                } else {
                    out.push('/');
                    append_chars(&mut out, &t);
                }
            },
        }
        i = i + 1;
    }
    assert(comps_view(cs@).take(cs.len() as int) =~= comps_view(cs@));
    out
}

/// The path text of a component list.
pub fn join_string(cs: &Vec<Component>) -> (r: String)
    ensures
        r@ == join_comps(comps_view(cs@)),
{
    let v = join_chars(cs);
    string_from_chars(&v)
}

pub fn comp_clone(c: &Component) -> (r: Component)
    ensures
        r@ == c@,
{
    match c {
        Component::RootDir => Component::RootDir,
        Component::CurDir => Component::CurDir,
        Component::ParentDir => Component::ParentDir,
        Component::Normal(t) => Component::Normal(t.clone()),
    }
}

pub fn comp_eq(a: &Component, b: &Component) -> (r: bool)
    ensures
        r == (a@ == b@),
{
    match (a, b) {
        (Component::RootDir, Component::RootDir) => true,
        (Component::CurDir, Component::CurDir) => true,
        (Component::ParentDir, Component::ParentDir) => true,
        (Component::Normal(x), Component::Normal(y)) => chars_eq(x, y),
        _ => false,
    }
}

/// Whether `base` is a component-wise prefix of `cs` (`Path::starts_with`).
pub fn comps_starts_with(cs: &Vec<Component>, base: &Vec<Component>) -> (r: bool)
    ensures
        r == comps_prefix(comps_view(cs@), comps_view(base@)),
{
    if base.len() > cs.len() {
        return false;
    }
    let mut i: usize = 0;
    while i < base.len()
        invariant
            base.len() <= cs.len(),
            i <= base.len(),
            forall|j: int| 0 <= j < i ==> cs@[j]@ == base@[j]@,
        decreases base.len() - i,
    {
        if !comp_eq(&cs[i], &base[i]) {
            assert(comps_view(cs@).subrange(0, base.len() as int)[i as int] == cs@[i as int]@);
            return false;
        }
        i = i + 1;
    }
    assert(comps_view(cs@).subrange(0, base.len() as int) =~= comps_view(base@));
    true
}

/// Component-wise equality of two paths (`PartialEq` for `Path`).
pub fn comps_equal(a: &Vec<Component>, b: &Vec<Component>) -> (r: bool)
    ensures
        r == (comps_view(a@) == comps_view(b@)),
{
    if a.len() != b.len() {
        assert(comps_view(a@).len() != comps_view(b@).len());
        return false;
    }
    let r = comps_starts_with(a, b);
    proof {
        if r {
            assert(comps_view(a@).subrange(0, b.len() as int) =~= comps_view(a@));
        } else {
            assert(comps_view(a@).subrange(0, b.len() as int) =~= comps_view(a@));
        }
    }
    r
}

/// The components of `cs` after the prefix `base`, if `base` is a prefix
/// (`Path::strip_prefix`).
pub fn comps_strip_prefix(cs: &Vec<Component>, base: &Vec<Component>) -> (r: Option<
    Vec<Component>,
>)
    ensures
        r is Some <==> comps_prefix(comps_view(cs@), comps_view(base@)),
        r matches Some(rest) ==> comps_view(rest@) == comps_view(cs@).subrange(
            base.len() as int,
            cs.len() as int,
        ),
{
    if !comps_starts_with(cs, base) {
        return None;
    }
    let mut rest: Vec<Component> = Vec::new();
    let mut i: usize = base.len();
    while i < cs.len()
        invariant
            base.len() <= i <= cs.len(),
            comps_view(rest@) == comps_view(cs@).subrange(base.len() as int, i as int),
        decreases cs.len() - i,
    {
        let c = comp_clone(&cs[i]);
        assert(c@ == cs@[i as int]@);
        let ghost before = comps_view(rest@);
        rest.push(c);
        assert(comps_view(rest@) =~= before.push(c@));
        assert(comps_view(cs@).subrange(base.len() as int, i + 1) =~= comps_view(cs@).subrange(
            base.len() as int,
            i as int,
        ).push(comps_view(cs@)[i as int]));
        assert(comps_view(rest@) =~= comps_view(cs@).subrange(base.len() as int, i + 1));
        i = i + 1;
    }
    Some(rest)
}

/// The last component's name, if the last component is a name.
pub fn file_name_chars(cs: &Vec<Component>) -> (r: Option<Vec<char>>)
    ensures
        r is Some <==> file_name_of(comps_view(cs@)) is Some,
        r matches Some(t) ==> file_name_of(comps_view(cs@)) == Some(t@),
{
    if cs.len() == 0 {
        return None;
    }
    assert(comps_view(cs@).last() == cs@[cs.len() - 1]@);
    match &cs[cs.len() - 1] {
        Component::Normal(t) => Some(t.clone()),
        _ => None,
    }
}

/// The file name of the path `s` (`Path::file_name`).
pub fn file_name(s: &str) -> (r: Option<String>)
    ensures
        r is Some <==> file_name_of(path_comps(s@)) is Some,
        r matches Some(t) ==> file_name_of(path_comps(s@)) == Some(t@),
{
    let cs = components(s);
    match file_name_chars(&cs) {
        Some(t) => Some(string_from_chars(&t)),
        None => None,
    }
}

/// Replaces the last name of `cs` or adds one (`PathBuf::set_file_name`).
pub fn set_file_name(cs: &mut Vec<Component>, name: Vec<char>)
    ensures
        comps_view(final(cs)@) == with_file_name_comps(comps_view(old(cs)@), name@),
{
    let ghost before = comps_view(cs@);
    let has_name = match file_name_chars(cs) {
        Some(_) => true,
        None => false,
    };
    if has_name {
        cs.pop();
        assert(comps_view(cs@) =~= before.drop_last());
    }
    cs.push(Component::Normal(name));
    assert(comps_view(cs@) =~= with_file_name_comps(before, name@));
}

/// The extension of a file name (`Path::extension`).
pub fn extension_chars(name: &Vec<char>) -> (r: Option<Vec<char>>)
    ensures
        r is Some <==> extension_of(name@) is Some,
        r matches Some(e) ==> extension_of(name@) == Some(e@),
{
    if is_dot_dot(name) {
        return None;
    }
    match rfind_char(name, '.') {
        None => None,
        Some(k) => {
            proof {
                let j = last_index_of(name@, '.');
                assert(name@.contains('.'));
                assert(0 <= j < name@.len() && name@[j] == '.' && forall|m: int|
                    j < m < name@.len() ==> name@[m] != '.');
                assert(j == k) by {
                    if j < k {
                        assert(name@[k as int] != '.');
                    }
                    if j > k {
                        assert(name@[j] != '.');
                    }
                }
            }
            if k == 0 {
                None
            } else {
                let mut e: Vec<char> = Vec::new();
                let mut i: usize = k + 1;
                while i < name.len()
                    invariant
                        k + 1 <= i <= name.len(),
                        e@ == name@.subrange(k + 1, i as int),
                    decreases name.len() - i,
                {
                    e.push(name[i]);
                    assert(e@ =~= name@.subrange(k + 1, i + 1));
                    i = i + 1;
                }
                Some(e)
            }
        },
    }
}

/// Whether the path `s` is absolute (it begins at the root).
pub fn is_absolute(s: &str) -> (r: bool)
    ensures
        r == is_rooted(s@),
{
    let n = s.unicode_len();
    n > 0 && s.get_char(0) == '/'
}

} // verus!
