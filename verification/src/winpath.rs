//! Windows path semantics over strings: a prefix (a drive, a UNC share, a
//! verbatim or a device name), then components separated by `\` (and by `/`
//! outside verbatim paths), as `std::path::Path::components` reads a path on
//! Windows; and the text of such a path written back with `\` separators.

use vstd::prelude::*;
use crate::path::{comps_view, Comp, Component};
use crate::text::{chars_of, skip_chars, string_from_chars, take_chars};

verus! {

/// How paths are read and written: Unix paths with `/`, or Windows paths
/// with their prefixes and `\`.
#[derive(Debug, Clone, Copy, PartialEq, Eq, Structural)]
pub enum PathStyle {
    Unix,
    Windows,
}

/// The prefix of a Windows path (`std::path::Prefix`), as a mathematical
/// value.
pub enum PrefixKind {
    Verbatim(Seq<char>),
    VerbatimUNC(Seq<char>, Seq<char>),
    VerbatimDisk(char),
    DeviceNS(Seq<char>),
    UNC(Seq<char>, Seq<char>),
    Disk(char),
}

/// The prefix of a Windows path.
#[derive(Debug, Clone)]
pub enum WinPrefix {
    Verbatim(Vec<char>),
    VerbatimUNC(Vec<char>, Vec<char>),
    VerbatimDisk(char),
    DeviceNS(Vec<char>),
    UNC(Vec<char>, Vec<char>),
    Disk(char),
}

impl View for WinPrefix {
    type V = PrefixKind;

    open spec fn view(&self) -> PrefixKind {
        match self {
            WinPrefix::Verbatim(v) => PrefixKind::Verbatim(v@),
            WinPrefix::VerbatimUNC(a, b) => PrefixKind::VerbatimUNC(a@, b@),
            WinPrefix::VerbatimDisk(d) => PrefixKind::VerbatimDisk(*d),
            WinPrefix::DeviceNS(v) => PrefixKind::DeviceNS(v@),
            WinPrefix::UNC(a, b) => PrefixKind::UNC(a@, b@),
            WinPrefix::Disk(d) => PrefixKind::Disk(*d),
        }
    }
}

/// A separator: `\`, and `/` too outside verbatim paths.
pub open spec fn is_win_sep(c: char, verbatim: bool) -> bool {
    c == '\\' || (!verbatim && c == '/')
}

pub open spec fn is_any_sep(c: char) -> bool {
    c == '\\' || c == '/'
}

pub open spec fn is_ascii_alpha(c: char) -> bool {
    ('a' <= c && c <= 'z') || ('A' <= c && c <= 'Z')
}

/// Upper-cases one ASCII letter and leaves every other character unchanged.
pub open spec fn ascii_upper(c: char) -> char {
    if 'a' <= c && c <= 'z' {
        ((c as u32) - 32) as char
    } else {
        c
    }
}

/// The length of the text in front of the first separator of `s`.
pub open spec fn piece_len(s: Seq<char>, verbatim: bool) -> nat
    decreases s.len(),
{
    if s.len() == 0 || is_win_sep(s[0], verbatim) {
        0
    } else {
        1 + piece_len(s.subrange(1, s.len() as int), verbatim)
    }
}

/// The text in front of the first separator of `s`.
pub open spec fn piece(s: Seq<char>, verbatim: bool) -> Seq<char> {
    s.subrange(0, piece_len(s, verbatim) as int)
}

/// The first two pieces of `s` (a server and a share).
pub open spec fn two_pieces(s: Seq<char>, verbatim: bool) -> (Seq<char>, Seq<char>) {
    let x = piece(s, verbatim);
    let after = if x.len() < s.len() {
        s.subrange(x.len() + 1int, s.len() as int)
    } else {
        Seq::<char>::empty()
    };
    (x, piece(after, verbatim))
}

/// The prefix of `s` and its length (`Path::components` and `Prefix::len`
/// on Windows): `\\?\UNC\server\share`, `\\?\C:`, `\\?\name`, `\\.\device`,
/// `\\server\share` or `C:`; the letter of a drive is upper-cased.
pub open spec fn win_prefix(s: Seq<char>) -> Option<(PrefixKind, nat)> {
    if s.len() >= 4 && s[0] == '\\' && s[1] == '\\' && s[2] == '?' && s[3] == '\\' {
        let r = s.subrange(4, s.len() as int);
        if r.len() >= 4 && r[0] == 'U' && r[1] == 'N' && r[2] == 'C' && is_any_sep(r[3]) {
            let (server, share) = two_pieces(r.subrange(4, r.len() as int), true);
            Some(
                (
                    PrefixKind::VerbatimUNC(server, share),
                    8 + server.len() + if share.len() > 0 {
                        1 + share.len()
                    } else {
                        0
                    },
                ),
            )
        } else if r.len() >= 2 && is_ascii_alpha(r[0]) && r[1] == ':' && (r.len() == 2
            || is_any_sep(r[2])) {
            Some((PrefixKind::VerbatimDisk(ascii_upper(r[0])), 6))
        } else {
            let v = piece(r, true);
            Some((PrefixKind::Verbatim(v), 4 + v.len()))
        }
    } else if s.len() >= 2 && is_any_sep(s[0]) && is_any_sep(s[1]) {
        let r = s.subrange(2, s.len() as int);
        if r.len() >= 2 && r[0] == '.' && is_any_sep(r[1]) {
            let d = piece(r.subrange(2, r.len() as int), false);
            Some((PrefixKind::DeviceNS(d), 4 + d.len()))
        } else {
            let (server, share) = two_pieces(r, false);
            if server.len() > 0 && share.len() > 0 {
                Some((PrefixKind::UNC(server, share), 3 + server.len() + share.len()))
            } else {
                None
            }
        }
    } else if s.len() >= 2 && is_ascii_alpha(s[0]) && s[1] == ':' {
        Some((PrefixKind::Disk(ascii_upper(s[0])), 2))
    } else {
        None
    }
}

pub open spec fn prefix_len(s: Seq<char>) -> nat {
    match win_prefix(s) {
        Some((_, n)) => n,
        None => 0,
    }
}

/// The prefix's kind, if `s` has one.
pub open spec fn prefix_kind(s: Seq<char>) -> Option<PrefixKind> {
    match win_prefix(s) {
        Some((k, _)) => Some(k),
        None => None,
    }
}

/// The text of the prefix, as written in `s`.
pub open spec fn prefix_text(s: Seq<char>) -> Seq<char> {
    s.subrange(0, prefix_len(s) as int)
}

/// The text after the prefix.
pub open spec fn after_prefix(s: Seq<char>) -> Seq<char> {
    s.subrange(prefix_len(s) as int, s.len() as int)
}

/// A verbatim prefix: there only `\` separates components.
pub open spec fn is_verbatim(k: Option<PrefixKind>) -> bool {
    match k {
        Some(PrefixKind::Verbatim(_)) => true,
        Some(PrefixKind::VerbatimUNC(_, _)) => true,
        Some(PrefixKind::VerbatimDisk(_)) => true,
        _ => false,
    }
}

/// A prefix that stands for a root of its own (all but a drive).
pub open spec fn has_implicit_root(k: Option<PrefixKind>) -> bool {
    match k {
        Some(PrefixKind::Disk(_)) => false,
        Some(_) => true,
        None => false,
    }
}

/// The pieces of `s` between separators, empty pieces included.
pub open spec fn split_win(s: Seq<char>, verbatim: bool) -> Seq<Seq<char>>
    decreases s.len(),
{
    if s.len() == 0 {
        seq![Seq::<char>::empty()]
    } else {
        let r = split_win(s.drop_last(), verbatim);
        if is_win_sep(s.last(), verbatim) {
            r.push(Seq::<char>::empty())
        } else {
            r.update(r.len() - 1, r.last().push(s.last()))
        }
    }
}

/// The component a piece stands for: empty pieces stand for nothing, and
/// `.` for nothing outside verbatim paths.
pub open spec fn win_seg_comp(g: Seq<char>, verbatim: bool) -> Seq<Comp> {
    if g.len() == 0 {
        seq![]
    } else if g == seq!['.'] {
        if verbatim {
            seq![Comp::Cur]
        } else {
            seq![]
        }
    } else if g == seq!['.', '.'] {
        seq![Comp::Parent]
    } else {
        seq![Comp::Normal(g)]
    }
}

pub open spec fn win_seg_comps(segs: Seq<Seq<char>>, verbatim: bool) -> Seq<Comp>
    decreases segs.len(),
{
    if segs.len() == 0 {
        seq![]
    } else {
        win_seg_comps(segs.drop_last(), verbatim) + win_seg_comp(segs.last(), verbatim)
    }
}

/// The root or `.` that the text after the prefix begins with: a
/// separator, or a prefix that stands for a root (a verbatim one gives
/// none), or a leading `.` when there is no root at all.
pub open spec fn win_head(k: Option<PrefixKind>, rest: Seq<char>) -> Seq<Comp> {
    let v = is_verbatim(k);
    if rest.len() > 0 && is_win_sep(rest[0], v) {
        seq![Comp::Root]
    } else if has_implicit_root(k) {
        if v {
            seq![]
        } else {
            seq![Comp::Root]
        }
    } else if rest.len() > 0 && rest[0] == '.' && (rest.len() == 1 || is_win_sep(rest[1], v)) {
        seq![Comp::Cur]
    } else {
        seq![]
    }
}

/// The components of the Windows path `s` after its prefix.
pub open spec fn win_comps(s: Seq<char>) -> Seq<Comp> {
    let k = prefix_kind(s);
    let rest = after_prefix(s);
    win_head(k, rest) + win_seg_comps(split_win(rest, is_verbatim(k)), is_verbatim(k))
}

/// The text of one component on Windows.
pub open spec fn win_text(c: Comp) -> Seq<char> {
    match c {
        Comp::Root => seq!['\\'],
        Comp::Cur => seq!['.'],
        Comp::Parent => seq!['.', '.'],
        Comp::Normal(t) => t,
    }
}

/// A drive prefix as written: a letter and `:`.
pub open spec fn is_drive_text(p: Seq<char>) -> bool {
    p.len() == 2 && is_ascii_alpha(p[0]) && p[1] == ':'
}

/// The text of a Windows path with prefix text `p` and components `cs`,
/// with `\` between components (none right after a drive, as `PathBuf::push`
/// writes them).
pub open spec fn win_join(p: Seq<char>, cs: Seq<Comp>) -> Seq<char>
    decreases cs.len(),
{
    if cs.len() == 0 {
        p
    } else {
        let a = win_join(p, cs.drop_last());
        match cs.last() {
            Comp::Root => a + seq!['\\'],
            c => if a.len() == 0 || is_any_sep(a.last()) || (cs.len() == 1 && is_drive_text(p)) {
                a + win_text(c)
            } else {
                a + seq!['\\'] + win_text(c)
            },
        }
    }
}

// ---------------------------------------------------------------------------
// Lemmas

proof fn lemma_piece_len(s: Seq<char>, verbatim: bool)
    ensures
        piece_len(s, verbatim) <= s.len(),
        forall|j: int| 0 <= j < piece_len(s, verbatim) ==> !is_win_sep(#[trigger] s[j], verbatim),
        piece_len(s, verbatim) < s.len() ==> is_win_sep(s[piece_len(s, verbatim) as int], verbatim),
    decreases s.len(),
{
    if s.len() > 0 && !is_win_sep(s[0], verbatim) {
        let t = s.subrange(1, s.len() as int);
        lemma_piece_len(t, verbatim);
        assert forall|j: int| 0 <= j < piece_len(s, verbatim) implies !is_win_sep(
            #[trigger] s[j],
            verbatim,
        ) by {
            if j > 0 {
                assert(s[j] == t[j - 1]);
            }
        }
        if piece_len(s, verbatim) < s.len() {
            assert(s[piece_len(s, verbatim) as int] == t[piece_len(t, verbatim) as int]);
        }
    }
}

pub proof fn lemma_prefix_len_bound(s: Seq<char>)
    requires
        win_prefix(s) is Some,
    ensures
        prefix_len(s) <= s.len(),
{
    if s.len() >= 4 && s[0] == '\\' && s[1] == '\\' && s[2] == '?' && s[3] == '\\' {
        let r = s.subrange(4, s.len() as int);
        lemma_piece_len(r, true);
        if r.len() >= 4 && r[0] == 'U' && r[1] == 'N' && r[2] == 'C' && is_any_sep(r[3]) {
            let a = r.subrange(4, r.len() as int);
            lemma_piece_len(a, true);
            let x = piece(a, true);
            let after = if x.len() < a.len() {
                a.subrange(x.len() + 1int, a.len() as int)
            } else {
                Seq::<char>::empty()
            };
            lemma_piece_len(after, true);
        }
    } else if s.len() >= 2 && is_any_sep(s[0]) && is_any_sep(s[1]) {
        let r = s.subrange(2, s.len() as int);
        lemma_piece_len(r, false);
        if r.len() >= 2 && r[0] == '.' && is_any_sep(r[1]) {
            lemma_piece_len(r.subrange(2, r.len() as int), false);
        } else {
            let x = piece(r, false);
            let after = if x.len() < r.len() {
                r.subrange(x.len() + 1int, r.len() as int)
            } else {
                Seq::<char>::empty()
            };
            lemma_piece_len(after, false);
        }
    }
}

proof fn lemma_piece_len_exact(s: Seq<char>, verbatim: bool, k: int)
    requires
        0 <= k <= s.len(),
        forall|j: int| 0 <= j < k ==> !is_win_sep(#[trigger] s[j], verbatim),
        k == s.len() || is_win_sep(s[k], verbatim),
    ensures
        piece_len(s, verbatim) == k,
    decreases k,
{
    if k > 0 {
        let t = s.subrange(1, s.len() as int);
        assert(!is_win_sep(s[0], verbatim));
        assert forall|j: int| 0 <= j < k - 1 implies !is_win_sep(#[trigger] t[j], verbatim) by {
            assert(t[j] == s[j + 1]);
        }
        if k < s.len() {
            assert(t[k - 1] == s[k]);
        }
        lemma_piece_len_exact(t, verbatim, k - 1);
    }
}

proof fn lemma_split_nonempty(s: Seq<char>, verbatim: bool)
    ensures
        split_win(s, verbatim).len() >= 1,
    decreases s.len(),
{
    if s.len() > 0 {
        lemma_split_nonempty(s.drop_last(), verbatim);
    }
}

proof fn lemma_seg_comps_push(segs: Seq<Seq<char>>, g: Seq<char>, verbatim: bool)
    ensures
        win_seg_comps(segs.push(g), verbatim) == win_seg_comps(segs, verbatim) + win_seg_comp(
            g,
            verbatim,
        ),
{
    assert(segs.push(g).drop_last() =~= segs);
}

/// A component that a Windows path can hold after its root: a name with no
/// separator that is not `.` or `..`, or `..`.
pub open spec fn win_name_ok(c: Comp) -> bool {
    match c {
        Comp::Normal(t) => t.len() > 0 && !t.contains('\\') && !t.contains('/') && t != seq!['.']
            && t != seq!['.', '.'],
        Comp::Parent => true,
        _ => false,
    }
}

pub open spec fn win_names_ok(ns: Seq<Comp>) -> bool {
    forall|i: int| 0 <= i < ns.len() ==> win_name_ok(#[trigger] ns[i])
}

pub proof fn lemma_names_drop_last(ns: Seq<Comp>)
    requires
        win_names_ok(ns),
        ns.len() > 0,
    ensures
        win_names_ok(ns.drop_last()),
        win_name_ok(ns.last()),
{
    assert forall|i: int| 0 <= i < ns.drop_last().len() implies win_name_ok(#[trigger] ns.drop_last()[i]) by {
        assert(ns.drop_last()[i] == ns[i]);
    }
    assert(ns[ns.len() - 1] == ns.last());
}

pub proof fn lemma_name_text(c: Comp)
    requires
        win_name_ok(c),
    ensures
        win_text(c).len() > 0,
        !win_text(c).contains('\\'),
        !win_text(c).contains('/'),
        win_seg_comp(win_text(c), false) == seq![c],
{
    match c {
        Comp::Parent => {
            assert(win_text(c) =~= seq!['.', '.']);
            if win_text(c).contains('\\') || win_text(c).contains('/') {
                let k = choose|k: int| 0 <= k < 2 && (win_text(c)[k] == '\\' || win_text(c)[k] == '/');
                assert(win_text(c)[k] == '.');
            }
            assert(seq!['.', '.'] != seq!['.']) by {
                assert(seq!['.', '.'].len() != seq!['.'].len());
            }
        },
        _ => {},
    }
}

proof fn lemma_split_win_no_sep(t: Seq<char>, verbatim: bool)
    requires
        !t.contains('\\'),
        !t.contains('/'),
    ensures
        split_win(t, verbatim) == seq![t],
    decreases t.len(),
{
    if t.len() > 0 {
        let d = t.drop_last();
        assert(!d.contains('\\') && !d.contains('/')) by {
            if d.contains('\\') {
                let k = choose|k: int| 0 <= k < d.len() && d[k] == '\\';
                assert(t[k] == '\\');
            }
            if d.contains('/') {
                let k = choose|k: int| 0 <= k < d.len() && d[k] == '/';
                assert(t[k] == '/');
            }
        }
        lemma_split_win_no_sep(d, verbatim);
        assert(!is_win_sep(t.last(), verbatim)) by {
            assert(t[t.len() - 1] == t.last());
        }
        assert(d.push(t.last()) =~= t);
    } else {
        assert(t =~= Seq::<char>::empty());
    }
}

proof fn lemma_split_win_sep_append(p: Seq<char>, t: Seq<char>, verbatim: bool)
    requires
        !t.contains('\\'),
        !t.contains('/'),
    ensures
        split_win(p + seq!['\\'] + t, verbatim) == split_win(p, verbatim).push(t),
    decreases t.len(),
{
    let s = p + seq!['\\'] + t;
    if t.len() == 0 {
        assert(s.drop_last() =~= p);
        assert(t =~= Seq::<char>::empty());
    } else {
        let t2 = t.drop_last();
        assert(!t2.contains('\\') && !t2.contains('/')) by {
            if t2.contains('\\') {
                let k = choose|k: int| 0 <= k < t2.len() && t2[k] == '\\';
                assert(t[k] == '\\');
            }
            if t2.contains('/') {
                let k = choose|k: int| 0 <= k < t2.len() && t2[k] == '/';
                assert(t[k] == '/');
            }
        }
        lemma_split_win_sep_append(p, t2, verbatim);
        assert(s.drop_last() =~= p + seq!['\\'] + t2);
        assert(s.last() == t.last());
        assert(!is_win_sep(t.last(), verbatim)) by {
            assert(t[t.len() - 1] == t.last());
        }
        lemma_split_nonempty(p, verbatim);
        assert(t2.push(t.last()) =~= t);
        assert(split_win(p, verbatim).push(t2).update(
            split_win(p, verbatim).len() as int,
            t2.push(t.last()),
        ) =~= split_win(p, verbatim).push(t));
    }
}

/// The text of names written one after another with `\` between them.
pub proof fn lemma_join_names(p: Seq<char>, ns: Seq<Comp>)
    requires
        win_names_ok(ns),
    ensures
        win_join(p, seq![Comp::Root] + ns) == p + seq!['\\'] + win_join(Seq::<char>::empty(), ns),
        ns.len() > 0 ==> win_join(Seq::<char>::empty(), ns).len() > 0 && !is_any_sep(
            win_join(Seq::<char>::empty(), ns).last(),
        ),
    decreases ns.len(),
{
    let e = Seq::<char>::empty();
    if ns.len() == 0 {
        let r = seq![Comp::Root];
        assert(seq![Comp::Root] + ns =~= r);
        assert(r.drop_last() =~= Seq::<Comp>::empty());
        assert(r.last() == Comp::Root);
        assert(win_join(p, r.drop_last()) == p);
        assert(win_join(p, r) == p + seq!['\\']);
        assert(win_join(e, ns) == e);
        assert(p + seq!['\\'] + e =~= p + seq!['\\']);
    } else {
        let d = ns.drop_last();
        let c = ns.last();
        lemma_names_drop_last(ns);
        lemma_join_names(p, d);
        lemma_name_text(c);
        let t = win_text(c);
        assert((seq![Comp::Root] + ns).drop_last() =~= seq![Comp::Root] + d);
        assert((seq![Comp::Root] + ns).last() == c);
        assert(ns.drop_last() == d);
        let a = win_join(p, seq![Comp::Root] + d);
        let b = win_join(e, d);
        assert(c != Comp::Root);
        assert(t.last() != '\\' && t.last() != '/') by {
            assert(t[t.len() - 1] == t.last());
            assert(t.contains(t.last()));
        }
        if d.len() == 0 {
            assert(a == p + seq!['\\'] + e);
            assert(a.last() == '\\');
            assert(win_join(p, seq![Comp::Root] + ns) == a + t);
            assert(win_join(e, ns) == b + t);
            assert(b == e);
            assert(a + t =~= p + seq!['\\'] + (e + t));
            assert((e + t).last() == t.last());
        } else {
            assert(a =~= p + seq!['\\'] + b);
            assert(a.last() == b.last());
            assert((seq![Comp::Root] + ns).len() != 1);
            assert(win_join(p, seq![Comp::Root] + ns) == a + seq!['\\'] + t);
            assert(win_join(e, ns) == b + seq!['\\'] + t);
            assert(a + seq!['\\'] + t =~= p + seq!['\\'] + (b + seq!['\\'] + t));
            assert((b + seq!['\\'] + t).last() == t.last());
        }
    }
}

/// Reading the names back from behind a separator.
proof fn lemma_split_names(ns: Seq<Comp>)
    requires
        win_names_ok(ns),
        ns.len() > 0,
    ensures
        split_win(seq!['\\'] + win_join(Seq::<char>::empty(), ns), false) == seq![
            Seq::<char>::empty(),
        ] + ns.map_values(|c: Comp| win_text(c)),
    decreases ns.len(),
{
    let e = Seq::<char>::empty();
    let d = ns.drop_last();
    let c = ns.last();
    lemma_names_drop_last(ns);
    lemma_name_text(c);
    lemma_join_names(e, ns);
    lemma_join_names(e, d);
    let t = win_text(c);
    let b = win_join(e, d);
    assert(ns.drop_last() == d);
    if d.len() == 0 {
        assert(win_join(e, ns) == b + t);
        assert(b == e);
        assert(seq!['\\'] + win_join(e, ns) =~= e + seq!['\\'] + t);
        lemma_split_win_sep_append(e, t, false);
        assert(split_win(e, false) == seq![e]);
        assert(ns.map_values(|x: Comp| win_text(x)) =~= seq![t]);
        assert(seq![e].push(t) =~= seq![e] + seq![t]);
    } else {
        lemma_split_names(d);
        assert(b.last() != '\\' && b.last() != '/');
        assert(win_join(e, ns) == b + seq!['\\'] + t) by {
            assert(ns.len() != 1);
        }
        assert(seq!['\\'] + win_join(e, ns) =~= (seq!['\\'] + b) + seq!['\\'] + t);
        lemma_split_win_sep_append(seq!['\\'] + b, t, false);
        assert(ns.map_values(|x: Comp| win_text(x)) =~= d.map_values(|x: Comp| win_text(x)).push(t));
        assert((seq![e] + d.map_values(|x: Comp| win_text(x))).push(t) =~= seq![e]
            + d.map_values(|x: Comp| win_text(x)).push(t));
    }
}

proof fn lemma_seg_names(ns: Seq<Comp>)
    requires
        win_names_ok(ns),
    ensures
        win_seg_comps(seq![Seq::<char>::empty()] + ns.map_values(|c: Comp| win_text(c)), false)
            == ns,
    decreases ns.len(),
{
    let e = Seq::<char>::empty();
    if ns.len() == 0 {
        let g = seq![e] + ns.map_values(|c: Comp| win_text(c));
        assert(g =~= seq![e]);
        assert(g.drop_last() =~= Seq::<Seq<char>>::empty());
        assert(g.last() == e);
        assert(win_seg_comp(e, false) =~= Seq::<Comp>::empty());
        assert(win_seg_comps(g.drop_last(), false) =~= Seq::<Comp>::empty());
        assert(win_seg_comps(g, false) =~= Seq::<Comp>::empty());
        assert(ns =~= Seq::<Comp>::empty());
    } else {
        let d = ns.drop_last();
        let c = ns.last();
        lemma_names_drop_last(ns);
        lemma_seg_names(d);
        lemma_name_text(c);
        let g = seq![e] + ns.map_values(|x: Comp| win_text(x));
        let h = seq![e] + d.map_values(|x: Comp| win_text(x));
        assert(g =~= h.push(win_text(c)));
        lemma_seg_comps_push(h, win_text(c), false);
        assert(d.push(c) =~= ns);
    }
}

/// A path written as a drive, a root and names reads back as that drive,
/// the root and the names.
pub proof fn lemma_read_drive_rooted(dt: Seq<char>, ns: Seq<Comp>)
    requires
        dt.len() == 2,
        is_ascii_alpha(dt[0]),
        dt[1] == ':',
        win_names_ok(ns),
        ns.len() > 0,
    ensures
        ({
            let s = dt + seq!['\\'] + win_join(Seq::<char>::empty(), ns);
            &&& win_prefix(s) == Some((PrefixKind::Disk(ascii_upper(dt[0])), 2nat))
            &&& prefix_text(s) == dt
            &&& win_comps(s) == seq![Comp::Root] + ns
        }),
{
    let e = Seq::<char>::empty();
    let j = win_join(e, ns);
    let s = dt + seq!['\\'] + j;
    assert(s[0] == dt[0]);
    assert(s[1] == ':');
    assert(!is_any_sep(s[0]));
    assert(s[0] != '\\');
    assert(win_prefix(s) == Some((PrefixKind::Disk(ascii_upper(dt[0])), 2nat)));
    assert(prefix_text(s) =~= dt);
    let rest = after_prefix(s);
    assert(rest =~= seq!['\\'] + j);
    let k = prefix_kind(s);
    assert(!is_verbatim(k));
    assert(rest[0] == '\\');
    assert(win_head(k, rest) == seq![Comp::Root]);
    lemma_split_names(ns);
    lemma_seg_names(ns);
}

/// A drive and a lone root read back as that drive and the root.
pub proof fn lemma_read_drive_root(dt: Seq<char>)
    requires
        dt.len() == 2,
        is_ascii_alpha(dt[0]),
        dt[1] == ':',
    ensures
        ({
            let s = dt + seq!['\\'];
            &&& win_prefix(s) == Some((PrefixKind::Disk(ascii_upper(dt[0])), 2nat))
            &&& prefix_text(s) == dt
            &&& win_comps(s) == seq![Comp::Root]
        }),
{
    let e = Seq::<char>::empty();
    let s = dt + seq!['\\'];
    assert(s[0] == dt[0]);
    assert(s[1] == ':');
    assert(s[0] != '\\');
    assert(win_prefix(s) == Some((PrefixKind::Disk(ascii_upper(dt[0])), 2nat)));
    assert(prefix_text(s) =~= dt);
    let rest = after_prefix(s);
    assert(rest =~= seq!['\\']);
    let k = prefix_kind(s);
    assert(win_head(k, rest) == seq![Comp::Root]);
    lemma_split_win_sep_append(e, e, false);
    assert(e + seq!['\\'] + e =~= rest);
    assert(split_win(e, false) == seq![e]);
    let g = seq![e].push(e);
    assert(split_win(rest, false) == g);
    assert(g.drop_last() =~= seq![e]);
    assert(seq![e].drop_last() =~= Seq::<Seq<char>>::empty());
    assert(win_seg_comp(e, false) =~= Seq::<Comp>::empty());
    assert(seq![e].last() == e);
    assert(win_seg_comps(Seq::<Seq<char>>::empty(), false) =~= Seq::<Comp>::empty());
    assert(win_seg_comps(seq![e], false) =~= Seq::<Comp>::empty());
    assert(g.last() == e);
    assert(win_seg_comps(g, false) =~= Seq::<Comp>::empty());
}

/// An upper-cased letter is a letter that upper-casing keeps.
pub proof fn lemma_upper_letter(c: char)
    requires
        is_ascii_alpha(c),
    ensures
        is_ascii_alpha(ascii_upper(c)),
        ascii_upper(ascii_upper(c)) == ascii_upper(c),
{
    if 'a' <= c && c <= 'z' {
        let u = ((c as u32) - 32) as char;
        assert('A' <= u && u <= 'Z');
    }
}

// ---------------------------------------------------------------------------
// Executable functions

pub fn is_any_sep_exec(c: char) -> (r: bool)
    ensures
        r == is_any_sep(c),
{
    c == '\\' || c == '/'
}

fn is_win_sep_exec(c: char, verbatim: bool) -> (r: bool)
    ensures
        r == is_win_sep(c, verbatim),
{
    c == '\\' || (!verbatim && c == '/')
}

fn is_ascii_alpha_exec(c: char) -> (r: bool)
    ensures
        r == is_ascii_alpha(c),
{
    ('a' <= c && c <= 'z') || ('A' <= c && c <= 'Z')
}

fn upper_char(c: char) -> (r: char)
    ensures
        r == ascii_upper(c),
{
    if 'a' <= c && c <= 'z' {
        let b: u8 = c as u8;
        (b - 32) as char
    } else {
        c
    }
}

/// The text of `s` in front of its first separator.
fn piece_exec(s: &Vec<char>, verbatim: bool) -> (r: Vec<char>)
    ensures
        r@ == piece(s@, verbatim),
{
    let mut i: usize = 0;
    while i < s.len() && !is_win_sep_exec(s[i], verbatim)
        invariant
            i <= s.len(),
            forall|j: int| 0 <= j < i ==> !is_win_sep(#[trigger] s@[j], verbatim),
        decreases s.len() - i,
    {
        i = i + 1;
    }
    proof {
        lemma_piece_len_exact(s@, verbatim, i as int);
    }
    take_chars(s, i)
}

fn two_pieces_exec(s: &Vec<char>, verbatim: bool) -> (r: (Vec<char>, Vec<char>))
    ensures
        (r.0@, r.1@) == two_pieces(s@, verbatim),
{
    let x = piece_exec(s, verbatim);
    proof {
        lemma_piece_len(s@, verbatim);
    }
    let after = if x.len() < s.len() {
        skip_chars(s, x.len() + 1)
    } else {
        Vec::new()
    };
    assert(after@ == (if x@.len() < s@.len() {
        s@.subrange(x@.len() + 1int, s@.len() as int)
    } else {
        Seq::<char>::empty()
    }));
    let y = piece_exec(&after, verbatim);
    (x, y)
}

/// The prefix of the path `s` and its length.
pub fn win_prefix_exec(s: &Vec<char>) -> (r: Option<(WinPrefix, usize)>)
    ensures
        match r {
            Some((k, n)) => win_prefix(s@) == Some((k@, n as nat)),
            None => win_prefix(s@) is None,
        },
{
    let n = s.len();
    if n >= 4 && s[0] == '\\' && s[1] == '\\' && s[2] == '?' && s[3] == '\\' {
        let r = skip_chars(s, 4);
        if r.len() >= 4 && r[0] == 'U' && r[1] == 'N' && r[2] == 'C' && is_any_sep_exec(r[3]) {
            let a = skip_chars(&r, 4);
            let (server, share) = two_pieces_exec(&a, true);
            proof {
                lemma_piece_len(a@, true);
                let after = if server@.len() < a@.len() {
                    a@.subrange(server@.len() + 1int, a@.len() as int)
                } else {
                    Seq::<char>::empty()
                };
                lemma_piece_len(after, true);
            }
            let len: usize = if share.len() > 0 {
                8 + server.len() + 1 + share.len()
            } else {
                8 + server.len()
            };
            Some((WinPrefix::VerbatimUNC(server, share), len))
        } else if r.len() >= 2 && is_ascii_alpha_exec(r[0]) && r[1] == ':' && (r.len() == 2
            || is_any_sep_exec(r[2])) {
            Some((WinPrefix::VerbatimDisk(upper_char(r[0])), 6))
        } else {
            let v = piece_exec(&r, true);
            proof {
                lemma_piece_len(r@, true);
            }
            let len: usize = 4 + v.len();
            Some((WinPrefix::Verbatim(v), len))
        }
    } else if n >= 2 && is_any_sep_exec(s[0]) && is_any_sep_exec(s[1]) {
        let r = skip_chars(s, 2);
        if r.len() >= 2 && r[0] == '.' && is_any_sep_exec(r[1]) {
            let a = skip_chars(&r, 2);
            let d = piece_exec(&a, false);
            proof {
                lemma_piece_len(a@, false);
            }
            let len: usize = 4 + d.len();
            Some((WinPrefix::DeviceNS(d), len))
        } else {
            let (server, share) = two_pieces_exec(&r, false);
            proof {
                lemma_piece_len(r@, false);
                let after = if server@.len() < r@.len() {
                    r@.subrange(server@.len() + 1int, r@.len() as int)
                } else {
                    Seq::<char>::empty()
                };
                lemma_piece_len(after, false);
            }
            if server.len() > 0 && share.len() > 0 {
                let len: usize = 3 + server.len() + share.len();
                Some((WinPrefix::UNC(server, share), len))
            } else {
                None
            }
        }
    } else if n >= 2 && is_ascii_alpha_exec(s[0]) && s[1] == ':' {
        Some((WinPrefix::Disk(upper_char(s[0])), 2))
    } else {
        None
    }
}

fn is_dot(g: &Vec<char>) -> (r: bool)
    ensures
        r == (g@ == seq!['.']),
{
    let r = g.len() == 1 && g[0] == '.';
    proof {
        if g@.len() == 1 && g@[0] == '.' {
            assert(g@ =~= seq!['.']);
        }
    }
    r
}

fn is_dot_dot(g: &Vec<char>) -> (r: bool)
    ensures
        r == (g@ == seq!['.', '.']),
{
    let r = g.len() == 2 && g[0] == '.' && g[1] == '.';
    proof {
        if g@.len() == 2 && g@[0] == '.' && g@[1] == '.' {
            assert(g@ =~= seq!['.', '.']);
        }
    }
    r
}

/// Appends the component that the piece `g` stands for.
fn push_piece(out: &mut Vec<Component>, g: Vec<char>, verbatim: bool)
    ensures
        comps_view(final(out)@) == comps_view(old(out)@) + win_seg_comp(g@, verbatim),
{
    let ghost before = comps_view(out@);
    if g.len() == 0 {
        assert(comps_view(out@) =~= before + win_seg_comp(g@, verbatim));
    } else if is_dot(&g) {
        if verbatim {
            out.push(Component::CurDir);
        }
        assert(comps_view(out@) =~= before + win_seg_comp(g@, verbatim));
    } else if is_dot_dot(&g) {
        out.push(Component::ParentDir);
        assert(comps_view(out@) =~= before + win_seg_comp(g@, verbatim));
    } else {
        out.push(Component::Normal(g));
        assert(comps_view(out@) =~= before + win_seg_comp(g@, verbatim));
    }
}

/// The kind of an optional prefix.
pub open spec fn kind_view(k: Option<WinPrefix>) -> Option<PrefixKind> {
    match k {
        Some(p) => Some(p@),
        None => None,
    }
}

pub fn is_verbatim_exec(k: &Option<WinPrefix>) -> (r: bool)
    ensures
        r == is_verbatim(match k {
            Some(p) => Some(p@),
            None => None,
        }),
{
    match k {
        Some(WinPrefix::Verbatim(_)) => true,
        Some(WinPrefix::VerbatimUNC(_, _)) => true,
        Some(WinPrefix::VerbatimDisk(_)) => true,
        _ => false,
    }
}

pub fn has_implicit_root_exec(k: &Option<WinPrefix>) -> (r: bool)
    ensures
        r == has_implicit_root(match k {
            Some(p) => Some(p@),
            None => None,
        }),
{
    match k {
        Some(WinPrefix::Disk(_)) => false,
        Some(_) => true,
        None => false,
    }
}

/// A Windows path read into its parts.
pub struct WinPath {
    pub prefix: Option<WinPrefix>,
    pub prefix_text: Vec<char>,
    pub comps: Vec<Component>,
}

/// The prefix, the prefix's text and the components of the Windows path
/// `s` (`Path::components` on Windows).
pub fn win_components(s: &str) -> (r: WinPath)
    ensures
        match r.prefix {
            Some(p) => prefix_kind(s@) == Some(p@),
            None => prefix_kind(s@) is None,
        },
        r.prefix_text@ == prefix_text(s@),
        comps_view(r.comps@) == win_comps(s@),
{
    let v = chars_of(s);
    let (prefix, plen) = match win_prefix_exec(&v) {
        Some((k, n)) => (Some(k), n),
        None => (None, 0),
    };
    let ghost k = kind_view(prefix);
    assert(k == prefix_kind(v@));
    assert(plen == prefix_len(v@));
    proof {
        if win_prefix(v@) is Some {
            lemma_prefix_len_bound(v@);
        }
    }
    let ptext = take_chars(&v, plen);
    let rest = skip_chars(&v, plen);
    let verbatim = is_verbatim_exec(&prefix);
    let implicit = has_implicit_root_exec(&prefix);
    let n = rest.len();
    let mut out: Vec<Component> = Vec::new();
    if n > 0 && is_win_sep_exec(rest[0], verbatim) {
        out.push(Component::RootDir);
    } else if implicit {
        if !verbatim {
            out.push(Component::RootDir);
        }
    } else if n > 0 && rest[0] == '.' && (n == 1 || is_win_sep_exec(rest[1], verbatim)) {
        out.push(Component::CurDir);
    }
    assert(comps_view(out@) =~= win_head(k, rest@));
    let mut seg: Vec<char> = Vec::new();
    let mut i: usize = 0;
    assert(rest@.take(0) =~= Seq::<char>::empty());
    while i < n
        invariant
            n == rest.len(),
            i <= n,
            split_win(rest@.take(i as int), verbatim).len() >= 1,
            comps_view(out@) == win_head(k, rest@) + win_seg_comps(
                split_win(rest@.take(i as int), verbatim).drop_last(),
                verbatim,
            ),
            seg@ == split_win(rest@.take(i as int), verbatim).last(),
        decreases n - i,
    {
        let ghost segs = split_win(rest@.take(i as int), verbatim);
        assert(rest@.take(i + 1).drop_last() =~= rest@.take(i as int));
        assert(rest@.take(i + 1).last() == rest@[i as int]);
        if is_win_sep_exec(rest[i], verbatim) {
            let g = seg;
            seg = Vec::new();
            push_piece(&mut out, g, verbatim);
            proof {
                lemma_seg_comps_push(segs.drop_last(), segs.last(), verbatim);
                assert(segs.drop_last().push(segs.last()) =~= segs);
                assert(split_win(rest@.take(i + 1), verbatim) == segs.push(Seq::<char>::empty()));
                assert(segs.push(Seq::<char>::empty()).drop_last() =~= segs);
            }
        } else {
            seg.push(rest[i]);
            proof {
                let u = segs.update(segs.len() - 1, segs.last().push(rest@[i as int]));
                assert(split_win(rest@.take(i + 1), verbatim) == u);
                assert(u.drop_last() =~= segs.drop_last());
            }
        }
        i = i + 1;
    }
    let ghost segs = split_win(rest@.take(n as int), verbatim);
    push_piece(&mut out, seg, verbatim);
    proof {
        lemma_seg_comps_push(segs.drop_last(), segs.last(), verbatim);
        assert(segs.drop_last().push(segs.last()) =~= segs);
        assert(rest@.take(n as int) =~= rest@);
    }
    WinPath { prefix, prefix_text: ptext, comps: out }
}

pub fn is_drive_text_exec(p: &Vec<char>) -> (r: bool)
    ensures
        r == is_drive_text(p@),
{
    p.len() == 2 && is_ascii_alpha_exec(p[0]) && p[1] == ':'
}

pub fn win_text_chars(c: &Component) -> (r: Vec<char>)
    ensures
        r@ == win_text(c@),
{
    let mut v = Vec::new();
    match c {
        Component::RootDir => {
            v.push('\\');
            assert(v@ =~= seq!['\\']);
        },
        Component::CurDir => {
            v.push('.');
            assert(v@ =~= seq!['.']);
        },
        Component::ParentDir => {
            v.push('.');
            v.push('.');
            assert(v@ =~= seq!['.', '.']);
        },
        Component::Normal(t) => {
            v = t.clone();
        },
    }
    v
}

/// The text of the Windows path with prefix text `p` and components `cs`.
pub fn win_join_string(p: &Vec<char>, cs: &Vec<Component>) -> (r: String)
    ensures
        r@ == win_join(p@, comps_view(cs@)),
{
    let mut out: Vec<char> = p.clone();
    let drive = is_drive_text_exec(p);
    let mut i: usize = 0;
    assert(comps_view(cs@).take(0) =~= Seq::<Comp>::empty());
    while i < cs.len()
        invariant
            i <= cs.len(),
            drive == is_drive_text(p@),
            out@ == win_join(p@, comps_view(cs@).take(i as int)),
        decreases cs.len() - i,
    {
        let ghost pre = comps_view(cs@).take(i as int);
        let ghost post = comps_view(cs@).take(i + 1);
        assert(post.drop_last() =~= pre);
        assert(post.last() == cs@[i as int]@);
        match &cs[i] {
            Component::RootDir => {
                out.push('\\');
            },
            c => {
                let t = win_text_chars(c);
                if out.len() == 0 || is_any_sep_exec(out[out.len() - 1]) || (i == 0 && drive) {
                    crate::text::append_chars(&mut out, &t);
                } else {
                    out.push('\\');
                    crate::text::append_chars(&mut out, &t);
                }
            },
        }
        i = i + 1;
    }
    assert(comps_view(cs@).take(cs.len() as int) =~= comps_view(cs@));
    string_from_chars(&out)
}


/// `std::path::is_separator('\\')`: whether `\` separates path components
/// on the platform the library runs on. Nothing is claimed of the answer.
#[verifier::external_body]
fn backslash_separates() -> (r: bool) {
    std::path::is_separator('\\')
}

/// The path style of the platform the library runs on: Windows where `\`
/// separates path components.
pub fn host_path_style() -> (r: PathStyle) {
    if backslash_separates() {
        PathStyle::Windows
    } else {
        PathStyle::Unix
    }
}

/// Whether two optional prefixes are the same prefix.
pub fn prefix_eq(a: &Option<WinPrefix>, b: &Option<WinPrefix>) -> (r: bool)
    ensures
        r == (kind_view(*a) == kind_view(*b)),
{
    match (a, b) {
        (None, None) => true,
        (Some(WinPrefix::Verbatim(x)), Some(WinPrefix::Verbatim(y))) => crate::text::chars_eq(x, y),
        (Some(WinPrefix::VerbatimUNC(x, u)), Some(WinPrefix::VerbatimUNC(y, w))) => {
            crate::text::chars_eq(x, y) && crate::text::chars_eq(u, w)
        },
        (Some(WinPrefix::VerbatimDisk(x)), Some(WinPrefix::VerbatimDisk(y))) => *x == *y,
        (Some(WinPrefix::DeviceNS(x)), Some(WinPrefix::DeviceNS(y))) => crate::text::chars_eq(x, y),
        (Some(WinPrefix::UNC(x, u)), Some(WinPrefix::UNC(y, w))) => {
            crate::text::chars_eq(x, y) && crate::text::chars_eq(u, w)
        },
        (Some(WinPrefix::Disk(x)), Some(WinPrefix::Disk(y))) => *x == *y,
        _ => false,
    }
}

} // verus!
