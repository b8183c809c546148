//! The order of paths (`Ord for Path`): component by component, a prefix
//! before a root, a root before `.`, `.` before `..`, `..` before a name,
//! names in the order of `str`; and a sort of path texts by it. Two texts
//! of the same path are ordered as text.

use vstd::prelude::*;
use vstd::relations::{sorted_by, total_ordering};
use crate::index_paths::{comps_in, read_path};
use crate::order::{lemma_le_antisym, lemma_le_refl, lemma_le_total, lemma_le_trans, text_le};
use crate::path::{comps_view, Comp, Component};
use crate::registry::strings_view;
use crate::winpath::{prefix_kind, PathStyle, PrefixKind, WinPrefix};

verus! {

/// One component of a path as the order of paths sees it; a prefix is its
/// kind's place in `std::path::Prefix` and its fields.
pub enum OrdItem {
    Prefix(int, Seq<char>, Seq<char>),
    Root,
    Cur,
    Parent,
    Normal(Seq<char>),
}

/// A Windows prefix as an item of the order.
pub open spec fn prefix_item(k: PrefixKind) -> OrdItem {
    match k {
        PrefixKind::Verbatim(v) => OrdItem::Prefix(0, v, Seq::empty()),
        PrefixKind::VerbatimUNC(a, b) => OrdItem::Prefix(1, a, b),
        PrefixKind::VerbatimDisk(d) => OrdItem::Prefix(2, seq![d], Seq::empty()),
        PrefixKind::DeviceNS(v) => OrdItem::Prefix(3, v, Seq::empty()),
        PrefixKind::UNC(a, b) => OrdItem::Prefix(4, a, b),
        PrefixKind::Disk(d) => OrdItem::Prefix(5, seq![d], Seq::empty()),
    }
}

pub open spec fn comp_item(c: Comp) -> OrdItem {
    match c {
        Comp::Root => OrdItem::Root,
        Comp::Cur => OrdItem::Cur,
        Comp::Parent => OrdItem::Parent,
        Comp::Normal(t) => OrdItem::Normal(t),
    }
}

/// The items of the path `s` read in `style`: its prefix, if any, then its
/// components.
pub open spec fn path_items(style: PathStyle, s: Seq<char>) -> Seq<OrdItem> {
    let head = match style {
        PathStyle::Unix => Seq::<OrdItem>::empty(),
        PathStyle::Windows => match prefix_kind(s) {
            Some(k) => seq![prefix_item(k)],
            None => Seq::<OrdItem>::empty(),
        },
    };
    head + comps_in(style, s).map_values(|c: Comp| comp_item(c))
}

pub open spec fn item_rank(x: OrdItem) -> int {
    match x {
        OrdItem::Prefix(..) => 0,
        OrdItem::Root => 1,
        OrdItem::Cur => 2,
        OrdItem::Parent => 3,
        OrdItem::Normal(_) => 4,
    }
}

/// `x <= y` in the order of path components.
pub open spec fn item_le(x: OrdItem, y: OrdItem) -> bool {
    if item_rank(x) != item_rank(y) {
        item_rank(x) < item_rank(y)
    } else {
        match (x, y) {
            (OrdItem::Prefix(n, a, b), OrdItem::Prefix(m, c, d)) => if n != m {
                n < m
            } else if a != c {
                text_le(a, c)
            } else {
                text_le(b, d)
            },
            (OrdItem::Normal(a), OrdItem::Normal(c)) => text_le(a, c),
            _ => true,
        }
    }
}

/// `a <= b` component by component (a path that is a prefix of another
/// comes first).
pub open spec fn items_le(a: Seq<OrdItem>, b: Seq<OrdItem>) -> bool
    decreases a.len(),
{
    if a.len() == 0 {
        true
    } else if b.len() == 0 {
        false
    } else if a[0] != b[0] {
        item_le(a[0], b[0])
    } else {
        items_le(a.drop_first(), b.drop_first())
    }
}

/// `a <= b` in the order of paths read in `style`; two texts of the same
/// path in the order of `str`.
pub open spec fn path_le(style: PathStyle, a: Seq<char>, b: Seq<char>) -> bool {
    let ka = path_items(style, a);
    let kb = path_items(style, b);
    if ka != kb {
        items_le(ka, kb)
    } else {
        text_le(a, b)
    }
}

pub open spec fn path_leq(style: PathStyle) -> spec_fn(Seq<char>, Seq<char>) -> bool {
    |a: Seq<char>, b: Seq<char>| path_le(style, a, b)
}

/// `v` in ascending order of paths read in `style`.
pub open spec fn sorted_paths(style: PathStyle, v: Seq<Seq<char>>) -> Seq<Seq<char>> {
    v.sort_by(path_leq(style))
}

// ---------------------------------------------------------------------------
// The order is total

proof fn lemma_item_refl(x: OrdItem)
    ensures
        item_le(x, x),
{
    match x {
        OrdItem::Prefix(n, a, b) => {
            lemma_le_refl(b);
        },
        OrdItem::Normal(a) => {
            lemma_le_refl(a);
        },
        _ => {},
    }
}

proof fn lemma_item_antisym(x: OrdItem, y: OrdItem)
    requires
        item_le(x, y),
        item_le(y, x),
    ensures
        x == y,
{
    match (x, y) {
        (OrdItem::Prefix(n, a, b), OrdItem::Prefix(m, c, d)) => {
            if a != c {
                lemma_le_antisym(a, c);
            }
            lemma_le_antisym(b, d);
        },
        (OrdItem::Normal(a), OrdItem::Normal(c)) => {
            lemma_le_antisym(a, c);
        },
        _ => {},
    }
}

proof fn lemma_item_trans(x: OrdItem, y: OrdItem, z: OrdItem)
    requires
        item_le(x, y),
        item_le(y, z),
    ensures
        item_le(x, z),
{
    if item_rank(x) == item_rank(y) && item_rank(y) == item_rank(z) {
        match (x, y, z) {
            (OrdItem::Prefix(n, a, b), OrdItem::Prefix(m, c, d), OrdItem::Prefix(k, e, f)) => {
                if n == m && m == k {
                    if a != c && c != e {
                        lemma_le_trans(a, c, e);
                        if a == e {
                            lemma_le_antisym(a, c);
                        }
                    } else if a == c && c != e {
                    } else if a != c && c == e {
                    } else {
                        lemma_le_trans(b, d, f);
                    }
                }
            },
            (OrdItem::Normal(a), OrdItem::Normal(c), OrdItem::Normal(e)) => {
                lemma_le_trans(a, c, e);
            },
            _ => {},
        }
    }
}

proof fn lemma_item_total(x: OrdItem, y: OrdItem)
    ensures
        item_le(x, y) || item_le(y, x),
{
    match (x, y) {
        (OrdItem::Prefix(n, a, b), OrdItem::Prefix(m, c, d)) => {
            lemma_le_total(a, c);
            lemma_le_total(b, d);
        },
        (OrdItem::Normal(a), OrdItem::Normal(c)) => {
            lemma_le_total(a, c);
        },
        _ => {},
    }
}

proof fn lemma_items_antisym(a: Seq<OrdItem>, b: Seq<OrdItem>)
    requires
        items_le(a, b),
        items_le(b, a),
    ensures
        a == b,
    decreases a.len(),
{
    if a.len() > 0 && b.len() > 0 {
        if a[0] != b[0] {
            lemma_item_antisym(a[0], b[0]);
        } else {
            lemma_items_antisym(a.drop_first(), b.drop_first());
            assert(a =~= seq![a[0]] + a.drop_first());
            assert(b =~= seq![b[0]] + b.drop_first());
        }
    } else {
        assert(a =~= b);
    }
}

proof fn lemma_items_trans(a: Seq<OrdItem>, b: Seq<OrdItem>, c: Seq<OrdItem>)
    requires
        items_le(a, b),
        items_le(b, c),
    ensures
        items_le(a, c),
    decreases a.len(),
{
    if a.len() > 0 && b.len() > 0 && c.len() > 0 {
        if a[0] == b[0] && b[0] == c[0] {
            lemma_items_trans(a.drop_first(), b.drop_first(), c.drop_first());
        } else if a[0] != b[0] && b[0] != c[0] {
            lemma_item_trans(a[0], b[0], c[0]);
            if a[0] == c[0] {
                lemma_item_antisym(a[0], b[0]);
            }
        }
    }
}

proof fn lemma_items_total(a: Seq<OrdItem>, b: Seq<OrdItem>)
    ensures
        items_le(a, b) || items_le(b, a),
    decreases a.len(),
{
    if a.len() > 0 && b.len() > 0 {
        if a[0] != b[0] {
            lemma_item_total(a[0], b[0]);
        } else {
            lemma_items_total(a.drop_first(), b.drop_first());
        }
    }
}

/// The order of paths is a total order of their texts.
pub proof fn lemma_path_order_total(style: PathStyle)
    ensures
        total_ordering(path_leq(style)),
{
    let r = path_leq(style);
    assert forall|a: Seq<char>| #[trigger] r(a, a) by {
        lemma_le_refl(a);
    }
    assert forall|a: Seq<char>, b: Seq<char>| #[trigger] r(a, b) && #[trigger] r(b, a) implies a
        == b by {
        let ka = path_items(style, a);
        let kb = path_items(style, b);
        if ka != kb {
            lemma_items_antisym(ka, kb);
        } else {
            lemma_le_antisym(a, b);
        }
    }
    assert forall|a: Seq<char>, b: Seq<char>, c: Seq<char>| #[trigger]
        r(a, b) && #[trigger] r(b, c) implies r(a, c) by {
        let ka = path_items(style, a);
        let kb = path_items(style, b);
        let kc = path_items(style, c);
        if ka != kb && kb != kc {
            lemma_items_trans(ka, kb, kc);
            if ka == kc {
                lemma_items_antisym(ka, kb);
            }
        } else if ka == kb && kb == kc {
            lemma_le_trans(a, b, c);
        }
    }
    assert forall|a: Seq<char>, b: Seq<char>| #[trigger] r(a, b) || #[trigger] r(b, a) by {
        lemma_items_total(path_items(style, a), path_items(style, b));
        lemma_le_total(a, b);
    }
}

// ---------------------------------------------------------------------------
// Executable functions

/// One component of a path as the order of paths sees it.
pub enum OrdKey {
    Prefix(u8, Vec<char>, Vec<char>),
    Root,
    Cur,
    Parent,
    Normal(Vec<char>),
}

impl View for OrdKey {
    type V = OrdItem;

    open spec fn view(&self) -> OrdItem {
        match self {
            OrdKey::Prefix(n, a, b) => OrdItem::Prefix(*n as int, a@, b@),
            OrdKey::Root => OrdItem::Root,
            OrdKey::Cur => OrdItem::Cur,
            OrdKey::Parent => OrdItem::Parent,
            OrdKey::Normal(t) => OrdItem::Normal(t@),
        }
    }
}

pub open spec fn keys_view(v: Seq<OrdKey>) -> Seq<OrdItem> {
    v.map_values(|k: OrdKey| k@)
}

fn one_char(d: char) -> (r: Vec<char>)
    ensures
        r@ == seq![d],
{
    let mut v = Vec::new();
    v.push(d);
    assert(v@ =~= seq![d]);
    v
}

fn no_chars() -> (r: Vec<char>)
    ensures
        r@ == Seq::<char>::empty(),
{
    let v: Vec<char> = Vec::new();
    assert(v@ =~= Seq::<char>::empty());
    v
}

fn prefix_key(k: &WinPrefix) -> (r: OrdKey)
    ensures
        r@ == prefix_item(k@),
{
    match k {
        WinPrefix::Verbatim(v) => OrdKey::Prefix(0, v.clone(), no_chars()),
        WinPrefix::VerbatimUNC(a, b) => OrdKey::Prefix(1, a.clone(), b.clone()),
        WinPrefix::VerbatimDisk(d) => OrdKey::Prefix(2, one_char(*d), no_chars()),
        WinPrefix::DeviceNS(v) => OrdKey::Prefix(3, v.clone(), no_chars()),
        WinPrefix::UNC(a, b) => OrdKey::Prefix(4, a.clone(), b.clone()),
        WinPrefix::Disk(d) => OrdKey::Prefix(5, one_char(*d), no_chars()),
    }
}

fn comp_key(c: &Component) -> (r: OrdKey)
    ensures
        r@ == comp_item(c@),
{
    match c {
        Component::RootDir => OrdKey::Root,
        Component::CurDir => OrdKey::Cur,
        Component::ParentDir => OrdKey::Parent,
        Component::Normal(t) => OrdKey::Normal(t.clone()),
    }
}

/// The items of the path `s` read in `style`.
fn path_keys(style: PathStyle, s: &str) -> (r: Vec<OrdKey>)
    ensures
        keys_view(r@) == path_items(style, s@),
{
    let p = read_path(style, s);
    let mut out: Vec<OrdKey> = Vec::new();
    match style {
        PathStyle::Unix => {},
        PathStyle::Windows => match &p.prefix {
            Some(k) => {
                out.push(prefix_key(k));
            },
            None => {},
        },
    }
    let ghost head = keys_view(out@);
    assert(head =~= match style {
        PathStyle::Unix => Seq::<OrdItem>::empty(),
        PathStyle::Windows => match prefix_kind(s@) {
            Some(k) => seq![prefix_item(k)],
            None => Seq::<OrdItem>::empty(),
        },
    });
    let ghost items = comps_view(p.comps@).map_values(|c: Comp| comp_item(c));
    let mut i: usize = 0;
    while i < p.comps.len()
        invariant
            i <= p.comps.len(),
            items == comps_view(p.comps@).map_values(|c: Comp| comp_item(c)),
            keys_view(out@) == head + items.take(i as int),
        decreases p.comps.len() - i,
    {
        let k = comp_key(&p.comps[i]);
        let ghost before = keys_view(out@);
        out.push(k);
        assert(keys_view(out@) =~= before.push(k@));
        assert(items.take(i + 1) =~= items.take(i as int).push(items[i as int]));
        i = i + 1;
    }
    assert(items.take(p.comps.len() as int) =~= items);
    out
}

/// `a <= b` in the order of `str`, on characters.
fn chars_le(a: &Vec<char>, b: &Vec<char>) -> (r: bool)
    ensures
        r == text_le(a@, b@),
{
    let n = a.len();
    let m = b.len();
    let mut i: usize = 0;
    assert(a@.skip(0) =~= a@);
    assert(b@.skip(0) =~= b@);
    while i < n && i < m
        invariant
            n == a@.len(),
            m == b@.len(),
            i <= n,
            i <= m,
            text_le(a@, b@) == text_le(a@.skip(i as int), b@.skip(i as int)),
        decreases n - i,
    {
        let x = a[i];
        let y = b[i];
        assert(a@.skip(i as int)[0] == x);
        assert(b@.skip(i as int)[0] == y);
        if x != y {
            assert(a@.skip(i as int).len() > 0 && b@.skip(i as int).len() > 0);
            assert(text_le(a@.skip(i as int), b@.skip(i as int)) == ((x as int) < (y as int)));
            return x < y;
        }
        assert(a@.skip(i as int).drop_first() =~= a@.skip(i + 1));
        assert(b@.skip(i as int).drop_first() =~= b@.skip(i + 1));
        i = i + 1;
    }
    proof {
        if i == n {
            assert(a@.skip(i as int).len() == 0);
        } else {
            assert(b@.skip(i as int).len() == 0);
            assert(a@.skip(i as int).len() > 0);
        }
    }
    i == n
}

fn key_eq(x: &OrdKey, y: &OrdKey) -> (r: bool)
    ensures
        r == (x@ == y@),
{
    match (x, y) {
        (OrdKey::Prefix(n, a, b), OrdKey::Prefix(m, c, d)) => *n == *m && crate::text::chars_eq(a, c)
            && crate::text::chars_eq(b, d),
        (OrdKey::Root, OrdKey::Root) => true,
        (OrdKey::Cur, OrdKey::Cur) => true,
        (OrdKey::Parent, OrdKey::Parent) => true,
        (OrdKey::Normal(a), OrdKey::Normal(c)) => crate::text::chars_eq(a, c),
        _ => false,
    }
}

fn key_rank(x: &OrdKey) -> (r: u8)
    ensures
        r as int == item_rank(x@),
{
    match x {
        OrdKey::Prefix(..) => 0,
        OrdKey::Root => 1,
        OrdKey::Cur => 2,
        OrdKey::Parent => 3,
        OrdKey::Normal(_) => 4,
    }
}

fn key_le(x: &OrdKey, y: &OrdKey) -> (r: bool)
    ensures
        r == item_le(x@, y@),
{
    let rx = key_rank(x);
    let ry = key_rank(y);
    if rx != ry {
        return rx < ry;
    }
    match (x, y) {
        (OrdKey::Prefix(n, a, b), OrdKey::Prefix(m, c, d)) => {
            if *n != *m {
                *n < *m
            } else if !crate::text::chars_eq(a, c) {
                chars_le(a, c)
            } else {
                chars_le(b, d)
            }
        },
        (OrdKey::Normal(a), OrdKey::Normal(c)) => chars_le(a, c),
        _ => true,
    }
}

fn keys_eq(a: &Vec<OrdKey>, b: &Vec<OrdKey>) -> (r: bool)
    ensures
        r == (keys_view(a@) == keys_view(b@)),
{
    if a.len() != b.len() {
        assert(keys_view(a@).len() != keys_view(b@).len());
        return false;
    }
    let mut i: usize = 0;
    while i < a.len()
        invariant
            a.len() == b.len(),
            i <= a.len(),
            forall|j: int| 0 <= j < i ==> keys_view(a@)[j] == keys_view(b@)[j],
        decreases a.len() - i,
    {
        if !key_eq(&a[i], &b[i]) {
            assert(keys_view(a@)[i as int] != keys_view(b@)[i as int]);
            return false;
        }
        i = i + 1;
    }
    assert(keys_view(a@) =~= keys_view(b@));
    true
}

fn keys_le(a: &Vec<OrdKey>, b: &Vec<OrdKey>) -> (r: bool)
    ensures
        r == items_le(keys_view(a@), keys_view(b@)),
{
    let ghost ka = keys_view(a@);
    let ghost kb = keys_view(b@);
    let n = a.len();
    let m = b.len();
    let mut i: usize = 0;
    assert(ka.skip(0) =~= ka);
    assert(kb.skip(0) =~= kb);
    while i < n && i < m
        invariant
            n == a@.len(),
            m == b@.len(),
            ka == keys_view(a@),
            kb == keys_view(b@),
            i <= n,
            i <= m,
            items_le(ka, kb) == items_le(ka.skip(i as int), kb.skip(i as int)),
        decreases n - i,
    {
        assert(ka.skip(i as int)[0] == a@[i as int]@);
        assert(kb.skip(i as int)[0] == b@[i as int]@);
        if !key_eq(&a[i], &b[i]) {
            return key_le(&a[i], &b[i]);
        }
        assert(ka.skip(i as int).drop_first() =~= ka.skip(i + 1));
        assert(kb.skip(i as int).drop_first() =~= kb.skip(i + 1));
        i = i + 1;
    }
    i == n
}

/// `a <= b` in the order of paths read in `style`.
pub fn path_le_exec(style: PathStyle, a: &str, b: &str) -> (r: bool)
    ensures
        r == path_le(style, a@, b@),
{
    let ka = path_keys(style, a);
    let kb = path_keys(style, b);
    if !keys_eq(&ka, &kb) {
        keys_le(&ka, &kb)
    } else {
        crate::order::text_le_exec(a, b)
    }
}

/// The path texts of `v` in ascending order of paths read in `style`, each
/// as often as in `v`.
pub fn sort_paths(style: PathStyle, v: &Vec<String>) -> (r: Vec<String>)
    ensures
        strings_view(r@) == sorted_paths(style, strings_view(v@)),
{
    let ghost leq = path_leq(style);
    proof {
        lemma_path_order_total(style);
    }
    let mut out: Vec<String> = Vec::new();
    let mut i: usize = 0;
    proof {
        broadcast use vstd::seq_lib::group_to_multiset_ensures;

        assert(strings_view(v@).take(0) =~= Seq::<Seq<char>>::empty());
        assert(strings_view(out@) =~= Seq::<Seq<char>>::empty());
    }
    while i < v.len()
        invariant
            i <= v.len(),
            leq == path_leq(style),
            total_ordering(leq),
            sorted_by(strings_view(out@), leq),
            strings_view(out@).to_multiset() == strings_view(v@).take(i as int).to_multiset(),
        decreases v.len() - i,
    {
        let x = v[i].clone();
        let mut p: usize = 0;
        while p < out.len() && path_le_exec(style, out[p].as_str(), x.as_str())
            invariant
                p <= out.len(),
                forall|j: int| 0 <= j < p ==> path_le(style, #[trigger] out@[j]@, x@),
            decreases out.len() - p,
        {
            p = p + 1;
        }
        let ghost before = strings_view(out@);
        proof {
            if p < out.len() {
                assert(!path_le(style, out@[p as int]@, x@));
            }
        }
        out.insert(p, x);
        proof {
            let after = strings_view(out@);
            assert(after =~= before.insert(p as int, x@));
            crate::order::lemma_insert_multiset(before, p as int, x@);
            assert(strings_view(v@).take(i + 1) =~= strings_view(v@).take(i as int).push(x@));
            vstd::seq_lib::to_multiset_build(strings_view(v@).take(i as int), x@);
            assert forall|a: int, b: int| 0 <= a < b < after.len() implies #[trigger] leq(
                after[a],
                after[b],
            ) by {
                if b < p {
                    assert(leq(before[a], before[b]));
                } else if b == p {
                    assert(path_le(style, before[a], x@));
                } else if a == p {
                    assert(b - 1 >= p);
                    assert(!path_le(style, before[p as int], x@));
                    assert(!leq(before[p as int], x@));
                    assert(leq(x@, before[p as int]));
                    if b - 1 > p {
                        assert(leq(before[p as int], before[b - 1]));
                    }
                } else if a < p {
                    assert(leq(before[a], before[b - 1]));
                } else {
                    assert(leq(before[a - 1], before[b - 1]));
                }
            }
        }
        i = i + 1;
    }
    proof {
        assert(strings_view(v@).take(v.len() as int) =~= strings_view(v@));
        strings_view(v@).lemma_sort_by_ensures(leq);
        vstd::seq_lib::lemma_sorted_unique(strings_view(out@), strings_view(v@).sort_by(leq), leq);
    }
    out
}

} // verus!
