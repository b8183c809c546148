//! The order of plugin versions: semantic-version order where both versions
//! are semantic versions, the order of `str` otherwise.

use vstd::prelude::*;
use std::cmp::Ordering;
use crate::order::{text_le, text_le_exec};
use crate::text::str_eq;

verus! {

/// Whether `semver::Version::parse` accepts the text.
pub uninterp spec fn semver_parses(text: Seq<char>) -> bool;

/// What `Ord::cmp` of `semver::Version` gives for the versions that
/// `semver::Version::parse` reads from the two texts.
pub uninterp spec fn semver_order(left: Seq<char>, right: Seq<char>) -> Ordering;

/// The opposite outcome of a comparison.
pub open spec fn flip_order(o: Ordering) -> Ordering {
    match o {
        Ordering::Less => Ordering::Greater,
        Ordering::Equal => Ordering::Equal,
        Ordering::Greater => Ordering::Less,
    }
}

/// Reads both texts with `semver::Version::parse` and, when both are
/// versions, compares them with `Ord::cmp` of `semver::Version`; `None` when
/// either text is not a version. The contract names the outcome
/// (`semver_order`) and claims what the derived `Ord` of `semver::Version`
/// (a total order, by `major`, `minor`, `patch`, `pre`, `build` in turn)
/// gives of it: comparing the other way round gives the opposite outcome,
/// and the order is transitive through the two versions compared.
#[verifier::external_body]
fn semver_compare(left: &str, right: &str) -> (r: Option<Ordering>)
    ensures
        r.is_some() == (semver_parses(left@) && semver_parses(right@)),
        r matches Some(o) ==> o == semver_order(left@, right@),
        r is Some ==> forall|a: Seq<char>|
            semver_parses(a) ==> #[trigger] semver_order(a, left@) == flip_order(
                semver_order(left@, a),
            ),
        r is Some ==> forall|a: Seq<char>|
            semver_parses(a) ==> #[trigger] semver_order(a, right@) == flip_order(
                semver_order(right@, a),
            ),
        r matches Some(o) ==> (o == Ordering::Less ==> forall|a: Seq<char>|
            semver_parses(a) && #[trigger] semver_order(a, left@) != Ordering::Greater
                ==> semver_order(a, right@) == Ordering::Less),
{
    match (semver::Version::parse(left), semver::Version::parse(right)) {
        (Ok(a), Ok(b)) => Some(a.cmp(&b)),
        _ => None,
    }
}

/// The order of `str`.
pub open spec fn text_order(left: Seq<char>, right: Seq<char>) -> Ordering {
    if left == right {
        Ordering::Equal
    } else if text_le(left, right) {
        Ordering::Less
    } else {
        Ordering::Greater
    }
}

/// The order of two plugin versions.
pub open spec fn version_order(left: Seq<char>, right: Seq<char>) -> Ordering {
    if semver_parses(left) && semver_parses(right) {
        semver_order(left, right)
    } else {
        text_order(left, right)
    }
}

/// Whether the version `left` is older than `right`.
pub open spec fn version_older(left: Seq<char>, right: Seq<char>) -> bool {
    version_order(left, right) == Ordering::Less
}

/// Whether a cached version is at least the selected one.
pub open spec fn version_satisfies(selected: Seq<char>, cached: Seq<char>) -> bool {
    if semver_parses(selected) && semver_parses(cached) {
        semver_order(cached, selected) != Ordering::Less
    } else {
        selected == cached
    }
}

/// Two versions of the same kind: both semantic versions, or neither.
pub open spec fn same_kind(a: Seq<char>, b: Seq<char>) -> bool {
    semver_parses(a) == semver_parses(b)
}

/// Comparing with `b` the other way round gives the opposite outcome, for
/// every version of `b`'s kind.
pub open spec fn converse_at(b: Seq<char>) -> bool {
    forall|a: Seq<char>|
        same_kind(a, b) ==> #[trigger] version_order(a, b) == flip_order(version_order(b, a))
}

/// When `b` is older than `c`, every version of their kind that is not
/// newer than `b` is older than `c`.
pub open spec fn transitive_through(b: Seq<char>, c: Seq<char>) -> bool {
    version_order(b, c) == Ordering::Less ==> forall|a: Seq<char>|
        same_kind(a, b) && #[trigger] version_order(a, b) != Ordering::Greater ==> version_order(a, c)
            == Ordering::Less
}

proof fn lemma_text_order_facts(b: Seq<char>, c: Seq<char>)
    requires
        !semver_parses(b),
        !semver_parses(c),
    ensures
        converse_at(b),
        converse_at(c),
        transitive_through(b, c),
{
    assert forall|a: Seq<char>| same_kind(a, b) implies #[trigger] version_order(a, b) == flip_order(
        version_order(b, a),
    ) by {
        crate::order::lemma_le_total(a, b);
        if text_le(a, b) && text_le(b, a) {
            crate::order::lemma_le_antisym(a, b);
        }
    }
    assert forall|a: Seq<char>| same_kind(a, c) implies #[trigger] version_order(a, c) == flip_order(
        version_order(c, a),
    ) by {
        crate::order::lemma_le_total(a, c);
        if text_le(a, c) && text_le(c, a) {
            crate::order::lemma_le_antisym(a, c);
        }
    }
    if version_order(b, c) == Ordering::Less {
        assert forall|a: Seq<char>|
            same_kind(a, b) && #[trigger] version_order(a, b) != Ordering::Greater implies version_order(
            a,
            c,
        ) == Ordering::Less by {
            assert(text_le(b, c) && b != c);
            assert(a == b || text_le(a, b));
            if a != b {
                crate::order::lemma_le_trans(a, b, c);
            } else {
            }
            if a == c {
                crate::order::lemma_le_antisym(b, c);
            }
        }
    }
}

/// A version not newer than `b`, where `b` is older than `c`, is not newer
/// than `c` the other way round either: `c` is not older than it.
pub proof fn lemma_not_older_than_older(a: Seq<char>, b: Seq<char>, c: Seq<char>)
    requires
        same_kind(a, b),
        same_kind(b, c),
        version_older(b, c),
        a == b || !version_older(b, a),
        converse_at(b),
        converse_at(c),
        transitive_through(b, c),
    ensures
        !version_older(c, a),
{
    assert(version_order(a, b) == flip_order(version_order(b, a)));
    assert(version_order(a, b) != Ordering::Greater);
    assert(version_order(a, c) == Ordering::Less);
    assert(version_order(a, c) == flip_order(version_order(c, a)));
}

/// Compares two plugin versions.
pub fn plugin_version_cmp(left: &str, right: &str) -> (r: Ordering)
    ensures
        r == version_order(left@, right@),
        same_kind(left@, right@) ==> converse_at(left@) && converse_at(right@) && transitive_through(
            left@,
            right@,
        ),
{
    proof {
        if !semver_parses(left@) && !semver_parses(right@) {
            lemma_text_order_facts(left@, right@);
        }
    }
    match semver_compare(left, right) {
        Some(o) => o,
        None => {
            if str_eq(left, right) {
                Ordering::Equal
            } else if text_le_exec(left, right) {
                Ordering::Less
            } else {
                Ordering::Greater
            }
        },
    }
}

/// Whether the version `left` is older than `right`.
pub fn is_older(left: &str, right: &str) -> (r: bool)
    ensures
        r == version_older(left@, right@),
        same_kind(left@, right@) ==> converse_at(left@) && converse_at(right@) && transitive_through(
            left@,
            right@,
        ),
{
    match plugin_version_cmp(left, right) {
        Ordering::Less => true,
        _ => false,
    }
}

/// Whether the cached version is at least the selected version.
pub fn plugin_version_satisfies_selected(selected_version: &str, cached_version: &str) -> (r: bool)
    ensures
        r == version_satisfies(selected_version@, cached_version@),
{
    match semver_compare(cached_version, selected_version) {
        Some(o) => match o {
            Ordering::Less => false,
            _ => true,
        },
        None => str_eq(selected_version, cached_version),
    }
}

} // verus!
