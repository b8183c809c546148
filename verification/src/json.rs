//! Reading fields out of JSON documents by JSON pointer (RFC 6901): what a
//! document holds at a pointer, and the lookups the service responses need
//! (the first of several member names that is present, as trimmed text or
//! as a flag).

use vstd::prelude::*;
use crate::registry::strings_view;
use crate::text::{chars_of, string_from_chars, trim, trim_str};

verus! {

/// What a JSON document holds at a pointer: nothing, or a value of each
/// JSON type (a string with its text, an array with its length).
#[derive(Debug, Clone, PartialEq, Eq)]
pub enum JsonNode {
    Absent,
    Null,
    Bool(bool),
    Number,
    Str(String),
    Array(usize),
    Object,
}

/// `JsonNode` as a mathematical value.
pub enum JsonNodeView {
    Absent,
    Null,
    Bool(bool),
    Number,
    Str(Seq<char>),
    Array(nat),
    Object,
}

impl View for JsonNode {
    type V = JsonNodeView;

    open spec fn view(&self) -> JsonNodeView {
        match self {
            JsonNode::Absent => JsonNodeView::Absent,
            JsonNode::Null => JsonNodeView::Null,
            JsonNode::Bool(b) => JsonNodeView::Bool(*b),
            JsonNode::Number => JsonNodeView::Number,
            JsonNode::Str(s) => JsonNodeView::Str(s@),
            JsonNode::Array(n) => JsonNodeView::Array(*n as nat),
            JsonNode::Object => JsonNodeView::Object,
        }
    }
}

/// What the JSON text `doc` holds at `pointer`, or nothing when `doc` is
/// not JSON.
pub uninterp spec fn json_node_at(doc: Seq<char>, pointer: Seq<char>) -> Option<JsonNodeView>;

/// Reads `doc` with `serde_json::from_str` and looks each pointer up with
/// `Value::pointer`, giving the kind of each value found (a string with its
/// text, an array with its length); nothing when `doc` is not JSON. The
/// contract names each node (`json_node_at`) and claims nothing more of it.
#[verifier::external_body]
pub(crate) fn json_nodes_at(doc: &str, pointers: &Vec<String>) -> (r: Option<Vec<JsonNode>>)
    ensures
        match r {
            Some(ns) => ns@.len() == pointers@.len() && forall|i: int|
                0 <= i < pointers@.len() ==> json_node_at(doc@, #[trigger] pointers@[i]@) == Some(
                    ns@[i]@,
                ),
            None => forall|i: int|
                0 <= i < pointers@.len() ==> json_node_at(doc@, #[trigger] pointers@[i]@) is None,
        },
{
    let value = serde_json::from_str::<serde_json::Value>(doc).ok()?;
    Some(pointers.iter().map(|p| match value.pointer(p) {
        None => JsonNode::Absent,
        Some(serde_json::Value::Null) => JsonNode::Null,
        Some(serde_json::Value::Bool(b)) => JsonNode::Bool(*b),
        Some(serde_json::Value::Number(_)) => JsonNode::Number,
        Some(serde_json::Value::String(s)) => JsonNode::Str(s.clone()),
        Some(serde_json::Value::Array(a)) => JsonNode::Array(a.len()),
        Some(serde_json::Value::Object(_)) => JsonNode::Object,
    }).collect())
}

/// The JSON text `doc` with the member `member` of its object member
/// `object` set to the string `value`, printed pretty; nothing when `doc`
/// is not a JSON object with such an object member.
pub uninterp spec fn json_with_member(
    doc: Seq<char>,
    object: Seq<char>,
    member: Seq<char>,
    value: Seq<char>,
) -> Option<Seq<char>>;

/// Reads `doc` with `serde_json::from_str`, takes the object member
/// `object` with `Value::get_mut` and `as_object_mut`, sets its member
/// `member` to the string `value` with `Map::insert` and prints the
/// document with `serde_json::to_string_pretty`. The contract names the
/// printed text (`json_with_member`) and claims the facts the source shows:
/// an object document whose member `object` is an object gets a text
/// (printing a `Value` does not fail), and the printed text reads back
/// (`from_str` reads what `to_string_pretty` printed) as an object whose
/// member `object` is an object whose member `member` is the string
/// `value`.
#[verifier::external_body]
pub(crate) fn set_member_string(doc: &str, object: &str, member: &str, value: &str) -> (r: Option<
    String,
>)
    ensures
        match r {
            Some(t) => json_with_member(doc@, object@, member@, value@) == Some(t@),
            None => json_with_member(doc@, object@, member@, value@) is None,
        },
        json_node_at(doc@, Seq::empty()) == Some(JsonNodeView::Object) && json_node_at(
            doc@,
            member_pointer(Seq::empty(), object@),
        ) == Some(JsonNodeView::Object) ==> r is Some,
        r matches Some(t) ==> json_node_at(t@, Seq::empty()) == Some(JsonNodeView::Object)
            && json_node_at(t@, member_pointer(Seq::empty(), object@)) == Some(JsonNodeView::Object)
            && json_node_at(t@, member_pointer(member_pointer(Seq::empty(), object@), member@))
            == Some(JsonNodeView::Str(value@)),
{
    let mut json = serde_json::from_str::<serde_json::Value>(doc).ok()?;
    let target = json.get_mut(object)?.as_object_mut()?;
    target.insert(member.to_string(), serde_json::Value::String(value.to_string()));
    serde_json::to_string_pretty(&json).ok()
}

/// What `doc` holds at `pointer`, a document that is not JSON holding
/// nothing anywhere.
pub open spec fn node(doc: Seq<char>, pointer: Seq<char>) -> JsonNodeView {
    match json_node_at(doc, pointer) {
        Some(n) => n,
        None => JsonNodeView::Absent,
    }
}

/// The nodes at each pointer.
pub fn nodes_at(doc: &str, pointers: &Vec<String>) -> (r: Vec<JsonNode>)
    ensures
        r@.len() == pointers@.len(),
        forall|i: int| 0 <= i < pointers@.len() ==> (#[trigger] r@[i])@ == node(doc@, pointers@[i]@),
{
    match json_nodes_at(doc, pointers) {
        Some(ns) => {
            assert forall|i: int| 0 <= i < pointers@.len() implies (#[trigger] ns@[i])@ == node(
                doc@,
                pointers@[i]@,
            ) by {
                assert(json_node_at(doc@, pointers@[i]@) == Some(ns@[i]@));
            }
            ns
        },
        None => {
            let mut out: Vec<JsonNode> = Vec::new();
            let mut i: usize = 0;
            while i < pointers.len()
                invariant
                    i <= pointers@.len(),
                    out@.len() == i,
                    forall|j: int| 0 <= j < pointers@.len() ==> json_node_at(doc@, #[trigger] pointers@[j]@) is None,
                    forall|j: int| 0 <= j < i ==> (#[trigger] out@[j])@ == node(doc@, pointers@[j]@),
                decreases pointers.len() - i,
            {
                assert(json_node_at(doc@, pointers@[i as int]@) is None);
                out.push(JsonNode::Absent);
                i = i + 1;
            }
            out
        },
    }
}

// ---------------------------------------------------------------------------
// Pointers

/// A character of a member name as a pointer writes it.
pub open spec fn escape_char(c: char) -> Seq<char> {
    if c == '~' {
        seq!['~', '0']
    } else if c == '/' {
        seq!['~', '1']
    } else {
        seq![c]
    }
}

/// A member name as a pointer writes it: `~` as `~0`, `/` as `~1`.
pub open spec fn escape_token(key: Seq<char>) -> Seq<char>
    decreases key.len(),
{
    if key.len() == 0 {
        seq![]
    } else {
        escape_token(key.drop_last()) + escape_char(key.last())
    }
}

/// The pointer to member (or item) `key` of the value at `base`.
pub open spec fn member_pointer(base: Seq<char>, key: Seq<char>) -> Seq<char> {
    base + seq!['/'] + escape_token(key)
}

/// The pointer to member `key` of the value at `base`.
pub fn member_pointer_of(base: &str, key: &str) -> (r: String)
    ensures
        r@ == member_pointer(base@, key@),
{
    let mut out = chars_of(base);
    out.push('/');
    let k = chars_of(key);
    let ghost start = out@;
    let mut i: usize = 0;
    assert(k@.take(0) =~= Seq::<char>::empty());
    assert(out@ =~= start + escape_token(k@.take(0)));
    while i < k.len()
        invariant
            i <= k@.len(),
            out@ == start + escape_token(k@.take(i as int)),
        decreases k.len() - i,
    {
        let c = k[i];
        assert(k@.take(i + 1).drop_last() =~= k@.take(i as int));
        assert(k@.take(i + 1).last() == c);
        let ghost before = out@;
        if c == '~' {
            out.push('~');
            out.push('0');
        } else if c == '/' {
            out.push('~');
            out.push('1');
        } else {
            out.push(c);
        }
        assert(out@ =~= before + escape_char(c));
        assert(out@ =~= start + escape_token(k@.take(i + 1)));
        i = i + 1;
    }
    assert(k@.take(k@.len() as int) =~= k@);
    assert(out@ =~= base@ + seq!['/'] + escape_token(key@));
    string_from_chars(&out)
}

// ---------------------------------------------------------------------------
// Fields

/// The first of `keys` that the value at `base` has as a member.
pub open spec fn first_present_key(doc: Seq<char>, base: Seq<char>, keys: Seq<Seq<char>>) -> Option<
    Seq<char>,
>
    decreases keys.len(),
{
    if keys.len() == 0 {
        None
    } else if node(doc, member_pointer(base, keys[0])) is Absent {
        first_present_key(doc, base, keys.drop_first())
    } else {
        Some(keys[0])
    }
}

/// The value of the first of `keys` that is present (nothing when none is).
pub open spec fn first_member(doc: Seq<char>, base: Seq<char>, keys: Seq<Seq<char>>) -> JsonNodeView {
    match first_present_key(doc, base, keys) {
        Some(k) => node(doc, member_pointer(base, k)),
        None => JsonNodeView::Absent,
    }
}

/// A string value, trimmed, when it is not blank.
pub open spec fn text_value(n: JsonNodeView) -> Option<Seq<char>> {
    match n {
        JsonNodeView::Str(s) => if trim(s).len() > 0 {
            Some(trim(s))
        } else {
            None
        },
        _ => None,
    }
}

/// The first of `keys` present at `base`, when its value is a string that
/// is not blank, trimmed.
pub open spec fn string_field_of(doc: Seq<char>, base: Seq<char>, keys: Seq<Seq<char>>) -> Option<
    Seq<char>,
> {
    text_value(first_member(doc, base, keys))
}

/// The first of `keys` present at `base`, when its value is a flag.
pub open spec fn bool_field_of(doc: Seq<char>, base: Seq<char>, keys: Seq<Seq<char>>) -> Option<bool> {
    match first_member(doc, base, keys) {
        JsonNodeView::Bool(b) => Some(b),
        _ => None,
    }
}

proof fn lemma_first_present(doc: Seq<char>, base: Seq<char>, keys: Seq<Seq<char>>, i: int)
    requires
        0 <= i <= keys.len(),
        forall|j: int|
            0 <= j < i ==> node(doc, member_pointer(base, #[trigger] keys[j])) is Absent,
    ensures
        i < keys.len() && !(node(doc, member_pointer(base, keys[i])) is Absent) ==> first_present_key(
            doc,
            base,
            keys,
        ) == Some(keys[i]),
        i == keys.len() ==> first_present_key(doc, base, keys) is None,
    decreases i,
{
    if i > 0 {
        let rest = keys.drop_first();
        assert forall|j: int| 0 <= j < i - 1 implies node(
            doc,
            member_pointer(base, #[trigger] rest[j]),
        ) is Absent by {
            assert(rest[j] == keys[j + 1]);
        }
        lemma_first_present(doc, base, rest, i - 1);
        assert(node(doc, member_pointer(base, keys[0])) is Absent);
        if i < keys.len() {
            assert(rest[i - 1] == keys[i]);
        }
    }
}

fn copy_node(n: &JsonNode) -> (r: JsonNode)
    ensures
        r@ == n@,
{
    match n {
        JsonNode::Absent => JsonNode::Absent,
        JsonNode::Null => JsonNode::Null,
        JsonNode::Bool(b) => JsonNode::Bool(*b),
        JsonNode::Number => JsonNode::Number,
        JsonNode::Str(s) => JsonNode::Str(s.clone()),
        JsonNode::Array(n) => JsonNode::Array(*n),
        JsonNode::Object => JsonNode::Object,
    }
}

/// The node at member `keys[j]` of the value at `base`, for each `j`.
fn member_nodes(doc: &str, base: &str, keys: &Vec<String>) -> (r: Vec<JsonNode>)
    ensures
        r@.len() == keys@.len(),
        forall|j: int|
            0 <= j < keys@.len() ==> (#[trigger] r@[j])@ == node(
                doc@,
                member_pointer(base@, strings_view(keys@)[j]),
            ),
{
    let ghost ks = strings_view(keys@);
    let mut pointers: Vec<String> = Vec::new();
    let mut i: usize = 0;
    while i < keys.len()
        invariant
            i <= keys@.len(),
            ks == strings_view(keys@),
            pointers@.len() == i,
            forall|j: int| 0 <= j < i ==> (#[trigger] pointers@[j])@ == member_pointer(base@, ks[j]),
        decreases keys.len() - i,
    {
        let p = member_pointer_of(base, keys[i].as_str());
        pointers.push(p);
        i = i + 1;
    }
    let ns = nodes_at(doc, &pointers);
    assert forall|j: int| 0 <= j < keys@.len() implies (#[trigger] ns@[j])@ == node(
        doc@,
        member_pointer(base@, ks[j]),
    ) by {
        assert(pointers@[j]@ == member_pointer(base@, ks[j]));
    }
    ns
}

/// Where the first of `keys` present at `base` stands among them.
fn first_present_in(
    ns: &Vec<JsonNode>,
    Ghost(doc): Ghost<Seq<char>>,
    Ghost(base): Ghost<Seq<char>>,
    Ghost(ks): Ghost<Seq<Seq<char>>>,
) -> (r: Option<usize>)
    requires
        ns@.len() == ks.len(),
        forall|j: int| 0 <= j < ks.len() ==> (#[trigger] ns@[j])@ == node(doc, member_pointer(base, ks[j])),
    ensures
        match r {
            Some(i) => i < ks.len() && first_present_key(doc, base, ks) == Some(ks[i as int]),
            None => first_present_key(doc, base, ks) is None,
        },
{
    let mut k: usize = 0;
    while k < ns.len()
        invariant
            k <= ns@.len(),
            ns@.len() == ks.len(),
            forall|j: int| 0 <= j < ks.len() ==> (#[trigger] ns@[j])@ == node(doc, member_pointer(base, ks[j])),
            forall|j: int| 0 <= j < k ==> node(doc, member_pointer(base, #[trigger] ks[j])) is Absent,
        decreases ns.len() - k,
    {
        assert(ns@[k as int]@ == node(doc, member_pointer(base, ks[k as int])));
        match &ns[k] {
            JsonNode::Absent => {},
            _ => {
                proof {
                    lemma_first_present(doc, base, ks, k as int);
                }
                return Some(k);
            },
        }
        k = k + 1;
    }
    proof {
        lemma_first_present(doc, base, ks, k as int);
    }
    None
}

/// The first of `keys` present at `base`.
pub fn first_present_key_of(doc: &str, base: &str, keys: &Vec<String>) -> (r: Option<String>)
    ensures
        match r {
            Some(k) => first_present_key(doc@, base@, strings_view(keys@)) == Some(k@),
            None => first_present_key(doc@, base@, strings_view(keys@)) is None,
        },
{
    let ns = member_nodes(doc, base, keys);
    match first_present_in(&ns, Ghost(doc@), Ghost(base@), Ghost(strings_view(keys@))) {
        Some(i) => Some(keys[i].clone()),
        None => None,
    }
}

/// The value of the first of `keys` present at `base`.
pub fn first_member_of(doc: &str, base: &str, keys: &Vec<String>) -> (r: JsonNode)
    ensures
        r@ == first_member(doc@, base@, strings_view(keys@)),
{
    let ns = member_nodes(doc, base, keys);
    match first_present_in(&ns, Ghost(doc@), Ghost(base@), Ghost(strings_view(keys@))) {
        Some(i) => copy_node(&ns[i]),
        None => JsonNode::Absent,
    }
}

/// What `doc` holds at `pointer`.
pub fn node_of(doc: &str, pointer: &str) -> (r: JsonNode)
    ensures
        r@ == node(doc@, pointer@),
{
    let mut ps: Vec<String> = Vec::new();
    ps.push(crate::text::to_string(pointer));
    let ns = nodes_at(doc, &ps);
    assert(ps@[0]@ == pointer@);
    copy_node(&ns[0])
}

/// A string value, trimmed, when it is not blank.
pub fn text_of(n: &JsonNode) -> (r: Option<String>)
    ensures
        match r {
            Some(s) => text_value(n@) == Some(s@),
            None => text_value(n@) is None,
        },
{
    match n {
        JsonNode::Str(s) => {
            let t = trim_str(s.as_str());
            if t.as_str().unicode_len() > 0 {
                Some(t)
            } else {
                None
            }
        },
        _ => None,
    }
}

/// `string_field`: the first of `keys` present at `base`, when it is a
/// string that is not blank, trimmed.
pub fn string_field(doc: &str, base: &str, keys: &Vec<String>) -> (r: Option<String>)
    ensures
        match r {
            Some(s) => string_field_of(doc@, base@, strings_view(keys@)) == Some(s@),
            None => string_field_of(doc@, base@, strings_view(keys@)) is None,
        },
{
    let n = first_member_of(doc, base, keys);
    text_of(&n)
}

/// `bool_field`: the first of `keys` present at `base`, when it is a flag.
pub fn bool_field(doc: &str, base: &str, keys: &Vec<String>) -> (r: Option<bool>)
    ensures
        r == bool_field_of(doc@, base@, strings_view(keys@)),
{
    match first_member_of(doc, base, keys) {
        JsonNode::Bool(b) => Some(b),
        _ => None,
    }
}

} // verus!
