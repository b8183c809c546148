//! The `.sm.meta` sidecar that a plugin writes beside its text: where the
//! text came from, which plugin made it, and the ranges (pages, headings,
//! cells, ...) of the text.

use vstd::prelude::*;
use crate::manifest::{debug_str, is_blank, str_debug_text};
use crate::text::{
    chars_of, concat, concat3, decimal, has_prefix, is_ascii_hex, str_eq, to_string, trim, u64_to_decimal,
};

verus! {

/// The meta schema this version understands.
pub const SM_META_SCHEMA: &'static str = "sm.meta.v1";

/// The source file that the text was made from.
#[derive(Debug, Clone)]
pub struct SmSource {
    pub path: String,
    pub size: u64,
    pub mtime: String,
    pub hash: Option<String>,
}

/// The plugin run that made the text.
#[derive(Debug, Clone)]
pub struct SmGenerator {
    pub plugin_id: String,
    pub plugin_version: String,
    pub settings_hash: Option<String>,
    pub engine: Option<String>,
}

/// The text file itself.
#[derive(Debug, Clone)]
pub struct SmText {
    pub path: String,
    pub encoding: String,
    pub length_bytes: Option<u64>,
    pub mtime: Option<String>,
    pub hash: Option<String>,
    pub offsets: Option<String>,
}

/// What a range of the text is.
#[derive(Debug, Clone, Copy, PartialEq, Eq, Structural)]
pub enum SmRangeType {
    Document,
    Page,
    Section,
    Heading,
    Paragraph,
    Block,
    PageBreak,
    ListItem,
    Table,
    Row,
    Cell,
    Footnote,
    Annotation,
    ImageAlt,
}

/// A range `[start, end)` of the text's bytes. `confidence_ok` says whether
/// the plugin's confidence for the range, when it gave one, lies in
/// `[0, 1]`.
#[derive(Debug)]
pub struct SmRange {
    pub kind: SmRangeType,
    pub start: u64,
    pub end: u64,
    pub index: Option<u64>,
    pub page: Option<u64>,
    pub level: Option<u64>,
    pub label: Option<String>,
    pub hints: Vec<String>,
    pub confidence_ok: bool,
}

/// A range as a mathematical value.
pub struct SmRangeView {
    pub kind: SmRangeType,
    pub start: u64,
    pub end: u64,
    pub index: Option<u64>,
    pub page: Option<u64>,
    pub level: Option<u64>,
    pub label: Option<Seq<char>>,
    pub hints: Seq<Seq<char>>,
    pub confidence_ok: bool,
}

pub open spec fn opt_string_view(o: Option<String>) -> Option<Seq<char>> {
    match o {
        Some(s) => Some(s@),
        None => None,
    }
}

impl View for SmRange {
    type V = SmRangeView;

    open spec fn view(&self) -> SmRangeView {
        SmRangeView {
            kind: self.kind,
            start: self.start,
            end: self.end,
            index: self.index,
            page: self.page,
            level: self.level,
            label: opt_string_view(self.label),
            hints: crate::registry::strings_view(self.hints@),
            confidence_ok: self.confidence_ok,
        }
    }
}

impl SmRange {
    /// A copy of this range.
    pub fn duplicate(&self) -> (r: SmRange)
        ensures
            r@ == self@,
    {
        SmRange {
            kind: self.kind,
            start: self.start,
            end: self.end,
            index: self.index,
            page: self.page,
            level: self.level,
            label: match &self.label {
                Some(l) => Some(l.clone()),
                None => None,
            },
            hints: crate::registry::clone_strings(&self.hints),
            confidence_ok: self.confidence_ok,
        }
    }
}

/// A parsed `.sm.meta`.
#[derive(Debug)]
pub struct SmMeta {
    pub schema: String,
    pub source: SmSource,
    pub generator: SmGenerator,
    pub text: SmText,
    pub ranges: Vec<SmRange>,
    pub warnings: Vec<String>,
}

/// The ranges of the text that hold an offset: the smallest one, and the
/// smallest page among them.
#[derive(Debug)]
pub struct RangeContext {
    pub page: Option<SmRange>,
    pub smallest: SmRange,
}

/// The instant an RFC 3339 timestamp names, in nanoseconds since the Unix
/// epoch, when `time::OffsetDateTime::parse` with the RFC 3339 format
/// accepts the text.
pub uninterp spec fn rfc3339_instant(value: Seq<char>) -> Option<int>;

/// Whether the text is an RFC 3339 timestamp.
pub open spec fn rfc3339_accepts(value: Seq<char>) -> bool {
    rfc3339_instant(value) is Some
}

/// Parses the text with `time::OffsetDateTime::parse` and the well-known
/// RFC 3339 format description and gives the instant it names as
/// `OffsetDateTime::unix_timestamp_nanos`; nothing when it does not parse.
/// The contract names that outcome and claims nothing more of it.
#[verifier::external_body]
pub(crate) fn rfc3339_instant_of(value: &str) -> (r: Option<i128>)
    ensures
        match r {
            Some(n) => rfc3339_instant(value@) == Some(n as int),
            None => rfc3339_instant(value@) is None,
        },
{
    time::OffsetDateTime::parse(value, &time::format_description::well_known::Rfc3339)
        .ok()
        .map(|t| t.unix_timestamp_nanos())
}

/// The RFC 3339 text of the instant `secs` whole seconds after the Unix
/// epoch, when `time` can represent and format it.
pub uninterp spec fn rfc3339_of_seconds(secs: int) -> Option<Seq<char>>;

/// Makes the instant with `time::OffsetDateTime::from_unix_timestamp` and
/// formats it with the well-known RFC 3339 format description; nothing when
/// either fails. The contract names that outcome and claims nothing more of
/// it.
#[verifier::external_body]
pub(crate) fn rfc3339_text_of_seconds(secs: i64) -> (r: Option<String>)
    ensures
        match r {
            Some(t) => rfc3339_of_seconds(secs as int) == Some(t@),
            None => rfc3339_of_seconds(secs as int) is None,
        },
{
    time::OffsetDateTime::from_unix_timestamp(secs)
        .ok()?
        .format(&time::format_description::well_known::Rfc3339)
        .ok()
}

/// Whether the text is an RFC 3339 timestamp.
fn rfc3339_parses(value: &str) -> (r: bool)
    ensures
        r == rfc3339_accepts(value@),
{
    rfc3339_instant_of(value).is_some()
}

/// The error for an optional `sha256:` hash field, if any.
pub open spec fn sha256_error(value: Option<String>, field: Seq<char>) -> Option<Seq<char>> {
    match value {
        None => None,
        Some(v) => if !has_prefix(v@, "sha256:"@) {
            Some(field + " must start with sha256:"@)
        } else {
            let hash = v@.subrange(7, v@.len() as int);
            if hash.len() != 64 || exists|i: int| 0 <= i < hash.len() && !is_ascii_hex(hash[i]) {
                Some(field + " must contain 64 hex characters"@)
            } else {
                None
            }
        },
    }
}

/// What is wrong with one range, after `range <index>`.
pub open spec fn range_problem(r: SmRange) -> Option<Seq<char>> {
    if r.start >= r.end {
        Some(" must satisfy start < end"@)
    } else if r.page == Some(0u64) {
        Some(" page must be >= 1"@)
    } else if r.level == Some(0u64) {
        Some(" level must be >= 1"@)
    } else if !r.confidence_ok {
        Some(" confidence must be between 0 and 1"@)
    } else {
        None
    }
}

/// The message for the first range that is wrong, if any.
pub open spec fn ranges_error(rs: Seq<SmRange>) -> Option<Seq<char>>
    decreases rs.len(),
{
    if rs.len() == 0 {
        None
    } else {
        match ranges_error(rs.drop_last()) {
            Some(e) => Some(e),
            None => match range_problem(rs.last()) {
                Some(p) => Some("range "@ + decimal((rs.len() - 1) as nat) + p),
                None => None,
            },
        }
    }
}

/// The first rule a meta file breaks, as its error message, checked in
/// order.
pub open spec fn meta_error(m: SmMeta) -> Option<Seq<char>> {
    if m.schema@ != SM_META_SCHEMA@ {
        Some(
            "unsupported .sm.meta schema "@ + str_debug_text(m.schema@) + "; expected "@
                + SM_META_SCHEMA@,
        )
    } else if trim(m.source.path@).len() == 0 {
        Some("source.path must not be empty"@)
    } else if !rfc3339_accepts(m.source.mtime@) {
        Some("source.mtime must be RFC 3339"@)
    } else if sha256_error(m.source.hash, "source.hash"@) is Some {
        sha256_error(m.source.hash, "source.hash"@)
    } else if trim(m.generator.plugin_id@).len() == 0 {
        Some("generator.plugin_id must not be empty"@)
    } else if trim(m.generator.plugin_version@).len() == 0 {
        Some("generator.plugin_version must not be empty"@)
    } else if sha256_error(m.generator.settings_hash, "generator.settings_hash"@) is Some {
        sha256_error(m.generator.settings_hash, "generator.settings_hash"@)
    } else if trim(m.text.path@).len() == 0 {
        Some("text.path must not be empty"@)
    } else if m.text.encoding@ != "utf-8"@ {
        Some("text.encoding must be utf-8"@)
    } else if m.text.offsets matches Some(o) && o@ != "utf8-bytes"@ {
        Some("text.offsets must be utf8-bytes when present"@)
    } else if m.text.mtime matches Some(t) && !rfc3339_accepts(t@) {
        Some("text.mtime must be RFC 3339"@)
    } else if sha256_error(m.text.hash, "text.hash"@) is Some {
        sha256_error(m.text.hash, "text.hash"@)
    } else {
        ranges_error(m.ranges@)
    }
}

#[verifier::loop_isolation(false)]
fn validate_optional_sha256(value: &Option<String>, field: &str) -> (r: Result<(), String>)
    ensures
        r is Ok <==> sha256_error(*value, field@) is None,
        r matches Err(e) ==> sha256_error(*value, field@) == Some(e@),
{
    let v = match value {
        None => {
            return Ok(());
        },
        Some(v) => v,
    };
    let chars = chars_of(v.as_str());
    let prefix = chars_of("sha256:");
    proof {
        reveal_strlit("sha256:");
    }
    match crate::text::strip_prefix_chars(&chars, &prefix) {
        None => Err(concat(field, " must start with sha256:")),
        Some(hash) => {
            assert(hash@ =~= v@.subrange(7, v@.len() as int));
            if hash.len() != 64 {
                return Err(concat(field, " must contain 64 hex characters"));
            }
            let mut i: usize = 0;
            while i < hash.len()
                invariant
                    i <= hash.len(),
                    forall|j: int| 0 <= j < i ==> is_ascii_hex(hash@[j]),
                decreases hash.len() - i,
            {
                let c = hash[i];
                if !(('0' <= c && c <= '9') || ('a' <= c && c <= 'f') || ('A' <= c && c <= 'F')) {
                    assert(!is_ascii_hex(hash@[i as int]));
                    return Err(concat(field, " must contain 64 hex characters"));
                }
                i = i + 1;
            }
            Ok(())
        },
    }
}

impl SmMeta {
    /// Checks the meta file's rules in order and reports the first one
    /// broken.
    #[verifier::loop_isolation(false)]
    pub fn validate(&self) -> (r: Result<(), String>)
        ensures
            r is Ok <==> meta_error(*self) is None,
            r matches Err(e) ==> meta_error(*self) == Some(e@),
    {
        if !str_eq(self.schema.as_str(), SM_META_SCHEMA) {
            let d = debug_str(self.schema.as_str());
            let mut msg = concat3("unsupported .sm.meta schema ", d.as_str(), "; expected ");
            msg.append(SM_META_SCHEMA);
            return Err(msg);
        }
        if is_blank(self.source.path.as_str()) {
            return Err(to_string("source.path must not be empty"));
        }
        if !rfc3339_parses(self.source.mtime.as_str()) {
            return Err(to_string("source.mtime must be RFC 3339"));
        }
        validate_optional_sha256(&self.source.hash, "source.hash")?;
        if is_blank(self.generator.plugin_id.as_str()) {
            return Err(to_string("generator.plugin_id must not be empty"));
        }
        if is_blank(self.generator.plugin_version.as_str()) {
            return Err(to_string("generator.plugin_version must not be empty"));
        }
        validate_optional_sha256(&self.generator.settings_hash, "generator.settings_hash")?;
        if is_blank(self.text.path.as_str()) {
            return Err(to_string("text.path must not be empty"));
        }
        if !str_eq(self.text.encoding.as_str(), "utf-8") {
            return Err(to_string("text.encoding must be utf-8"));
        }
        match &self.text.offsets {
            Some(o) => {
                if !str_eq(o.as_str(), "utf8-bytes") {
                    return Err(to_string("text.offsets must be utf8-bytes when present"));
                }
            },
            None => {},
        }
        match &self.text.mtime {
            Some(t) => {
                if !rfc3339_parses(t.as_str()) {
                    return Err(to_string("text.mtime must be RFC 3339"));
                }
            },
            None => {},
        }
        validate_optional_sha256(&self.text.hash, "text.hash")?;
        let ghost rs = self.ranges@;
        let mut i: usize = 0;
        assert(rs.take(0) =~= Seq::<SmRange>::empty());
        while i < self.ranges.len()
            invariant
                i <= self.ranges.len(),
                rs == self.ranges@,
                ranges_error(rs.take(i as int)) is None,
            decreases self.ranges.len() - i,
        {
            let r = &self.ranges[i];
            assert(rs.take(i + 1).drop_last() =~= rs.take(i as int));
            assert(rs.take(i + 1).last() == *r);
            let problem: Option<&str> = if r.start >= r.end {
                Some(" must satisfy start < end")
            } else if r.page == Some(0u64) {
                Some(" page must be >= 1")
            } else if r.level == Some(0u64) {
                Some(" level must be >= 1")
            } else if !r.confidence_ok {
                Some(" confidence must be between 0 and 1")
            } else {
                None
            };
            match problem {
                Some(p) => {
                    let n = u64_to_decimal(i as u64);
                    let msg = concat3("range ", n.as_str(), p);
                    proof {
                        assert(range_problem(*r) == Some(p@));
                        assert(ranges_error(rs.take(i + 1)) == Some(msg@));
                        assert(rs.take(i + 1) =~= rs.take(i + 1));
                        lemma_ranges_error_prefix(rs, i + 1);
                    }
                    return Err(msg);
                },
                None => {},
            }
            i = i + 1;
        }
        assert(rs.take(self.ranges.len() as int) =~= rs);
        Ok(())
    }

    /// The ranges that hold `offset`: the smallest (shortest, then by kind,
    /// then first), and the shortest page (then first), if any range holds
    /// it.
    pub fn context_for_offset(&self, offset: u64) -> (r: Option<RangeContext>)
        ensures
            r is Some <==> smallest_range(self.ranges@, offset) is Some,
            r matches Some(ctx) ==> {
                &&& ctx.smallest@ == self.ranges@[smallest_range(self.ranges@, offset)->0]@
                &&& ctx.page is Some <==> smallest_page(self.ranges@, offset) is Some
                &&& ctx.page matches Some(p) ==> p@
                    == self.ranges@[smallest_page(self.ranges@, offset)->0]@
            },
    {
        let s = match find_smallest(&self.ranges, offset) {
            Some(k) => k,
            None => {
                return None;
            },
        };
        let page = match find_smallest_page(&self.ranges, offset) {
            Some(k) => Some(self.ranges[k].duplicate()),
            None => None,
        };
        Some(RangeContext { page, smallest: self.ranges[s].duplicate() })
    }
}

proof fn lemma_ranges_error_prefix(rs: Seq<SmRange>, n: int)
    requires
        0 <= n <= rs.len(),
        ranges_error(rs.take(n)) is Some,
    ensures
        ranges_error(rs) == ranges_error(rs.take(n)),
    decreases rs.len() - n,
{
    if n < rs.len() {
        assert(rs.take(n + 1).drop_last() =~= rs.take(n));
        lemma_ranges_error_prefix(rs, n + 1);
    } else {
        assert(rs.take(n) =~= rs);
    }
}

/// The order in which range kinds win a tie of lengths: the most specific
/// first.
pub open spec fn priority(kind: SmRangeType) -> u8 {
    match kind {
        SmRangeType::Block => 0,
        SmRangeType::PageBreak => 1,
        SmRangeType::ListItem => 2,
        SmRangeType::Heading => 3,
        SmRangeType::Paragraph => 4,
        SmRangeType::Section => 5,
        SmRangeType::Cell => 6,
        SmRangeType::Row => 7,
        SmRangeType::Table => 8,
        SmRangeType::Footnote => 9,
        SmRangeType::Annotation => 10,
        SmRangeType::ImageAlt => 11,
        SmRangeType::Page => 12,
        SmRangeType::Document => 13,
    }
}

pub fn range_priority(kind: &SmRangeType) -> (r: u8)
    ensures
        r == priority(*kind),
{
    match kind {
        SmRangeType::Block => 0,
        SmRangeType::PageBreak => 1,
        SmRangeType::ListItem => 2,
        SmRangeType::Heading => 3,
        SmRangeType::Paragraph => 4,
        SmRangeType::Section => 5,
        SmRangeType::Cell => 6,
        SmRangeType::Row => 7,
        SmRangeType::Table => 8,
        SmRangeType::Footnote => 9,
        SmRangeType::Annotation => 10,
        SmRangeType::ImageAlt => 11,
        SmRangeType::Page => 12,
        SmRangeType::Document => 13,
    }
}

pub open spec fn holds(r: SmRange, offset: u64) -> bool {
    r.start <= offset && offset < r.end
}

pub open spec fn range_len(r: SmRange) -> int {
    r.end - r.start
}

/// `a` is smaller than `b`: shorter, or as long with a more specific kind.
pub open spec fn smaller(a: SmRange, b: SmRange) -> bool {
    range_len(a) < range_len(b) || (range_len(a) == range_len(b) && priority(a.kind) < priority(
        b.kind,
    ))
}

/// `rs[i]` holds the offset, no range that holds it is smaller, and every
/// earlier range that holds it is larger (`Iterator::min_by_key` keeps the
/// first of equal minima).
pub open spec fn is_smallest(rs: Seq<SmRange>, offset: u64, i: int) -> bool {
    &&& 0 <= i < rs.len()
    &&& holds(rs[i], offset)
    &&& forall|j: int| 0 <= j < rs.len() && holds(rs[j], offset) ==> !smaller(#[trigger] rs[j], rs[i])
    &&& forall|j: int| 0 <= j < i && holds(rs[j], offset) ==> smaller(rs[i], #[trigger] rs[j])
}

pub open spec fn smallest_range(rs: Seq<SmRange>, offset: u64) -> Option<int> {
    if exists|i: int| is_smallest(rs, offset, i) {
        Some(choose|i: int| is_smallest(rs, offset, i))
    } else {
        None
    }
}

pub open spec fn is_page_at(r: SmRange, offset: u64) -> bool {
    r.kind == SmRangeType::Page && holds(r, offset)
}

/// The first shortest page that holds the offset.
pub open spec fn is_smallest_page(rs: Seq<SmRange>, offset: u64, i: int) -> bool {
    &&& 0 <= i < rs.len()
    &&& is_page_at(rs[i], offset)
    &&& forall|j: int| 0 <= j < rs.len() && is_page_at(#[trigger] rs[j], offset) ==> range_len(rs[i]) <= range_len(rs[j])
    &&& forall|j: int| 0 <= j < i && is_page_at(#[trigger] rs[j], offset) ==> range_len(rs[i]) < range_len(rs[j])
}

pub open spec fn smallest_page(rs: Seq<SmRange>, offset: u64) -> Option<int> {
    if exists|i: int| is_smallest_page(rs, offset, i) {
        Some(choose|i: int| is_smallest_page(rs, offset, i))
    } else {
        None
    }
}

proof fn lemma_smallest_unique(rs: Seq<SmRange>, offset: u64, i: int)
    requires
        is_smallest(rs, offset, i),
    ensures
        smallest_range(rs, offset) == Some(i),
{
    let c = choose|k: int| is_smallest(rs, offset, k);
    assert(is_smallest(rs, offset, c));
    if c < i {
        assert(smaller(rs[i], rs[c]));
        assert(!smaller(rs[i], rs[c]));
    }
    if c > i {
        assert(smaller(rs[c], rs[i]));
        assert(!smaller(rs[c], rs[i]));
    }
}

proof fn lemma_smallest_page_unique(rs: Seq<SmRange>, offset: u64, i: int)
    requires
        is_smallest_page(rs, offset, i),
    ensures
        smallest_page(rs, offset) == Some(i),
{
    let c = choose|k: int| is_smallest_page(rs, offset, k);
    assert(is_smallest_page(rs, offset, c));
    if c < i {
        assert(range_len(rs[i]) < range_len(rs[c]));
        assert(range_len(rs[c]) <= range_len(rs[i]));
    }
    if c > i {
        assert(range_len(rs[c]) < range_len(rs[i]));
        assert(range_len(rs[i]) <= range_len(rs[c]));
    }
}

proof fn lemma_smallest_exists(rs: Seq<SmRange>, offset: u64)
    ensures
        (exists|j: int| 0 <= j < rs.len() && holds(rs[j], offset)) ==> exists|i: int|
            is_smallest(rs, offset, i),
    decreases rs.len(),
{
    if rs.len() > 0 {
        let d = rs.drop_last();
        lemma_smallest_exists(d, offset);
        let n = rs.len() - 1;
        let last = rs[n];
        if exists|j: int| 0 <= j < rs.len() && holds(rs[j], offset) {
            let w = choose|j: int| 0 <= j < rs.len() && holds(rs[j], offset);
            if w < n {
                assert(d[w] == rs[w]);
                assert(holds(d[w], offset));
            }
        }
        if exists|j: int| 0 <= j < d.len() && holds(d[j], offset) {
            let i0 = choose|i: int| is_smallest(d, offset, i);
            assert(d[i0] == rs[i0]);
            if holds(last, offset) && smaller(last, rs[i0]) {
                assert forall|j: int| 0 <= j < rs.len() && holds(rs[j], offset) implies !smaller(
                    #[trigger] rs[j],
                    rs[n],
                ) by {
                    if j < n {
                        assert(d[j] == rs[j]);
                        assert(!smaller(d[j], d[i0]));
                    }
                }
                assert forall|j: int| 0 <= j < n && holds(rs[j], offset) implies smaller(
                    rs[n],
                    #[trigger] rs[j],
                ) by {
                    assert(d[j] == rs[j]);
                    assert(!smaller(d[j], d[i0]));
                }
                assert(is_smallest(rs, offset, n));
            } else {
                assert forall|j: int| 0 <= j < rs.len() && holds(rs[j], offset) implies !smaller(
                    #[trigger] rs[j],
                    rs[i0],
                ) by {
                    if j < n {
                        assert(d[j] == rs[j]);
                    }
                }
                assert forall|j: int| 0 <= j < i0 && holds(rs[j], offset) implies smaller(
                    rs[i0],
                    #[trigger] rs[j],
                ) by {
                    assert(d[j] == rs[j]);
                }
                assert(is_smallest(rs, offset, i0));
            }
        } else if holds(last, offset) {
            assert forall|j: int| 0 <= j < rs.len() && holds(rs[j], offset) implies !smaller(
                #[trigger] rs[j],
                rs[n],
            ) by {
                if j < n {
                    assert(d[j] == rs[j]);
                }
            }
            assert forall|j: int| 0 <= j < n && holds(rs[j], offset) implies smaller(
                rs[n],
                #[trigger] rs[j],
            ) by {
                assert(d[j] == rs[j]);
            }
            assert(is_smallest(rs, offset, n));
        }
    }
}

/// The context of an offset is found whenever some range holds the
/// offset; its smallest range holds the offset and no range that holds it
/// is shorter.
pub proof fn law_context_picks_smallest_range(rs: Seq<SmRange>, offset: u64)
    ensures
        smallest_range(rs, offset) is Some <==> exists|j: int| 0 <= j < rs.len() && holds(rs[j], offset),
        smallest_range(rs, offset) matches Some(i) ==> {
            &&& holds(rs[i], offset)
            &&& forall|j: int| 0 <= j < rs.len() && holds(rs[j], offset) ==> range_len(rs[i]) <= range_len(#[trigger] rs[j])
        },
{
    lemma_smallest_exists(rs, offset);
    if exists|i: int| is_smallest(rs, offset, i) {
        let i = choose|i: int| is_smallest(rs, offset, i);
        assert(holds(rs[i], offset));
        assert forall|j: int| 0 <= j < rs.len() && holds(rs[j], offset) implies range_len(rs[i]) <= range_len(#[trigger] rs[j]) by {
            assert(!smaller(rs[j], rs[i]));
        }
    }
}

fn find_smallest(rs: &Vec<SmRange>, offset: u64) -> (r: Option<usize>)
    ensures
        r is Some <==> smallest_range(rs@, offset) is Some,
        r matches Some(k) ==> smallest_range(rs@, offset) == Some(k as int) && k < rs.len(),
{
    let mut best: Option<usize> = None;
    let mut i: usize = 0;
    while i < rs.len()
        invariant
            i <= rs.len(),
            best is None ==> forall|j: int| 0 <= j < i ==> !holds(#[trigger] rs@[j], offset),
            best matches Some(b) ==> {
                &&& b < i
                &&& holds(rs@[b as int], offset)
                &&& forall|j: int| 0 <= j < i && holds(rs@[j], offset) ==> !smaller(#[trigger] rs@[j], rs@[b as int])
                &&& forall|j: int| 0 <= j < b && holds(rs@[j], offset) ==> smaller(rs@[b as int], #[trigger] rs@[j])
            },
        decreases rs.len() - i,
    {
        let r = &rs[i];
        if r.start <= offset && offset < r.end {
            match best {
                None => {
                    best = Some(i);
                },
                Some(b) => {
                    let lr = r.end - r.start;
                    let lb = rs[b].end - rs[b].start;
                    let pr = range_priority(&r.kind);
                    let pb = range_priority(&rs[b].kind);
                    if lr < lb || (lr == lb && pr < pb) {
                        best = Some(i);
                    }
                },
            }
        }
        i = i + 1;
    }
    match best {
        Some(b) => {
            proof {
                lemma_smallest_unique(rs@, offset, b as int);
            }
            Some(b)
        },
        None => {
            proof {
                if exists|k: int| is_smallest(rs@, offset, k) {
                    let k = choose|k: int| is_smallest(rs@, offset, k);
                    assert(holds(rs@[k], offset));
                }
            }
            None
        },
    }
}

fn find_smallest_page(rs: &Vec<SmRange>, offset: u64) -> (r: Option<usize>)
    ensures
        r is Some <==> smallest_page(rs@, offset) is Some,
        r matches Some(k) ==> smallest_page(rs@, offset) == Some(k as int) && k < rs.len(),
{
    let mut best: Option<usize> = None;
    let mut i: usize = 0;
    while i < rs.len()
        invariant
            i <= rs.len(),
            best is None ==> forall|j: int| 0 <= j < i ==> !is_page_at(#[trigger] rs@[j], offset),
            best matches Some(b) ==> {
                &&& b < i
                &&& is_page_at(rs@[b as int], offset)
                &&& forall|j: int| 0 <= j < i && is_page_at(#[trigger] rs@[j], offset) ==> range_len(rs@[b as int]) <= range_len(rs@[j])
                &&& forall|j: int| 0 <= j < b && is_page_at(#[trigger] rs@[j], offset) ==> range_len(rs@[b as int]) < range_len(rs@[j])
            },
        decreases rs.len() - i,
    {
        let r = &rs[i];
        let is_page = match r.kind {
            SmRangeType::Page => true,
            _ => false,
        };
        if is_page && r.start <= offset && offset < r.end {
            match best {
                None => {
                    best = Some(i);
                },
                Some(b) => {
                    if r.end - r.start < rs[b].end - rs[b].start {
                        best = Some(i);
                    }
                },
            }
        }
        i = i + 1;
    }
    match best {
        Some(b) => {
            proof {
                lemma_smallest_page_unique(rs@, offset, b as int);
            }
            Some(b)
        },
        None => {
            proof {
                if exists|k: int| is_smallest_page(rs@, offset, k) {
                    let k = choose|k: int| is_smallest_page(rs@, offset, k);
                    assert(is_page_at(rs@[k], offset));
                }
            }
            None
        },
    }
}

} // verus!
