//! Searching with ripgrep: the request, the command line it becomes, the
//! matches read back from ripgrep's JSON lines, and the bookkeeping of a
//! running search.

use vstd::prelude::*;
use crate::registry::strings_view;
use crate::text::{concat, str_eq, to_string, trim, trim_end, trim_end_str, trim_str, u64_to_decimal};

verus! {

/// What the user asked to search for, and how.
#[derive(Debug, Clone)]
pub struct SearchRequest {
    pub query: String,
    pub path: String,
    pub regex: bool,
    pub case_sensitive: bool,
    pub hidden: bool,
    pub include_patterns: Vec<String>,
    pub exclude_patterns: Vec<String>,
    pub follow_symlinks: bool,
    pub multiline: bool,
    pub context_lines: u64,
    pub min_file_size: String,
    pub max_file_size: String,
    pub modified_after: Option<u64>,
    pub skip_binary: bool,
    pub encoding: String,
    pub max_matches: Option<usize>,
    pub respect_gitignore: bool,
    pub ignore_node_modules: bool,
    pub ignore_build_artifacts: bool,
}

/// One matching line.
#[derive(Debug, Clone)]
pub struct SearchMatch {
    pub path: String,
    pub line_number: u64,
    pub line_text: String,
    pub submatches: Vec<SearchSubmatch>,
    pub file_size: Option<u64>,
    pub modified_secs: Option<u64>,
}

/// A matched part of a line, in UTF-16 code units.
#[derive(Debug, Clone, Copy, PartialEq, Eq, Structural)]
pub struct SearchSubmatch {
    pub start: usize,
    pub end: usize,
}

/// Some lines of a file around a match.
#[derive(Debug, Clone)]
pub struct FilePreview {
    pub path: String,
    pub start_line: u64,
    pub end_line: u64,
    pub lines: Vec<FilePreviewLine>,
    pub truncated: bool,
}

/// One line of a preview.
#[derive(Debug, Clone)]
pub struct FilePreviewLine {
    pub number: u64,
    pub text: String,
    pub is_match: bool,
    pub match_ranges: Vec<SearchSubmatch>,
}

/// Where a search is.
#[derive(Debug, Clone, Copy, PartialEq, Eq, Structural)]
pub enum SearchState {
    Starting,
    Running,
    Cancelling,
    Completed,
    Cancelled,
    Failed,
}

/// A search's state as reported to the user.
#[derive(Debug, Clone)]
pub struct SearchStatus {
    pub search_id: u64,
    pub state: SearchState,
    pub total_matches: usize,
    pub error_message: Option<String>,
}

/// How a search run handles its results.
#[derive(Debug, Clone, Copy)]
pub struct SearchRunOptions {
    pub search_id: u64,
    pub result_limit: usize,
    pub modified_after: Option<u64>,
}

// ---------------------------------------------------------------------------
// The command line

/// The ripgrep searcher.
#[derive(Debug)]
pub struct RipgrepSidecarProvider {}

pub open spec fn build_artifact_globs() -> Seq<Seq<char>> {
    seq![
        "!**/dist/**"@,
        "!**/build/**"@,
        "!**/target/**"@,
        "!**/.svelte-kit/**"@,
        "!**/.next/**"@,
        "!**/coverage/**"@,
    ]
}

/// `--glob` followed by each pattern, each with a prefix.
pub open spec fn globs_with(prefix: Seq<char>, patterns: Seq<Seq<char>>) -> Seq<Seq<char>>
    decreases patterns.len(),
{
    if patterns.len() == 0 {
        seq![]
    } else {
        globs_with(prefix, patterns.drop_last()) + seq!["--glob"@, prefix + patterns.last()]
    }
}

pub open spec fn flag_if(cond: bool, flag: Seq<char>) -> Seq<Seq<char>> {
    if cond {
        seq![flag]
    } else {
        seq![]
    }
}

pub open spec fn option_if(cond: bool, flag: Seq<char>, value: Seq<char>) -> Seq<Seq<char>> {
    if cond {
        seq![flag, value]
    } else {
        seq![]
    }
}

pub open spec fn min_u64(a: u64, b: u64) -> u64 {
    if a < b {
        a
    } else {
        b
    }
}

/// The size, count and context options.
pub open spec fn option_part(r: SearchRequest) -> Seq<Seq<char>> {
    let max_count = match r.max_matches {
        Some(m) => m > 0,
        None => false,
    };
    option_if(trim(r.min_file_size@).len() > 0, "--min-filesize"@, trim(r.min_file_size@))
        + option_if(trim(r.max_file_size@).len() > 0, "--max-filesize"@, trim(r.max_file_size@))
        + option_if(max_count, "--max-count"@, crate::text::decimal(r.max_matches->0 as nat))
        + option_if(r.context_lines > 0, "--context"@, crate::text::decimal(min_u64(r.context_lines, 20) as nat))
}

/// The include and exclude globs.
pub open spec fn glob_part(r: SearchRequest) -> Seq<Seq<char>> {
    globs_with(seq![], strings_view(r.include_patterns@))
        + globs_with("!"@, strings_view(r.exclude_patterns@))
        + option_if(r.ignore_node_modules, "--glob"@, "!**/node_modules/**"@)
        + (if r.ignore_build_artifacts {
            globs_with(seq![], build_artifact_globs())
        } else {
            seq![]
        })
}

/// The switches that take no value.
pub open spec fn switch_part(r: SearchRequest) -> Seq<Seq<char>> {
    flag_if(!r.regex, "--fixed-strings"@)
        + flag_if(!r.case_sensitive, "--ignore-case"@)
        + flag_if(r.hidden, "--hidden"@)
        + flag_if(r.follow_symlinks, "--follow"@)
        + flag_if(r.multiline, "--multiline"@)
        + flag_if(!r.skip_binary, "--text"@)
}

/// The switches.
pub open spec fn flag_part(r: SearchRequest) -> Seq<Seq<char>> {
    switch_part(r)
        + option_if(r.encoding@ == "utf-8"@ || r.encoding@ == "ascii"@, "--encoding"@, r.encoding@)
        + flag_if(!r.respect_gitignore, "--no-ignore"@)
}

/// The arguments ripgrep is run with for a request: JSON output with line
/// numbers and no messages, the options, the globs, the switches, then the
/// query and the path.
pub open spec fn ripgrep_args(r: SearchRequest) -> Seq<Seq<char>> {
    seq!["--json"@, "--line-number"@, "--no-messages"@] + option_part(r) + glob_part(r)
        + flag_part(r) + seq![r.query@, r.path@]
}

fn push_str(args: &mut Vec<String>, s: &str)
    ensures
        strings_view(final(args)@) == strings_view(old(args)@).push(s@),
{
    let ghost before = strings_view(args@);
    args.push(to_string(s));
    assert(strings_view(args@) =~= before.push(s@));
}

fn push_globs(args: &mut Vec<String>, prefix: &str, patterns: &Vec<String>)
    ensures
        strings_view(final(args)@) == strings_view(old(args)@) + globs_with(prefix@, strings_view(patterns@)),
{
    let ghost start = strings_view(args@);
    let ghost ps = strings_view(patterns@);
    let mut i: usize = 0;
    assert(ps.take(0) =~= Seq::<Seq<char>>::empty());
    assert(start + globs_with(prefix@, ps.take(0)) =~= start);
    while i < patterns.len()
        invariant
            i <= patterns.len(),
            ps == strings_view(patterns@),
            strings_view(args@) == start + globs_with(prefix@, ps.take(i as int)),
        decreases patterns.len() - i,
    {
        push_str(args, "--glob");
        let g = concat(prefix, patterns[i].as_str());
        let ghost before = strings_view(args@);
        args.push(g);
        assert(strings_view(args@) =~= before.push(g@));
        assert(ps.take(i + 1).drop_last() =~= ps.take(i as int));
        assert(strings_view(args@) =~= start + globs_with(prefix@, ps.take(i + 1)));
        i = i + 1;
    }
    assert(ps.take(patterns.len() as int) =~= ps);
}

fn build_artifact_list() -> (r: Vec<String>)
    ensures
        strings_view(r@) == build_artifact_globs(),
{
    let mut v: Vec<String> = Vec::new();
    push_str(&mut v, "!**/dist/**");
    push_str(&mut v, "!**/build/**");
    push_str(&mut v, "!**/target/**");
    push_str(&mut v, "!**/.svelte-kit/**");
    push_str(&mut v, "!**/.next/**");
    push_str(&mut v, "!**/coverage/**");
    assert(strings_view(v@) =~= build_artifact_globs());
    v
}

fn push_option(args: &mut Vec<String>, cond: bool, flag: &str, value: &str)
    ensures
        strings_view(final(args)@) == strings_view(old(args)@) + option_if(cond, flag@, value@),
{
    let ghost s0 = strings_view(args@);
    if cond {
        push_str(args, flag);
        push_str(args, value);
    }
    assert(strings_view(args@) =~= s0 + option_if(cond, flag@, value@));
}

fn push_options(args: &mut Vec<String>, request: &SearchRequest)
    ensures
        strings_view(final(args)@) == strings_view(old(args)@) + option_part(*request),
{
    let ghost s0 = strings_view(args@);
    let min = trim_str(request.min_file_size.as_str());
    push_option(args, min.as_str().unicode_len() > 0, "--min-filesize", min.as_str());
    let max = trim_str(request.max_file_size.as_str());
    push_option(args, max.as_str().unicode_len() > 0, "--max-filesize", max.as_str());
    let ghost s2 = strings_view(args@);
    let (has_max, m) = match request.max_matches {
        Some(m) => (m > 0, m),
        None => (false, 0),
    };
    let d = u64_to_decimal(m as u64);
    push_option(args, has_max, "--max-count", d.as_str());
    let ghost s3 = strings_view(args@);
    let c = if request.context_lines < 20 {
        request.context_lines
    } else {
        20
    };
    let dc = u64_to_decimal(c);
    push_option(args, request.context_lines > 0, "--context", dc.as_str());
    proof {
        if has_max {
            assert(d@ == crate::text::decimal(request.max_matches->0 as nat));
        }
    }
    assert(strings_view(args@) =~= s0 + option_part(*request));
}

fn push_glob_part(args: &mut Vec<String>, request: &SearchRequest)
    ensures
        strings_view(final(args)@) == strings_view(old(args)@) + glob_part(*request),
{
    let ghost s0 = strings_view(args@);
    push_globs(args, "", &request.include_patterns);
    proof {
        reveal_strlit("");
        assert(""@ =~= Seq::<char>::empty());
    }
    push_globs(args, "!", &request.exclude_patterns);
    let ghost s5 = strings_view(args@);
    if request.ignore_node_modules {
        push_str(args, "--glob");
        push_str(args, "!**/node_modules/**");
    }
    let ghost s6 = strings_view(args@);
    assert(s6 =~= s5 + option_if(request.ignore_node_modules, "--glob"@, "!**/node_modules/**"@));
    if request.ignore_build_artifacts {
        let list = build_artifact_list();
        push_globs(args, "", &list);
    }
    let ghost s7 = strings_view(args@);
    assert(s7 =~= s6 + (if request.ignore_build_artifacts {
        globs_with(seq![], build_artifact_globs())
    } else {
        seq![]
    }));
    assert(s7 =~= s0 + glob_part(*request));
}

fn push_flag(args: &mut Vec<String>, cond: bool, flag: &str)
    ensures
        strings_view(final(args)@) == strings_view(old(args)@) + flag_if(cond, flag@),
{
    let ghost s0 = strings_view(args@);
    if cond {
        push_str(args, flag);
    }
    assert(strings_view(args@) =~= s0 + flag_if(cond, flag@));
}

fn push_switches(args: &mut Vec<String>, request: &SearchRequest)
    ensures
        strings_view(final(args)@) == strings_view(old(args)@) + switch_part(*request),
{
    let ghost s0 = strings_view(args@);
    push_flag(args, !request.regex, "--fixed-strings");
    let ghost s1 = strings_view(args@);
    push_flag(args, !request.case_sensitive, "--ignore-case");
    let ghost s2 = strings_view(args@);
    push_flag(args, request.hidden, "--hidden");
    let ghost s3 = strings_view(args@);
    push_flag(args, request.follow_symlinks, "--follow");
    let ghost s4 = strings_view(args@);
    push_flag(args, request.multiline, "--multiline");
    let ghost s5 = strings_view(args@);
    push_flag(args, !request.skip_binary, "--text");
    let ghost s6 = strings_view(args@);
    assert(s6 =~= s0 + switch_part(*request));
}

fn push_flags(args: &mut Vec<String>, request: &SearchRequest)
    ensures
        strings_view(final(args)@) == strings_view(old(args)@) + flag_part(*request),
{
    let ghost s0 = strings_view(args@);
    push_switches(args, request);
    let known = str_eq(request.encoding.as_str(), "utf-8") || str_eq(request.encoding.as_str(), "ascii");
    let ghost s6 = strings_view(args@);
    if known {
        push_str(args, "--encoding");
        push_str(args, request.encoding.as_str());
    }
    let ghost s7 = strings_view(args@);
    assert(s7 =~= s6 + option_if(known, "--encoding"@, request.encoding@));
    push_flag(args, !request.respect_gitignore, "--no-ignore");
    assert(strings_view(args@) =~= s0 + flag_part(*request));
}

impl RipgrepSidecarProvider {
    /// The arguments of the ripgrep command for a request.
    pub fn args(request: SearchRequest) -> (r: Vec<String>)
        ensures
            strings_view(r@) == ripgrep_args(request),
    {
        let mut args: Vec<String> = Vec::new();
        push_str(&mut args, "--json");
        push_str(&mut args, "--line-number");
        push_str(&mut args, "--no-messages");
        let ghost s0 = strings_view(args@);
        assert(s0 =~= seq!["--json"@, "--line-number"@, "--no-messages"@]);
        push_options(&mut args, &request);
        push_glob_part(&mut args, &request);
        push_flags(&mut args, &request);
        let ghost s3 = strings_view(args@);
        push_str(&mut args, request.query.as_str());
        push_str(&mut args, request.path.as_str());
        assert(strings_view(args@) =~= s3 + seq![request.query@, request.path@]);
        args
    }
}

/// Whether a match passes the "modified after" filter: with a bound, only
/// files known to be modified at or after it pass.
pub fn matches_modified_filter(result: &SearchMatch, modified_after: Option<u64>) -> (r: bool)
    ensures
        r == match modified_after {
            Some(after) => match result.modified_secs {
                Some(m) => m >= after,
                None => false,
            },
            None => true,
        },
{
    match modified_after {
        Some(after) => match result.modified_secs {
            Some(m) => m >= after,
            None => false,
        },
        None => true,
    }
}

// ---------------------------------------------------------------------------
// Quoting for the log

pub open spec fn shell_safe(c: char) -> bool {
    ('a' <= c && c <= 'z') || ('A' <= c && c <= 'Z') || ('0' <= c && c <= '9') || c == '-' || c
        == '_' || c == '.' || c == '/' || c == ':' || c == '=' || c == ',' || c == '@' || c == '%'
        || c == '+'
}

/// `'` replaced by `'\''`.
pub open spec fn escape_quotes(s: Seq<char>) -> Seq<char>
    decreases s.len(),
{
    if s.len() == 0 {
        seq![]
    } else if s.last() == '\'' {
        escape_quotes(s.drop_last()) + seq!['\'', '\\', '\'', '\'']
    } else {
        escape_quotes(s.drop_last()).push(s.last())
    }
}

/// A value as a shell would need it quoted.
pub open spec fn shell_quoted(s: Seq<char>) -> Seq<char> {
    if s.len() == 0 {
        seq!['\'', '\'']
    } else if forall|i: int| 0 <= i < s.len() ==> shell_safe(s[i]) {
        s
    } else {
        seq!['\''] + escape_quotes(s) + seq!['\'']
    }
}

pub fn shell_quote(value: &str) -> (r: String)
    ensures
        r@ == shell_quoted(value@),
{
    let cs = crate::text::chars_of(value);
    if cs.len() == 0 {
        proof {
            reveal_strlit("''");
        }
        return to_string("''");
    }
    let mut safe = true;
    let mut i: usize = 0;
    while i < cs.len()
        invariant
            i <= cs.len(),
            safe == forall|j: int| 0 <= j < i ==> shell_safe(cs@[j]),
        decreases cs.len() - i,
    {
        let c = cs[i];
        let ok = ('a' <= c && c <= 'z') || ('A' <= c && c <= 'Z') || ('0' <= c && c <= '9') || c
            == '-' || c == '_' || c == '.' || c == '/' || c == ':' || c == '=' || c == ',' || c
            == '@' || c == '%' || c == '+';
        safe = safe && ok;
        i = i + 1;
    }
    if safe {
        return to_string(value);
    }
    let mut out: Vec<char> = Vec::new();
    out.push('\'');
    let mut k: usize = 0;
    assert(cs@.take(0) =~= Seq::<char>::empty());
    while k < cs.len()
        invariant
            k <= cs.len(),
            out@ == seq!['\''] + escape_quotes(cs@.take(k as int)),
        decreases cs.len() - k,
    {
        assert(cs@.take(k + 1).drop_last() =~= cs@.take(k as int));
        if cs[k] == '\'' {
            out.push('\'');
            out.push('\\');
            out.push('\'');
            out.push('\'');
        } else {
            out.push(cs[k]);
        }
        assert(out@ =~= seq!['\''] + escape_quotes(cs@.take(k + 1)));
        k = k + 1;
    }
    out.push('\'');
    assert(cs@.take(cs.len() as int) =~= cs@);
    crate::text::string_from_chars(&out)
}

pub open spec fn join_spaced(parts: Seq<Seq<char>>) -> Seq<char>
    decreases parts.len(),
{
    if parts.len() == 0 {
        seq![]
    } else if parts.len() == 1 {
        parts[0]
    } else {
        join_spaced(parts.drop_last()) + seq![' '] + parts.last()
    }
}

/// The command line as it is logged: program and arguments, each quoted,
/// separated by spaces.
pub fn debug_command_line(program: &str, args: &Vec<String>) -> (r: String)
    ensures
        r@ == join_spaced(
            seq![shell_quoted(program@)] + strings_view(args@).map_values(|a: Seq<char>| shell_quoted(a)),
        ),
{
    let ghost parts = seq![shell_quoted(program@)] + strings_view(args@).map_values(|a: Seq<char>| shell_quoted(a));
    let mut out = shell_quote(program);
    let mut i: usize = 0;
    assert(parts.take(1) =~= seq![shell_quoted(program@)]);
    while i < args.len()
        invariant
            i <= args.len(),
            parts == seq![shell_quoted(program@)] + strings_view(args@).map_values(|a: Seq<char>| shell_quoted(a)),
            out@ == join_spaced(parts.take(i + 1)),
        decreases args.len() - i,
    {
        let q = shell_quote(args[i].as_str());
        out.append(" ");
        out.append(q.as_str());
        assert(parts.take(i + 2).drop_last() =~= parts.take(i + 1));
        assert(parts[i + 1] == q@);
        proof {
            reveal_strlit(" ");
        }
        assert(out@ =~= join_spaced(parts.take(i + 2)));
        i = i + 1;
    }
    assert(parts.take(args.len() + 1) =~= parts);
    out
}

// ---------------------------------------------------------------------------
// Reading ripgrep's output

/// A submatch as ripgrep's JSON gives it: byte offsets, when they are
/// numbers.
#[derive(Debug, Clone, Copy)]
pub struct RgSubmatch {
    pub start: Option<u64>,
    pub end: Option<u64>,
}

/// The fields of one line of ripgrep's JSON output that a match is read
/// from: `type`, `data.path.text`, `data.line_number`, `data.lines.text`
/// and `data.submatches`, each when present with the right JSON type.
#[derive(Debug, Clone)]
pub struct RgLine {
    pub kind: Option<String>,
    pub path_text: Option<String>,
    pub line_number: Option<u64>,
    pub lines_text: Option<String>,
    pub submatches: Option<Vec<RgSubmatch>>,
}

/// The number of UTF-8 bytes of a character.
pub open spec fn utf8_len(c: char) -> nat {
    if (c as u32) < 0x80 {
        1
    } else if (c as u32) < 0x800 {
        2
    } else if (c as u32) < 0x10000 {
        3
    } else {
        4
    }
}

/// The number of UTF-16 code units of a character.
pub open spec fn utf16_len(c: char) -> nat {
    if (c as u32) < 0x10000 {
        1
    } else {
        2
    }
}

/// The number of UTF-8 bytes of a text (`str::len`).
pub open spec fn utf8_bytes(s: Seq<char>) -> nat
    decreases s.len(),
{
    if s.len() == 0 {
        0
    } else {
        utf8_bytes(s.drop_last()) + utf8_len(s.last())
    }
}

/// The UTF-16 length of the characters that start before the byte offset.
pub open spec fn utf16_offset(s: Seq<char>, byte_offset: int) -> nat
    decreases s.len(),
{
    if s.len() == 0 {
        0
    } else {
        utf16_offset(s.drop_last(), byte_offset) + if utf8_bytes(s.drop_last()) < byte_offset {
            utf16_len(s.last())
        } else {
            0
        }
    }
}

proof fn lemma_utf16_le_utf8(s: Seq<char>, b: int)
    ensures
        utf16_offset(s, b) <= utf8_bytes(s),
    decreases s.len(),
{
    if s.len() > 0 {
        lemma_utf16_le_utf8(s.drop_last(), b);
    }
}

fn char_utf8_len(c: char) -> (r: u64)
    ensures
        r == utf8_len(c),
{
    let n = c as u32;
    if n < 0x80 {
        1
    } else if n < 0x800 {
        2
    } else if n < 0x10000 {
        3
    } else {
        4
    }
}

/// The byte length of `text`.
pub fn utf8_byte_len(text: &str) -> (r: u64)
    requires
        utf8_bytes(text@) <= u64::MAX,
    ensures
        r == utf8_bytes(text@),
{
    let n = text.unicode_len();
    let mut i: usize = 0;
    let mut total: u64 = 0;
    assert(text@.take(0) =~= Seq::<char>::empty());
    while i < n
        invariant
            n == text@.len(),
            i <= n,
            total == utf8_bytes(text@.take(i as int)),
            utf8_bytes(text@) <= u64::MAX,
        decreases n - i,
    {
        let c = text.get_char(i);
        assert(text@.take(i + 1).drop_last() =~= text@.take(i as int));
        proof {
            lemma_prefix_bytes(text@, i + 1);
        }
        total = total + char_utf8_len(c);
        i = i + 1;
    }
    assert(text@.take(n as int) =~= text@);
    total
}

proof fn lemma_prefix_bytes(s: Seq<char>, k: int)
    requires
        0 <= k <= s.len(),
    ensures
        utf8_bytes(s.take(k)) <= utf8_bytes(s),
    decreases s.len() - k,
{
    if k < s.len() {
        lemma_prefix_bytes(s, k + 1);
        assert(s.take(k + 1).drop_last() =~= s.take(k));
    } else {
        assert(s.take(k) =~= s);
    }
}

/// The UTF-16 offset of a UTF-8 byte offset of `text`: the UTF-16 length
/// of the characters that start before it.
pub fn byte_to_utf16_offset(text: &str, byte_offset: u64) -> (r: usize)
    requires
        utf8_bytes(text@) <= usize::MAX,
    ensures
        r == utf16_offset(text@, byte_offset as int),
{
    let n = text.unicode_len();
    let mut i: usize = 0;
    let mut pos: u64 = 0;
    let mut acc: usize = 0;
    assert(text@.take(0) =~= Seq::<char>::empty());
    while i < n
        invariant
            n == text@.len(),
            i <= n,
            pos == utf8_bytes(text@.take(i as int)),
            acc == utf16_offset(text@.take(i as int), byte_offset as int),
            utf8_bytes(text@) <= usize::MAX,
        decreases n - i,
    {
        let c = text.get_char(i);
        assert(text@.take(i + 1).drop_last() =~= text@.take(i as int));
        assert(text@.take(i + 1).last() == c);
        proof {
            lemma_prefix_bytes(text@, i + 1);
            lemma_utf16_le_utf8(text@.take(i + 1), byte_offset as int);
        }
        if pos < byte_offset {
            let u: usize = if (c as u32) < 0x10000 {
                1
            } else {
                2
            };
            acc = acc + u;
        }
        pos = pos + char_utf8_len(c);
        i = i + 1;
    }
    assert(text@.take(n as int) =~= text@);
    acc
}

pub open spec fn submatch_view(s: SearchSubmatch) -> (usize, usize) {
    (s.start, s.end)
}

/// `a` sorts before `b`: by start, then by end.
pub open spec fn key_less(a: (usize, usize), b: (usize, usize)) -> bool {
    a.0 < b.0 || (a.0 == b.0 && a.1 < b.1)
}

pub open spec fn insert_by_key(s: Seq<(usize, usize)>, x: (usize, usize)) -> Seq<(usize, usize)>
    decreases s.len(),
{
    if s.len() == 0 {
        seq![x]
    } else if key_less(x, s[0]) {
        seq![x] + s
    } else {
        seq![s[0]] + insert_by_key(s.drop_first(), x)
    }
}

/// The submatch that an item gives, if its offsets are numbers, in order
/// and within the line.
pub open spec fn submatch_of(item: RgSubmatch, line: Seq<char>) -> Option<(usize, usize)> {
    match (item.start, item.end) {
        (Some(start), Some(end)) => if start >= end || end > utf8_bytes(line) {
            None
        } else {
            Some(
                (
                    utf16_offset(line, start as int) as usize,
                    utf16_offset(line, end as int) as usize,
                ),
            )
        },
        _ => None,
    }
}

/// The submatches of the items, sorted by start and end (equal keys keep
/// their order).
pub open spec fn submatches_of(items: Seq<RgSubmatch>, line: Seq<char>) -> Seq<(usize, usize)>
    decreases items.len(),
{
    if items.len() == 0 {
        seq![]
    } else {
        let r = submatches_of(items.drop_last(), line);
        match submatch_of(items.last(), line) {
            Some(x) => insert_by_key(r, x),
            None => r,
        }
    }
}

fn insert_submatch(v: &mut Vec<SearchSubmatch>, x: SearchSubmatch)
    ensures
        final(v)@.map_values(|m: SearchSubmatch| submatch_view(m)) == insert_by_key(
            old(v)@.map_values(|m: SearchSubmatch| submatch_view(m)),
            submatch_view(x),
        ),
{
    let ghost s = v@.map_values(|m: SearchSubmatch| submatch_view(m));

    let mut k: usize = 0;
    assert(s.skip(0) =~= s);
    while k < v.len() && !(x.start < v[k].start || (x.start == v[k].start && x.end < v[k].end))
        invariant
            s == v@.map_values(|m: SearchSubmatch| submatch_view(m)),
            k <= v.len(),
            insert_by_key(s, submatch_view(x)) == s.take(k as int) + insert_by_key(
                s.skip(k as int),
                submatch_view(x),
            ),
        decreases v.len() - k,
    {
        assert(s.skip(k as int)[0] == s[k as int]);
        assert(s.skip(k as int).drop_first() =~= s.skip(k + 1));
        assert(s.take(k + 1) =~= s.take(k as int) + seq![s[k as int]]);
        assert(insert_by_key(s, submatch_view(x)) =~= s.take(k + 1) + insert_by_key(
            s.skip(k + 1),
            submatch_view(x),
        ));
        k = k + 1;
    }
    if k < v.len() {
        assert(s.skip(k as int)[0] == s[k as int]);
    } else {
        assert(s.skip(k as int) =~= Seq::<(usize, usize)>::empty());
    }
    v.insert(k, x);
    assert(v@.map_values(|m: SearchSubmatch| submatch_view(m)) =~= s.take(k as int)
        + insert_by_key(s.skip(k as int), submatch_view(x)));
}

/// The submatches of a line: items with offsets in order and within the
/// line, converted to UTF-16 offsets, sorted by start then end.
pub fn parse_submatches(items: &Vec<RgSubmatch>, line_text: &str) -> (r: Vec<SearchSubmatch>)
    requires
        utf8_bytes(line_text@) <= usize::MAX,
    ensures
        r@.map_values(|m: SearchSubmatch| submatch_view(m)) == submatches_of(items@, line_text@),
{
    let len = utf8_byte_len(line_text);
    let mut out: Vec<SearchSubmatch> = Vec::new();
    let mut i: usize = 0;
    assert(items@.take(0) =~= Seq::<RgSubmatch>::empty());
    assert(out@.map_values(|m: SearchSubmatch| submatch_view(m)) =~= Seq::<(usize, usize)>::empty());
    while i < items.len()
        invariant
            i <= items.len(),
            len == utf8_bytes(line_text@),
            utf8_bytes(line_text@) <= usize::MAX,
            out@.map_values(|m: SearchSubmatch| submatch_view(m)) == submatches_of(
                items@.take(i as int),
                line_text@,
            ),
        decreases items.len() - i,
    {
        let item = items[i];
        assert(items@.take(i + 1).drop_last() =~= items@.take(i as int));
        assert(items@.take(i + 1).last() == item);
        match (item.start, item.end) {
            (Some(start), Some(end)) => {
                if !(start >= end || end > len) {
                    let a = byte_to_utf16_offset(line_text, start);
                    let b = byte_to_utf16_offset(line_text, end);
                    insert_submatch(&mut out, SearchSubmatch { start: a, end: b });
                }
            },
            _ => {},
        }
        i = i + 1;
    }
    assert(items@.take(items.len() as int) =~= items@);
    out
}

/// The fields of one line of ripgrep output, as plain values.
pub struct RgLineView {
    pub kind: Option<Seq<char>>,
    pub path_text: Option<Seq<char>>,
    pub line_number: Option<u64>,
    pub lines_text: Option<Seq<char>>,
    pub submatches: Option<Seq<RgSubmatch>>,
}

pub open spec fn opt_text(o: Option<String>) -> Option<Seq<char>> {
    match o {
        Some(s) => Some(s@),
        None => None,
    }
}

impl View for RgLine {
    type V = RgLineView;

    open spec fn view(&self) -> RgLineView {
        RgLineView {
            kind: opt_text(self.kind),
            path_text: opt_text(self.path_text),
            line_number: self.line_number,
            lines_text: opt_text(self.lines_text),
            submatches: match self.submatches {
                Some(v) => Some(v@),
                None => None,
            },
        }
    }
}

/// The fields that a line of ripgrep's JSON output holds, or nothing when
/// the line is not JSON.
pub uninterp spec fn rg_json_fields_of(line: Seq<u8>) -> Option<RgLineView>;

/// Reads a line with `serde_json::from_slice` and picks, with the indexing
/// and `as_str`/`as_u64`/`as_array` of `serde_json::Value`, the fields a
/// match is read from (each absent when missing or of another JSON type);
/// the contract names that result (`rg_json_fields_of`) and claims nothing
/// more of it.
#[verifier::external_body]
fn rg_json_fields(line: &[u8]) -> (r: Option<RgLine>)
    ensures
        match r {
            Some(l) => rg_json_fields_of(line@) == Some(l@),
            None => rg_json_fields_of(line@) is None,
        },
{
    match serde_json::from_slice::<serde_json::Value>(line) {
        Ok(json) => Some(RgLine {
            kind: json["type"].as_str().map(String::from),
            path_text: json["data"]["path"]["text"].as_str().map(String::from),
            line_number: json["data"]["line_number"].as_u64(),
            lines_text: json["data"]["lines"]["text"].as_str().map(String::from),
            submatches: json["data"]["submatches"].as_array().map(|items| items.iter().map(
                |item| RgSubmatch { start: item["start"].as_u64(), end: item["end"].as_u64() },
            ).collect()),
        }),
        Err(_) => None,
    }
}

/// The text of the matched line as ripgrep gave it (empty when absent).
pub open spec fn raw_line_text(f: RgLineView) -> Seq<char> {
    match f.lines_text {
        Some(t) => t,
        None => seq![],
    }
}

/// The matched line's text without its trailing white space.
pub open spec fn match_line_text(f: RgLineView) -> Seq<char> {
    trim_end(raw_line_text(f))
}

/// Only lines of type `match` hold a match.
pub open spec fn is_match_line(f: RgLineView) -> bool {
    f.kind == Some("match"@)
}

/// `m` is the match read from the fields `f`: absent fields read as empty
/// text or line zero; no file metadata yet.
pub open spec fn match_of_fields(m: SearchMatch, f: RgLineView) -> bool {
    &&& m.path@ == match f.path_text {
        Some(p) => p,
        None => seq![],
    }
    &&& m.line_number == match f.line_number {
        Some(n) => n,
        None => 0,
    }
    &&& m.line_text@ == match_line_text(f)
    &&& m.submatches@.map_values(|s: SearchSubmatch| submatch_view(s)) == match f.submatches {
        Some(items) => submatches_of(items, match_line_text(f)),
        None => seq![],
    }
    &&& m.file_size is None
    &&& m.modified_secs is None
}

/// Whether the UTF-8 length of `text` fits in `usize`.
pub fn utf8_len_fits_usize(text: &str) -> (r: bool)
    ensures
        r == (utf8_bytes(text@) <= usize::MAX),
{
    let n = text.unicode_len();
    let mut i: usize = 0;
    let mut total: usize = 0;
    assert(text@.take(0) =~= Seq::<char>::empty());
    while i < n
        invariant
            n == text@.len(),
            i <= n,
            total == utf8_bytes(text@.take(i as int)),
        decreases n - i,
    {
        let c = text.get_char(i);
        assert(text@.take(i + 1).drop_last() =~= text@.take(i as int));
        let w = char_utf8_len(c);
        if total as u64 > (usize::MAX as u64) - w {
            proof {
                lemma_prefix_bytes(text@, i + 1);
            }
            return false;
        }
        total = total + w as usize;
        i = i + 1;
    }
    assert(text@.take(n as int) =~= text@);
    true
}

impl RipgrepSidecarProvider {
    /// Reads a match from the fields of one line of ripgrep's output.
    pub fn match_from_rg_line(line: &RgLine) -> (r: Option<SearchMatch>)
        requires
            utf8_bytes(raw_line_text(line@)) <= usize::MAX,
        ensures
            r is Some <==> is_match_line(line@),
            r matches Some(m) ==> match_of_fields(m, line@),
    {
        let is_match = match &line.kind {
            Some(k) => str_eq(k.as_str(), "match"),
            None => false,
        };
        proof {
            reveal_strlit("match");
        }
        if !is_match {
            return None;
        }
        let raw = match &line.lines_text {
            Some(t) => t.clone(),
            None => String::new(),
        };
        proof {
            assert(raw@ == raw_line_text(line@));
        }
        let line_text = trim_end_str(raw.as_str());
        proof {
            lemma_trim_end_bytes(raw@);
        }
        let submatches = match &line.submatches {
            Some(items) => parse_submatches(items, line_text.as_str()),
            None => {
                let v: Vec<SearchSubmatch> = Vec::new();
                assert(v@.map_values(|s: SearchSubmatch| submatch_view(s)) =~= Seq::<(usize, usize)>::empty());
                v
            },
        };
        let path = match &line.path_text {
            Some(p) => p.clone(),
            None => String::new(),
        };
        Some(
            SearchMatch {
                path,
                line_number: match line.line_number {
                    Some(n) => n,
                    None => 0,
                },
                line_text,
                submatches,
                file_size: None,
                modified_secs: None,
            },
        )
    }

    /// Reads a match from one line of ripgrep's JSON output: nothing when
    /// the line is not JSON or not a `match` line.
    pub fn parse_match(line: &[u8]) -> (r: Option<SearchMatch>)
        ensures
            match rg_json_fields_of(line@) {
                Some(f) => if utf8_bytes(raw_line_text(f)) <= usize::MAX {
                    &&& (r is Some <==> is_match_line(f))
                    &&& (r matches Some(m) ==> match_of_fields(m, f))
                } else {
                    r is None
                },
                None => r is None,
            },
    {
        match rg_json_fields(line) {
            Some(fields) => {
                let fits = match &fields.lines_text {
                    Some(t) => utf8_len_fits_usize(t.as_str()),
                    None => true,
                };
                if fits {
                    Self::match_from_rg_line(&fields)
                } else {
                    None
                }
            },
            None => None,
        }
    }
}

proof fn lemma_trim_end_bytes(s: Seq<char>)
    ensures
        utf8_bytes(trim_end(s)) <= utf8_bytes(s),
    decreases s.len(),
{
    if s.len() > 0 && crate::text::is_ws(s.last()) {
        lemma_trim_end_bytes(s.drop_last());
    }
}

// ---------------------------------------------------------------------------
// A running search

/// What to do with one match read from ripgrep.
#[derive(Debug, Clone, Copy, PartialEq, Eq, Structural)]
pub struct MatchStep {
    /// Hand the match on, with the number of matches so far.
    pub deliver: Option<usize>,
    /// The result limit is reached: stop ripgrep.
    pub stop: bool,
}

/// The counts of a running search.
#[derive(Debug, Clone, Copy, PartialEq, Eq, Structural)]
pub struct SearchRunTally {
    pub total_matches: usize,
    pub buffered_matches: usize,
    pub limit_reached: bool,
    pub skipped_modified: usize,
    pub read_errors: usize,
}

pub open spec fn wrap_inc(n: usize) -> usize {
    if n == usize::MAX {
        0
    } else {
        (n + 1) as usize
    }
}

/// What one match read from ripgrep does to the counts: a match the
/// modification-time filter drops is only counted as skipped; any other is
/// counted, handed on (with the count so far) while fewer than `limit` were,
/// and the one that reaches the limit stops the search.
pub open spec fn match_step(t: SearchRunTally, passes_filter: bool, limit: usize) -> (
    MatchStep,
    SearchRunTally,
) {
    if !passes_filter {
        (
            MatchStep { deliver: None, stop: false },
            SearchRunTally { skipped_modified: wrap_inc(t.skipped_modified), ..t },
        )
    } else {
        let total = wrap_inc(t.total_matches);
        let deliver = t.buffered_matches < limit;
        let buffered = if deliver {
            (t.buffered_matches + 1) as usize
        } else {
            t.buffered_matches
        };
        (
            MatchStep {
                deliver: if deliver {
                    Some(total)
                } else {
                    None
                },
                stop: buffered >= limit,
            },
            SearchRunTally {
                total_matches: total,
                buffered_matches: buffered,
                limit_reached: t.limit_reached || buffered >= limit,
                ..t
            },
        )
    }
}

/// A search never hands on more matches than its limit: each match handed
/// on adds one to the buffered count, which stays within the limit, and
/// once the limit is reached no match is handed on and the search is told
/// to stop.
pub proof fn law_results_stay_within_limit(t: SearchRunTally, passes_filter: bool, limit: usize)
    requires
        t.buffered_matches <= limit,
    ensures
        ({
            let (step, next) = match_step(t, passes_filter, limit);
            &&& next.buffered_matches <= limit
            &&& step.deliver is Some ==> next.buffered_matches == t.buffered_matches + 1
            &&& step.deliver is None ==> next.buffered_matches == t.buffered_matches
            &&& (t.buffered_matches == limit && passes_filter) ==> step.deliver is None && step.stop
            &&& step.stop ==> next.limit_reached
        }),
{
}

impl SearchRunTally {
    pub fn new() -> (r: SearchRunTally)
        ensures
            r == (SearchRunTally {
                total_matches: 0,
                buffered_matches: 0,
                limit_reached: false,
                skipped_modified: 0,
                read_errors: 0,
            }),
    {
        SearchRunTally {
            total_matches: 0,
            buffered_matches: 0,
            limit_reached: false,
            skipped_modified: 0,
            read_errors: 0,
        }
    }

    /// A line of output could not be read.
    pub fn read_error(&mut self)
        ensures
            *final(self) == (SearchRunTally { read_errors: wrap_inc(old(self).read_errors), ..*old(self) }),
    {
        self.read_errors = if self.read_errors == usize::MAX {
            0
        } else {
            self.read_errors + 1
        };
    }

    /// A match was read; `passes_filter` says whether it passes the
    /// modification-time filter. Matches are handed on until `limit` of
    /// them were; the match that reaches the limit stops the search.
    pub fn on_match(&mut self, passes_filter: bool, limit: usize) -> (step: MatchStep)
        ensures
            (step, *final(self)) == match_step(*old(self), passes_filter, limit),
    {
        if !passes_filter {
            self.skipped_modified = if self.skipped_modified == usize::MAX {
                0
            } else {
                self.skipped_modified + 1
            };
            return MatchStep { deliver: None, stop: false };
        }
        self.total_matches = if self.total_matches == usize::MAX {
            0
        } else {
            self.total_matches + 1
        };
        let mut deliver: Option<usize> = None;
        if self.buffered_matches < limit {
            self.buffered_matches = self.buffered_matches + 1;
            deliver = Some(self.total_matches);
        }
        let stop = self.buffered_matches >= limit;
        if stop {
            self.limit_reached = true;
        }
        MatchStep { deliver, stop }
    }

    /// How the search ended: failed when any line could not be read.
    pub fn final_state(&self) -> (r: SearchState)
        ensures
            r == if self.read_errors > 0 {
                SearchState::Failed
            } else {
                SearchState::Completed
            },
    {
        if self.read_errors > 0 {
            SearchState::Failed
        } else {
            SearchState::Completed
        }
    }

    /// The error message of a failed search, with ripgrep's exit status.
    pub fn error_message(&self, exit_status: &str) -> (r: Option<String>)
        ensures
            r is Some <==> self.read_errors > 0,
            r matches Some(m) ==> m@ == "Search failed while reading results. "@ + exit_status@,
    {
        if self.read_errors > 0 {
            Some(concat("Search failed while reading results. ", exit_status))
        } else {
            None
        }
    }
}

/// A request whose encoding is `utf-8` or `ascii` has ripgrep read files
/// in that encoding: `--encoding` and the encoding stand just before the
/// `--no-ignore` switch (when there is one), the query and the path.
pub proof fn law_known_encoding_is_passed(r: SearchRequest)
    requires
        r.encoding@ == "utf-8"@ || r.encoding@ == "ascii"@,
    ensures
        ({
            let a = ripgrep_args(r);
            let k = a.len() - (if r.respect_gitignore { 4int } else { 5int });
            &&& 0 <= k
            &&& a[k] == "--encoding"@
            &&& a[k + 1] == r.encoding@
        }),
{
    lemma_args_around_encoding(r);
    let pre = seq!["--json"@, "--line-number"@, "--no-messages"@] + option_part(r) + glob_part(r)
        + switch_part(r);
    let tail = flag_if(!r.respect_gitignore, "--no-ignore"@) + seq![r.query@, r.path@];
    let a = ripgrep_args(r);
    assert(a == pre + seq!["--encoding"@, r.encoding@] + tail);
    assert(a[pre.len() as int] == "--encoding"@);
    assert(a[pre.len() as int + 1] == r.encoding@);
}

proof fn lemma_args_around_encoding(r: SearchRequest)
    ensures
        ripgrep_args(r) == (seq!["--json"@, "--line-number"@, "--no-messages"@] + option_part(r)
            + glob_part(r) + switch_part(r)) + option_if(
            r.encoding@ == "utf-8"@ || r.encoding@ == "ascii"@,
            "--encoding"@,
            r.encoding@,
        ) + (flag_if(!r.respect_gitignore, "--no-ignore"@) + seq![r.query@, r.path@]),
{
    assert(ripgrep_args(r) =~= (seq!["--json"@, "--line-number"@, "--no-messages"@] + option_part(r)
        + glob_part(r) + switch_part(r)) + option_if(
        r.encoding@ == "utf-8"@ || r.encoding@ == "ascii"@,
        "--encoding"@,
        r.encoding@,
    ) + (flag_if(!r.respect_gitignore, "--no-ignore"@) + seq![r.query@, r.path@]));
}

/// Any other encoding is not passed on: the arguments for it are those for
/// `utf-8` or `ascii` without the `--encoding` pair, and every encoding
/// other than those two gives the same arguments.
#[verifier::rlimit(40)]
pub proof fn law_other_encodings_are_not_passed(r: SearchRequest, known: String, other: String)
    requires
        known@ == "utf-8"@ || known@ == "ascii"@,
        other@ != "utf-8"@ && other@ != "ascii"@,
    ensures
        ({
            let with_known = ripgrep_args(SearchRequest { encoding: known, ..r });
            let with_other = ripgrep_args(SearchRequest { encoding: other, ..r });
            let k = with_other.len() - (if r.respect_gitignore { 2int } else { 3int });
            &&& 0 <= k
            &&& with_known == with_other.take(k) + seq!["--encoding"@, known@] + with_other.skip(k)
        }),
        r.encoding@ != "utf-8"@ && r.encoding@ != "ascii"@ ==> ripgrep_args(r) == ripgrep_args(
            SearchRequest { encoding: other, ..r },
        ),
{
    let rk = SearchRequest { encoding: known, ..r };
    let ro = SearchRequest { encoding: other, ..r };
    lemma_args_around_encoding(r);
    lemma_args_around_encoding(rk);
    lemma_args_around_encoding(ro);
    let pre = seq!["--json"@, "--line-number"@, "--no-messages"@] + option_part(r) + glob_part(r)
        + switch_part(r);
    let tail = flag_if(!r.respect_gitignore, "--no-ignore"@) + seq![r.query@, r.path@];
    assert(option_part(rk) == option_part(r) && option_part(ro) == option_part(r));
    assert(glob_part(rk) == glob_part(r) && glob_part(ro) == glob_part(r));
    assert(switch_part(rk) == switch_part(r) && switch_part(ro) == switch_part(r));
    let wk = ripgrep_args(rk);
    let wo = ripgrep_args(ro);
    assert(wk == pre + seq!["--encoding"@, known@] + tail);
    assert(wo =~= pre + tail);
    let k = wo.len() - (if r.respect_gitignore { 2int } else { 3int });
    assert(k == pre.len());
    assert(wo.take(k) =~= pre);
    assert(wo.skip(k) =~= tail);
    assert(wk =~= wo.take(k) + seq!["--encoding"@, known@] + wo.skip(k));
    if r.encoding@ != "utf-8"@ && r.encoding@ != "ascii"@ {
        assert(ripgrep_args(r) =~= pre + tail);
    }
}

proof fn lemma_contains_in_right(x: Seq<Seq<char>>, m: Seq<Seq<char>>, e: Seq<char>)
    requires
        m.contains(e),
    ensures
        (x + m).contains(e),
{
    let k = choose|k: int| 0 <= k < m.len() && m[k] == e;
    assert((x + m)[x.len() + k] == e);
}

proof fn lemma_contains_in_left(m: Seq<Seq<char>>, y: Seq<Seq<char>>, e: Seq<char>)
    requires
        m.contains(e),
    ensures
        (m + y).contains(e),
{
    let k = choose|k: int| 0 <= k < m.len() && m[k] == e;
    assert((m + y)[k] == e);
}

proof fn lemma_switches_listed(r: SearchRequest)
    ensures
        ({
            let sw = switch_part(r);
            &&& !r.regex ==> sw.contains("--fixed-strings"@)
            &&& !r.case_sensitive ==> sw.contains("--ignore-case"@)
            &&& r.hidden ==> sw.contains("--hidden"@)
            &&& r.follow_symlinks ==> sw.contains("--follow"@)
            &&& r.multiline ==> sw.contains("--multiline"@)
            &&& !r.skip_binary ==> sw.contains("--text"@)
        }),
{
    let f1 = flag_if(!r.regex, "--fixed-strings"@);
    let f2 = flag_if(!r.case_sensitive, "--ignore-case"@);
    let f3 = flag_if(r.hidden, "--hidden"@);
    let f4 = flag_if(r.follow_symlinks, "--follow"@);
    let f5 = flag_if(r.multiline, "--multiline"@);
    let f6 = flag_if(!r.skip_binary, "--text"@);
    let sw = switch_part(r);
    assert(sw =~= f1 + f2 + f3 + f4 + f5 + f6);
    let n1 = f1.len() as int;
    let n2 = n1 + f2.len();
    let n3 = n2 + f3.len();
    let n4 = n3 + f4.len();
    let n5 = n4 + f5.len();
    if !r.regex {
        assert(sw[0] == "--fixed-strings"@);
    }
    if !r.case_sensitive {
        assert(sw[n1] == "--ignore-case"@);
    }
    if r.hidden {
        assert(sw[n2] == "--hidden"@);
    }
    if r.follow_symlinks {
        assert(sw[n3] == "--follow"@);
    }
    if r.multiline {
        assert(sw[n4] == "--multiline"@);
    }
    if !r.skip_binary {
        assert(sw[n5] == "--text"@);
    }
}

proof fn lemma_node_modules_listed(r: SearchRequest)
    ensures
        r.ignore_node_modules ==> glob_part(r).contains("!**/node_modules/**"@),
{
    if r.ignore_node_modules {
        let g1 = globs_with(seq![], strings_view(r.include_patterns@)) + globs_with(
            "!"@,
            strings_view(r.exclude_patterns@),
        );
        let nm = option_if(r.ignore_node_modules, "--glob"@, "!**/node_modules/**"@);
        let ba = if r.ignore_build_artifacts {
            globs_with(seq![], build_artifact_globs())
        } else {
            seq![]
        };
        assert(glob_part(r) == g1 + nm + ba);
        assert(nm[1] == "!**/node_modules/**"@);
        lemma_contains_in_right(g1, nm, "!**/node_modules/**"@);
        lemma_contains_in_left(g1 + nm, ba, "!**/node_modules/**"@);
    }
}

/// Every switch the request asks for is passed to ripgrep: literal
/// matching, case-insensitive matching, hidden files, followed links,
/// multiline matching, binary files searched as text, ignore files not
/// respected, and `node_modules` left out; and the query and the path come
/// last.
pub proof fn law_requested_switches_are_passed(r: SearchRequest)
    ensures
        ({
            let a = ripgrep_args(r);
            &&& !r.regex ==> a.contains("--fixed-strings"@)
            &&& !r.case_sensitive ==> a.contains("--ignore-case"@)
            &&& r.hidden ==> a.contains("--hidden"@)
            &&& r.follow_symlinks ==> a.contains("--follow"@)
            &&& r.multiline ==> a.contains("--multiline"@)
            &&& !r.skip_binary ==> a.contains("--text"@)
            &&& !r.respect_gitignore ==> a.contains("--no-ignore"@)
            &&& r.ignore_node_modules ==> a.contains("!**/node_modules/**"@)
            &&& a.len() >= 5
            &&& a[a.len() - 2] == r.query@
            &&& a[a.len() - 1] == r.path@
        }),
{
    lemma_args_around_encoding(r);
    lemma_switches_listed(r);
    lemma_node_modules_listed(r);
    let p3 = seq!["--json"@, "--line-number"@, "--no-messages"@] + option_part(r);
    let gp = glob_part(r);
    let head = p3 + gp;
    let sw = switch_part(r);
    let enc = option_if(r.encoding@ == "utf-8"@ || r.encoding@ == "ascii"@, "--encoding"@, r.encoding@);
    let gi = flag_if(!r.respect_gitignore, "--no-ignore"@);
    let tail = seq![r.query@, r.path@];
    let a = ripgrep_args(r);
    assert(a == head + sw + enc + (gi + tail));
    assert forall|f: Seq<char>| sw.contains(f) implies a.contains(f) by {
        lemma_contains_in_right(head, sw, f);
        lemma_contains_in_left(head + sw, enc, f);
        lemma_contains_in_left(head + sw + enc, gi + tail, f);
    }
    assert forall|f: Seq<char>| gp.contains(f) implies a.contains(f) by {
        lemma_contains_in_right(p3, gp, f);
        lemma_contains_in_left(head, sw, f);
        lemma_contains_in_left(head + sw, enc, f);
        lemma_contains_in_left(head + sw + enc, gi + tail, f);
    }
    if !r.respect_gitignore {
        assert(gi[0] == "--no-ignore"@);
        lemma_contains_in_left(gi, tail, "--no-ignore"@);
        lemma_contains_in_right(head + sw + enc, gi + tail, "--no-ignore"@);
    }
}

} // verus!
