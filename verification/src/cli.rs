//! The command line: a ripgrep-like set of options that prefill (and
//! usually start) a search in the desktop window.

use vstd::prelude::*;
use crate::path::{is_rooted, Comp};
use crate::path::{comps_view, Component};
use crate::text::string_from_chars;
use crate::winpath::{
    has_implicit_root, has_implicit_root_exec, host_path_style, is_any_sep, is_any_sep_exec,
    is_drive_text, is_drive_text_exec, is_verbatim, is_verbatim_exec, lemma_prefix_len_bound,
    prefix_kind, prefix_len, prefix_text, win_comps, win_components, win_join, win_join_string,
    PathStyle,
};
use crate::text::{
    chars_of, concat, concat3, has_prefix, skip_chars, starts_with, str_eq, to_string,
};

verus! {

/// The version printed by `--version`.
pub const VERSION: &'static str = "0.1.0";

/// The text printed by `--help`.
pub const HELP: &'static str = "Searchmonkey III\n\nUsage: searchmonkey [OPTIONS] [PATTERN]\n\nArguments:\n  [PATTERN]                    Search expression (a regular expression by default)\n\nOptions:\n  -p, --path <PATH>            File or directory to search\n  -F, --fixed-strings          Treat PATTERN as literal text\n  -s, --case-sensitive         Enable case-sensitive matching\n  -g, --glob <GLOB>            Include or exclude a glob; repeatable\n  -H, --hidden                 Search hidden files and directories\n  -L, --follow                 Follow symbolic links\n  -C, --context <LINES>        Show surrounding context (maximum 20)\n      --no-ignore              Do not respect ignore files\n      --no-start               Populate the form without starting the search\n  -h, --help                   Print help\n  -V, --version                Print version";

/// The search that the command line asks the window to show.
#[derive(Debug, Clone, PartialEq, Eq)]
pub struct CliLaunchRequest {
    pub query: Option<String>,
    pub path: Option<String>,
    pub regex: bool,
    pub case_sensitive: bool,
    pub globs: Vec<String>,
    pub hidden: bool,
    pub follow_symlinks: bool,
    pub context_lines: Option<u64>,
    pub no_ignore: bool,
    pub start: bool,
}

/// Open the window (with or without a search), or print a text and exit.
#[derive(Debug, Clone, PartialEq, Eq)]
pub enum CliAction {
    Launch(Option<CliLaunchRequest>),
    Print(String),
}

/// `CliLaunchRequest` as a mathematical value.
pub struct RequestView {
    pub query: Option<Seq<char>>,
    pub path: Option<Seq<char>>,
    pub regex: bool,
    pub case_sensitive: bool,
    pub globs: Seq<Seq<char>>,
    pub hidden: bool,
    pub follow_symlinks: bool,
    pub context_lines: Option<u64>,
    pub no_ignore: bool,
    pub start: bool,
}

pub enum ActionView {
    Launch(Option<RequestView>),
    Print(Seq<char>),
}

pub open spec fn opt_view(o: Option<String>) -> Option<Seq<char>> {
    match o {
        Some(s) => Some(s@),
        None => None,
    }
}

impl View for CliLaunchRequest {
    type V = RequestView;

    open spec fn view(&self) -> RequestView {
        RequestView {
            query: opt_view(self.query),
            path: opt_view(self.path),
            regex: self.regex,
            case_sensitive: self.case_sensitive,
            globs: self.globs@.map_values(|g: String| g@),
            hidden: self.hidden,
            follow_symlinks: self.follow_symlinks,
            context_lines: self.context_lines,
            no_ignore: self.no_ignore,
            start: self.start,
        }
    }
}

impl View for CliAction {
    type V = ActionView;

    open spec fn view(&self) -> ActionView {
        match self {
            CliAction::Launch(None) => ActionView::Launch(None),
            CliAction::Launch(Some(r)) => ActionView::Launch(Some(r@)),
            CliAction::Print(s) => ActionView::Print(s@),
        }
    }
}

/// The request before any option is read.
pub open spec fn initial_request() -> RequestView {
    RequestView {
        query: None,
        path: None,
        regex: true,
        case_sensitive: false,
        globs: seq![],
        hidden: false,
        follow_symlinks: false,
        context_lines: None,
        no_ignore: false,
        start: true,
    }
}

/// The value of the decimal digits `s`.
pub open spec fn digits_value(s: Seq<char>) -> nat
    decreases s.len(),
{
    if s.len() == 0 {
        0
    } else {
        digits_value(s.drop_last()) * 10 + ((s.last() as nat) - 48) as nat
    }
}

pub open spec fn all_digits(s: Seq<char>) -> bool {
    forall|i: int| 0 <= i < s.len() ==> '0' <= #[trigger] s[i] && s[i] <= '9'
}

/// What `str::parse::<u64>` gives: an optional `+`, then at least one
/// digit, with a value that fits.
pub open spec fn u64_of_text(s: Seq<char>) -> Option<u64> {
    let d = if s.len() > 0 && s[0] == '+' {
        s.drop_first()
    } else {
        s
    };
    if d.len() > 0 && all_digits(d) && digits_value(d) <= u64::MAX {
        Some(digits_value(d) as u64)
    } else {
        None
    }
}

/// The context line count of an option value, or the error it gives.
pub open spec fn context_value(v: Seq<char>) -> Result<u64, Seq<char>> {
    match u64_of_text(v) {
        None => Err("invalid context line count: "@ + v),
        Some(n) => if n > 20 {
            Err("context line count cannot exceed 20"@)
        } else {
            Ok(n)
        },
    }
}

/// Whether the path `s` is absolute in `style` (`Path::is_absolute`): on
/// Unix it begins at the root; on Windows it has a prefix and a root (a
/// prefix other than a drive stands for a root of its own).
pub open spec fn is_absolute_in(style: PathStyle, s: Seq<char>) -> bool {
    match style {
        PathStyle::Unix => is_rooted(s),
        PathStyle::Windows => prefix_kind(s) is Some && (win_comps(s).len() > 0 && win_comps(s)[0]
            == Comp::Root || has_implicit_root(prefix_kind(s))),
    }
}

/// `PathBuf::push` on raw text in `style`. On Unix an absolute path
/// replaces, otherwise a separator is added unless the text is empty or
/// already ends with one. On Windows a path with a prefix (or an absolute
/// one) replaces; onto a verbatim path the components are pushed one by
/// one, `.` dropped and `..` taking off a name; a path with a root keeps
/// only the prefix of the base; otherwise `\` is added unless the text is
/// empty, ends with a separator, or is a lone drive.
pub open spec fn push_raw(base: Seq<char>, p: Seq<char>, style: PathStyle) -> Seq<char> {
    match style {
        PathStyle::Unix => if is_rooted(p) {
            p
        } else if base.len() == 0 || base.last() == '/' {
            base + p
        } else {
            base + seq!['/'] + p
        },
        PathStyle::Windows => if is_absolute_in(style, p) || prefix_kind(p) is Some {
            p
        } else if is_verbatim(prefix_kind(base)) && p.len() > 0 {
            win_join(prefix_text(base), verbatim_pushed(win_comps(base), win_comps(p)))
        } else if p.len() > 0 && is_any_sep(p[0]) {
            prefix_text(base) + p
        } else if base.len() == 0 || is_any_sep(base.last()) || (prefix_kind(base) is Some
            && prefix_len(base) == base.len() && is_drive_text(prefix_text(base))) {
            base + p
        } else {
            base + seq!['\\'] + p
        },
    }
}

/// The components of a verbatim path after pushing `cs` one by one: a root
/// keeps only the root, `.` is dropped, `..` takes off a trailing name.
pub open spec fn verbatim_pushed(base: Seq<Comp>, cs: Seq<Comp>) -> Seq<Comp>
    decreases cs.len(),
{
    if cs.len() == 0 {
        base
    } else {
        let b = verbatim_pushed(base, cs.drop_last());
        match cs.last() {
            Comp::Root => seq![Comp::Root],
            Comp::Cur => b,
            Comp::Parent => if b.len() > 0 && b.last() is Normal {
                b.drop_last()
            } else {
                b
            },
            c => b.push(c),
        }
    }
}

/// A `--path` value: absolute and home-relative paths are kept, others are
/// read from the working directory.
pub open spec fn resolved_path(value: Seq<char>, cwd: Seq<char>, style: PathStyle) -> Seq<char> {
    if is_absolute_in(style, value) || value == "~"@ || has_prefix(value, "~/"@) || has_prefix(
        value,
        "~\\"@,
    ) {
        value
    } else {
        push_raw(cwd, value, style)
    }
}

pub open spec fn with_pattern(req: RequestView, p: Seq<char>) -> Result<RequestView, Seq<char>> {
    if req.query is Some {
        Err("unexpected extra argument: "@ + p)
    } else {
        Ok(RequestView { query: Some(p), ..req })
    }
}

pub open spec fn finished(req: RequestView, no_start: bool) -> ActionView {
    ActionView::Launch(Some(RequestView { start: req.query is Some && !no_start, ..req }))
}

/// After `--`, every remaining argument is a pattern.
pub open spec fn parse_patterns(
    args: Seq<Seq<char>>,
    i: int,
    req: RequestView,
    no_start: bool,
) -> Result<ActionView, Seq<char>>
    decreases args.len() - i,
{
    if i >= args.len() || i < 0 {
        Ok(finished(req, no_start))
    } else {
        match with_pattern(req, args[i]) {
            Err(e) => Err(e),
            Ok(r) => parse_patterns(args, i + 1, r, no_start),
        }
    }
}

/// Reading the arguments from position `i` on, with the request built so far.
pub open spec fn parse_from(
    args: Seq<Seq<char>>,
    i: int,
    req: RequestView,
    no_start: bool,
    cwd: Seq<char>,
    style: PathStyle,
) -> Result<ActionView, Seq<char>>
    decreases args.len() - i,
{
    if i >= args.len() || i < 0 {
        Ok(finished(req, no_start))
    } else {
        let a = args[i];
        if a == "-h"@ || a == "--help"@ {
            Ok(ActionView::Print(HELP@))
        } else if a == "-V"@ || a == "--version"@ {
            Ok(ActionView::Print("searchmonkey "@ + VERSION@))
        } else if is_flag(a) {
            parse_from(args, i + 1, apply_flag(a, req, no_start).0, apply_flag(a, req, no_start).1, cwd, style)
        } else if has_prefix(a, "-psn_"@) {
            parse_from(args, i + 1, req, no_start, cwd, style)
        } else if a == "-p"@ || a == "--path"@ {
            if i + 1 < args.len() {
                parse_from(
                    args,
                    i + 2,
                    RequestView { path: Some(resolved_path(args[i + 1], cwd, style)), ..req },
                    no_start,
                    cwd,
                    style,
                )
            } else {
                Err("option "@ + a + " requires a value"@)
            }
        } else if a == "-g"@ || a == "--glob"@ {
            if i + 1 < args.len() {
                parse_from(
                    args,
                    i + 2,
                    RequestView { globs: req.globs.push(args[i + 1]), ..req },
                    no_start,
                    cwd,
                    style,
                )
            } else {
                Err("option "@ + a + " requires a value"@)
            }
        } else if a == "-C"@ || a == "--context"@ {
            if i + 1 < args.len() {
                match context_value(args[i + 1]) {
                    Err(e) => Err(e),
                    Ok(n) => parse_from(
                        args,
                        i + 2,
                        RequestView { context_lines: Some(n), ..req },
                        no_start,
                        cwd,
                        style,
                    ),
                }
            } else {
                Err("option "@ + a + " requires a value"@)
            }
        } else if a == "--"@ {
            parse_patterns(args, i + 1, req, no_start)
        } else if has_prefix(a, "--path="@) {
            parse_from(
                args,
                i + 1,
                RequestView { path: Some(resolved_path(a.subrange(7, a.len() as int), cwd, style)), ..req },
                no_start,
                cwd,
                style,
            )
        } else if has_prefix(a, "--glob="@) {
            parse_from(
                args,
                i + 1,
                RequestView { globs: req.globs.push(a.subrange(7, a.len() as int)), ..req },
                no_start,
                cwd,
                style,
            )
        } else if has_prefix(a, "--context="@) {
            match context_value(a.subrange(10, a.len() as int)) {
                Err(e) => Err(e),
                Ok(n) => parse_from(
                    args,
                    i + 1,
                    RequestView { context_lines: Some(n), ..req },
                    no_start,
                    cwd,
                    style,
                ),
            }
        } else if has_prefix(a, "-"@) {
            Err("unknown option: "@ + a)
        } else {
            match with_pattern(req, a) {
                Err(e) => Err(e),
                Ok(r) => parse_from(args, i + 1, r, no_start, cwd, style),
            }
        }
    }
}

/// The meaning of a whole command line (the first argument is the program).
pub open spec fn command_line(args: Seq<Seq<char>>, cwd: Seq<char>, style: PathStyle) -> Result<
    ActionView,
    Seq<char>,
> {
    if args.len() <= 1 {
        Ok(ActionView::Launch(None))
    } else {
        parse_from(args, 1, initial_request(), false, cwd, style)
    }
}

pub open spec fn result_view(r: Result<CliAction, String>) -> Result<ActionView, Seq<char>> {
    match r {
        Ok(a) => Ok(a@),
        Err(e) => Err(e@),
    }
}

proof fn lemma_digits_value_grows(s: Seq<char>, k: int)
    requires
        0 <= k <= s.len(),
        all_digits(s),
    ensures
        digits_value(s.subrange(0, k)) <= digits_value(s),
    decreases s.len() - k,
{
    if k < s.len() {
        let t = s.subrange(0, k + 1);
        assert(t.drop_last() =~= s.subrange(0, k));
        assert('0' <= t.last() && t.last() <= '9') by {
            assert(t.last() == s[k]);
        }
        let a = digits_value(s.subrange(0, k));
        assert(digits_value(t) >= a) by (nonlinear_arith)
            requires
                digits_value(t) == a * 10 + ((t.last() as nat) - 48) as nat,
        ;
        lemma_digits_value_grows(s, k + 1);
    } else {
        assert(s.subrange(0, k) =~= s);
    }
}

/// `str::parse::<u64>`.
#[verifier::loop_isolation(false)]
pub fn parse_u64(s: &str) -> (r: Option<u64>)
    ensures
        r == u64_of_text(s@),
{
    let v = chars_of(s);
    let start: usize = if v.len() > 0 && v[0] == '+' {
        1
    } else {
        0
    };
    let d = skip_chars(&v, start);
    assert(d@ =~= (if s@.len() > 0 && s@[0] == '+' {
        s@.drop_first()
    } else {
        s@
    }));
    if d.len() == 0 {
        return None;
    }
    let mut value: u128 = 0;
    let mut i: usize = 0;
    while i < d.len()
        invariant
            i <= d.len(),
            value == digits_value(d@.subrange(0, i as int)),
            value <= u64::MAX,
            forall|j: int| 0 <= j < i ==> '0' <= #[trigger] d@[j] && d@[j] <= '9',
        decreases d.len() - i,
    {
        let c = d[i];
        if !('0' <= c && c <= '9') {
            assert(!all_digits(d@)) by {
                assert(!('0' <= d@[i as int] && d@[i as int] <= '9'));
            }
            return None;
        }
        let digit: u128 = (c as u32 - 48) as u128;
        let ghost t = d@.subrange(0, i + 1);
        assert(t.drop_last() =~= d@.subrange(0, i as int));
        assert(t.last() == c);
        let next: u128 = value * 10 + digit;
        assert(next == digits_value(t));
        if next > 18446744073709551615 {
            proof {
                if all_digits(d@) {
                    lemma_digits_value_grows(d@, i + 1);
                }
            }
            return None;
        }
        value = next;
        i = i + 1;
    }
    assert(d@.subrange(0, d.len() as int) =~= d@);
    Some(value as u64)
}

/// The line count of a `--context` value.
fn context_lines_of(value: &str) -> (r: Result<u64, String>)
    ensures
        match r {
            Ok(n) => context_value(value@) == Ok::<u64, Seq<char>>(n),
            Err(e) => context_value(value@) == Err::<u64, Seq<char>>(e@),
        },
{
    match parse_u64(value) {
        None => Err(concat("invalid context line count: ", value)),
        Some(n) => {
            if n > 20 {
                Err(to_string("context line count cannot exceed 20"))
            } else {
                Ok(n)
            }
        },
    }
}

/// The value that follows the option at `next - 1`.
fn required_value(args: &Vec<String>, next: usize, option: &str) -> (r: Result<String, String>)
    ensures
        next < args.len() ==> (r matches Ok(v) && v@ == args@[next as int]@),
        next >= args.len() ==> (r matches Err(e) && e@ == "option "@ + option@
            + " requires a value"@),
{
    if next < args.len() {
        Ok(args[next].clone())
    } else {
        Err(concat3("option ", option, " requires a value"))
    }
}

/// Sets the pattern; a second pattern is an error.
fn set_pattern(request: &mut CliLaunchRequest, pattern: String) -> (r: Result<(), String>)
    ensures
        match with_pattern(old(request)@, pattern@) {
            Ok(q) => r is Ok && final(request)@ == q,
            Err(e) => (r matches Err(m) && m@ == e) && final(request)@ == old(request)@,
        },
{
    if request.query.is_some() {
        return Err(concat("unexpected extra argument: ", pattern.as_str()));
    }
    request.query = Some(pattern);
    Ok(())
}

/// Whether the path `s` is absolute in `style`.
pub fn is_absolute_in_exec(style: PathStyle, s: &str) -> (r: bool)
    ensures
        r == is_absolute_in(style, s@),
{
    match style {
        PathStyle::Unix => crate::path::is_absolute(s),
        PathStyle::Windows => {
            let w = win_components(s);
            let rooted = w.comps.len() > 0 && match &w.comps[0] {
                Component::RootDir => true,
                _ => false,
            };
            proof {
                if w.comps.len() > 0 {
                    assert(comps_view(w.comps@)[0] == w.comps@[0]@);
                }
            }
            w.prefix.is_some() && (rooted || has_implicit_root_exec(&w.prefix))
        },
    }
}

/// The components of a verbatim path after pushing `cs` one by one.
fn verbatim_push(base: &Vec<Component>, cs: &Vec<Component>) -> (r: Vec<Component>)
    ensures
        comps_view(r@) == verbatim_pushed(comps_view(base@), comps_view(cs@)),
{
    let mut out = crate::registry::clone_comps(base);
    let ghost bv = comps_view(base@);
    let ghost cv = comps_view(cs@);
    let mut i: usize = 0;
    assert(cv.take(0) =~= Seq::<Comp>::empty());
    while i < cs.len()
        invariant
            i <= cs.len(),
            bv == comps_view(base@),
            cv == comps_view(cs@),
            comps_view(out@) == verbatim_pushed(bv, cv.take(i as int)),
        decreases cs.len() - i,
    {
        assert(cv.take(i + 1).drop_last() =~= cv.take(i as int));
        assert(cv.take(i + 1).last() == cs@[i as int]@);
        let ghost before = comps_view(out@);
        match &cs[i] {
            Component::RootDir => {
                out = Vec::new();
                out.push(Component::RootDir);
                assert(comps_view(out@) =~= seq![Comp::Root]);
            },
            Component::CurDir => {},
            Component::ParentDir => {
                let last_is_name = out.len() > 0 && match &out[out.len() - 1] {
                    Component::Normal(_) => true,
                    _ => false,
                };
                proof {
                    if out.len() > 0 {
                        assert(before.last() == out@[out.len() - 1]@);
                    }
                }
                if last_is_name {
                    out.pop();
                    assert(comps_view(out@) =~= before.drop_last());
                }
            },
            c => {
                out.push(crate::path::comp_clone(c));
                assert(comps_view(out@) =~= before.push(cs@[i as int]@));
            },
        }
        i = i + 1;
    }
    assert(cv.take(cs.len() as int) =~= cv);
    out
}

/// `PathBuf::push` on raw text in `style`.
pub fn push_raw_exec(base: &str, p: &str, style: PathStyle) -> (r: String)
    ensures
        r@ == push_raw(base@, p@, style),
{
    match style {
        PathStyle::Unix => {
            if crate::path::is_absolute(p) {
                return to_string(p);
            }
            let c = chars_of(base);
            if c.len() == 0 || c[c.len() - 1] == '/' {
                proof {
                    if c@.len() > 0 {
                        assert(c@.last() == c@[c@.len() - 1]);
                    }
                }
                concat(base, p)
            } else {
                assert(c@.last() == c@[c@.len() - 1]);
                proof {
                    reveal_strlit("/");
                }
                concat3(base, "/", p)
            }
        },
        PathStyle::Windows => {
            let wp = win_components(p);
            if is_absolute_in_exec(style, p) || wp.prefix.is_some() {
                return to_string(p);
            }
            let pc = chars_of(p);
            let wb = win_components(base);
            if is_verbatim_exec(&wb.prefix) && pc.len() > 0 {
                let cs = verbatim_push(&wb.comps, &wp.comps);
                return win_join_string(&wb.prefix_text, &cs);
            }
            let bc = chars_of(base);
            if pc.len() > 0 && is_any_sep_exec(pc[0]) {
                let pt = string_from_chars(&wb.prefix_text);
                return concat(pt.as_str(), p);
            }
            proof {
                if bc@.len() > 0 {
                    assert(bc@.last() == bc@[bc@.len() - 1]);
                }
                if wb.prefix is Some {
                    lemma_prefix_len_bound(base@);
                }
            }
            if bc.len() == 0 || is_any_sep_exec(bc[bc.len() - 1]) || (wb.prefix.is_some()
                && wb.prefix_text.len() == bc.len() && is_drive_text_exec(&wb.prefix_text)) {
                concat(base, p)
            } else {
                proof {
                    reveal_strlit("\\");
                }
                concat3(base, "\\", p)
            }
        },
    }
}

fn resolve_path(value: &str, cwd: &str, style: PathStyle) -> (r: String)
    ensures
        r@ == resolved_path(value@, cwd@, style),
{
    let absolute = is_absolute_in_exec(style, value);
    if absolute || str_eq(value, "~") || starts_with(value, "~/") || starts_with(value, "~\\") {
        return to_string(value);
    }
    push_raw_exec(cwd, value, style)
}

fn rest_after(a: &str, n: usize) -> (r: String)
    requires
        n <= a@.len(),
    ensures
        r@ == a@.subrange(n as int, a@.len() as int),
{
    let len = a.unicode_len();
    a.substring_char(n, len).to_owned()
}

/// The outcome of reading one argument.
enum Step {
    Continue(usize),
    Finish(CliAction),
}

fn finish(request: &CliLaunchRequest, no_start: bool) -> (r: CliAction)
    ensures
        r@ == finished(request@, no_start),
{
    let done = CliLaunchRequest {
        query: request.query.clone(),
        path: request.path.clone(),
        regex: request.regex,
        case_sensitive: request.case_sensitive,
        globs: crate::registry::clone_strings(&request.globs),
        hidden: request.hidden,
        follow_symlinks: request.follow_symlinks,
        context_lines: request.context_lines,
        no_ignore: request.no_ignore,
        start: request.query.is_some() && !no_start,
    };
    assert(done@.globs =~= request@.globs);
    assert(done@ == RequestView { start: request@.query is Some && !no_start, ..request@ });
    CliAction::Launch(Some(done))
}

/// Every argument from `j` on is a pattern.
fn parse_rest_patterns(
    args: &Vec<String>,
    j: usize,
    request: &mut CliLaunchRequest,
    no_start: bool,
) -> (r: Result<CliAction, String>)
    requires
        j <= args.len(),
    ensures
        result_view(r) == parse_patterns(
            args@.map_values(|s: String| s@),
            j as int,
            old(request)@,
            no_start,
        ),
{
    let ghost av = args@.map_values(|s: String| s@);
    let mut k: usize = j;
    while k < args.len()
        invariant
            j <= k <= args.len(),
            av == args@.map_values(|s: String| s@),
            parse_patterns(av, j as int, old(request)@, no_start) == parse_patterns(
                av,
                k as int,
                request@,
                no_start,
            ),
        decreases args.len() - k,
    {
        assert(av[k as int] == args@[k as int]@);
        set_pattern(request, args[k].clone())?;
        k = k + 1;
    }
    Ok(finish(request, no_start))
}

/// Whether `a` is an option without a value.
pub open spec fn is_flag(a: Seq<char>) -> bool {
    a == "-F"@ || a == "--fixed-strings"@ || a == "-s"@ || a == "--case-sensitive"@ || a == "-H"@
        || a == "--hidden"@ || a == "-L"@ || a == "--follow"@ || a == "--no-ignore"@ || a
        == "--no-start"@
}

/// The request and the no-start setting after the option `a` without value.
pub open spec fn apply_flag(a: Seq<char>, req: RequestView, no_start: bool) -> (RequestView, bool) {
    if a == "-F"@ || a == "--fixed-strings"@ {
        (RequestView { regex: false, ..req }, no_start)
    } else if a == "-s"@ || a == "--case-sensitive"@ {
        (RequestView { case_sensitive: true, ..req }, no_start)
    } else if a == "-H"@ || a == "--hidden"@ {
        (RequestView { hidden: true, ..req }, no_start)
    } else if a == "-L"@ || a == "--follow"@ {
        (RequestView { follow_symlinks: true, ..req }, no_start)
    } else if a == "--no-ignore"@ {
        (RequestView { no_ignore: true, ..req }, no_start)
    } else {
        (req, true)
    }
}

/// Reads the option `a` if it takes no value.
fn flag_step(a: &str, request: &mut CliLaunchRequest, no_start: &mut bool) -> (r: bool)
    ensures
        r == is_flag(a@),
        r ==> (final(request)@, *final(no_start)) == apply_flag(a@, old(request)@, *old(no_start)),
        !r ==> final(request)@ == old(request)@ && *final(no_start) == *old(no_start),
{
    let ghost before = request@;
    if str_eq(a, "-F") || str_eq(a, "--fixed-strings") {
        request.regex = false;
        assert(request@ =~= RequestView { regex: false, ..before });
        true
    } else if str_eq(a, "-s") || str_eq(a, "--case-sensitive") {
        request.case_sensitive = true;
        assert(request@ =~= RequestView { case_sensitive: true, ..before });
        true
    } else if str_eq(a, "-H") || str_eq(a, "--hidden") {
        request.hidden = true;
        assert(request@ =~= RequestView { hidden: true, ..before });
        true
    } else if str_eq(a, "-L") || str_eq(a, "--follow") {
        request.follow_symlinks = true;
        assert(request@ =~= RequestView { follow_symlinks: true, ..before });
        true
    } else if str_eq(a, "--no-ignore") {
        request.no_ignore = true;
        assert(request@ =~= RequestView { no_ignore: true, ..before });
        true
    } else if str_eq(a, "--no-start") {
        *no_start = true;
        true
    } else {
        false
    }
}

/// Reads the argument at `i`.
#[verifier::rlimit(60)]
fn parse_step(
    args: &Vec<String>,
    i: usize,
    request: &mut CliLaunchRequest,
    no_start: &mut bool,
    cwd: &str,
    style: PathStyle,
) -> (r: Result<Step, String>)
    requires
        1 <= i < args.len(),
    ensures
        match r {
            Ok(Step::Continue(j)) => i < j <= args.len() && parse_from(
                args@.map_values(|s: String| s@),
                i as int,
                old(request)@,
                *old(no_start),
                cwd@,
                style,
            ) == parse_from(
                args@.map_values(|s: String| s@),
                j as int,
                final(request)@,
                *final(no_start),
                cwd@,
                style,
            ),
            Ok(Step::Finish(a)) => parse_from(
                args@.map_values(|s: String| s@),
                i as int,
                old(request)@,
                *old(no_start),
                cwd@,
                style,
            ) == Ok::<ActionView, Seq<char>>(a@),
            Err(e) => parse_from(
                args@.map_values(|s: String| s@),
                i as int,
                old(request)@,
                *old(no_start),
                cwd@,
                style,
            ) == Err::<ActionView, Seq<char>>(e@),
        },
{
    let ghost av = args@.map_values(|s: String| s@);
    let a = args[i].as_str();
    assert(av[i as int] == a@);
    let ghost before = request@;
    if str_eq(a, "-h") || str_eq(a, "--help") {
        return Ok(Step::Finish(CliAction::Print(to_string(HELP))));
    }
    if str_eq(a, "-V") || str_eq(a, "--version") {
        return Ok(Step::Finish(CliAction::Print(concat("searchmonkey ", VERSION))));
    }
    if flag_step(a, request, no_start) {
        return Ok(Step::Continue(i + 1));
    }
    if starts_with(a, "-psn_") {
        return Ok(Step::Continue(i + 1));
    }
    if str_eq(a, "-p") || str_eq(a, "--path") {
        let value = required_value(args, i + 1, a)?;
        request.path = Some(resolve_path(value.as_str(), cwd, style));
        assert(request@ =~= RequestView { path: Some(resolved_path(av[i + 1], cwd@, style)), ..before });
        return Ok(Step::Continue(i + 2));
    }
    if str_eq(a, "-g") || str_eq(a, "--glob") {
        let value = required_value(args, i + 1, a)?;
        request.globs.push(value);
        assert(request@.globs =~= before.globs.push(av[i + 1]));
        assert(request@ == RequestView { globs: before.globs.push(av[i + 1]), ..before });
        return Ok(Step::Continue(i + 2));
    }
    if str_eq(a, "-C") || str_eq(a, "--context") {
        let value = required_value(args, i + 1, a)?;
        let lines = context_lines_of(value.as_str())?;
        request.context_lines = Some(lines);
        assert(request@ =~= RequestView { context_lines: Some(lines), ..before });
        return Ok(Step::Continue(i + 2));
    }
    if str_eq(a, "--") {
        let action = parse_rest_patterns(args, i + 1, request, *no_start)?;
        return Ok(Step::Finish(action));
    }
    if starts_with(a, "--path=") {
        proof {
            reveal_strlit("--path=");
        }
        let value = rest_after(a, 7);
        request.path = Some(resolve_path(value.as_str(), cwd, style));
        assert(request@ =~= RequestView {
            path: Some(resolved_path(a@.subrange(7, a@.len() as int), cwd@, style)),
            ..before
        });
        return Ok(Step::Continue(i + 1));
    }
    if starts_with(a, "--glob=") {
        proof {
            reveal_strlit("--glob=");
        }
        let value = rest_after(a, 7);
        request.globs.push(value);
        assert(request@.globs =~= before.globs.push(a@.subrange(7, a@.len() as int)));
        assert(request@ == RequestView {
            globs: before.globs.push(a@.subrange(7, a@.len() as int)),
            ..before
        });
        return Ok(Step::Continue(i + 1));
    }
    if starts_with(a, "--context=") {
        proof {
            reveal_strlit("--context=");
        }
        let value = rest_after(a, 10);
        let lines = context_lines_of(value.as_str())?;
        request.context_lines = Some(lines);
        assert(request@ =~= RequestView { context_lines: Some(lines), ..before });
        return Ok(Step::Continue(i + 1));
    }
    if starts_with(a, "-") {
        return Err(concat("unknown option: ", a));
    }
    set_pattern(request, args[i].clone())?;
    Ok(Step::Continue(i + 1))
}

/// Reads the command line (the first argument is the program) against the
/// working directory `cwd`, paths read in the style of the platform.
pub fn parse(args: Vec<String>, cwd: &str) -> (r: Result<CliAction, String>)
    ensures
        result_view(r) == command_line(args@.map_values(|s: String| s@), cwd@, PathStyle::Unix)
            || result_view(r) == command_line(
            args@.map_values(|s: String| s@),
            cwd@,
            PathStyle::Windows,
        ),
{
    parse_in(args, cwd, host_path_style())
}

/// Reads the command line (the first argument is the program) against the
/// working directory `cwd`, paths read in `style`.
pub fn parse_in(args: Vec<String>, cwd: &str, style: PathStyle) -> (r: Result<CliAction, String>)
    ensures
        result_view(r) == command_line(args@.map_values(|s: String| s@), cwd@, style),
{
    let ghost av = args@.map_values(|s: String| s@);
    if args.len() <= 1 {
        return Ok(CliAction::Launch(None));
    }
    let mut request = CliLaunchRequest {
        query: None,
        path: None,
        regex: true,
        case_sensitive: false,
        globs: Vec::new(),
        hidden: false,
        follow_symlinks: false,
        context_lines: None,
        no_ignore: false,
        start: true,
    };
    assert(request@.globs =~= Seq::<Seq<char>>::empty());
    assert(request@ == initial_request());
    let mut no_start = false;
    let mut i: usize = 1;
    while i < args.len()
        invariant
            1 <= i <= args.len(),
            av == args@.map_values(|s: String| s@),
            command_line(av, cwd@, style) == parse_from(av, i as int, request@, no_start, cwd@, style),
        decreases args.len() - i,
    {
        match parse_step(&args, i, &mut request, &mut no_start, cwd, style)? {
            Step::Continue(j) => {
                i = j;
            },
            Step::Finish(action) => {
                return Ok(action);
            },
        }
    }
    Ok(finish(&request, no_start))
}

/// A launch that starts a search has a pattern, and its context is at most
/// twenty lines.
pub open spec fn launch_ok(a: ActionView) -> bool {
    a matches ActionView::Launch(Some(r)) ==> ((r.start ==> r.query is Some) && (
    r.context_lines matches Some(n) ==> n <= 20))
}

/// A launch with a pattern starts the search.
pub open spec fn starts_with_pattern(a: ActionView) -> bool {
    a matches ActionView::Launch(Some(r)) ==> (r.query is Some ==> r.start)
}

pub open spec fn context_ok(r: RequestView) -> bool {
    r.context_lines matches Some(n) ==> n <= 20
}

proof fn lemma_patterns_launch(args: Seq<Seq<char>>, i: int, req: RequestView, no_start: bool)
    requires
        context_ok(req),
    ensures
        parse_patterns(args, i, req, no_start) matches Ok(a) ==> launch_ok(a),
        !no_start ==> (parse_patterns(args, i, req, no_start) matches Ok(a) ==> starts_with_pattern(
            a,
        )),
    decreases args.len() - i,
{
    if !(i >= args.len() || i < 0) {
        match with_pattern(req, args[i]) {
            Err(_) => {},
            Ok(r) => lemma_patterns_launch(args, i + 1, r, no_start),
        }
    }
}

proof fn lemma_parse_launch(
    args: Seq<Seq<char>>,
    i: int,
    req: RequestView,
    no_start: bool,
    cwd: Seq<char>,
    style: PathStyle,
)
    requires
        context_ok(req),
    ensures
        parse_from(args, i, req, no_start, cwd, style) matches Ok(a) ==> launch_ok(a),
        (!no_start && forall|j: int| i <= j < args.len() ==> args[j] != "--no-start"@) ==> (
        parse_from(args, i, req, no_start, cwd, style) matches Ok(a) ==> starts_with_pattern(a)),
    decreases args.len() - i,
{
    if !(i >= args.len() || i < 0) {
        let a = args[i];
        if a == "-h"@ || a == "--help"@ || a == "-V"@ || a == "--version"@ {
        } else if is_flag(a) {
            let (r2, ns2) = apply_flag(a, req, no_start);
            lemma_parse_launch(args, i + 1, r2, ns2, cwd, style);
        } else if has_prefix(a, "-psn_"@) {
            lemma_parse_launch(args, i + 1, req, no_start, cwd, style);
        } else if a == "-p"@ || a == "--path"@ {
            if i + 1 < args.len() {
                lemma_parse_launch(
                    args,
                    i + 2,
                    RequestView { path: Some(resolved_path(args[i + 1], cwd, style)), ..req },
                    no_start,
                    cwd,
                    style,
                );
            }
        } else if a == "-g"@ || a == "--glob"@ {
            if i + 1 < args.len() {
                lemma_parse_launch(
                    args,
                    i + 2,
                    RequestView { globs: req.globs.push(args[i + 1]), ..req },
                    no_start,
                    cwd,
                    style,
                );
            }
        } else if a == "-C"@ || a == "--context"@ {
            if i + 1 < args.len() {
                match context_value(args[i + 1]) {
                    Err(_) => {},
                    Ok(n) => lemma_parse_launch(
                        args,
                        i + 2,
                        RequestView { context_lines: Some(n), ..req },
                        no_start,
                        cwd,
                        style,
                    ),
                }
            }
        } else if a == "--"@ {
            lemma_patterns_launch(args, i + 1, req, no_start);
        } else if has_prefix(a, "--path="@) {
            lemma_parse_launch(
                args,
                i + 1,
                RequestView { path: Some(resolved_path(a.subrange(7, a.len() as int), cwd, style)), ..req },
                no_start,
                cwd,
                style,
            );
        } else if has_prefix(a, "--glob="@) {
            lemma_parse_launch(
                args,
                i + 1,
                RequestView { globs: req.globs.push(a.subrange(7, a.len() as int)), ..req },
                no_start,
                cwd,
                style,
            );
        } else if has_prefix(a, "--context="@) {
            match context_value(a.subrange(10, a.len() as int)) {
                Err(_) => {},
                Ok(n) => lemma_parse_launch(
                    args,
                    i + 1,
                    RequestView { context_lines: Some(n), ..req },
                    no_start,
                    cwd,
                    style,
                ),
            }
        } else if has_prefix(a, "-"@) {
        } else {
            match with_pattern(req, a) {
                Err(_) => {},
                Ok(r) => lemma_parse_launch(args, i + 1, r, no_start, cwd, style),
            }
        }
    }
}

/// A command line that opens the window starts the search only when it
/// gives a pattern, never asks for more than twenty context lines, and,
/// unless `--no-start` is among its arguments, starts the search whenever
/// it gives a pattern.
pub proof fn law_pattern_starts_search(args: Seq<Seq<char>>, cwd: Seq<char>, style: PathStyle)
    ensures
        command_line(args, cwd, style) matches Ok(a) ==> launch_ok(a),
        (forall|j: int| 0 <= j < args.len() ==> args[j] != "--no-start"@) ==> (command_line(
            args,
            cwd,
            style,
        ) matches Ok(a) ==> starts_with_pattern(a)),
{
    if args.len() > 1 {
        lemma_parse_launch(args, 1, initial_request(), false, cwd, style);
    }
}

/// A command line that gives only a path opens the window on that path
/// without starting a search; a relative path is read from the working
/// directory (`resolved_path`).
pub proof fn law_path_only_populates(
    program: Seq<char>,
    value: Seq<char>,
    cwd: Seq<char>,
    style: PathStyle,
)
    ensures
        command_line(seq![program, "--path"@, value], cwd, style) == Ok::<ActionView, Seq<char>>(
            ActionView::Launch(
                Some(RequestView { path: Some(resolved_path(value, cwd, style)), start: false, ..initial_request() }),
            ),
        ),
{
    reveal_strlit("--path");
    reveal_strlit("-h");
    reveal_strlit("--help");
    reveal_strlit("-V");
    reveal_strlit("--version");
    reveal_strlit("-F");
    reveal_strlit("--fixed-strings");
    reveal_strlit("-s");
    reveal_strlit("--case-sensitive");
    reveal_strlit("-H");
    reveal_strlit("--hidden");
    reveal_strlit("-L");
    reveal_strlit("--follow");
    reveal_strlit("--no-ignore");
    reveal_strlit("--no-start");
    reveal_strlit("-psn_");
    reveal_strlit("-p");
    let args = seq![program, "--path"@, value];
    let req = RequestView { path: Some(resolved_path(value, cwd, style)), ..initial_request() };
    assert(args[1] == "--path"@);
    assert(!has_prefix(args[1], "-psn_"@)) by {
        assert(args[1][1] != "-psn_"@[1]);
    }
    let a = args[1];
    assert(a.len() == 6 && a[2] == 'p');
    assert("--help"@[2] == 'h');
    assert(a != "-h"@ && a != "--help"@ && a != "-V"@ && a != "--version"@);
    assert(!is_flag(a));
    assert(a == "--path"@);
    assert(args.len() == 3 && args[2] == value);
    assert(parse_from(args, 3, req, false, cwd, style) == Ok::<ActionView, Seq<char>>(finished(req, false)));
    assert(parse_from(args, 1, initial_request(), false, cwd, style) == parse_from(args, 3, req, false, cwd, style));
    assert(command_line(args, cwd, style) == parse_from(args, 1, initial_request(), false, cwd, style));
}

/// The options that take the next argument as their value.
pub open spec fn takes_value(a: Seq<char>) -> bool {
    a == "-p"@ || a == "--path"@ || a == "-g"@ || a == "--glob"@ || a == "-C"@ || a == "--context"@
}

/// Whether the argument at `j` is read as an option or a pattern of its own
/// when the arguments are read from `i` on: it is not the value of an
/// option, and no `--` comes before it.
pub open spec fn read_as_word(args: Seq<Seq<char>>, i: int, j: int) -> bool
    decreases args.len() - i,
{
    if i < 0 || i >= args.len() || j < i {
        false
    } else if args[i] == "--"@ {
        false
    } else if j == i {
        true
    } else if takes_value(args[i]) {
        if i + 1 >= args.len() {
            false
        } else {
            read_as_word(args, i + 2, j)
        }
    } else {
        read_as_word(args, i + 1, j)
    }
}

proof fn lemma_value_options_are_distinct(a: Seq<char>)
    requires
        takes_value(a),
    ensures
        a != "-h"@ && a != "--help"@ && a != "-V"@ && a != "--version"@,
        !is_flag(a),
        !has_prefix(a, "-psn_"@),
        a != "--"@,
{
    reveal_strlit("-p");
    reveal_strlit("--path");
    reveal_strlit("-g");
    reveal_strlit("--glob");
    reveal_strlit("-C");
    reveal_strlit("--context");
    reveal_strlit("-h");
    reveal_strlit("--help");
    reveal_strlit("-V");
    reveal_strlit("--version");
    reveal_strlit("-F");
    reveal_strlit("--fixed-strings");
    reveal_strlit("-s");
    reveal_strlit("--case-sensitive");
    reveal_strlit("-H");
    reveal_strlit("--hidden");
    reveal_strlit("-L");
    reveal_strlit("--follow");
    reveal_strlit("--no-ignore");
    reveal_strlit("--no-start");
    reveal_strlit("-psn_");
    reveal_strlit("--");
    assert("-h"@[1] == 'h' && "-V"@[1] == 'V' && "-F"@[1] == 'F' && "-s"@[1] == 's');
    assert("-H"@[1] == 'H' && "-L"@[1] == 'L');
    assert("--help"@[2] == 'h' && "--version"@[2] == 'v');
    assert("--"@[1] == '-');
    if a == "-p"@ {
        assert(a[1] == 'p');
    } else if a == "-g"@ {
        assert(a[1] == 'g');
    } else if a == "-C"@ {
        assert(a[1] == 'C');
    } else if a == "--path"@ {
        assert(a[2] == 'p' && a[1] == '-');
        assert("-psn_"@[1] == 'p');
        assert(a.subrange(0, 5)[1] == a[1]);
    } else if a == "--glob"@ {
        assert(a[2] == 'g' && a[1] == '-');
        assert("-psn_"@[1] == 'p');
        assert(a.subrange(0, 5)[1] == a[1]);
    } else {
        assert(a == "--context"@);
        assert(a[2] == 'c' && a[1] == '-');
        assert("-psn_"@[1] == 'p');
        assert(a.subrange(0, 5)[1] == a[1]);
    }
}

/// Whether the request shows the effect of the option `a` that takes no
/// value: literal matching, case-sensitive matching, hidden files, followed
/// links, or ignore files not respected.
pub open spec fn switch_set(a: Seq<char>, r: RequestView) -> bool {
    if a == "-F"@ || a == "--fixed-strings"@ {
        !r.regex
    } else if a == "-s"@ || a == "--case-sensitive"@ {
        r.case_sensitive
    } else if a == "-H"@ || a == "--hidden"@ {
        r.hidden
    } else if a == "-L"@ || a == "--follow"@ {
        r.follow_symlinks
    } else if a == "--no-ignore"@ {
        r.no_ignore
    } else {
        false
    }
}

/// Whether the launch request shows the effect of the option `a` that takes
/// no value: `--no-start` keeps the search from starting; each other such
/// option sets its switch.
pub open spec fn flag_took_effect(a: Seq<char>, r: RequestView) -> bool {
    if a == "--no-start"@ {
        !r.start
    } else {
        switch_set(a, r)
    }
}

/// The effect of `a` is already in the request read so far.
pub open spec fn effect_pending(a: Seq<char>, req: RequestView, no_start: bool) -> bool {
    if a == "--no-start"@ {
        no_start
    } else {
        switch_set(a, req)
    }
}

proof fn lemma_flag_is_no_command(a: Seq<char>)
    requires
        is_flag(a),
    ensures
        a != "-h"@ && a != "--help"@ && a != "-V"@ && a != "--version"@,
        a != "--"@,
        forall|req: RequestView, ns: bool| #[trigger] effect_pending(a, apply_flag(a, req, ns).0, apply_flag(a, req, ns).1),
{
    reveal_strlit("-h");
    reveal_strlit("--help");
    reveal_strlit("-V");
    reveal_strlit("--version");
    reveal_strlit("-F");
    reveal_strlit("--fixed-strings");
    reveal_strlit("-s");
    reveal_strlit("--case-sensitive");
    reveal_strlit("-H");
    reveal_strlit("--hidden");
    reveal_strlit("-L");
    reveal_strlit("--follow");
    reveal_strlit("--no-ignore");
    reveal_strlit("--no-start");
    reveal_strlit("--");
    assert("-h"@[1] == 'h' && "-V"@[1] == 'V' && "-F"@[1] == 'F' && "-s"@[1] == 's');
    assert("-H"@[1] == 'H' && "-L"@[1] == 'L' && "--"@[1] == '-');
    assert("-h"@.len() == 2 && "--help"@.len() == 6 && "-V"@.len() == 2 && "--version"@.len() == 9);
    assert("-F"@.len() == 2 && "--fixed-strings"@.len() == 15 && "-s"@.len() == 2);
    assert("--case-sensitive"@.len() == 16 && "-H"@.len() == 2 && "--hidden"@.len() == 8);
    assert("-L"@.len() == 2 && "--follow"@.len() == 8 && "--no-ignore"@.len() == 11);
    assert("--no-start"@.len() == 10);
    assert("--"@.len() == 2);
    if a == "-F"@ {
        assert(a[1] == 'F');
    } else if a == "-s"@ {
        assert(a[1] == 's');
    } else if a == "-H"@ {
        assert(a[1] == 'H');
    } else if a == "-L"@ {
        assert(a[1] == 'L');
    }
}

proof fn lemma_patterns_keep_effect(
    args: Seq<Seq<char>>,
    i: int,
    req: RequestView,
    no_start: bool,
    f: Seq<char>,
)
    requires
        effect_pending(f, req, no_start),
    ensures
        parse_patterns(args, i, req, no_start) matches Ok(ActionView::Launch(Some(r))) ==> flag_took_effect(
            f,
            r,
        ),
    decreases args.len() - i,
{
    if !(i >= args.len() || i < 0) {
        match with_pattern(req, args[i]) {
            Err(_) => {},
            Ok(r) => lemma_patterns_keep_effect(args, i + 1, r, no_start, f),
        }
    }
}

proof fn lemma_parse_keeps_effect(
    args: Seq<Seq<char>>,
    i: int,
    req: RequestView,
    no_start: bool,
    cwd: Seq<char>,
    style: PathStyle,
    f: Seq<char>,
)
    requires
        effect_pending(f, req, no_start),
    ensures
        parse_from(args, i, req, no_start, cwd, style) matches Ok(ActionView::Launch(Some(r))) ==> flag_took_effect(
            f,
            r,
        ),
    decreases args.len() - i,
{
    if !(i >= args.len() || i < 0) {
        let a = args[i];
        if a == "-h"@ || a == "--help"@ || a == "-V"@ || a == "--version"@ {
        } else if is_flag(a) {
            let (r2, ns2) = apply_flag(a, req, no_start);
            lemma_parse_keeps_effect(args, i + 1, r2, ns2, cwd, style, f);
        } else if has_prefix(a, "-psn_"@) {
            lemma_parse_keeps_effect(args, i + 1, req, no_start, cwd, style, f);
        } else if a == "-p"@ || a == "--path"@ {
            if i + 1 < args.len() {
                lemma_parse_keeps_effect(
                    args,
                    i + 2,
                    RequestView { path: Some(resolved_path(args[i + 1], cwd, style)), ..req },
                    no_start,
                    cwd,
                    style,
                    f,
                );
            }
        } else if a == "-g"@ || a == "--glob"@ {
            if i + 1 < args.len() {
                lemma_parse_keeps_effect(
                    args,
                    i + 2,
                    RequestView { globs: req.globs.push(args[i + 1]), ..req },
                    no_start,
                    cwd,
                    style,
                    f,
                );
            }
        } else if a == "-C"@ || a == "--context"@ {
            if i + 1 < args.len() {
                match context_value(args[i + 1]) {
                    Err(_) => {},
                    Ok(n) => lemma_parse_keeps_effect(
                        args,
                        i + 2,
                        RequestView { context_lines: Some(n), ..req },
                        no_start,
                        cwd,
                        style,
                        f,
                    ),
                }
            }
        } else if a == "--"@ {
            lemma_patterns_keep_effect(args, i + 1, req, no_start, f);
        } else if has_prefix(a, "--path="@) {
            lemma_parse_keeps_effect(
                args,
                i + 1,
                RequestView { path: Some(resolved_path(a.subrange(7, a.len() as int), cwd, style)), ..req },
                no_start,
                cwd,
                style,
                f,
            );
        } else if has_prefix(a, "--glob="@) {
            lemma_parse_keeps_effect(
                args,
                i + 1,
                RequestView { globs: req.globs.push(a.subrange(7, a.len() as int)), ..req },
                no_start,
                cwd,
                style,
                f,
            );
        } else if has_prefix(a, "--context="@) {
            match context_value(a.subrange(10, a.len() as int)) {
                Err(_) => {},
                Ok(n) => lemma_parse_keeps_effect(
                    args,
                    i + 1,
                    RequestView { context_lines: Some(n), ..req },
                    no_start,
                    cwd,
                    style,
                    f,
                ),
            }
        } else if has_prefix(a, "-"@) {
        } else {
            match with_pattern(req, a) {
                Err(_) => {},
                Ok(r) => lemma_parse_keeps_effect(args, i + 1, r, no_start, cwd, style, f),
            }
        }
    }
}

#[verifier::rlimit(80)]
proof fn lemma_flag_read(
    args: Seq<Seq<char>>,
    i: int,
    j: int,
    req: RequestView,
    no_start: bool,
    cwd: Seq<char>,
    style: PathStyle,
)
    requires
        read_as_word(args, i, j),
        is_flag(args[j]),
    ensures
        parse_from(args, i, req, no_start, cwd, style) matches Ok(ActionView::Launch(Some(r))) ==> flag_took_effect(
            args[j],
            r,
        ),
    decreases args.len() - i,
{
    let a = args[i];
    if j == i {
        lemma_flag_is_no_command(a);
        let (r2, ns2) = apply_flag(a, req, no_start);
        assert(effect_pending(a, r2, ns2));
        lemma_parse_keeps_effect(args, i + 1, r2, ns2, cwd, style, a);
    } else if takes_value(a) {
        lemma_value_options_are_distinct(a);
        if i + 1 < args.len() {
            if a == "-p"@ || a == "--path"@ {
                lemma_flag_read(
                    args,
                    i + 2,
                    j,
                    RequestView { path: Some(resolved_path(args[i + 1], cwd, style)), ..req },
                    no_start,
                    cwd,
                    style,
                );
            } else if a == "-g"@ || a == "--glob"@ {
                lemma_flag_read(
                    args,
                    i + 2,
                    j,
                    RequestView { globs: req.globs.push(args[i + 1]), ..req },
                    no_start,
                    cwd,
                    style,
                );
            } else {
                match context_value(args[i + 1]) {
                    Err(_) => {},
                    Ok(n) => lemma_flag_read(
                        args,
                        i + 2,
                        j,
                        RequestView { context_lines: Some(n), ..req },
                        no_start,
                        cwd,
                        style,
                    ),
                }
            }
        }
    } else {
        if a == "-h"@ || a == "--help"@ || a == "-V"@ || a == "--version"@ {
        } else if is_flag(a) {
            let (r2, ns2) = apply_flag(a, req, no_start);
            lemma_flag_read(args, i + 1, j, r2, ns2, cwd, style);
        } else if has_prefix(a, "-psn_"@) {
            lemma_flag_read(args, i + 1, j, req, no_start, cwd, style);
        } else if has_prefix(a, "--path="@) {
            lemma_flag_read(
                args,
                i + 1,
                j,
                RequestView { path: Some(resolved_path(a.subrange(7, a.len() as int), cwd, style)), ..req },
                no_start,
                cwd,
                style,
            );
        } else if has_prefix(a, "--glob="@) {
            lemma_flag_read(
                args,
                i + 1,
                j,
                RequestView { globs: req.globs.push(a.subrange(7, a.len() as int)), ..req },
                no_start,
                cwd,
                style,
            );
        } else if has_prefix(a, "--context="@) {
            match context_value(a.subrange(10, a.len() as int)) {
                Err(_) => {},
                Ok(n) => lemma_flag_read(
                    args,
                    i + 1,
                    j,
                    RequestView { context_lines: Some(n), ..req },
                    no_start,
                    cwd,
                    style,
                ),
            }
        } else if has_prefix(a, "-"@) {
        } else {
            match with_pattern(req, a) {
                Err(_) => {},
                Ok(r) => lemma_flag_read(args, i + 1, j, r, no_start, cwd, style),
            }
        }
    }
}

/// Each option without a value, read as an option (not as the value of
/// another option, and before any `--`), takes effect whenever the command
/// line opens the window, whatever else it holds: `-F` makes the pattern
/// literal, `-s` the matching case-sensitive, `-H` the search include
/// hidden files, `-L` follow links, `--no-ignore` disregard ignore files,
/// and `--no-start` keeps the search from starting.
pub proof fn law_switches_take_effect(args: Seq<Seq<char>>, j: int, cwd: Seq<char>, style: PathStyle)
    requires
        read_as_word(args, 1, j),
        is_flag(args[j]),
    ensures
        command_line(args, cwd, style) matches Ok(ActionView::Launch(Some(r))) ==> flag_took_effect(
            args[j],
            r,
        ),
        command_line(args, cwd, style) matches Ok(ActionView::Launch(Some(r))) ==> ((args[j] == "-F"@
            || args[j] == "--fixed-strings"@ ==> !r.regex) && (args[j] == "-s"@ || args[j]
            == "--case-sensitive"@ ==> r.case_sensitive) && (args[j] == "-H"@ || args[j]
            == "--hidden"@ ==> r.hidden) && (args[j] == "-L"@ || args[j] == "--follow"@
            ==> r.follow_symlinks) && (args[j] == "--no-ignore"@ ==> r.no_ignore) && (args[j]
            == "--no-start"@ ==> !r.start)),
{
    lemma_flag_read(args, 1, j, initial_request(), false, cwd, style);
    reveal_strlit("-h");
    reveal_strlit("--help");
    reveal_strlit("-V");
    reveal_strlit("--version");
    reveal_strlit("-F");
    reveal_strlit("--fixed-strings");
    reveal_strlit("-s");
    reveal_strlit("--case-sensitive");
    reveal_strlit("-H");
    reveal_strlit("--hidden");
    reveal_strlit("-L");
    reveal_strlit("--follow");
    reveal_strlit("--no-ignore");
    reveal_strlit("--no-start");
    assert("-F"@[1] == 'F' && "-s"@[1] == 's' && "-H"@[1] == 'H' && "-L"@[1] == 'L');
    assert("-h"@.len() == 2 && "--help"@.len() == 6 && "-V"@.len() == 2 && "--version"@.len() == 9);
    assert("-F"@.len() == 2 && "--fixed-strings"@.len() == 15 && "-s"@.len() == 2);
    assert("--case-sensitive"@.len() == 16 && "-H"@.len() == 2 && "--hidden"@.len() == 8);
    assert("-L"@.len() == 2 && "--follow"@.len() == 8 && "--no-ignore"@.len() == 11);
    assert("--no-start"@.len() == 10);
    let a = args[j];
    if a == "-F"@ {
        assert(a[1] == 'F');
    } else if a == "-s"@ {
        assert(a[1] == 's');
    } else if a == "-H"@ {
        assert(a[1] == 'H');
    } else if a == "-L"@ {
        assert(a[1] == 'L');
    } else if a == "--hidden"@ {
        assert(a[2] == 'h');
        assert("--follow"@[2] == 'f');
    } else if a == "--follow"@ {
        assert(a[2] == 'f');
        assert("--hidden"@[2] == 'h');
    }
}

/// `-H` or `--hidden`, read as an option (not as the value of another
/// option, and before any `--`), makes the search include hidden files:
/// whenever the command line opens the window, its request has `hidden`
/// set, whatever else the command line holds.
pub proof fn law_hidden_option_searches_hidden_files(
    args: Seq<Seq<char>>,
    j: int,
    cwd: Seq<char>,
    style: PathStyle,
)
    requires
        read_as_word(args, 1, j),
        args[j] == "-H"@ || args[j] == "--hidden"@,
    ensures
        command_line(args, cwd, style) matches Ok(ActionView::Launch(Some(r))) ==> r.hidden,
{
    reveal_strlit("-H");
    reveal_strlit("--hidden");
    law_switches_take_effect(args, j, cwd, style);
}

} // verus!
