//! The search sessions of the window: result limits, paging through the
//! results, how a search ends, file previews, home-relative paths, and
//! the folder suggestions of the path field.

use vstd::prelude::*;
use crate::cli::push_raw;
use crate::search::SearchState;
use crate::order::{text_le, text_le_exec};
use crate::registry::strings_view;
use crate::text::{concat, has_prefix, str_eq, to_string};

use crate::winpath::PathStyle;

verus! {

/// The most results a search keeps when the request names no limit.
pub const UI_RESULT_LIMIT: usize = 100000;

/// A preview reads no further into a file than this many lines.
pub const PREVIEW_MAX_SCAN_LINES: u64 = 250000;

/// The number of results a search keeps: the request's limit, else the
/// default, and at least one.
pub fn result_limit(max_matches: Option<usize>) -> (r: usize)
    ensures
        r == match max_matches {
            Some(m) => if m == 0 {
                1
            } else {
                m
            },
            None => UI_RESULT_LIMIT,
        },
{
    match max_matches {
        Some(m) => if m == 0 {
            1
        } else {
            m
        },
        None => UI_RESULT_LIMIT,
    }
}

/// The results `[start, end)` of a page: none when the offset is past the
/// end, else at most `limit` from the offset.
pub fn result_page(len: usize, offset: usize, limit: usize) -> (r: Option<(usize, usize)>)
    ensures
        offset >= len ==> r is None,
        offset < len ==> r == Some(
            (
                offset,
                if offset + limit < len {
                    (offset + limit) as usize
                } else {
                    len
                },
            ),
        ),
{
    if offset >= len {
        return None;
    }
    let end = if limit < len - offset {
        offset + limit
    } else {
        len
    };
    Some((offset, end))
}

/// How a search ends: cancelled when it was being cancelled, else as its
/// run ended.
pub fn final_search_state(current: SearchState, run_state: SearchState) -> (r: SearchState)
    ensures
        r == if current == SearchState::Cancelling {
            SearchState::Cancelled
        } else {
            run_state
        },
{
    match current {
        SearchState::Cancelling => SearchState::Cancelled,
        _ => run_state,
    }
}

/// Checks the lines asked for a preview: both from 1, in order.
pub fn check_preview_range(start_line: u64, end_line: u64) -> (r: Result<(), String>)
    ensures
        r is Ok <==> (start_line > 0 && end_line > 0 && start_line <= end_line),
        r matches Err(e) ==> e@ == "Preview line range is invalid."@,
{
    if start_line == 0 || end_line == 0 || start_line > end_line {
        Err(to_string("Preview line range is invalid."))
    } else {
        Ok(())
    }
}

/// What a preview does with line `number` of the file.
#[derive(Debug, Clone, Copy, PartialEq, Eq, Structural)]
pub enum PreviewStep {
    /// The file is too long to look this deep: give up.
    TooDeep,
    /// Before the window: read past it.
    Skip,
    /// Inside the window: keep it.
    Keep,
    /// After the window: stop, the preview is cut.
    Stop,
}

pub fn preview_step(number: u64, start_line: u64, end_line: u64) -> (r: PreviewStep)
    ensures
        r == if number > PREVIEW_MAX_SCAN_LINES {
            PreviewStep::TooDeep
        } else if number < start_line {
            PreviewStep::Skip
        } else if number > end_line {
            PreviewStep::Stop
        } else {
            PreviewStep::Keep
        },
{
    if number > PREVIEW_MAX_SCAN_LINES {
        PreviewStep::TooDeep
    } else if number < start_line {
        PreviewStep::Skip
    } else if number > end_line {
        PreviewStep::Stop
    } else {
        PreviewStep::Keep
    }
}

/// The last line a preview shows, and whether it is cut: the last kept
/// line (the start line when none was kept); cut when it starts after the
/// first line or lines followed the window.
pub fn preview_bounds(start_line: u64, last_kept: Option<u64>, saw_after_window: bool) -> (r: (u64, bool))
    ensures
        r.0 == match last_kept {
            Some(n) => n,
            None => start_line,
        },
        r.1 == (start_line > 1 || saw_after_window),
{
    let end = match last_kept {
        Some(n) => n,
        None => start_line,
    };
    (end, start_line > 1 || saw_after_window)
}

/// A path with a leading `~` read from the home directory.
pub open spec fn expanded_home(path: Seq<char>, home: Option<Seq<char>>, style: PathStyle) -> Result<
    Seq<char>,
    Seq<char>,
> {
    if path == "~"@ || has_prefix(path, "~/"@) {
        match home {
            None => Err("Could not resolve the current user's home directory"@),
            Some(h) => if path == "~"@ {
                Ok(h)
            } else {
                Ok(push_raw(h, path.subrange(2, path.len() as int), style))
            },
        }
    } else {
        Ok(path)
    }
}

/// Reads a leading `~` as the home directory (`home`, when it is known),
/// joining the rest onto it in `style`.
pub fn expand_home_path(path: &str, home: Option<&str>, style: PathStyle) -> (r: Result<String, String>)
    ensures
        match (r, expanded_home(path@, match home {
            Some(h) => Some(h@),
            None => None,
        }, style)) {
            (Ok(p), Ok(q)) => p@ == q,
            (Err(e), Err(f)) => e@ == f,
            _ => false,
        },
{
    let tilde = str_eq(path, "~");
    let under = crate::text::starts_with(path, "~/");
    if !tilde && !under {
        return Ok(to_string(path));
    }
    let h = match home {
        None => {
            return Err(to_string("Could not resolve the current user's home directory"));
        },
        Some(h) => h,
    };
    if tilde {
        return Ok(to_string(h));
    }
    proof {
        reveal_strlit("~/");
        assert("~/"@.len() == 2);
    }
    let rest = path.substring_char(2, path.unicode_len());
    Ok(crate::cli::push_raw_exec(h, rest, style))
}

// ---------------------------------------------------------------------------
// Folder suggestions

/// The most folders suggested for the path field.
pub const DIRECTORY_SUGGESTION_LIMIT: usize = 500;

/// `str::to_lowercase` of a text.
pub uninterp spec fn lowercase_of(s: Seq<char>) -> Seq<char>;

/// Calls `str::to_lowercase`; the contract names the result
/// (`lowercase_of`) and claims nothing more of it.
#[verifier::external_body]
fn lowercase(s: &str) -> (r: String)
    ensures
        r@ == lowercase_of(s@),
{
    s.to_lowercase()
}

/// `s` with `x` after every name whose lowercase form is not after that of
/// `x`, and before the others.
pub open spec fn insert_by_lower(s: Seq<Seq<char>>, x: Seq<char>) -> Seq<Seq<char>>
    decreases s.len(),
{
    if s.len() == 0 {
        seq![x]
    } else if text_le(lowercase_of(s.last()), lowercase_of(x)) {
        s.push(x)
    } else {
        insert_by_lower(s.drop_last(), x).push(s.last())
    }
}

/// The names in ascending order of their lowercase forms, names with the
/// same lowercase form in their first order (`sort_by_key` on
/// `to_lowercase`).
pub open spec fn sort_by_lower(s: Seq<Seq<char>>) -> Seq<Seq<char>>
    decreases s.len(),
{
    if s.len() == 0 {
        seq![]
    } else {
        insert_by_lower(sort_by_lower(s.drop_last()), s.last())
    }
}

/// A folder is suggested when its name is not empty and, unless hidden
/// folders are asked for, does not start with `.`.
pub open spec fn shown_folder(name: Seq<char>, include_hidden: bool) -> bool {
    name.len() > 0 && (include_hidden || name[0] != '.')
}

pub open spec fn shown_folders(names: Seq<Seq<char>>, include_hidden: bool) -> Seq<Seq<char>>
    decreases names.len(),
{
    if names.len() == 0 {
        seq![]
    } else {
        let prev = shown_folders(names.drop_last(), include_hidden);
        if shown_folder(names.last(), include_hidden) {
            prev.push(names.last())
        } else {
            prev
        }
    }
}

/// The suggestions for the folders `names` of a directory: the shown ones,
/// sorted without regard to case, at most the limit, each ending in `/`.
pub open spec fn suggestions_of(names: Seq<Seq<char>>, include_hidden: bool) -> Seq<Seq<char>> {
    let sorted = sort_by_lower(shown_folders(names, include_hidden));
    let n = if sorted.len() < DIRECTORY_SUGGESTION_LIMIT {
        sorted.len() as int
    } else {
        DIRECTORY_SUGGESTION_LIMIT as int
    };
    sorted.take(n).map_values(|name: Seq<char>| name + "/"@)
}

proof fn lemma_insert_by_lower(s: Seq<Seq<char>>, keys: Seq<Seq<char>>, x: Seq<char>, p: int)
    requires
        0 <= p <= s.len(),
        keys.len() == s.len(),
        forall|j: int| 0 <= j < s.len() ==> #[trigger] keys[j] == lowercase_of(s[j]),
        forall|j: int| p <= j < s.len() ==> !text_le(#[trigger] keys[j], lowercase_of(x)),
        p > 0 ==> text_le(keys[p - 1], lowercase_of(x)),
    ensures
        insert_by_lower(s, x) == s.insert(p, x),
    decreases s.len(),
{
    if s.len() == 0 {
        assert(s.insert(p, x) =~= seq![x]);
    } else if p == s.len() {
        assert(text_le(lowercase_of(s.last()), lowercase_of(x)));
        assert(s.insert(p, x) =~= s.push(x));
    } else {
        let l = s.len() - 1;
        assert(keys[l] == lowercase_of(s[l]));
        assert(!text_le(keys[l], lowercase_of(x)));
        let t = s.drop_last();
        let kt = keys.drop_last();
        assert forall|j: int| 0 <= j < t.len() implies #[trigger] kt[j] == lowercase_of(t[j]) by {
            assert(kt[j] == keys[j] && t[j] == s[j]);
        }
        assert forall|j: int| p <= j < t.len() implies !text_le(#[trigger] kt[j], lowercase_of(x)) by {
            assert(kt[j] == keys[j]);
        }
        if p > 0 {
            assert(kt[p - 1] == keys[p - 1]);
        }
        lemma_insert_by_lower(t, kt, x, p);
        assert(t.insert(p, x).push(s.last()) =~= s.insert(p, x));
    }
}

/// The folder suggestions for the folders `names` of a directory.
pub fn directory_suggestions(names: &Vec<String>, include_hidden: bool) -> (r: Vec<String>)
    ensures
        strings_view(r@) == suggestions_of(strings_view(names@), include_hidden),
{
    let ghost all = strings_view(names@);
    let mut sorted: Vec<String> = Vec::new();
    let mut keys: Vec<String> = Vec::new();
    let mut i: usize = 0;
    assert(all.take(0) =~= Seq::<Seq<char>>::empty());
    assert(strings_view(sorted@) =~= Seq::<Seq<char>>::empty());
    while i < names.len()
        invariant
            i <= names@.len(),
            all == strings_view(names@),
            keys@.len() == sorted@.len(),
            forall|j: int| 0 <= j < sorted@.len() ==> (#[trigger] keys@[j])@ == lowercase_of(sorted@[j]@),
            strings_view(sorted@) == sort_by_lower(shown_folders(all.take(i as int), include_hidden)),
        decreases names.len() - i,
    {
        let name = &names[i];
        assert(all.take(i + 1).drop_last() =~= all.take(i as int));
        assert(all.take(i + 1).last() == name@);
        let n = name.as_str().unicode_len();
        let shown = n > 0 && (include_hidden || name.as_str().get_char(0) != '.');
        proof {
            let prev = shown_folders(all.take(i as int), include_hidden);
            assert(prev.push(name@).drop_last() =~= prev);
        }
        if shown {
            let key = lowercase(name.as_str());
            let mut p: usize = sorted.len();
            while p > 0 && !text_le_exec(keys[p - 1].as_str(), key.as_str())
                invariant
                    p <= sorted@.len(),
                    keys@.len() == sorted@.len(),
                    forall|j: int|
                        0 <= j < sorted@.len() ==> (#[trigger] keys@[j])@ == lowercase_of(sorted@[j]@),
                    forall|j: int|
                        p <= j < sorted@.len() ==> !text_le((#[trigger] keys@[j])@, key@),
                decreases p,
            {
                p = p - 1;
            }
            let ghost before = strings_view(sorted@);
            let ghost kv = strings_view(keys@);
            proof {
                assert forall|j: int| 0 <= j < before.len() implies #[trigger] kv[j] == lowercase_of(before[j]) by {
                    assert(kv[j] == keys@[j]@);
                }
                assert forall|j: int| p <= j < before.len() implies !text_le(#[trigger] kv[j], lowercase_of(name@)) by {
                    assert(kv[j] == keys@[j]@);
                }
                if p > 0 {
                    assert(kv[p - 1] == keys@[p - 1]@);
                }
                lemma_insert_by_lower(before, kv, name@, p as int);
            }
            let ghost old_sorted = sorted@;
            let ghost old_keys = keys@;
            sorted.insert(p, name.clone());
            keys.insert(p, key);
            proof {
                assert(strings_view(sorted@) =~= before.insert(p as int, name@));
                assert forall|j: int| 0 <= j < sorted@.len() implies (#[trigger] keys@[j])@ == lowercase_of(sorted@[j]@) by {
                    if j < p {
                        assert(keys@[j] == old_keys[j] && sorted@[j] == old_sorted[j]);
                    } else if j > p {
                        assert(keys@[j] == old_keys[j - 1] && sorted@[j] == old_sorted[j - 1]);
                    }
                }
            }
        }
        i = i + 1;
    }
    assert(all.take(names@.len() as int) =~= all);
    let limit = if sorted.len() < DIRECTORY_SUGGESTION_LIMIT {
        sorted.len()
    } else {
        DIRECTORY_SUGGESTION_LIMIT
    };
    let mut out: Vec<String> = Vec::new();
    let mut k: usize = 0;
    while k < limit
        invariant
            k <= limit,
            limit <= sorted@.len(),
            strings_view(out@) == strings_view(sorted@).take(k as int).map_values(
                |name: Seq<char>| name + "/"@,
            ),
        decreases limit - k,
    {
        let ghost before = strings_view(out@);
        let item = concat(sorted[k].as_str(), "/");
        out.push(item);
        proof {
            assert(strings_view(out@) =~= before.push(item@));
            let f = |name: Seq<char>| name + "/"@;
            assert(strings_view(sorted@).take(k + 1) =~= strings_view(sorted@).take(k as int).push(
                sorted@[k as int]@,
            ));
            assert(strings_view(sorted@).take(k + 1).map_values(f) =~= strings_view(sorted@).take(
                k as int,
            ).map_values(f).push(f(sorted@[k as int]@)));
        }
        k = k + 1;
    }
    out
}

} // verus!
