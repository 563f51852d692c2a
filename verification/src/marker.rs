//! The marker that names a snippet in a document, and the fenced block
//! that follows it.

use crate::error::{ErrorView, SnipsError};
use crate::processor::{BlockView, LocatorView, ParsedSnippet, SnippetLocator};
use crate::snippet::{skip_id, skip_id_chars};
use crate::text::{
    char_is_whitespace, has_at, is_whitespace, join_range, join_with, matches_at, newline,
    newline_chars, skip_whitespace, skip_ws, slice_chars, to_chars, to_text, trim, trim_end_at,
    trim_end_index, trimmed, views,
};
use vstd::prelude::*;

verus! {

/// The text that a line must begin with, after its indentation, to be taken
/// for a marker.
pub open spec fn marker_prefix() -> Seq<char> {
    "<!-- snips:"@
}

/// Whether `line` is taken for a marker line.
pub open spec fn is_marker_line(line: Seq<char>) -> bool {
    matches_at(line, skip_whitespace(line, 0), marker_prefix())
}

/// The first index from `from` on, below `to`, that holds `#` or white
/// space, or `to` when there is none.
pub open spec fn skip_path(s: Seq<char>, from: int, to: int) -> int
    decreases to - from,
{
    if 0 <= from < to && to <= s.len() && s[from] != '#' && !is_whitespace(s[from]) {
        skip_path(s, from + 1, to)
    } else {
        from
    }
}

/// The indentation and the locator that the marker line `s` spells, or
/// `None` when `s` is no well-formed marker.
///
/// A marker is: optional white space, which is the indentation; `<!--`;
/// optional white space; `snips:`; optional white space; a path, which is a
/// non-empty run of characters other than white space and `#`; optionally
/// `#` and a non-empty identifier; optional white space; `-->`; optional
/// white space.
pub open spec fn parse_marker(s: Seq<char>) -> Option<(Seq<char>, LocatorView)> {
    let i0 = skip_whitespace(s, 0);
    let i1 = skip_whitespace(s, i0 + "<!--"@.len());
    let i2 = skip_whitespace(s, i1 + "snips:"@.len());
    let end = trim_end_index(s, s.len() as int);
    let close = end - "-->"@.len();
    let k = trim_end_index(s, close);
    let h = skip_path(s, i2, k);
    if !matches_at(s, i0, "<!--"@) || !matches_at(s, i1, "snips:"@) || close < i2 || !matches_at(
        s,
        close,
        "-->"@,
    ) || h <= i2 {
        None
    } else if h >= k {
        Some((s.subrange(0, i0), LocatorView { path: s.subrange(i2, h), name: None }))
    } else if s[h] == '#' && h + 1 < k && skip_id(s, h + 1) >= k {
        Some(
            (
                s.subrange(0, i0),
                LocatorView { path: s.subrange(i2, h), name: Some(s.subrange(h + 1, k)) },
            ),
        )
    } else {
        None
    }
}

/// Whether a parsed marker agrees with its model.
pub open spec fn marker_is(
    r: Option<(Vec<char>, SnippetLocator)>,
    m: Option<(Seq<char>, LocatorView)>,
) -> bool {
    match (r, m) {
        (Some(p), Some(q)) => p.0@ == q.0 && p.1@ == q.1,
        (None, None) => true,
        _ => false,
    }
}

/// The end of the run of path characters that begins at `from`, below `to`.
fn skip_path_chars(v: &Vec<char>, from: usize, to: usize) -> (r: usize)
    requires
        from <= to <= v.len(),
    ensures
        r == skip_path(v@, from as int, to as int),
        from <= r <= to,
{
    let mut i: usize = from;
    while i < to && v[i] != '#' && !char_is_whitespace(v[i])
        invariant
            from <= i <= to <= v.len(),
            skip_path(v@, from as int, to as int) == skip_path(v@, i as int, to as int),
        decreases to - i,
    {
        i += 1;
    }
    i
}

/// Whether `line` is taken for a marker line.
pub fn starts_marker(line: &Vec<char>) -> (b: bool)
    ensures
        b == is_marker_line(line@),
{
    let prefix = to_chars("<!-- snips:");
    has_at(line, skip_ws(line, 0), &prefix)
}

/// Reads a marker line.
pub fn parse_marker_line(line: &Vec<char>) -> (r: Option<(Vec<char>, SnippetLocator)>)
    ensures
        marker_is(r, parse_marker(line@)),
{
    let open = to_chars("<!--");
    let keyword = to_chars("snips:");
    let close_pat = to_chars("-->");
    let i0 = skip_ws(line, 0);
    if !has_at(line, i0, &open) {
        return None;
    }
    let i1 = skip_ws(line, i0 + open.len());
    if !has_at(line, i1, &keyword) {
        return None;
    }
    let i2 = skip_ws(line, i1 + keyword.len());
    let end = trim_end_at(line, line.len());
    if end < close_pat.len() {
        return None;
    }
    let close: usize = end - close_pat.len();
    if close < i2 || !has_at(line, close, &close_pat) {
        return None;
    }
    let k = trim_end_at(line, close);
    if k <= i2 {
        return None;
    }
    let h = skip_path_chars(line, i2, k);
    if h <= i2 {
        return None;
    }
    let indent = slice_chars(line, 0, i0);
    let path = to_text(&slice_chars(line, i2, h));
    if h >= k {
        Some((indent, SnippetLocator { path, name: None }))
    } else if line[h] == '#' && h + 1 < k && skip_id_chars(line, h + 1) >= k {
        let name = to_text(&slice_chars(line, h + 1, k));
        Some((indent, SnippetLocator { path, name: Some(name) }))
    } else {
        None
    }
}

/// The first index at or after `from` that holds no backtick.
pub open spec fn skip_ticks(s: Seq<char>, from: int) -> int
    decreases s.len() - from,
{
    if 0 <= from < s.len() && s[from] == '`' {
        skip_ticks(s, from + 1)
    } else {
        from
    }
}

/// The number of backticks that `line` begins with, after its indentation.
/// A line opens a fence when this is at least one.
pub open spec fn fence_ticks(line: Seq<char>) -> int {
    let a = skip_whitespace(line, 0);
    skip_ticks(line, a) - a
}

/// A run of `n` backticks.
pub open spec fn ticks(n: int) -> Seq<char> {
    Seq::new(n as nat, |i: int| '`')
}

/// Whether `line` closes a fence of `n` backticks: but for the white space
/// around it, it is exactly that many backticks.
pub open spec fn is_closing_fence(line: Seq<char>, n: int) -> bool {
    trim(line) == ticks(n)
}

/// The first index at or after `from` whose line closes a fence of `n`
/// backticks, or the number of lines when there is none.
pub open spec fn first_closing_fence(ls: Seq<Seq<char>>, n: int, from: int) -> int
    decreases ls.len() - from,
{
    if 0 <= from < ls.len() && !is_closing_fence(ls[from], n) {
        first_closing_fence(ls, n, from + 1)
    } else {
        from
    }
}

/// The search for a closing fence ends between its start and the number of
/// lines.
pub proof fn lemma_first_closing_fence_bounds(ls: Seq<Seq<char>>, n: int, from: int)
    requires
        0 <= from <= ls.len(),
    ensures
        from <= first_closing_fence(ls, n, from) <= ls.len(),
    decreases ls.len() - from,
{
    if from < ls.len() && !is_closing_fence(ls[from], n) {
        lemma_first_closing_fence_bounds(ls, n, from + 1);
    }
}

/// The block that the marker in line `idx` of the document `file` opens, and
/// the index of the first line after the block.
///
/// The line must be a well-formed marker, else the result is
/// `InvalidMarker` with the one-based line number and the line. The next
/// line must open a fence, else the result is `MissingCodeFence`. The lines
/// after it, up to the first that closes the fence, are the block's old
/// content; without such a line the block runs to the end of the document.
pub open spec fn parsed_block(file: Seq<char>, ls: Seq<Seq<char>>, idx: int) -> Result<
    (BlockView, int),
    ErrorView,
> {
    match parse_marker(ls[idx]) {
        None => Err(
            ErrorView::InvalidMarker { file, line: (idx + 1) as nat, content: ls[idx] },
        ),
        Some((indent, locator)) => {
            if idx + 1 >= ls.len() || fence_ticks(ls[idx + 1]) < 1 {
                Err(ErrorView::MissingCodeFence((idx + 1) as nat))
            } else {
                let j = first_closing_fence(ls, fence_ticks(ls[idx + 1]), idx + 2);
                Ok(
                    (
                        BlockView {
                            indent,
                            locator,
                            old_content: join_with(ls.subrange(idx + 2, j), newline()),
                        },
                        if j < ls.len() {
                            j + 1
                        } else {
                            j
                        },
                    ),
                )
            }
        },
    }
}

/// Whether a parsed block and the index after it agree with their model.
pub open spec fn block_is(
    r: Result<(ParsedSnippet, usize), SnipsError>,
    m: Result<(BlockView, int), ErrorView>,
) -> bool {
    match (r, m) {
        (Ok(p), Ok(q)) => p.0@ == q.0 && p.1 == q.1,
        (Err(e), Err(f)) => e@ == f,
        _ => false,
    }
}

/// The number of backticks that `line` begins with, after its indentation.
fn count_ticks(line: &Vec<char>) -> (n: usize)
    ensures
        n == fence_ticks(line@),
{
    let a = skip_ws(line, 0);
    let mut i: usize = a;
    while i < line.len() && line[i] == '`'
        invariant
            a <= i <= line.len(),
            skip_ticks(line@, a as int) == skip_ticks(line@, i as int),
        decreases line.len() - i,
    {
        i += 1;
    }
    i - a
}

/// Tells whether `line` closes a fence of `n` backticks.
fn closes_fence(line: &Vec<char>, n: usize) -> (b: bool)
    ensures
        b == is_closing_fence(line@, n as int),
{
    let t = trimmed(line);
    if t.len() != n {
        return false;
    }
    let mut i: usize = 0;
    while i < t.len()
        invariant
            i <= t.len(),
            t.len() == n,
            t@ == trim(line@),
            forall|j: int| 0 <= j < i ==> t@[j] == '`',
        decreases t.len() - i,
    {
        if t[i] != '`' {
            assert(ticks(n as int)[i as int] == '`');
            assert(t@[i as int] != ticks(n as int)[i as int]);
            return false;
        }
        i += 1;
    }
    assert(t@ =~= ticks(n as int));
    true
}

/// Consumes the marker in line `idx` of `lines` and the fenced block after
/// it, and returns the parsed details with the index of the first line after
/// the block.
pub fn parse_snippet_block(file_path: &str, lines: &Vec<Vec<char>>, idx: usize) -> (r: Result<
    (ParsedSnippet, usize),
    SnipsError,
>)
    requires
        idx < lines.len(),
    ensures
        block_is(r, parsed_block(file_path@, views(lines@), idx as int)),
        r is Ok ==> idx < r->Ok_0.1 <= lines.len(),
{
    let (indent, locator) = match parse_marker_line(&lines[idx]) {
        Some(parts) => parts,
        None => {
            return Err(
                SnipsError::InvalidMarker {
                    file: String::from_str(file_path),
                    line: idx + 1,
                    content: to_text(&lines[idx]),
                },
            );
        },
    };
    if idx + 1 >= lines.len() {
        return Err(SnipsError::MissingCodeFence(idx + 1));
    }
    let n = count_ticks(&lines[idx + 1]);
    if n < 1 {
        return Err(SnipsError::MissingCodeFence(idx + 1));
    }
    let mut j: usize = idx + 2;
    while j < lines.len() && !closes_fence(&lines[j], n)
        invariant
            idx + 2 <= j <= lines.len(),
            first_closing_fence(views(lines@), n as int, idx + 2) == first_closing_fence(
                views(lines@),
                n as int,
                j as int,
            ),
        decreases lines.len() - j,
    {
        j += 1;
    }
    let sep = newline_chars();
    let old_content = to_text(&join_range(lines, idx + 2, j, &sep));
    let next: usize = if j < lines.len() {
        j + 1
    } else {
        j
    };
    Ok((ParsedSnippet { indent: to_text(&indent), locator, old_content }, next))
}

} // verus!
