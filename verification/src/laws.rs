//! What holds of rendering as a whole: the lines of a rendered document, and
//! the laws that relate one pass over a document to the next.

use crate::error::ErrorView;
use crate::marker::{
    fence_ticks, first_closing_fence, is_closing_fence, is_marker_line,
    lemma_first_closing_fence_bounds, parse_marker, parsed_block, skip_path, skip_ticks, ticks,
};
use crate::paths::joined_path;
use crate::processor::{
    block_lines, closing_fence, diffs, diffs_of, ends_with_newline, indented, indented_line,
    injection, is_stale, marker_line, marker_text, opening_fence, rendered_lines, rendered_text,
    reports_of, resolved_block, scan_from, scanned, summary, BlockView, DiffView, LocatorView,
    ReportView, ResolvedView, SegmentView,
};
use crate::snippet::{
    available_text, closes, declared_names, dedented, extracted, first_closing, first_opening,
    opens, skip_id, source_text, FileView,
};
use crate::text::{
    is_blank, is_id_char, is_whitespace, join_with, lines, lines_scan, matches_at, newline,
    skip_whitespace, strip_cr, trim_end_index,
};
use vstd::prelude::*;

verus! {

/// Scanning `y` behind any text `x` gives the lines of `y`.
pub proof fn lemma_scan_shift(x: Seq<char>, y: Seq<char>, start: int, i: int)
    requires
        0 <= start <= i <= y.len(),
    ensures
        lines_scan(x + y, x.len() + start, x.len() + i) == lines_scan(y, start, i),
    decreases y.len() - i,
{
    let s = x + y;
    if i >= y.len() {
        if start < y.len() {
            assert(s.subrange(x.len() + start, s.len() as int) == y.subrange(start, y.len() as int));
        }
    } else {
        assert(s[x.len() + i] == y[i]);
        if y[i] == '\n' {
            assert(s.subrange(x.len() + start, x.len() + i) == y.subrange(start, i));
            lemma_scan_shift(x, y, i + 1, i + 1);
        } else {
            lemma_scan_shift(x, y, start, i + 1);
        }
    }
}

/// Behind a text `x` that ends with a line feed, the lines of `y` follow
/// those of `x`.
pub proof fn lemma_scan_prefix(x: Seq<char>, y: Seq<char>, start: int, i: int)
    requires
        x.len() > 0,
        x.last() == '\n',
        0 <= start <= i <= x.len(),
        i == x.len() ==> start == x.len(),
    ensures
        lines_scan(x + y, start, i) == lines_scan(x, start, i) + lines(y),
    decreases x.len() - i,
{
    let s = x + y;
    if i == x.len() {
        lemma_scan_shift(x, y, 0, 0);
        assert(lines_scan(x, start, i) == Seq::<Seq<char>>::empty());
        assert(Seq::<Seq<char>>::empty() + lines(y) == lines(y));
    } else {
        assert(s[i] == x[i]);
        if x[i] == '\n' {
            assert(s.subrange(start, i) == x.subrange(start, i));
            lemma_scan_prefix(x, y, i + 1, i + 1);
            let head = seq![strip_cr(x.subrange(start, i))];
            assert(head + (lines_scan(x, i + 1, i + 1) + lines(y)) == (head + lines_scan(
                x,
                i + 1,
                i + 1,
            )) + lines(y));
        } else {
            lemma_scan_prefix(x, y, start, i + 1);
        }
    }
}

/// The lines of two texts in a row are the lines of the first and then
/// those of the second, when the first is empty or ends with a line feed.
pub proof fn lemma_lines_concat(x: Seq<char>, y: Seq<char>)
    requires
        x.len() == 0 || x.last() == '\n',
    ensures
        lines(x + y) == lines(x) + lines(y),
{
    if x.len() == 0 {
        assert(x + y == y);
        assert(lines(x) == Seq::<Seq<char>>::empty());
        assert(Seq::<Seq<char>>::empty() + lines(y) == lines(y));
    } else {
        lemma_scan_prefix(x, y, 0, 0);
    }
}

/// Whether `p` holds no line feed.
pub open spec fn one_line(p: Seq<char>) -> bool {
    forall|i: int| 0 <= i < p.len() ==> p[i] != '\n'
}

/// A scan of a single line followed by a line feed gives that line.
proof fn lemma_scan_single(p: Seq<char>, i: int)
    requires
        one_line(p),
        0 <= i <= p.len(),
    ensures
        lines_scan(p + newline(), 0, i) == seq![strip_cr(p)],
    decreases p.len() - i,
{
    let s = p + newline();
    if i == p.len() {
        assert(s[i] == '\n');
        assert(s.subrange(0, i) == p);
        assert(lines_scan(s, i + 1, i + 1) == Seq::<Seq<char>>::empty());
        assert(seq![strip_cr(p)] + Seq::<Seq<char>>::empty() == seq![strip_cr(p)]);
    } else {
        assert(s[i] == p[i]);
        lemma_scan_single(p, i + 1);
    }
}

/// A text without a line feed, followed by one, is one line: the text
/// without a carriage return at its end.
pub proof fn lemma_lines_single(p: Seq<char>)
    requires
        one_line(p),
    ensures
        lines(p + newline()) == seq![strip_cr(p)],
{
    lemma_scan_single(p, 0);
}

/// The lines of the pieces `ps`, each taken as if a line feed followed it.
pub open spec fn piece_lines(ps: Seq<Seq<char>>) -> Seq<Seq<char>>
    decreases ps.len(),
{
    if ps.len() == 0 {
        Seq::empty()
    } else {
        piece_lines(ps.drop_last()) + lines(ps.last() + newline())
    }
}

/// Joined by line feeds and ended by one, pieces fall into their lines.
pub proof fn lemma_join_lines(ps: Seq<Seq<char>>)
    requires
        ps.len() > 0,
    ensures
        lines(join_with(ps, newline()) + newline()) == piece_lines(ps),
    decreases ps.len(),
{
    if ps.len() == 1 {
        assert(piece_lines(ps.drop_last()) == Seq::<Seq<char>>::empty());
        assert(Seq::<Seq<char>>::empty() + lines(ps.last() + newline()) == lines(
            ps.last() + newline(),
        ));
    } else {
        let front = join_with(ps.drop_last(), newline()) + newline();
        lemma_join_lines(ps.drop_last());
        assert(join_with(ps, newline()) + newline() == front + (ps.last() + newline()));
        assert(front.last() == '\n');
        lemma_lines_concat(front, ps.last() + newline());
    }
}

/// Whether `s` holds nothing but white space.
pub open spec fn all_whitespace(s: Seq<char>) -> bool {
    forall|i: int| 0 <= i < s.len() ==> is_whitespace(#[trigger] s[i])
}

/// Whether `p` can stand as the path of a marker: it is not empty and holds
/// neither white space nor `#`.
pub open spec fn is_path(p: Seq<char>) -> bool {
    p.len() > 0 && forall|i: int| 0 <= i < p.len() ==> #[trigger] p[i] != '#' && !is_whitespace(p[i])
}

/// Whether `n` is a region identifier: not empty, and made of identifier
/// characters.
pub open spec fn is_identifier(n: Seq<char>) -> bool {
    n.len() > 0 && forall|i: int| 0 <= i < n.len() ==> is_id_char(#[trigger] n[i])
}

/// Whether `indent` and `locator` can be the parts of a marker.
pub open spec fn well_formed_marker(indent: Seq<char>, locator: LocatorView) -> bool {
    all_whitespace(indent) && is_path(locator.path) && match locator.name {
        Some(n) => is_identifier(n),
        None => true,
    }
}

/// White space from `from` up to `to`, and none at `to`: the skip ends at `to`.
proof fn lemma_skip_whitespace_to(s: Seq<char>, from: int, to: int)
    requires
        0 <= from <= to <= s.len(),
        forall|j: int| from <= j < to ==> is_whitespace(#[trigger] s[j]),
        to == s.len() || !is_whitespace(s[to]),
    ensures
        skip_whitespace(s, from) == to,
    decreases to - from,
{
    if from < to {
        lemma_skip_whitespace_to(s, from + 1, to);
    }
}

/// White space from `k` up to `to`, and none before `k`: the cut ends at `k`.
proof fn lemma_trim_end_to(s: Seq<char>, to: int, k: int)
    requires
        0 <= k <= to <= s.len(),
        forall|j: int| k <= j < to ==> is_whitespace(#[trigger] s[j]),
        k == 0 || !is_whitespace(s[k - 1]),
    ensures
        trim_end_index(s, to) == k,
    decreases to - k,
{
    if k < to {
        lemma_trim_end_to(s, to - 1, k);
    }
}

/// Path characters from `from` up to `h`, and none at `h`: the skip ends at `h`.
proof fn lemma_skip_path_to(s: Seq<char>, from: int, to: int, h: int)
    requires
        0 <= from <= h <= to <= s.len(),
        forall|j: int| from <= j < h ==> #[trigger] s[j] != '#' && !is_whitespace(s[j]),
        h == to || s[h] == '#' || is_whitespace(s[h]),
    ensures
        skip_path(s, from, to) == h,
    decreases h - from,
{
    if from < h {
        lemma_skip_path_to(s, from + 1, to, h);
    }
}

/// Identifier characters from `from` up to `k`: the skip goes at least to `k`.
proof fn lemma_skip_id_at_least(s: Seq<char>, from: int, k: int)
    requires
        0 <= from <= k <= s.len(),
        forall|j: int| from <= j < k ==> is_id_char(#[trigger] s[j]),
    ensures
        skip_id(s, from) >= k,
    decreases k - from,
{
    if from < k {
        lemma_skip_id_at_least(s, from + 1, k);
    } else {
        lemma_skip_id_bounds(s, from);
    }
}

/// What an identifier skip passes over are identifier characters.
proof fn lemma_skip_id_bounds(s: Seq<char>, from: int)
    requires
        0 <= from <= s.len(),
    ensures
        from <= skip_id(s, from) <= s.len(),
        forall|j: int| from <= j < skip_id(s, from) ==> is_id_char(#[trigger] s[j]),
    decreases s.len() - from,
{
    if from < s.len() && is_id_char(s[from]) {
        lemma_skip_id_bounds(s, from + 1);
    }
}

/// What a white space skip passes over is white space, and it ends before
/// a character that is none, or at the end.
proof fn lemma_skip_whitespace_run(s: Seq<char>, from: int)
    requires
        0 <= from <= s.len(),
    ensures
        from <= skip_whitespace(s, from) <= s.len(),
        forall|j: int| from <= j < skip_whitespace(s, from) ==> is_whitespace(#[trigger] s[j]),
        skip_whitespace(s, from) == s.len() || !is_whitespace(s[skip_whitespace(s, from)]),
    decreases s.len() - from,
{
    if from < s.len() && is_whitespace(s[from]) {
        lemma_skip_whitespace_run(s, from + 1);
    }
}

/// What a path skip passes over are path characters.
proof fn lemma_skip_path_run(s: Seq<char>, from: int, to: int)
    requires
        0 <= from <= to <= s.len(),
    ensures
        from <= skip_path(s, from, to) <= to,
        forall|j: int|
            from <= j < skip_path(s, from, to) ==> #[trigger] s[j] != '#' && !is_whitespace(s[j]),
    decreases to - from,
{
    if from < to && s[from] != '#' && !is_whitespace(s[from]) {
        lemma_skip_path_run(s, from + 1, to);
    }
}

/// Backticks from `from` up to `to`, and none at `to`: the skip ends at `to`.
proof fn lemma_skip_ticks_to(s: Seq<char>, from: int, to: int)
    requires
        0 <= from <= to <= s.len(),
        forall|j: int| from <= j < to ==> #[trigger] s[j] == '`',
        to == s.len() || s[to] != '`',
    ensures
        skip_ticks(s, from) == to,
    decreases to - from,
{
    if from < to {
        lemma_skip_ticks_to(s, from + 1, to);
    }
}

/// A cut at the end leaves an end between zero and where it began.
proof fn lemma_trim_end_bounds(s: Seq<char>, to: int)
    requires
        0 <= to <= s.len(),
    ensures
        0 <= trim_end_index(s, to) <= to,
    decreases to,
{
    if 0 < to && is_whitespace(s[to - 1]) {
        lemma_trim_end_bounds(s, to - 1);
    }
}

/// The parts that a marker line parses into are well formed.
pub proof fn law_parsed_marker_is_well_formed(s: Seq<char>)
    requires
        parse_marker(s) is Some,
    ensures
        well_formed_marker(parse_marker(s)->Some_0.0, parse_marker(s)->Some_0.1),
{
    reveal_strlit("<!--");
    reveal_strlit("snips:");
    reveal_strlit("-->");
    let i0 = skip_whitespace(s, 0);
    let i1 = skip_whitespace(s, i0 + 4);
    let i2 = skip_whitespace(s, i1 + 6);
    let end = trim_end_index(s, s.len() as int);
    let close = end - 3;
    let k = trim_end_index(s, close);
    let h = skip_path(s, i2, k);
    lemma_skip_whitespace_run(s, 0);
    lemma_skip_whitespace_run(s, i0 + 4);
    lemma_skip_whitespace_run(s, i1 + 6);
    lemma_trim_end_bounds(s, s.len() as int);
    lemma_trim_end_bounds(s, close);
    if i2 <= k {
        lemma_skip_path_run(s, i2, k);
    }
    let indent = s.subrange(0, i0);
    let path = s.subrange(i2, h);
    assert(all_whitespace(indent)) by {
        assert forall|i: int| 0 <= i < indent.len() implies is_whitespace(#[trigger] indent[i]) by {
            assert(indent[i] == s[i]);
        }
    }
    assert(is_path(path)) by {
        assert forall|i: int| 0 <= i < path.len() implies #[trigger] path[i] != '#'
            && !is_whitespace(path[i]) by {
            assert(path[i] == s[i2 + i]);
        }
    }
    if h < k {
        let name = s.subrange(h + 1, k);
        lemma_skip_id_bounds(s, h + 1);
        assert(is_identifier(name)) by {
            assert forall|i: int| 0 <= i < name.len() implies is_id_char(#[trigger] name[i]) by {
                assert(name[i] == s[h + 1 + i]);
            }
        }
    }
}

/// A marker line written from well-formed parts is taken for a marker line
/// and parses into those parts.
pub proof fn law_written_marker_parses_back(indent: Seq<char>, locator: LocatorView)
    requires
        well_formed_marker(indent, locator),
    ensures
        is_marker_line(marker_line(indent, locator)),
        parse_marker(marker_line(indent, locator)) == Some((indent, locator)),
{
    reveal_strlit("<!--");
    reveal_strlit("snips:");
    reveal_strlit("-->");
    reveal_strlit("<!-- snips:");
    reveal_strlit("<!-- snips: ");
    reveal_strlit(" -->");
    reveal_strlit("#");
    let mt = marker_text(locator);
    let s = marker_line(indent, locator);
    let n = indent.len() as int;
    let path = locator.path;
    let i2 = n + 12;
    let k = i2 + mt.len();
    assert(s.len() == n + 12 + mt.len() + 4);
    assert forall|j: int| 0 <= j < n implies #[trigger] s[j] == indent[j] by {}
    assert forall|j: int| 0 <= j < 12 implies #[trigger] s[n + j] == "<!-- snips: "@[j] by {}
    assert forall|j: int| 0 <= j < mt.len() implies #[trigger] s[i2 + j] == mt[j] by {}
    assert forall|j: int| 0 <= j < 4 implies #[trigger] s[k + j] == " -->"@[j] by {}
    assert(s[n] == '<' && s[n + 1] == '!' && s[n + 2] == '-' && s[n + 3] == '-' && s[n + 4] == ' ');
    assert(s[n + 5] == 's' && s[n + 6] == 'n' && s[n + 7] == 'i' && s[n + 8] == 'p' && s[n + 9]
        == 's' && s[n + 10] == ':' && s[n + 11] == ' ');
    assert(s[k] == ' ' && s[k + 1] == '-' && s[k + 2] == '-' && s[k + 3] == '>');
    assert(mt.len() >= path.len() && path.len() > 0);
    assert forall|j: int| 0 <= j < path.len() implies #[trigger] mt[j] == path[j] by {}
    assert(s[i2] == path[0]);
    assert(is_whitespace(' ') && !is_whitespace('<') && !is_whitespace('s') && !is_whitespace('>'));
    lemma_skip_whitespace_to(s, 0, n);
    assert(s.subrange(n, n + 11) == "<!-- snips:"@);
    assert(s.subrange(n, n + 4) == "<!--"@);
    lemma_skip_whitespace_to(s, n + 4, n + 5);
    assert(s.subrange(n + 5, n + 11) == "snips:"@);
    lemma_skip_whitespace_to(s, n + 11, n + 12);
    lemma_trim_end_to(s, s.len() as int, s.len() as int);
    let close = s.len() - 3;
    assert(close == k + 1);
    assert(s.subrange(close, close + 3) == "-->"@);
    assert(s[k - 1] == mt[mt.len() - 1]);
    match locator.name {
        None => {
            assert(mt == path);
            assert(!is_whitespace(s[k - 1]));
            lemma_trim_end_to(s, close, k);
            assert forall|j: int| i2 <= j < k implies #[trigger] s[j] != '#' && !is_whitespace(
                s[j],
            ) by {
                assert(s[j] == mt[j - i2]);
            }
            lemma_skip_path_to(s, i2, k, k);
            assert(s.subrange(0, n) == indent);
            assert(s.subrange(i2, k) == path);
        },
        Some(name) => {
            let h = i2 + path.len();
            assert(mt.len() == path.len() + 1 + name.len());
            assert(mt[path.len() as int] == '#');
            assert forall|j: int| 0 <= j < name.len() implies #[trigger] mt[path.len() + 1 + j]
                == name[j] by {}
            assert(s[k - 1] == name[name.len() - 1]);
            assert(is_id_char(name[name.len() - 1]));
            assert(!is_whitespace(s[k - 1]));
            lemma_trim_end_to(s, close, k);
            assert forall|j: int| i2 <= j < h implies #[trigger] s[j] != '#' && !is_whitespace(
                s[j],
            ) by {
                assert(s[j] == mt[j - i2]);
                assert(mt[j - i2] == path[j - i2]);
            }
            assert(s[h] == mt[path.len() as int]);
            lemma_skip_path_to(s, i2, k, h);
            assert forall|j: int| h + 1 <= j < k implies is_id_char(#[trigger] s[j]) by {
                assert(s[j] == mt[j - i2]);
                assert(mt[path.len() + 1 + (j - h - 1)] == name[j - h - 1]);
            }
            lemma_skip_id_at_least(s, h + 1, k);
            assert(s.subrange(0, n) == indent);
            assert(s.subrange(i2, h) == path);
            assert(s.subrange(h + 1, k) == name);
        },
    }
}

/// Whether a language hint can stand behind the backticks of an opening
/// fence without changing how the fence reads: it holds no line feed, does
/// not begin with a backtick and does not end with a carriage return.
pub open spec fn plain_hint(language: Option<Seq<char>>) -> bool {
    match language {
        Some(h) => one_line(h) && (h.len() == 0 || (h[0] != '`' && h.last() != '\r')),
        None => true,
    }
}

/// An opening fence written with a plain hint reads as three backticks.
pub proof fn lemma_written_fence_opens(indent: Seq<char>, language: Option<Seq<char>>)
    requires
        all_whitespace(indent),
        plain_hint(language),
    ensures
        fence_ticks(opening_fence(indent, language)) == 3,
{
    reveal_strlit("```");
    let s = opening_fence(indent, language);
    let n = indent.len() as int;
    assert forall|j: int| 0 <= j < n implies #[trigger] s[j] == indent[j] by {}
    assert(s[n] == '`' && s[n + 1] == '`' && s[n + 2] == '`');
    assert(!is_whitespace('`'));
    lemma_skip_whitespace_to(s, 0, n);
    match language {
        Some(h) => {
            if h.len() > 0 {
                assert(s[n + 3] == h[0]);
            }
        },
        None => {},
    }
    lemma_skip_ticks_to(s, n, n + 3);
}

/// A closing fence as it is written closes a fence of three backticks.
pub proof fn lemma_written_fence_closes(indent: Seq<char>)
    requires
        all_whitespace(indent),
    ensures
        is_closing_fence(closing_fence(indent), 3),
{
    reveal_strlit("```");
    let s = closing_fence(indent);
    let n = indent.len() as int;
    assert forall|j: int| 0 <= j < n implies #[trigger] s[j] == indent[j] by {}
    assert(s[n] == '`' && s[n + 1] == '`' && s[n + 2] == '`');
    assert(!is_whitespace('`'));
    lemma_skip_whitespace_to(s, 0, n);
    lemma_trim_end_to(s, s.len() as int, s.len() as int);
    assert(s.subrange(n, s.len() as int) =~= ticks(3));
}

/// No closing fence from `from` up to `to`, and one at `to` or the end
/// there: the search ends at `to`.
proof fn lemma_first_closing_fence_to(ls: Seq<Seq<char>>, n: int, from: int, to: int)
    requires
        0 <= from <= to <= ls.len(),
        forall|j: int| from <= j < to ==> !is_closing_fence(#[trigger] ls[j], n),
        to == ls.len() || is_closing_fence(ls[to], n),
    ensures
        first_closing_fence(ls, n, from) == to,
    decreases to - from,
{
    if from < to {
        lemma_first_closing_fence_to(ls, n, from + 1, to);
    }
}

/// Whether every text of `ls` is a single line.
pub open spec fn all_one_line(ls: Seq<Seq<char>>) -> bool {
    forall|k: int| 0 <= k < ls.len() ==> one_line(#[trigger] ls[k])
}

/// No line of a scan holds a line feed.
proof fn lemma_scan_one_line(s: Seq<char>, start: int, i: int)
    requires
        0 <= start <= i <= s.len(),
        forall|j: int| start <= j < i ==> s[j] != '\n',
    ensures
        all_one_line(lines_scan(s, start, i)),
    decreases s.len() - i,
{
    if i >= s.len() {
    } else if s[i] == '\n' {
        lemma_scan_one_line(s, i + 1, i + 1);
        let head = strip_cr(s.subrange(start, i));
        let rest = lines_scan(s, i + 1, i + 1);
        assert(one_line(head));
        assert forall|k: int| 0 <= k < (seq![head] + rest).len() implies one_line(
            #[trigger] (seq![head] + rest)[k],
        ) by {
            if k > 0 {
                assert((seq![head] + rest)[k] == rest[k - 1]);
            }
        }
    } else {
        lemma_scan_one_line(s, start, i + 1);
    }
}

/// No line of a text holds a line feed.
pub proof fn lemma_lines_one_line(s: Seq<char>)
    ensures
        all_one_line(lines(s)),
{
    lemma_scan_one_line(s, 0, 0);
}

/// Whether a segment is as a scan gives it: a line of text is a single line
/// and no marker line; a block has a well-formed marker and holds the content
/// that its marker resolves to.
pub open spec fn sound_segment(base: Seq<char>, sources: Seq<FileView>, seg: SegmentView) -> bool {
    match seg {
        SegmentView::Text(l) => one_line(l) && !is_marker_line(l),
        SegmentView::Snippet(b) => well_formed_marker(b.block.indent, b.block.locator)
            && one_line(b.block.indent) && resolved_block(base, sources, b.block) == Ok::<
            ResolvedView,
            ErrorView,
        >(b),
    }
}

/// Every segment of a scan is sound.
pub proof fn lemma_scan_is_sound(
    file: Seq<char>,
    base: Seq<char>,
    sources: Seq<FileView>,
    ls: Seq<Seq<char>>,
    i: int,
)
    requires
        all_one_line(ls),
        scan_from(file, base, sources, ls, i) is Ok,
    ensures
        forall|k: int|
            0 <= k < scan_from(file, base, sources, ls, i)->Ok_0.len() ==> sound_segment(
                base,
                sources,
                #[trigger] scan_from(file, base, sources, ls, i)->Ok_0[k],
            ),
    decreases ls.len() - i,
{
    if i < 0 || i >= ls.len() {
    } else if !is_marker_line(ls[i]) {
        lemma_scan_is_sound(file, base, sources, ls, i + 1);
        let rest = scan_from(file, base, sources, ls, i + 1)->Ok_0;
        let all = scan_from(file, base, sources, ls, i)->Ok_0;
        assert(all == seq![SegmentView::Text(ls[i])] + rest);
        assert forall|k: int| 0 <= k < all.len() implies sound_segment(base, sources, #[trigger] all[k]) by {
            if k > 0 {
                assert(all[k] == rest[k - 1]);
            }
        }
    } else {
        let (block, next) = parsed_block(file, ls, i)->Ok_0;
        let resolved = resolved_block(base, sources, block)->Ok_0;
        lemma_first_closing_fence_bounds(ls, fence_ticks(ls[i + 1]), i + 2);
        lemma_scan_is_sound(file, base, sources, ls, next);
        let rest = scan_from(file, base, sources, ls, next)->Ok_0;
        let all = scan_from(file, base, sources, ls, i)->Ok_0;
        assert(all == seq![SegmentView::Snippet(resolved)] + rest);
        law_parsed_marker_is_well_formed(ls[i]);
        lemma_skip_whitespace_run(ls[i], 0);
        assert(resolved.block == block);
        assert(one_line(block.indent)) by {
            let indent = block.indent;
            assert forall|j: int| 0 <= j < indent.len() implies indent[j] != '\n' by {
                assert(indent[j] == ls[i][j]);
            }
        }
        assert forall|k: int| 0 <= k < all.len() implies sound_segment(base, sources, #[trigger] all[k]) by {
            if k > 0 {
                assert(all[k] == rest[k - 1]);
            }
        }
    }
}

/// Whether a segment is written in a way that reads back as it was
/// written. A line of text must not end with a carriage return, which
/// would be taken for part of the line ending. A block needs a plain
/// language hint, and no line of its content may close its fence.
pub open spec fn stable_segment(seg: SegmentView) -> bool {
    match seg {
        SegmentView::Text(l) => l.len() == 0 || l.last() != '\r',
        SegmentView::Snippet(b) => plain_hint(b.language) && forall|k: int|
            0 <= k < lines(b.new_content + newline()).len() ==> !is_closing_fence(
                #[trigger] lines(b.new_content + newline())[k],
                3,
            ),
    }
}

/// Whether every segment is stable.
pub open spec fn all_stable(segs: Seq<SegmentView>) -> bool {
    forall|k: int| 0 <= k < segs.len() ==> stable_segment(#[trigger] segs[k])
}

/// Whether every segment is sound.
pub open spec fn all_sound(base: Seq<char>, sources: Seq<FileView>, segs: Seq<SegmentView>) -> bool {
    forall|k: int| 0 <= k < segs.len() ==> sound_segment(base, sources, #[trigger] segs[k])
}

/// The segment as a scan of its rendered form finds it: a block then holds
/// its current content as its old content.
pub open spec fn refreshed(seg: SegmentView) -> SegmentView {
    match seg {
        SegmentView::Text(l) => SegmentView::Text(l),
        SegmentView::Snippet(b) => SegmentView::Snippet(
            ResolvedView {
                block: BlockView {
                    indent: b.block.indent,
                    locator: b.block.locator,
                    old_content: join_with(lines(b.new_content + newline()), newline()),
                },
                new_content: b.new_content,
                language: b.language,
            },
        ),
    }
}

/// The lines that a segment is written as.
pub open spec fn segment_lines(seg: SegmentView) -> Seq<Seq<char>> {
    match seg {
        SegmentView::Text(l) => seq![l],
        SegmentView::Snippet(b) => seq![
            marker_line(b.block.indent, b.block.locator),
            opening_fence(b.block.indent, b.language),
        ] + lines(b.new_content + newline()) + seq![closing_fence(b.block.indent)],
    }
}

/// The lines that the segments are written as, in order.
pub open spec fn flat_lines(segs: Seq<SegmentView>) -> Seq<Seq<char>>
    decreases segs.len(),
{
    if segs.len() == 0 {
        Seq::empty()
    } else {
        flat_lines(segs.drop_last()) + segment_lines(segs.last())
    }
}

/// The lines of segments are those of the first and then those of the rest.
proof fn lemma_flat_front(segs: Seq<SegmentView>)
    requires
        segs.len() > 0,
    ensures
        flat_lines(segs) == segment_lines(segs.first()) + flat_lines(segs.drop_first()),
    decreases segs.len(),
{
    if segs.len() == 1 {
        assert(segs.drop_last() == Seq::<SegmentView>::empty());
        assert(segs.drop_first() == Seq::<SegmentView>::empty());
        assert(flat_lines(segs.drop_last()) == Seq::<Seq<char>>::empty());
        assert(flat_lines(segs.drop_first()) == Seq::<Seq<char>>::empty());
        assert(segs.first() == segs.last());
        assert(Seq::<Seq<char>>::empty() + segment_lines(segs.last()) == segment_lines(
            segs.first(),
        ) + Seq::<Seq<char>>::empty());
    } else {
        let dl = segs.drop_last();
        lemma_flat_front(dl);
        assert(dl.first() == segs.first());
        assert(dl.drop_first() == segs.drop_first().drop_last());
        assert(segs.drop_first().last() == segs.last());
        assert((segment_lines(segs.first()) + flat_lines(dl.drop_first())) + segment_lines(
            segs.last(),
        ) == segment_lines(segs.first()) + (flat_lines(segs.drop_first().drop_last())
            + segment_lines(segs.last())));
    }
}

/// Scanning the lines that sound and stable segments are written as finds
/// the same segments again, each refreshed.
pub proof fn lemma_rescan(
    file: Seq<char>,
    base: Seq<char>,
    sources: Seq<FileView>,
    ls: Seq<Seq<char>>,
    i: int,
    segs: Seq<SegmentView>,
)
    requires
        0 <= i <= ls.len(),
        ls.subrange(i, ls.len() as int) == flat_lines(segs),
        all_sound(base, sources, segs),
        all_stable(segs),
    ensures
        scan_from(file, base, sources, ls, i) == Ok::<Seq<SegmentView>, ErrorView>(
            segs.map_values(|seg: SegmentView| refreshed(seg)),
        ),
    decreases segs.len(),
{
    let fresh = segs.map_values(|seg: SegmentView| refreshed(seg));
    let tail = ls.subrange(i, ls.len() as int);
    if segs.len() == 0 {
        assert(tail.len() == 0);
        assert(fresh == Seq::<SegmentView>::empty());
    } else {
        let seg = segs.first();
        let rest = segs.drop_first();
        let sl = segment_lines(seg);
        lemma_flat_front(segs);
        assert(tail.len() == sl.len() + flat_lines(rest).len());
        assert forall|j: int| 0 <= j < sl.len() implies ls[i + j] == sl[j] by {
            assert(tail[j] == ls[i + j]);
            assert(tail[j] == sl[j]);
        }
        let next = i + sl.len();
        assert(ls.subrange(next, ls.len() as int) == flat_lines(rest)) by {
            assert forall|j: int| 0 <= j < flat_lines(rest).len() implies ls.subrange(
                next,
                ls.len() as int,
            )[j] == flat_lines(rest)[j] by {
                assert(tail[sl.len() + j] == ls[next + j]);
            }
            assert(ls.subrange(next, ls.len() as int) =~= flat_lines(rest));
        }
        assert(sound_segment(base, sources, segs[0]));
        assert(stable_segment(segs[0]));
        assert(all_sound(base, sources, rest)) by {
            assert forall|k: int| 0 <= k < rest.len() implies sound_segment(
                base,
                sources,
                #[trigger] rest[k],
            ) by {
                assert(rest[k] == segs[k + 1]);
            }
        }
        assert(all_stable(rest)) by {
            assert forall|k: int| 0 <= k < rest.len() implies stable_segment(#[trigger] rest[k]) by {
                assert(rest[k] == segs[k + 1]);
            }
        }
        lemma_rescan(file, base, sources, ls, next, rest);
        let fresh_rest = rest.map_values(|seg: SegmentView| refreshed(seg));
        assert(fresh == seq![refreshed(seg)] + fresh_rest);
        match seg {
            SegmentView::Text(l) => {
                assert(sl.len() == 1);
                assert(ls[i + 0] == sl[0]);
                assert(ls[i] == l);
            },
            SegmentView::Snippet(b) => {
                let indent = b.block.indent;
                let content_lines = lines(b.new_content + newline());
                let m = content_lines.len() as int;
                assert(sl.len() == m + 3);
                assert(ls[i + 0] == sl[0]);
                assert(ls[i + 1] == sl[1]);
                assert(ls[i] == marker_line(indent, b.block.locator));
                assert(ls[i + 1] == opening_fence(indent, b.language));
                assert(ls[i + (m + 2)] == sl[m + 2]);
                assert(ls[i + 2 + m] == closing_fence(indent));
                law_written_marker_parses_back(indent, b.block.locator);
                lemma_written_fence_opens(indent, b.language);
                lemma_written_fence_closes(indent);
                assert forall|j: int| i + 2 <= j < i + 2 + m implies !is_closing_fence(
                    #[trigger] ls[j],
                    3,
                ) by {
                    assert(ls[i + (j - i)] == sl[j - i]);
                    assert(sl[j - i] == content_lines[j - i - 2]);
                }
                lemma_first_closing_fence_to(ls, 3, i + 2, i + 2 + m);
                assert(ls.subrange(i + 2, i + 2 + m) == content_lines) by {
                    assert forall|j: int| 0 <= j < m implies ls.subrange(i + 2, i + 2 + m)[j]
                        == content_lines[j] by {
                        assert(ls[i + (j + 2)] == sl[j + 2]);
                    }
                    assert(ls.subrange(i + 2, i + 2 + m) =~= content_lines);
                }
                let found = parsed_block(file, ls, i);
                assert(found is Ok);
                assert(found->Ok_0.1 == next);
                let block = found->Ok_0.0;
                assert(block.indent == indent);
                assert(block.locator == b.block.locator);
                assert(block.old_content == join_with(content_lines, newline()));
                assert(resolved_block(base, sources, b.block) == Ok::<ResolvedView, ErrorView>(b));
                assert(resolved_block(base, sources, block) is Ok);
                assert(SegmentView::Snippet(resolved_block(base, sources, block)->Ok_0)
                    == refreshed(seg));
            },
        }
    }
}

/// The lines of pieces in a row are the lines of the first run and then
/// those of the second.
proof fn lemma_piece_lines_concat(a: Seq<Seq<char>>, b: Seq<Seq<char>>)
    ensures
        piece_lines(a + b) == piece_lines(a) + piece_lines(b),
    decreases b.len(),
{
    if b.len() == 0 {
        assert(a + b == a);
        assert(piece_lines(a) + Seq::<Seq<char>>::empty() == piece_lines(a));
    } else {
        lemma_piece_lines_concat(a, b.drop_last());
        assert((a + b).drop_last() == a + b.drop_last());
        assert((a + b).last() == b.last());
        let tail = lines(b.last() + newline());
        assert((piece_lines(a) + piece_lines(b.drop_last())) + tail == piece_lines(a) + (
            piece_lines(b.drop_last()) + tail));
    }
}

/// A piece that is a single line, with no carriage return at its end, is
/// its own only line.
proof fn lemma_piece_lines_one(p: Seq<char>)
    requires
        one_line(p),
        p.len() == 0 || p.last() != '\r',
    ensures
        piece_lines(seq![p]) == seq![p],
{
    lemma_lines_single(p);
    assert(seq![p].drop_last() == Seq::<Seq<char>>::empty());
    assert(piece_lines(seq![p].drop_last()) == Seq::<Seq<char>>::empty());
    assert(Seq::<Seq<char>>::empty() + seq![p] == seq![p]);
}

/// The lines of a single piece.
proof fn lemma_piece_lines_any(p: Seq<char>)
    ensures
        piece_lines(seq![p]) == lines(p + newline()),
{
    assert(seq![p].drop_last() == Seq::<Seq<char>>::empty());
    assert(piece_lines(seq![p].drop_last()) == Seq::<Seq<char>>::empty());
    assert(Seq::<Seq<char>>::empty() + lines(p + newline()) == lines(p + newline()));
}

/// The pieces of a sound and stable segment fall into the lines that the
/// segment is written as.
proof fn lemma_segment_pieces(base: Seq<char>, sources: Seq<FileView>, seg: SegmentView)
    requires
        sound_segment(base, sources, seg),
        stable_segment(seg),
    ensures
        piece_lines(
            match seg {
                SegmentView::Text(l) => seq![l],
                SegmentView::Snippet(b) => block_lines(b),
            },
        ) == segment_lines(seg),
{
    match seg {
        SegmentView::Text(l) => {
            lemma_piece_lines_one(l);
        },
        SegmentView::Snippet(b) => {
            reveal_strlit("<!-- snips: ");
            reveal_strlit(" -->");
            reveal_strlit("```");
            reveal_strlit("#");
            let indent = b.block.indent;
            let m = marker_line(indent, b.block.locator);
            let f = opening_fence(indent, b.language);
            let c = closing_fence(indent);
            let mt = marker_text(b.block.locator);
            assert('\n' as u32 == 0x0A);
            assert(is_whitespace('\n'));
            assert(!is_id_char('\n'));
            assert(one_line(mt)) by {
                let path = b.block.locator.path;
                match b.block.locator.name {
                    Some(n) => {
                        assert forall|j: int| 0 <= j < mt.len() implies mt[j] != '\n' by {
                            if j < path.len() {
                                assert(mt[j] == path[j]);
                            } else if j == path.len() {
                                assert(mt[j] == '#');
                            } else {
                                assert(mt[j] == n[j - path.len() - 1]);
                            }
                        }
                    },
                    None => {
                        assert forall|j: int| 0 <= j < mt.len() implies mt[j] != '\n' by {
                            assert(mt[j] == path[j]);
                        }
                    },
                }
            }
            assert(one_line(m)) by {
                assert forall|j: int| 0 <= j < m.len() implies m[j] != '\n' by {
                    let n = indent.len() as int;
                    if j < n {
                        assert(m[j] == indent[j]);
                    } else if j < n + 12 {
                        assert(m[j] == "<!-- snips: "@[j - n]);
                    } else if j < n + 12 + mt.len() {
                        assert(m[j] == mt[j - n - 12]);
                    } else {
                        assert(m[j] == " -->"@[j - n - 12 - mt.len()]);
                    }
                }
            }
            assert(m.last() == '>') by {
                assert(m[m.len() - 1] == " -->"@[3]);
            }
            assert(one_line(c) && c.last() == '`') by {
                let n = indent.len() as int;
                assert forall|j: int| 0 <= j < c.len() implies c[j] != '\n' by {
                    if j < n {
                        assert(c[j] == indent[j]);
                    } else {
                        assert(c[j] == "```"@[j - n]);
                    }
                }
                assert(c[c.len() - 1] == "```"@[2]);
            }
            assert(one_line(f) && f.last() != '\r') by {
                let n = indent.len() as int;
                match b.language {
                    Some(h) => {
                        assert forall|j: int| 0 <= j < f.len() implies f[j] != '\n' by {
                            if j < n {
                                assert(f[j] == indent[j]);
                            } else if j < n + 3 {
                                assert(f[j] == "```"@[j - n]);
                            } else {
                                assert(f[j] == h[j - n - 3]);
                            }
                        }
                        if h.len() > 0 {
                            assert(f[f.len() - 1] == h[h.len() - 1]);
                        } else {
                            assert(f[f.len() - 1] == "```"@[2]);
                        }
                    },
                    None => {
                        assert forall|j: int| 0 <= j < f.len() implies f[j] != '\n' by {
                            if j < n {
                                assert(f[j] == indent[j]);
                            } else {
                                assert(f[j] == "```"@[j - n]);
                            }
                        }
                        assert(f[f.len() - 1] == "```"@[2]);
                    },
                }
            }
            lemma_piece_lines_one(m);
            lemma_piece_lines_one(f);
            lemma_piece_lines_any(b.new_content);
            lemma_piece_lines_one(c);
            let content_lines = lines(b.new_content + newline());
            assert(block_lines(b) == ((seq![m] + seq![f]) + seq![b.new_content]) + seq![c]);
            lemma_piece_lines_concat(seq![m], seq![f]);
            lemma_piece_lines_concat(seq![m] + seq![f], seq![b.new_content]);
            lemma_piece_lines_concat((seq![m] + seq![f]) + seq![b.new_content], seq![c]);
            assert(seq![m] + seq![f] == seq![m, f]);
        },
    }
}

/// The pieces of sound and stable segments fall into the lines that the
/// segments are written as.
proof fn lemma_pieces_are_flat(base: Seq<char>, sources: Seq<FileView>, segs: Seq<SegmentView>)
    requires
        all_sound(base, sources, segs),
        all_stable(segs),
    ensures
        piece_lines(rendered_lines(segs)) == flat_lines(segs),
    decreases segs.len(),
{
    if segs.len() > 0 {
        let dl = segs.drop_last();
        assert(all_sound(base, sources, dl)) by {
            assert forall|k: int| 0 <= k < dl.len() implies sound_segment(
                base,
                sources,
                #[trigger] dl[k],
            ) by {
                assert(dl[k] == segs[k]);
            }
        }
        assert(all_stable(dl)) by {
            assert forall|k: int| 0 <= k < dl.len() implies stable_segment(#[trigger] dl[k]) by {
                assert(dl[k] == segs[k]);
            }
        }
        lemma_pieces_are_flat(base, sources, dl);
        assert(sound_segment(base, sources, segs[segs.len() - 1]));
        assert(stable_segment(segs[segs.len() - 1]));
        lemma_segment_pieces(base, sources, segs.last());
        let pieces = match segs.last() {
            SegmentView::Text(l) => seq![l],
            SegmentView::Snippet(b) => block_lines(b),
        };
        lemma_piece_lines_concat(rendered_lines(dl), pieces);
    }
}

/// Refreshed segments are written as the segments themselves.
proof fn lemma_refreshed_renders_alike(segs: Seq<SegmentView>)
    ensures
        rendered_lines(segs.map_values(|seg: SegmentView| refreshed(seg))) == rendered_lines(segs),
    decreases segs.len(),
{
    let fresh = segs.map_values(|seg: SegmentView| refreshed(seg));
    if segs.len() > 0 {
        lemma_refreshed_renders_alike(segs.drop_last());
        assert(fresh.drop_last() == segs.drop_last().map_values(|seg: SegmentView| refreshed(seg)));
        assert(fresh.last() == refreshed(segs.last()));
    }
}

/// The last line of a text that ends with no line feed is not empty and
/// ends as the text does.
proof fn lemma_scan_last_line(s: Seq<char>, start: int, i: int)
    requires
        s.len() > 0,
        s.last() != '\n',
        0 <= start <= i <= s.len(),
        start == 0 || s[start - 1] == '\n',
    ensures
        lines_scan(s, start, i).len() > 0,
        lines_scan(s, start, i).last().len() > 0,
        lines_scan(s, start, i).last().last() == s.last(),
    decreases s.len() - i,
{
    if i >= s.len() {
        assert(start < s.len());
        let line = s.subrange(start, s.len() as int);
        assert(line.last() == s.last());
    } else if s[i] == '\n' {
        lemma_scan_last_line(s, i + 1, i + 1);
        let head = seq![strip_cr(s.subrange(start, i))];
        let rest = lines_scan(s, i + 1, i + 1);
        assert((head + rest).last() == rest.last());
    } else {
        lemma_scan_last_line(s, start, i + 1);
    }
}

/// A text that is not empty has a line.
proof fn lemma_scan_some_line(s: Seq<char>, start: int, i: int)
    requires
        s.len() > 0,
        0 <= start <= i <= s.len(),
        i == s.len() ==> start < s.len(),
    ensures
        lines_scan(s, start, i).len() > 0,
    decreases s.len() - i,
{
    if i < s.len() && s[i] != '\n' {
        lemma_scan_some_line(s, start, i + 1);
    }
}

/// A line feed behind a text that ends neither with one nor with a
/// carriage return changes none of its lines.
proof fn lemma_scan_append_newline(x: Seq<char>, start: int, i: int)
    requires
        x.len() > 0,
        x.last() != '\n',
        x.last() != '\r',
        0 <= start <= i <= x.len(),
        start == 0 || x[start - 1] == '\n',
    ensures
        lines_scan(x + newline(), start, i) == lines_scan(x, start, i),
    decreases x.len() - i,
{
    let s = x + newline();
    if i == x.len() {
        assert(start < x.len());
        assert(s[i] == '\n');
        assert(s.subrange(start, i) == x.subrange(start, x.len() as int));
        assert(x.subrange(start, x.len() as int).last() == x.last());
        assert(lines_scan(s, i + 1, i + 1) == Seq::<Seq<char>>::empty());
        assert(seq![x.subrange(start, x.len() as int)] + Seq::<Seq<char>>::empty() == seq![
            x.subrange(start, x.len() as int),
        ]);
    } else {
        assert(s[i] == x[i]);
        if x[i] == '\n' {
            assert(s.subrange(start, i) == x.subrange(start, i));
            lemma_scan_append_newline(x, i + 1, i + 1);
        } else {
            lemma_scan_append_newline(x, start, i + 1);
        }
    }
}

/// Joined pieces end as the last piece does, if that is not empty.
proof fn lemma_join_last(ps: Seq<Seq<char>>)
    requires
        ps.len() > 0,
        ps.last().len() > 0,
    ensures
        join_with(ps, newline()).len() > 0,
        join_with(ps, newline()).last() == ps.last().last(),
{
    if ps.len() > 1 {
        let j = join_with(ps.drop_last(), newline()) + newline() + ps.last();
        assert(j[j.len() - 1] == ps.last()[ps.last().len() - 1]);
    }
}

/// The last piece of rendered segments is the last line of text, or the
/// closing fence of the last block.
proof fn lemma_rendered_last(segs: Seq<SegmentView>)
    requires
        segs.len() > 0,
    ensures
        rendered_lines(segs).len() > 0,
        rendered_lines(segs).last() == match segs.last() {
            SegmentView::Text(l) => l,
            SegmentView::Snippet(b) => closing_fence(b.block.indent),
        },
{
    let front = rendered_lines(segs.drop_last());
    match segs.last() {
        SegmentView::Text(l) => {
            assert((front + seq![l]).last() == l);
        },
        SegmentView::Snippet(b) => {
            assert((front + block_lines(b)).last() == block_lines(b)[3]);
        },
    }
}

/// A scan that ends in a line of text ends in the last of the lines.
proof fn lemma_scan_ends_in_last_line(
    file: Seq<char>,
    base: Seq<char>,
    sources: Seq<FileView>,
    ls: Seq<Seq<char>>,
    i: int,
)
    requires
        0 <= i < ls.len(),
        scan_from(file, base, sources, ls, i) is Ok,
    ensures
        scan_from(file, base, sources, ls, i)->Ok_0.len() > 0,
        match scan_from(file, base, sources, ls, i)->Ok_0.last() {
            SegmentView::Text(l) => l == ls.last(),
            SegmentView::Snippet(_) => true,
        },
    decreases ls.len() - i,
{
    let all = scan_from(file, base, sources, ls, i)->Ok_0;
    if !is_marker_line(ls[i]) {
        let rest = scan_from(file, base, sources, ls, i + 1)->Ok_0;
        assert(all == seq![SegmentView::Text(ls[i])] + rest);
        if i + 1 < ls.len() {
            lemma_scan_ends_in_last_line(file, base, sources, ls, i + 1);
            assert(all.last() == rest.last());
        } else {
            assert(rest.len() == 0);
            assert(all.last() == SegmentView::Text(ls[i]));
        }
    } else {
        let (block, next) = parsed_block(file, ls, i)->Ok_0;
        let resolved = resolved_block(base, sources, block)->Ok_0;
        lemma_first_closing_fence_bounds(ls, fence_ticks(ls[i + 1]), i + 2);
        let rest = scan_from(file, base, sources, ls, next)->Ok_0;
        assert(all == seq![SegmentView::Snippet(resolved)] + rest);
        if next < ls.len() {
            lemma_scan_ends_in_last_line(file, base, sources, ls, next);
            assert(all.last() == rest.last());
        } else {
            assert(rest.len() == 0);
            assert(all.last() == SegmentView::Snippet(resolved));
        }
    }
}

/// The rendered text of a document with stable segments falls into the
/// lines that its segments are written as, and a scan of it finds the
/// segments again, each refreshed.
proof fn lemma_rendered_text_rescans(
    content: Seq<char>,
    base: Seq<char>,
    file: Seq<char>,
    sources: Seq<FileView>,
)
    requires
        scanned(content, base, file, sources) is Ok,
        all_stable(scanned(content, base, file, sources)->Ok_0),
    ensures
        ({
            let segs = scanned(content, base, file, sources)->Ok_0;
            let text = rendered_text(content, segs);
            &&& scanned(text, base, file, sources) == Ok::<Seq<SegmentView>, ErrorView>(
                segs.map_values(|seg: SegmentView| refreshed(seg)),
            )
            &&& ends_with_newline(text) == ends_with_newline(content)
        }),
{
    let segs = scanned(content, base, file, sources)->Ok_0;
    let ls = lines(content);
    let pieces = rendered_lines(segs);
    let joined = join_with(pieces, newline());
    let text = rendered_text(content, segs);
    lemma_lines_one_line(content);
    lemma_scan_is_sound(file, base, sources, ls, 0);
    assert(all_sound(base, sources, segs));
    lemma_pieces_are_flat(base, sources, segs);
    if segs.len() == 0 {
        assert(pieces.len() == 0);
        assert(joined.len() == 0);
        if ends_with_newline(content) {
            lemma_scan_some_line(content, 0, 0);
            assert(false);
        }
        assert(text == Seq::<char>::empty());
        assert(lines(text) == flat_lines(segs));
        assert(!ends_with_newline(text));
    } else {
        lemma_rendered_last(segs);
        lemma_join_lines(pieces);
        if ends_with_newline(content) {
            assert(text == joined + newline());
            assert(text.last() == '\n');
        } else {
            assert(text == joined);
            assert(ls.len() > 0);
            lemma_scan_ends_in_last_line(file, base, sources, ls, 0);
            assert(sound_segment(base, sources, segs[segs.len() - 1]));
            assert(stable_segment(segs[segs.len() - 1]));
            match segs.last() {
                SegmentView::Text(l) => {
                    if content.len() > 0 {
                        lemma_scan_last_line(content, 0, 0);
                    }
                    assert(l.len() > 0);
                },
                SegmentView::Snippet(b) => {
                    reveal_strlit("```");
                    let c = closing_fence(b.block.indent);
                    assert(c[c.len() - 1] == "```"@[2]);
                },
            }
            lemma_join_last(pieces);
            lemma_scan_append_newline(joined, 0, 0);
        }
        assert(lines(text) == flat_lines(segs));
    }
    let again = lines(text);
    assert(again.subrange(0, again.len() as int) == again);
    lemma_rescan(file, base, sources, again, 0, segs);
}

/// A second pass makes no further changes.
///
/// Let a document render without error, and let every segment of it be
/// stable (see [`stable_segment`]). Then the rendered text renders to
/// itself: a pass over it succeeds, returns the very same text, and so
/// reports the document as not updated.
pub proof fn law_render_is_idempotent(
    content: Seq<char>,
    base: Seq<char>,
    file: Seq<char>,
    sources: Seq<FileView>,
)
    requires
        scanned(content, base, file, sources) is Ok,
        all_stable(scanned(content, base, file, sources)->Ok_0),
    ensures
        injection(content, base, file, sources) is Ok,
        injection(injection(content, base, file, sources)->Ok_0.0, base, file, sources) is Ok,
        injection(injection(content, base, file, sources)->Ok_0.0, base, file, sources)->Ok_0.0
            == injection(content, base, file, sources)->Ok_0.0,
        summary(injection(content, base, file, sources)->Ok_0.0, base, file, sources) is Ok,
        !summary(injection(content, base, file, sources)->Ok_0.0, base, file, sources)->Ok_0.updated,
{
    let segs = scanned(content, base, file, sources)->Ok_0;
    let text = rendered_text(content, segs);
    lemma_rendered_text_rescans(content, base, file, sources);
    lemma_refreshed_renders_alike(segs);
    let fresh = segs.map_values(|seg: SegmentView| refreshed(seg));
    assert(rendered_text(text, fresh) == text);
}

/// Whether the content of a block reads back from a document as it was
/// written there: it holds no carriage return that would be taken for part
/// of a line ending.
pub open spec fn reads_back(seg: SegmentView) -> bool {
    match seg {
        SegmentView::Text(_) => true,
        SegmentView::Snippet(b) => join_with(lines(b.new_content + newline()), newline())
            == b.new_content,
    }
}

/// Where no block is stale there are no diffs.
proof fn lemma_no_stale_no_diffs(segs: Seq<SegmentView>)
    requires
        forall|k: int|
            0 <= k < segs.len() ==> match #[trigger] segs[k] {
                SegmentView::Text(_) => true,
                SegmentView::Snippet(b) => !is_stale(b),
            },
    ensures
        diffs_of(segs).len() == 0,
    decreases segs.len(),
{
    if segs.len() > 0 {
        let dl = segs.drop_last();
        assert forall|k: int| 0 <= k < dl.len() implies match #[trigger] dl[k] {
            SegmentView::Text(_) => true,
            SegmentView::Snippet(b) => !is_stale(b),
        } by {
            assert(dl[k] == segs[k]);
        }
        lemma_no_stale_no_diffs(dl);
        assert(segs.last() == segs[segs.len() - 1]);
    }
}

/// A document that rendering leaves as it is has no diffs.
///
/// Let a document render without error, let every segment of it be stable
/// (see [`stable_segment`]) and read back as written (see [`reads_back`]).
/// If the rendering reports the document as not updated, its diff is empty.
///
/// The converse does not hold: a block that differs from its source only
/// in white space at its ends is no diff, yet rendering rewrites it.
pub proof fn law_unchanged_document_has_no_diffs(
    content: Seq<char>,
    base: Seq<char>,
    file: Seq<char>,
    sources: Seq<FileView>,
)
    requires
        scanned(content, base, file, sources) is Ok,
        all_stable(scanned(content, base, file, sources)->Ok_0),
        forall|k: int|
            0 <= k < scanned(content, base, file, sources)->Ok_0.len() ==> reads_back(
                #[trigger] scanned(content, base, file, sources)->Ok_0[k],
            ),
        !summary(content, base, file, sources)->Ok_0.updated,
    ensures
        diffs(content, base, file, sources) == Ok::<Seq<DiffView>, ErrorView>(Seq::empty()),
{
    let segs = scanned(content, base, file, sources)->Ok_0;
    let fresh = segs.map_values(|seg: SegmentView| refreshed(seg));
    lemma_rendered_text_rescans(content, base, file, sources);
    assert(rendered_text(content, segs) == content);
    assert(fresh == segs);
    assert forall|k: int| 0 <= k < segs.len() implies match #[trigger] segs[k] {
        SegmentView::Text(_) => true,
        SegmentView::Snippet(b) => !is_stale(b),
    } by {
        assert(fresh[k] == refreshed(segs[k]));
        assert(reads_back(segs[k]));
    }
    lemma_no_stale_no_diffs(segs);
    assert(diffs_of(segs) =~= Seq::<DiffView>::empty());
}

/// After rendering, diffing finds nothing.
///
/// Let a document render without error, let every segment of it be stable
/// (see [`stable_segment`]) and read back as written (see [`reads_back`]).
/// Then the diff of the rendered text is empty, as its rendering reports
/// no update (see [`law_render_is_idempotent`]).
pub proof fn law_rendered_document_has_no_diffs(
    content: Seq<char>,
    base: Seq<char>,
    file: Seq<char>,
    sources: Seq<FileView>,
)
    requires
        scanned(content, base, file, sources) is Ok,
        all_stable(scanned(content, base, file, sources)->Ok_0),
        forall|k: int|
            0 <= k < scanned(content, base, file, sources)->Ok_0.len() ==> reads_back(
                #[trigger] scanned(content, base, file, sources)->Ok_0[k],
            ),
    ensures
        diffs(injection(content, base, file, sources)->Ok_0.0, base, file, sources) == Ok::<
            Seq<DiffView>,
            ErrorView,
        >(Seq::empty()),
{
    let segs = scanned(content, base, file, sources)->Ok_0;
    let fresh = segs.map_values(|seg: SegmentView| refreshed(seg));
    lemma_rendered_text_rescans(content, base, file, sources);
    assert forall|k: int| 0 <= k < fresh.len() implies match #[trigger] fresh[k] {
        SegmentView::Text(_) => true,
        SegmentView::Snippet(b) => !is_stale(b),
    } by {
        assert(fresh[k] == refreshed(segs[k]));
        assert(reads_back(segs[k]));
    }
    lemma_no_stale_no_diffs(fresh);
    assert(diffs_of(fresh) =~= Seq::<DiffView>::empty());
}

/// No opening line from `from` up to `to`, and one at `to` or the end
/// there: the search ends at `to`.
proof fn lemma_first_opening_to(ls: Seq<Seq<char>>, name: Seq<char>, from: int, to: int)
    requires
        0 <= from <= to <= ls.len(),
        forall|j: int| from <= j < to ==> !opens(#[trigger] ls[j], name),
        to == ls.len() || opens(ls[to], name),
    ensures
        first_opening(ls, name, from) == to,
    decreases to - from,
{
    if from < to {
        lemma_first_opening_to(ls, name, from + 1, to);
    }
}

/// No closing line from `from` up to `to`, and one at `to` or the end
/// there: the search ends at `to`.
proof fn lemma_first_closing_to(ls: Seq<Seq<char>>, name: Seq<char>, from: int, to: int)
    requires
        0 <= from <= to <= ls.len(),
        forall|j: int| from <= j < to ==> !closes(#[trigger] ls[j], name),
        to == ls.len() || closes(ls[to], name),
    ensures
        first_closing(ls, name, from) == to,
    decreases to - from,
{
    if from < to {
        lemma_first_closing_to(ls, name, from + 1, to);
    }
}

/// A region that no line opens is reported as not found, with the name
/// that was asked for and the names that the file does declare.
pub proof fn law_region_not_found(content: Seq<char>, name: Seq<char>, file: Seq<char>)
    requires
        forall|i: int| 0 <= i < lines(content).len() ==> !opens(#[trigger] lines(content)[i], name),
    ensures
        extracted(content, name, file) == Err::<Seq<char>, ErrorView>(
            ErrorView::SnippetNotFound {
                file,
                snippet_name: name,
                available_snippets: available_text(declared_names(lines(content))),
            },
        ),
        declared_names(lines(content)).len() == 0 ==> available_text(
            declared_names(lines(content)),
        ) == "none"@,
{
    lemma_first_opening_to(lines(content), name, 0, lines(content).len() as int);
}

/// A region that is opened and never closed is reported as unterminated.
///
/// Let line `i` be the first that opens the region `name`, and let no line
/// after it close that region: none holds an end marker without a name, and
/// none an end marker with this name. Then the result is
/// `UnterminatedSnippet` with the file and the name, whatever end markers
/// for other regions follow.
pub proof fn law_unterminated_region(content: Seq<char>, name: Seq<char>, file: Seq<char>, i: int)
    requires
        0 <= i < lines(content).len(),
        opens(lines(content)[i], name),
        forall|j: int| 0 <= j < i ==> !opens(#[trigger] lines(content)[j], name),
        forall|j: int| i < j < lines(content).len() ==> !closes(#[trigger] lines(content)[j], name),
    ensures
        extracted(content, name, file) == Err::<Seq<char>, ErrorView>(
            ErrorView::UnterminatedSnippet(file, name),
        ),
{
    let ls = lines(content);
    lemma_first_opening_to(ls, name, 0, i);
    lemma_first_closing_to(ls, name, i + 1, ls.len() as int);
}

/// A region between its first opening line `i` and the next closing line
/// `j` is the lines between the two, joined by line feeds, with the common
/// indentation removed.
pub proof fn law_region_found(
    content: Seq<char>,
    name: Seq<char>,
    file: Seq<char>,
    i: int,
    j: int,
)
    requires
        0 <= i < j < lines(content).len(),
        opens(lines(content)[i], name),
        forall|k: int| 0 <= k < i ==> !opens(#[trigger] lines(content)[k], name),
        closes(lines(content)[j], name),
        forall|k: int| i < k < j ==> !closes(#[trigger] lines(content)[k], name),
    ensures
        extracted(content, name, file) == Ok::<Seq<char>, ErrorView>(
            dedented(join_with(lines(content).subrange(i + 1, j), newline())),
        ),
{
    let ls = lines(content);
    lemma_first_opening_to(ls, name, 0, i);
    lemma_first_closing_to(ls, name, i + 1, j);
}

/// A marker whose file is not among the sources is reported as
/// `FileNotFound`, with the marker's path as seen from the directory of the
/// document.
pub proof fn law_missing_source_file(base: Seq<char>, sources: Seq<FileView>, block: BlockView)
    requires
        source_text(sources, joined_path(base, block.locator.path)) is None,
    ensures
        resolved_block(base, sources, block) == Err::<ResolvedView, ErrorView>(
            ErrorView::FileNotFound(joined_path(base, block.locator.path)),
        ),
{
}

/// Indentation carries over from the marker to its block.
///
/// The marker line and both fences of a block begin with the marker's
/// indentation. With a non-empty indentation, the content is the lines of
/// the extracted text joined by line feeds, where a line that is not blank
/// has the indentation put before it, and a blank line is left exactly as
/// it is.
pub proof fn law_indentation_propagates(
    code: Seq<char>,
    indent: Seq<char>,
    locator: LocatorView,
    language: Option<Seq<char>>,
)
    ensures
        matches_at(marker_line(indent, locator), 0, indent),
        matches_at(opening_fence(indent, language), 0, indent),
        matches_at(closing_fence(indent), 0, indent),
        indent.len() > 0 ==> exists|out: Seq<Seq<char>>|
            {
                &&& indented(code, indent) == join_with(out, newline())
                &&& out.len() == lines(code).len()
                &&& forall|i: int|
                    0 <= i < out.len() ==> if is_blank(lines(code)[i]) {
                        #[trigger] out[i] == lines(code)[i]
                    } else {
                        out[i] == indent + lines(code)[i]
                    }
            },
{
    let m = marker_line(indent, locator);
    let f = opening_fence(indent, language);
    let c = closing_fence(indent);
    let n = indent.len() as int;
    assert(m.subrange(0, n) =~= indent);
    assert(f.subrange(0, n) =~= indent);
    assert(c.subrange(0, n) =~= indent);
    if indent.len() > 0 {
        let out = lines(code).map_values(|l: Seq<char>| indented_line(l, indent));
        assert(indented(code, indent) == join_with(out, newline()));
        assert(out.len() == lines(code).len());
        assert forall|i: int| 0 <= i < out.len() implies if is_blank(lines(code)[i]) {
            #[trigger] out[i] == lines(code)[i]
        } else {
            out[i] == indent + lines(code)[i]
        } by {}
    }
}

/// The number of reports that are marked as updated.
pub open spec fn count_updated(reports: Seq<ReportView>) -> nat
    decreases reports.len(),
{
    if reports.len() == 0 {
        0
    } else {
        count_updated(reports.drop_last()) + if reports.last().updated {
            1nat
        } else {
            0nat
        }
    }
}

/// There are as many diffs as reports of an update.
proof fn lemma_diffs_count(segs: Seq<SegmentView>)
    ensures
        diffs_of(segs).len() == count_updated(reports_of(segs)),
    decreases segs.len(),
{
    if segs.len() > 0 {
        lemma_diffs_count(segs.drop_last());
        let rest = reports_of(segs.drop_last());
        match segs.last() {
            SegmentView::Text(_) => {},
            SegmentView::Snippet(b) => {
                let r = ReportView { locator: b.block.locator, updated: is_stale(b) };
                assert(rest.push(r).drop_last() == rest);
            },
        }
    }
}

/// Rendering and diffing agree on every document: both fail with the same
/// error or both succeed, and then the diff holds exactly as many entries as
/// the rendering reports updated blocks.
pub proof fn law_render_diff_agreement(
    content: Seq<char>,
    base: Seq<char>,
    file: Seq<char>,
    sources: Seq<FileView>,
)
    ensures
        match (injection(content, base, file, sources), diffs(content, base, file, sources)) {
            (Ok(r), Ok(d)) => d.len() == count_updated(r.1),
            (Err(e), Err(f)) => e == f,
            _ => false,
        },
{
    match scanned(content, base, file, sources) {
        Ok(segs) => lemma_diffs_count(segs),
        Err(_) => {},
    }
}

} // verus!
