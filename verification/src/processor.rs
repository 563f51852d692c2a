//! Scanning a document for markers and re-rendering the fenced blocks that
//! follow them.

use crate::error::{ErrorView, SnipsError};
use crate::marker::{
    fence_ticks, is_marker_line, lemma_first_closing_fence_bounds, parse_snippet_block,
    parsed_block, starts_marker,
};
use crate::paths::{joined_path, parent_dir, parent_of, resolve_path};
use crate::snippet::{
    file_index, file_views, find_source, resolution, source_text, text_of, texts, FileView,
    SnippetRef, TextFile,
};
use crate::text::{
    is_blank, join_all, join_with, line_is_blank, lines, newline, newline_chars, push_all, push_str,
    same_chars, split_lines, to_chars, to_text, trim, trimmed, views,
};
use vstd::prelude::*;

verus! {

/// A difference between existing markdown content and the current snippet content.
#[derive(Debug, Clone, PartialEq, Eq)]
pub struct SnippetDiff {
    /// Snippet source path relative to the markdown file.
    pub path: String,
    /// Optional snippet name inside the source file.
    pub name: Option<String>,
    /// Content currently present in the markdown file.
    pub old_content: String,
    /// Fresh content read from the source file, indented as the marker is.
    pub new_content: String,
}

/// A snippet reference captured from a markdown file.
#[derive(Debug, Clone, PartialEq, Eq)]
pub struct SnippetLocator {
    /// Snippet source path relative to the markdown file.
    pub path: String,
    /// Optional snippet name inside the source file.
    pub name: Option<String>,
}

/// Per-snippet report for a rendered markdown file.
#[derive(Debug, Clone, PartialEq, Eq)]
pub struct SnippetReport {
    /// Snippet location details.
    pub locator: SnippetLocator,
    /// Whether this snippet's content changed during render.
    pub updated: bool,
}

/// Result of rendering snippets within a single markdown file.
#[derive(Debug, Clone, PartialEq, Eq)]
pub struct RenderSummary {
    /// Whether the file content changed during rendering.
    pub updated: bool,
    /// The rendered content when `updated` is `true`.
    pub rendered: Option<String>,
    /// Snippet references found while processing the file.
    pub snippets: Vec<SnippetReport>,
}

/// Parsed representation of a snippet marker and its fenced content.
#[derive(Debug, Clone, PartialEq, Eq)]
pub struct ParsedSnippet {
    /// Whitespace indentation preceding the marker.
    pub indent: String,
    /// Source information recovered from the marker line.
    pub locator: SnippetLocator,
    /// Snippet text currently found between the fences.
    pub old_content: String,
}

/// Result of injecting the latest snippet content back into markdown.
#[derive(Debug, Clone, PartialEq, Eq)]
pub struct InjectionResult {
    /// Final rendered markdown text.
    pub rendered: String,
    /// All snippet references encountered during rendering.
    pub snippets: Vec<SnippetReport>,
}

/// What a [`SnippetLocator`] holds.
pub struct LocatorView {
    pub path: Seq<char>,
    pub name: Option<Seq<char>>,
}

/// What a [`SnippetReport`] holds.
pub struct ReportView {
    pub locator: LocatorView,
    pub updated: bool,
}

/// What a [`SnippetDiff`] holds.
pub struct DiffView {
    pub path: Seq<char>,
    pub name: Option<Seq<char>>,
    pub old_content: Seq<char>,
    pub new_content: Seq<char>,
}

/// What a [`ParsedSnippet`] holds.
pub struct BlockView {
    pub indent: Seq<char>,
    pub locator: LocatorView,
    pub old_content: Seq<char>,
}

impl View for SnippetLocator {
    type V = LocatorView;

    open spec fn view(&self) -> LocatorView {
        LocatorView { path: self.path@, name: text_of(self.name) }
    }
}

impl View for SnippetReport {
    type V = ReportView;

    open spec fn view(&self) -> ReportView {
        ReportView { locator: self.locator@, updated: self.updated }
    }
}

impl View for SnippetDiff {
    type V = DiffView;

    open spec fn view(&self) -> DiffView {
        DiffView {
            path: self.path@,
            name: text_of(self.name),
            old_content: self.old_content@,
            new_content: self.new_content@,
        }
    }
}

impl View for ParsedSnippet {
    type V = BlockView;

    open spec fn view(&self) -> BlockView {
        BlockView {
            indent: self.indent@,
            locator: self.locator@,
            old_content: self.old_content@,
        }
    }
}

/// A locator in marker form: the path, and `#` and the name where there is one.
pub open spec fn marker_text(l: LocatorView) -> Seq<char> {
    match l.name {
        Some(n) => l.path + "#"@ + n,
        None => l.path,
    }
}

impl SnippetLocator {
    /// Render the locator in marker form (e.g., `path/to/file#name`).
    pub fn marker(&self) -> (s: String)
        ensures
            s@ == marker_text(self@),
    {
        match &self.name {
            Some(name) => {
                let mut out = to_chars(self.path.as_str());
                push_str(&mut out, "#");
                push_str(&mut out, name.as_str());
                to_text(&out)
            },
            None => self.path.clone(),
        }
    }
}

/// `line` as it stands in an indented block: unchanged when it is blank,
/// else with `indent` before it.
pub open spec fn indented_line(line: Seq<char>, indent: Seq<char>) -> Seq<char> {
    if is_blank(line) {
        line
    } else {
        indent + line
    }
}

/// `content` with `indent` before each of its lines that is not blank. With
/// an empty `indent` it is `content` itself.
pub open spec fn indented(content: Seq<char>, indent: Seq<char>) -> Seq<char> {
    if indent.len() == 0 {
        content
    } else {
        join_with(lines(content).map_values(|l: Seq<char>| indented_line(l, indent)), newline())
    }
}

/// Applies indentation to every non-blank line in `content`.
pub fn apply_indentation(content: &str, indent: &str) -> (r: String)
    ensures
        r@ == indented(content@, indent@),
{
    let ind = to_chars(indent);
    if ind.len() == 0 {
        return String::from_str(content);
    }
    let ls = split_lines(&to_chars(content));
    let mut out: Vec<Vec<char>> = Vec::new();
    let mut i: usize = 0;
    while i < ls.len()
        invariant
            i <= ls.len(),
            ind@ == indent@,
            views(out@) == views(ls@).take(i as int).map_values(
                |l: Seq<char>| indented_line(l, indent@),
            ),
        decreases ls.len() - i,
    {
        let mut line: Vec<char> = Vec::new();
        if !line_is_blank(&ls[i]) {
            push_all(&mut line, &ind);
        }
        push_all(&mut line, &ls[i]);
        proof {
            let ghost before = out@;
            assert(views(before.push(line)) == views(before).push(line@));
            assert(views(ls@).take(i + 1).map_values(|l: Seq<char>| indented_line(l, indent@))
                == views(ls@).take(i as int).map_values(
                |l: Seq<char>| indented_line(l, indent@),
            ).push(indented_line(ls@[i as int]@, indent@)));
        }
        out.push(line);
        i += 1;
    }
    assert(views(ls@).take(ls.len() as int) == views(ls@));
    let sep = newline_chars();
    to_text(&join_all(&out, &sep))
}

/// A marker of a document with its block, resolved against the sources.
#[derive(Debug, Clone, PartialEq, Eq)]
pub struct ResolvedSnippet {
    /// The marker and the block as they stand in the document.
    pub parsed: ParsedSnippet,
    /// The current content of the snippet, indented as the marker is.
    pub new_content: String,
    /// The language hint for the opening fence, if there is one.
    pub language: Option<String>,
}

/// A piece of a scanned document.
#[derive(Debug, Clone, PartialEq, Eq)]
pub enum Segment {
    /// A line that belongs to no block.
    Text(String),
    /// A marker with the fenced block after it.
    Snippet(ResolvedSnippet),
}

/// What a [`ResolvedSnippet`] holds.
pub struct ResolvedView {
    pub block: BlockView,
    pub new_content: Seq<char>,
    pub language: Option<Seq<char>>,
}

/// What a [`Segment`] holds.
pub enum SegmentView {
    Text(Seq<char>),
    Snippet(ResolvedView),
}

/// What a [`RenderSummary`] holds.
pub struct SummaryView {
    pub updated: bool,
    pub rendered: Option<Seq<char>>,
    pub snippets: Seq<ReportView>,
}

impl View for ResolvedSnippet {
    type V = ResolvedView;

    open spec fn view(&self) -> ResolvedView {
        ResolvedView {
            block: self.parsed@,
            new_content: self.new_content@,
            language: text_of(self.language),
        }
    }
}

impl View for Segment {
    type V = SegmentView;

    open spec fn view(&self) -> SegmentView {
        match self {
            Segment::Text(l) => SegmentView::Text(l@),
            Segment::Snippet(b) => SegmentView::Snippet(b@),
        }
    }
}

/// What a sequence of reports holds.
pub open spec fn report_views(v: Seq<SnippetReport>) -> Seq<ReportView> {
    v.map_values(|r: SnippetReport| r@)
}

/// What a sequence of diffs holds.
pub open spec fn diff_views(v: Seq<SnippetDiff>) -> Seq<DiffView> {
    v.map_values(|d: SnippetDiff| d@)
}

/// What a sequence of segments holds.
pub open spec fn segment_views(v: Seq<Segment>) -> Seq<SegmentView> {
    v.map_values(|s: Segment| s@)
}

impl View for RenderSummary {
    type V = SummaryView;

    open spec fn view(&self) -> SummaryView {
        SummaryView {
            updated: self.updated,
            rendered: text_of(self.rendered),
            snippets: report_views(self.snippets@),
        }
    }
}

/// The block `block` of a document in the directory `base`, resolved against
/// `sources`: the marker's path is taken relative to `base`, and the content
/// found there is indented as the marker is.
pub open spec fn resolved_block(base: Seq<char>, sources: Seq<FileView>, block: BlockView) -> Result<
    ResolvedView,
    ErrorView,
> {
    match resolution(sources, joined_path(base, block.locator.path), block.locator.name) {
        Ok((code, language)) => Ok(
            ResolvedView { block, new_content: indented(code, block.indent), language },
        ),
        Err(e) => Err(e),
    }
}

/// `seg` followed by the segments of `rest`, or the error of `rest`.
pub open spec fn prepend(seg: SegmentView, rest: Result<Seq<SegmentView>, ErrorView>) -> Result<
    Seq<SegmentView>,
    ErrorView,
> {
    match rest {
        Ok(r) => Ok(seq![seg] + r),
        Err(e) => Err(e),
    }
}

/// The segments of the lines `ls` from line `i` on, or the first error that
/// the scan meets. A line that is no marker line is a segment of text. A
/// marker line opens a block, which must parse and resolve; the scan goes on
/// behind the block.
pub open spec fn scan_from(
    file: Seq<char>,
    base: Seq<char>,
    sources: Seq<FileView>,
    ls: Seq<Seq<char>>,
    i: int,
) -> Result<Seq<SegmentView>, ErrorView>
    decreases ls.len() - i,
{
    if i < 0 || i >= ls.len() {
        Ok(Seq::empty())
    } else if !is_marker_line(ls[i]) {
        prepend(SegmentView::Text(ls[i]), scan_from(file, base, sources, ls, i + 1))
    } else {
        match parsed_block(file, ls, i) {
            Err(e) => Err(e),
            Ok((block, next)) => match resolved_block(base, sources, block) {
                Err(e) => Err(e),
                Ok(resolved) => {
                    proof {
                        lemma_first_closing_fence_bounds(ls, fence_ticks(ls[i + 1]), i + 2);
                    }
                    prepend(
                        SegmentView::Snippet(resolved),
                        scan_from(file, base, sources, ls, next),
                    )
                },
            },
        }
    }
}

/// The segments of the document `file` with the text `content`, which lies
/// in the directory `base`.
pub open spec fn scanned(
    content: Seq<char>,
    base: Seq<char>,
    file: Seq<char>,
    sources: Seq<FileView>,
) -> Result<Seq<SegmentView>, ErrorView> {
    scan_from(file, base, sources, lines(content), 0)
}

/// The marker line that is written for a block.
pub open spec fn marker_line(indent: Seq<char>, locator: LocatorView) -> Seq<char> {
    indent + "<!-- snips: "@ + marker_text(locator) + " -->"@
}

/// The line that opens the fence of a block.
pub open spec fn opening_fence(indent: Seq<char>, language: Option<Seq<char>>) -> Seq<char> {
    match language {
        Some(hint) => indent + "```"@ + hint,
        None => indent + "```"@,
    }
}

/// The line that closes the fence of a block.
pub open spec fn closing_fence(indent: Seq<char>) -> Seq<char> {
    indent + "```"@
}

/// The four pieces that a block is written as: the marker, the opening
/// fence, the content, and the closing fence.
pub open spec fn block_lines(b: ResolvedView) -> Seq<Seq<char>> {
    seq![
        marker_line(b.block.indent, b.block.locator),
        opening_fence(b.block.indent, b.language),
        b.new_content,
        closing_fence(b.block.indent),
    ]
}

/// The pieces that the segments are written as, in order.
pub open spec fn rendered_lines(segs: Seq<SegmentView>) -> Seq<Seq<char>>
    decreases segs.len(),
{
    if segs.len() == 0 {
        Seq::empty()
    } else {
        rendered_lines(segs.drop_last()) + match segs.last() {
            SegmentView::Text(l) => seq![l],
            SegmentView::Snippet(b) => block_lines(b),
        }
    }
}

/// Whether `content` ends with a line feed.
pub open spec fn ends_with_newline(content: Seq<char>) -> bool {
    content.len() > 0 && content.last() == '\n'
}

/// The text that the segments of a document with the text `content` are
/// written as: the pieces joined by line feeds, with a line feed at the end
/// if and only if `content` ends with one.
pub open spec fn rendered_text(content: Seq<char>, segs: Seq<SegmentView>) -> Seq<char> {
    join_with(rendered_lines(segs), newline()) + if ends_with_newline(content) {
        newline()
    } else {
        Seq::empty()
    }
}

/// Whether the block's content in the document differs from its current
/// content, white space at either end of each aside.
pub open spec fn is_stale(b: ResolvedView) -> bool {
    trim(b.block.old_content) != trim(b.new_content)
}

/// The reports of the blocks among the segments, in order.
pub open spec fn reports_of(segs: Seq<SegmentView>) -> Seq<ReportView>
    decreases segs.len(),
{
    if segs.len() == 0 {
        Seq::empty()
    } else {
        let rest = reports_of(segs.drop_last());
        match segs.last() {
            SegmentView::Text(_) => rest,
            SegmentView::Snippet(b) => rest.push(
                ReportView { locator: b.block.locator, updated: is_stale(b) },
            ),
        }
    }
}

/// The diffs of the stale blocks among the segments, in order.
pub open spec fn diffs_of(segs: Seq<SegmentView>) -> Seq<DiffView>
    decreases segs.len(),
{
    if segs.len() == 0 {
        Seq::empty()
    } else {
        let rest = diffs_of(segs.drop_last());
        match segs.last() {
            SegmentView::Snippet(b) if is_stale(b) => rest.push(
                DiffView {
                    path: b.block.locator.path,
                    name: b.block.locator.name,
                    old_content: b.block.old_content,
                    new_content: b.new_content,
                },
            ),
            _ => rest,
        }
    }
}

/// The rendered text and the reports of a document.
pub open spec fn injection(
    content: Seq<char>,
    base: Seq<char>,
    file: Seq<char>,
    sources: Seq<FileView>,
) -> Result<(Seq<char>, Seq<ReportView>), ErrorView> {
    match scanned(content, base, file, sources) {
        Ok(segs) => Ok((rendered_text(content, segs), reports_of(segs))),
        Err(e) => Err(e),
    }
}

/// The diffs of a document.
pub open spec fn diffs(
    content: Seq<char>,
    base: Seq<char>,
    file: Seq<char>,
    sources: Seq<FileView>,
) -> Result<Seq<DiffView>, ErrorView> {
    match scanned(content, base, file, sources) {
        Ok(segs) => Ok(diffs_of(segs)),
        Err(e) => Err(e),
    }
}

/// The summary of rendering a document: it is updated if and only if the
/// rendered text differs from `content`, and only then holds the text.
pub open spec fn summary(
    content: Seq<char>,
    base: Seq<char>,
    file: Seq<char>,
    sources: Seq<FileView>,
) -> Result<SummaryView, ErrorView> {
    match injection(content, base, file, sources) {
        Ok((text, reports)) => Ok(
            SummaryView {
                updated: text != content,
                rendered: if text != content {
                    Some(text)
                } else {
                    None
                },
                snippets: reports,
            },
        ),
        Err(e) => Err(e),
    }
}

/// The segments `acc` followed by those of `rest`, or the error of `rest`.
pub open spec fn prepend_all(acc: Seq<SegmentView>, rest: Result<Seq<SegmentView>, ErrorView>) -> Result<
    Seq<SegmentView>,
    ErrorView,
> {
    match rest {
        Ok(r) => Ok(acc + r),
        Err(e) => Err(e),
    }
}

/// To put a segment before the rest and the found ones before that is to
/// put the found ones with the segment before the rest.
proof fn lemma_prepend_push(
    acc: Seq<SegmentView>,
    seg: SegmentView,
    rest: Result<Seq<SegmentView>, ErrorView>,
)
    ensures
        prepend_all(acc, prepend(seg, rest)) == prepend_all(acc.push(seg), rest),
{
    match rest {
        Ok(r) => {
            assert(acc + (seq![seg] + r) == acc.push(seg) + r);
        },
        Err(_) => {},
    }
}

/// Whether scanned segments agree with their model.
pub open spec fn segments_are(
    r: Result<Vec<Segment>, SnipsError>,
    m: Result<Seq<SegmentView>, ErrorView>,
) -> bool {
    match (r, m) {
        (Ok(v), Ok(s)) => segment_views(v@) == s,
        (Err(e), Err(f)) => e@ == f,
        _ => false,
    }
}

/// Resolves a parsed block of a document in the directory `base`.
pub fn resolve_block(base: &str, sources: &Vec<TextFile>, parsed: ParsedSnippet) -> (r: Result<
    ResolvedSnippet,
    SnipsError,
>)
    ensures
        match (r, resolved_block(base@, file_views(sources@), parsed@)) {
            (Ok(b), Ok(m)) => b@ == m,
            (Err(e), Err(f)) => e@ == f,
            _ => false,
        },
{
    let target = to_text(&resolve_path(base, parsed.locator.path.as_str()));
    let name = match &parsed.locator.name {
        Some(n) => Some(n.clone()),
        None => None,
    };
    let snippet = SnippetRef { path: target, name };
    match snippet.resolve(sources) {
        Ok((code, language)) => {
            let new_content = apply_indentation(code.as_str(), parsed.indent.as_str());
            Ok(ResolvedSnippet { parsed, new_content, language })
        },
        Err(e) => Err(e),
    }
}

/// Scans the document `file_path` with the text `content`, which lies in the
/// directory `base`: every marker is parsed with its block and resolved
/// against `sources`. The first marker that fails ends the scan with its
/// error.
pub fn scan_document(content: &str, base: &str, file_path: &str, sources: &Vec<TextFile>) -> (r:
    Result<Vec<Segment>, SnipsError>)
    ensures
        segments_are(r, scanned(content@, base@, file_path@, file_views(sources@))),
{
    let ls = split_lines(&to_chars(content));
    let mut segs: Vec<Segment> = Vec::new();
    let mut i: usize = 0;
    while i < ls.len()
        invariant
            i <= ls.len(),
            views(ls@) == lines(content@),
            scanned(content@, base@, file_path@, file_views(sources@)) == prepend_all(
                segment_views(segs@),
                scan_from(file_path@, base@, file_views(sources@), views(ls@), i as int),
            ),
        decreases ls.len() - i,
    {
        let ghost before = segs@;
        let ghost here = scan_from(file_path@, base@, file_views(sources@), views(ls@), i as int);
        if starts_marker(&ls[i]) {
            let (parsed, next) = match parse_snippet_block(file_path, &ls, i) {
                Ok(found) => found,
                Err(e) => {
                    return Err(e);
                },
            };
            let resolved = match resolve_block(base, sources, parsed) {
                Ok(b) => b,
                Err(e) => {
                    return Err(e);
                },
            };
            let seg = Segment::Snippet(resolved);
            proof {
                lemma_prepend_push(
                    segment_views(before),
                    seg@,
                    scan_from(file_path@, base@, file_views(sources@), views(ls@), next as int),
                );
                assert(segment_views(before.push(seg)) == segment_views(before).push(seg@));
            }
            segs.push(seg);
            i = next;
        } else {
            let seg = Segment::Text(to_text(&ls[i]));
            proof {
                lemma_prepend_push(
                    segment_views(before),
                    seg@,
                    scan_from(file_path@, base@, file_views(sources@), views(ls@), i + 1),
                );
                assert(segment_views(before.push(seg)) == segment_views(before).push(seg@));
            }
            segs.push(seg);
            i += 1;
        }
    }
    assert(segment_views(segs@) + Seq::<SegmentView>::empty() == segment_views(segs@));
    Ok(segs)
}

/// Whether the two texts differ once the white space at their ends is cut off.
pub fn differs_trimmed(old: &str, new: &str) -> (b: bool)
    ensures
        b == (trim(old@) != trim(new@)),
{
    let a = trimmed(&to_chars(old));
    let b = trimmed(&to_chars(new));
    !same_chars(&a, &b)
}

/// A copy of `l`.
fn copy_locator(l: &SnippetLocator) -> (r: SnippetLocator)
    ensures
        r@ == l@,
{
    let name = match &l.name {
        Some(n) => Some(n.clone()),
        None => None,
    };
    SnippetLocator { path: l.path.clone(), name }
}

/// Writes the pieces of a block to `out`.
fn push_block(out: &mut Vec<Vec<char>>, b: &ResolvedSnippet)
    ensures
        views(final(out)@) == views(old(out)@) + block_lines(b@),
{
    let ghost before = out@;
    let mut marker = to_chars(b.parsed.indent.as_str());
    push_str(&mut marker, "<!-- snips: ");
    push_str(&mut marker, b.parsed.locator.marker().as_str());
    push_str(&mut marker, " -->");
    let mut opening = to_chars(b.parsed.indent.as_str());
    push_str(&mut opening, "```");
    match &b.language {
        Some(hint) => {
            push_str(&mut opening, hint.as_str());
        },
        None => {},
    }
    let content = to_chars(b.new_content.as_str());
    let mut closing = to_chars(b.parsed.indent.as_str());
    push_str(&mut closing, "```");
    out.push(marker);
    out.push(opening);
    out.push(content);
    out.push(closing);
    assert(views(out@) =~= views(before) + block_lines(b@));
}

/// Whether an injection result agrees with its model.
pub open spec fn injection_is(
    r: Result<InjectionResult, SnipsError>,
    m: Result<(Seq<char>, Seq<ReportView>), ErrorView>,
) -> bool {
    match (r, m) {
        (Ok(v), Ok(s)) => v.rendered@ == s.0 && report_views(v.snippets@) == s.1,
        (Err(e), Err(f)) => e@ == f,
        _ => false,
    }
}

/// Replaces every snippet marker in `content` with the latest snippet text.
///
/// `content` is the text of the document `file_path`, which lies in the
/// directory `base`; the files that its markers name are looked up among
/// `sources`. Each block is written anew: its marker in normal form, the
/// opening fence with the language hint, the current content indented as the
/// marker is, and the closing fence. All other lines stay as they are. The
/// result also reports, for each marker, whether its block was stale.
pub fn inject_snippet_content(
    content: &str,
    base: &str,
    file_path: &str,
    sources: &Vec<TextFile>,
) -> (r: Result<InjectionResult, SnipsError>)
    ensures
        injection_is(r, injection(content@, base@, file_path@, file_views(sources@))),
{
    let segs = match scan_document(content, base, file_path, sources) {
        Ok(segs) => segs,
        Err(e) => {
            return Err(e);
        },
    };
    let mut out: Vec<Vec<char>> = Vec::new();
    let mut snippets: Vec<SnippetReport> = Vec::new();
    let mut i: usize = 0;
    while i < segs.len()
        invariant
            i <= segs.len(),
            views(out@) == rendered_lines(segment_views(segs@).take(i as int)),
            report_views(snippets@) == reports_of(segment_views(segs@).take(i as int)),
        decreases segs.len() - i,
    {
        proof {
            let next = segment_views(segs@).take(i + 1);
            assert(next.drop_last() == segment_views(segs@).take(i as int));
            assert(next.last() == segs@[i as int]@);
        }
        match &segs[i] {
            Segment::Text(line) => {
                let l = to_chars(line.as_str());
                proof {
                    let ghost before = out@;
                    assert(views(before.push(l)) == views(before) + seq![l@]);
                }
                out.push(l);
            },
            Segment::Snippet(b) => {
                push_block(&mut out, b);
                let report = SnippetReport {
                    locator: copy_locator(&b.parsed.locator),
                    updated: differs_trimmed(b.parsed.old_content.as_str(), b.new_content.as_str()),
                };
                proof {
                    let ghost before = snippets@;
                    assert(report_views(before.push(report)) == report_views(before).push(
                        report@,
                    ));
                }
                snippets.push(report);
            },
        }
        i += 1;
    }
    assert(segment_views(segs@).take(segs.len() as int) == segment_views(segs@));
    let sep = newline_chars();
    let mut text = join_all(&out, &sep);
    let chars = to_chars(content);
    if chars.len() > 0 && chars[chars.len() - 1] == '\n' {
        text.push('\n');
        assert(text@ == join_with(views(out@), newline()) + newline());
    } else {
        assert(text@ == join_with(views(out@), newline()) + Seq::<char>::empty());
    }
    Ok(InjectionResult { rendered: to_text(&text), snippets })
}

/// Whether computed diffs agree with their model.
pub open spec fn diffs_are(
    r: Result<Vec<SnippetDiff>, SnipsError>,
    m: Result<Seq<DiffView>, ErrorView>,
) -> bool {
    match (r, m) {
        (Ok(v), Ok(s)) => diff_views(v@) == s,
        (Err(e), Err(f)) => e@ == f,
        _ => false,
    }
}

/// Scans markdown content for snippet markers and computes diffs against the
/// source files.
///
/// The document is scanned exactly as [`inject_snippet_content`] scans it,
/// and fails as it fails. The result holds one entry for each stale block, in
/// the order of the markers.
pub fn compute_diffs(content: &str, base: &str, file_path: &str, sources: &Vec<TextFile>) -> (r:
    Result<Vec<SnippetDiff>, SnipsError>)
    ensures
        diffs_are(r, diffs(content@, base@, file_path@, file_views(sources@))),
{
    let segs = match scan_document(content, base, file_path, sources) {
        Ok(segs) => segs,
        Err(e) => {
            return Err(e);
        },
    };
    let mut found: Vec<SnippetDiff> = Vec::new();
    let mut i: usize = 0;
    while i < segs.len()
        invariant
            i <= segs.len(),
            diff_views(found@) == diffs_of(segment_views(segs@).take(i as int)),
        decreases segs.len() - i,
    {
        proof {
            let next = segment_views(segs@).take(i + 1);
            assert(next.drop_last() == segment_views(segs@).take(i as int));
            assert(next.last() == segs@[i as int]@);
        }
        match &segs[i] {
            Segment::Text(_) => {},
            Segment::Snippet(b) => {
                if differs_trimmed(b.parsed.old_content.as_str(), b.new_content.as_str()) {
                    let locator = copy_locator(&b.parsed.locator);
                    let diff = SnippetDiff {
                        path: locator.path,
                        name: locator.name,
                        old_content: b.parsed.old_content.clone(),
                        new_content: b.new_content.clone(),
                    };
                    proof {
                        let ghost before = found@;
                        assert(diff_views(before.push(diff)) == diff_views(before).push(diff@));
                    }
                    found.push(diff);
                }
            },
        }
        i += 1;
    }
    assert(segment_views(segs@).take(segs.len() as int) == segment_views(segs@));
    Ok(found)
}

/// The paths of the source files that the blocks of the lines `ls` from
/// line `i` on name, each resolved against `base`, in order. The list ends
/// before the first marker whose block does not parse.
pub open spec fn targets_from(file: Seq<char>, base: Seq<char>, ls: Seq<Seq<char>>, i: int) -> Seq<
    Seq<char>,
>
    decreases ls.len() - i,
{
    if i < 0 || i >= ls.len() {
        Seq::empty()
    } else if !is_marker_line(ls[i]) {
        targets_from(file, base, ls, i + 1)
    } else {
        match parsed_block(file, ls, i) {
            Err(_) => Seq::empty(),
            Ok((block, next)) => {
                proof {
                    lemma_first_closing_fence_bounds(ls, fence_ticks(ls[i + 1]), i + 2);
                }
                seq![joined_path(base, block.locator.path)] + targets_from(file, base, ls, next)
            },
        }
    }
}

/// Lists the source files that the document `path` with the text `content`
/// names in its markers, each as the path that the marker resolves to from
/// the document's directory. These are the files that processing the
/// document looks up.
pub fn referenced_paths(path: &str, content: &str) -> (r: Vec<String>)
    ensures
        texts(r@) == targets_from(path@, parent_dir(path@), lines(content@), 0),
{
    let base = parent_of(path);
    let ls = split_lines(&to_chars(content));
    let mut found: Vec<String> = Vec::new();
    let mut i: usize = 0;
    while i < ls.len()
        invariant
            i <= ls.len(),
            base@ == parent_dir(path@),
            views(ls@) == lines(content@),
            targets_from(path@, base@, views(ls@), 0) == texts(found@) + targets_from(
                path@,
                base@,
                views(ls@),
                i as int,
            ),
        decreases ls.len() - i,
    {
        if starts_marker(&ls[i]) {
            match parse_snippet_block(path, &ls, i) {
                Ok((parsed, next)) => {
                    let target = to_text(&resolve_path(base.as_str(), parsed.locator.path.as_str()));
                    proof {
                        let ghost before = found@;
                        let rest = targets_from(path@, base@, views(ls@), next as int);
                        assert(texts(before.push(target)) == texts(before).push(target@));
                        assert(texts(before) + (seq![target@] + rest) == texts(before).push(
                            target@,
                        ) + rest);
                    }
                    found.push(target);
                    i = next;
                },
                Err(_) => {
                    assert(texts(found@) + Seq::<Seq<char>>::empty() == texts(found@));
                    return found;
                },
            }
        } else {
            i += 1;
        }
    }
    assert(texts(found@) + Seq::<Seq<char>>::empty() == texts(found@));
    found
}

/// Whether a summary agrees with its model.
pub open spec fn summary_is(r: Result<RenderSummary, SnipsError>, m: Result<SummaryView, ErrorView>) -> bool {
    match (r, m) {
        (Ok(v), Ok(s)) => v@ == s,
        (Err(e), Err(f)) => e@ == f,
        _ => false,
    }
}

/// The summary of rendering the document `path`, which is looked up among
/// `files` as its sources are; a document that is not there gives
/// `FileNotFound`. Its markers are resolved relative to the directory that
/// holds it.
pub open spec fn file_summary(path: Seq<char>, files: Seq<FileView>) -> Result<
    SummaryView,
    ErrorView,
> {
    match source_text(files, path) {
        None => Err(ErrorView::FileNotFound(path)),
        Some(content) => summary(content, parent_dir(path), path, files),
    }
}

/// The diffs of the document `path` among `files`.
pub open spec fn file_diffs(path: Seq<char>, files: Seq<FileView>) -> Result<
    Seq<DiffView>,
    ErrorView,
> {
    match source_text(files, path) {
        None => Err(ErrorView::FileNotFound(path)),
        Some(content) => diffs(content, parent_dir(path), path, files),
    }
}

/// The rendered text of a summary, or its error.
pub open spec fn rendered_of(m: Result<SummaryView, ErrorView>) -> Result<Option<Seq<char>>, ErrorView> {
    match m {
        Ok(s) => Ok(s.rendered),
        Err(e) => Err(e),
    }
}

/// The files after the document `path` was processed: when `write` is set
/// and the document was updated, its entry holds the rendered text; in every
/// other case the files are as they were.
pub open spec fn stored(files: Seq<FileView>, path: Seq<char>, write: bool) -> Seq<FileView> {
    match (file_index(files, path), file_summary(path, files)) {
        (Some(k), Ok(s)) => if write && s.rendered is Some {
            files.update(k, FileView { path: files[k].path, content: s.rendered->Some_0 })
        } else {
            files
        },
        _ => files,
    }
}

/// Renders the document `path` among `files` and changes nothing.
pub fn render_file(path: &str, files: &Vec<TextFile>) -> (r: Result<RenderSummary, SnipsError>)
    ensures
        summary_is(r, file_summary(path@, file_views(files@))),
{
    let k = match find_source(files, path) {
        Some(k) => k,
        None => {
            return Err(SnipsError::FileNotFound(String::from_str(path)));
        },
    };
    let content = files[k].content.as_str();
    let base = parent_of(path);
    let injected = match inject_snippet_content(content, base.as_str(), path, files) {
        Ok(injected) => injected,
        Err(e) => {
            return Err(e);
        },
    };
    let updated = !same_chars(&to_chars(injected.rendered.as_str()), &to_chars(content));
    let rendered = if updated {
        Some(injected.rendered)
    } else {
        None
    };
    Ok(RenderSummary { updated, rendered, snippets: injected.snippets })
}

/// Processes a single markdown file, returning snippet metadata alongside
/// changes.
///
/// The document `path` and the files that its markers name are looked up
/// among `files`. The summary is `updated` if and only if the rendered text
/// differs from the document's text, and holds the rendered text only then.
/// When `write` is set and the document was updated, its entry in `files`
/// is replaced by the rendered text.
pub fn sync_snippets_in_file_with_summary(path: &str, write: bool, files: &mut Vec<TextFile>) -> (r:
    Result<RenderSummary, SnipsError>)
    ensures
        summary_is(r, file_summary(path@, file_views(old(files)@))),
        file_views(final(files)@) == stored(file_views(old(files)@), path@, write),
{
    let summary = match render_file(path, files) {
        Ok(s) => s,
        Err(e) => {
            return Err(e);
        },
    };
    if write {
        match &summary.rendered {
            Some(text) => {
                match find_source(files, path) {
                    Some(k) => {
                        let ghost before = files@;
                        let entry = TextFile { path: files[k].path.clone(), content: text.clone() };
                        files.set(k, entry);
                        assert(file_views(files@) =~= file_views(before).update(k as int, entry@));
                    },
                    None => {},
                }
            },
            None => {},
        }
    }
    Ok(summary)
}

/// Processes a single markdown file and returns its new text, or `None`
/// when the file is up to date. With `write` set, the new text also
/// replaces the document's entry in `files`.
pub fn sync_snippets_in_file(path: &str, write: bool, files: &mut Vec<TextFile>) -> (r: Result<
    Option<String>,
    SnipsError,
>)
    ensures
        match (r, rendered_of(file_summary(path@, file_views(old(files)@)))) {
            (Ok(t), Ok(m)) => text_of(t) == m,
            (Err(e), Err(f)) => e@ == f,
            _ => false,
        },
        file_views(final(files)@) == stored(file_views(old(files)@), path@, write),
{
    match sync_snippets_in_file_with_summary(path, write, files) {
        Ok(s) => Ok(s.rendered),
        Err(e) => Err(e),
    }
}

/// Computes diffs between the snippets embedded in the document `path` and
/// their sources, all looked up among `files`.
pub fn diff_file(path: &str, files: &Vec<TextFile>) -> (r: Result<Vec<SnippetDiff>, SnipsError>)
    ensures
        diffs_are(r, file_diffs(path@, file_views(files@))),
{
    let k = match find_source(files, path) {
        Some(k) => k,
        None => {
            return Err(SnipsError::FileNotFound(String::from_str(path)));
        },
    };
    let base = parent_of(path);
    compute_diffs(files[k].content.as_str(), base.as_str(), path, files)
}

/// Whether the first `n` of the documents `paths` are all up to date, or
/// the first error that processing them in order meets.
pub open spec fn checked(paths: Seq<Seq<char>>, files: Seq<FileView>, n: int) -> Result<
    bool,
    ErrorView,
>
    decreases n,
{
    if n <= 0 {
        Ok(true)
    } else {
        match checked(paths, files, n - 1) {
            Err(e) => Err(e),
            Ok(clean) => match file_summary(paths[n - 1], files) {
                Err(e) => Err(e),
                Ok(s) => Ok(clean && !s.updated),
            },
        }
    }
}

/// An error among the first `n` documents is the error of any longer run.
proof fn lemma_checked_error(paths: Seq<Seq<char>>, files: Seq<FileView>, n: int, m: int)
    requires
        0 <= n <= m,
        checked(paths, files, n) is Err,
    ensures
        checked(paths, files, m) == checked(paths, files, n),
    decreases m - n,
{
    if n < m {
        lemma_checked_error(paths, files, n, m - 1);
    }
}

/// Scans a list of documents and returns `true` if they are all up to date.
///
/// Every document is processed, in order, also after one was found out of
/// date; the first that fails ends the scan with its error. Nothing is
/// written.
pub fn check_files(paths: &Vec<String>, files: &Vec<TextFile>) -> (r: Result<bool, SnipsError>)
    ensures
        match (r, checked(texts(paths@), file_views(files@), paths.len() as int)) {
            (Ok(b), Ok(m)) => b == m,
            (Err(e), Err(f)) => e@ == f,
            _ => false,
        },
{
    let mut clean = true;
    let mut i: usize = 0;
    while i < paths.len()
        invariant
            i <= paths.len(),
            checked(texts(paths@), file_views(files@), i as int) == Ok::<bool, ErrorView>(clean),
        decreases paths.len() - i,
    {
        match render_file(paths[i].as_str(), files) {
            Ok(s) => {
                if s.rendered.is_some() {
                    clean = false;
                }
            },
            Err(e) => {
                proof {
                    lemma_checked_error(
                        texts(paths@),
                        file_views(files@),
                        i + 1,
                        paths.len() as int,
                    );
                }
                return Err(e);
            },
        }
        i += 1;
    }
    Ok(clean)
}

} // verus!
