//! Locating a snippet in a source file: the region markers, the extraction of
//! a named region, and the look-up of a file among the sources at hand.

use crate::error::{ErrorView, SnipsError};
use crate::paths::{extension, file_extension};
use crate::text::{
    char_is_id, has_at, is_id_char, join_range, join_with, lines, matches_at, newline,
    newline_chars, skip_whitespace, skip_ws, slice_chars, split_lines, to_chars, to_text, views,
};
use vstd::prelude::*;

verus! {

/// A file held in memory: its path and its text.
#[derive(Debug, Clone, PartialEq, Eq)]
pub struct TextFile {
    /// Path of the file. For a source file it is the path that a marker
    /// resolves to, see [`crate::paths::resolve_path`].
    pub path: String,
    /// The text of the file.
    pub content: String,
}

/// A snippet reference made up of a source path and an optional named section.
#[derive(Debug, Clone, PartialEq, Eq)]
pub struct SnippetRef {
    /// Path to the source file that contains the snippet.
    pub path: String,
    /// Name of the snippet within the file, if one is specified.
    pub name: Option<String>,
}

/// The text that `textwrap::dedent` makes of a text: the text without the
/// leading white space that its lines have in common.
pub uninterp spec fn dedented(s: Seq<char>) -> Seq<char>;

/// The CodeMirror mode of the language that `languages::from_extension`
/// finds for a file extension, if it finds one and that language has a mode.
pub uninterp spec fn codemirror_mode(ext: Seq<char>) -> Option<Seq<char>>;

/// The text of an optional string.
pub open spec fn text_of(o: Option<String>) -> Option<Seq<char>> {
    match o {
        Some(s) => Some(s@),
        None => None,
    }
}

/// The texts of a sequence of strings.
pub open spec fn texts(v: Seq<String>) -> Seq<Seq<char>> {
    v.map_values(|s: String| s@)
}

/// The keyword that opens a region, with its colon.
pub open spec fn start_keyword() -> Seq<char> {
    "snips-start:"@
}

/// The keyword that closes a region.
pub open spec fn end_keyword() -> Seq<char> {
    "snips-end"@
}

/// The first index at or after `from` that holds no identifier character.
pub open spec fn skip_id(s: Seq<char>, from: int) -> int
    decreases s.len() - from,
{
    if 0 <= from < s.len() && is_id_char(s[from]) {
        skip_id(s, from + 1)
    } else {
        from
    }
}

/// The identifier that `s` spells from `from` to its end: white space, a
/// non-empty identifier, white space, and nothing more.
pub open spec fn name_tail(s: Seq<char>, from: int) -> Option<Seq<char>> {
    let a = skip_whitespace(s, from);
    let b = skip_id(s, a);
    if a < b && skip_whitespace(s, b) == s.len() {
        Some(s.subrange(a, b))
    } else {
        None
    }
}

/// The region name that a start marker beginning at index `p` of `s` declares.
pub open spec fn start_marker_at(s: Seq<char>, p: int) -> Option<Seq<char>> {
    if matches_at(s, p, start_keyword()) {
        name_tail(s, p + start_keyword().len())
    } else {
        None
    }
}

/// The name of the leftmost start marker of `s` that begins at or after `p`.
pub open spec fn start_marker_from(s: Seq<char>, p: int) -> Option<Seq<char>>
    decreases s.len() - p,
{
    if p < 0 || p >= s.len() {
        None
    } else {
        match start_marker_at(s, p) {
            Some(n) => Some(n),
            None => start_marker_from(s, p + 1),
        }
    }
}

/// The region name that the line `s` declares with a start marker: the
/// keyword `snips-start:` anywhere in the line, followed up to the line's end
/// by optional white space, the name, and optional white space.
pub open spec fn start_marker(s: Seq<char>) -> Option<Seq<char>> {
    start_marker_from(s, 0)
}

/// What an end marker beginning at index `p` of `s` says: `Some(None)` for
/// one without a name, `Some(Some(name))` for one that names a region.
pub open spec fn end_marker_at(s: Seq<char>, p: int) -> Option<Option<Seq<char>>> {
    let q = p + end_keyword().len();
    if !matches_at(s, p, end_keyword()) {
        None
    } else if skip_whitespace(s, q) == s.len() {
        Some(None)
    } else if s[q] == ':' {
        if skip_whitespace(s, q + 1) == s.len() {
            Some(None)
        } else {
            match name_tail(s, q + 1) {
                Some(n) => Some(Some(n)),
                None => None,
            }
        }
    } else {
        None
    }
}

/// What the leftmost end marker of `s` that begins at or after `p` says.
pub open spec fn end_marker_from(s: Seq<char>, p: int) -> Option<Option<Seq<char>>>
    decreases s.len() - p,
{
    if p < 0 || p >= s.len() {
        None
    } else {
        match end_marker_at(s, p) {
            Some(m) => Some(m),
            None => end_marker_from(s, p + 1),
        }
    }
}

/// What the line `s` says as an end marker: the keyword `snips-end` anywhere
/// in the line, followed up to the line's end by nothing, by a colon, or by a
/// colon and a name, each with optional white space around it.
pub open spec fn end_marker(s: Seq<char>) -> Option<Option<Seq<char>>> {
    end_marker_from(s, 0)
}

/// Whether the line opens the region `name`.
pub open spec fn opens(line: Seq<char>, name: Seq<char>) -> bool {
    start_marker(line) == Some(name)
}

/// Whether the line closes the open region `name`: an end marker without a
/// name closes any region, one with a name only the region it names.
pub open spec fn closes(line: Seq<char>, name: Seq<char>) -> bool {
    match end_marker(line) {
        Some(None) => true,
        Some(Some(n)) => n == name,
        None => false,
    }
}

/// The first index at or after `from` whose line opens `name`, or the number
/// of lines when there is none.
pub open spec fn first_opening(ls: Seq<Seq<char>>, name: Seq<char>, from: int) -> int
    decreases ls.len() - from,
{
    if 0 <= from < ls.len() && !opens(ls[from], name) {
        first_opening(ls, name, from + 1)
    } else {
        from
    }
}

/// The first index at or after `from` whose line closes `name`, or the number
/// of lines when there is none.
pub open spec fn first_closing(ls: Seq<Seq<char>>, name: Seq<char>, from: int) -> int
    decreases ls.len() - from,
{
    if 0 <= from < ls.len() && !closes(ls[from], name) {
        first_closing(ls, name, from + 1)
    } else {
        from
    }
}

/// The region names that the lines declare with start markers, in order.
pub open spec fn declared_names(ls: Seq<Seq<char>>) -> Seq<Seq<char>>
    decreases ls.len(),
{
    if ls.len() == 0 {
        Seq::empty()
    } else {
        let rest = declared_names(ls.drop_last());
        match start_marker(ls.last()) {
            Some(n) => rest.push(n),
            None => rest,
        }
    }
}

/// How a list of region names reads in a message.
pub open spec fn available_text(names: Seq<Seq<char>>) -> Seq<char> {
    if names.len() == 0 {
        "none"@
    } else {
        join_with(names, ", "@)
    }
}

/// The text between the markers of the region `name` of `content`, before
/// any indentation is removed, or the error that the search ends in.
pub open spec fn region_text(content: Seq<char>, name: Seq<char>, file: Seq<char>) -> Result<
    Seq<char>,
    ErrorView,
> {
    let ls = lines(content);
    let i = first_opening(ls, name, 0);
    if i >= ls.len() {
        Err(
            ErrorView::SnippetNotFound {
                file,
                snippet_name: name,
                available_snippets: available_text(declared_names(ls)),
            },
        )
    } else {
        let j = first_closing(ls, name, i + 1);
        if j >= ls.len() {
            Err(ErrorView::UnterminatedSnippet(file, name))
        } else {
            Ok(join_with(ls.subrange(i + 1, j), newline()))
        }
    }
}

/// The region `name` of `content` with its common indentation removed.
pub open spec fn extracted(content: Seq<char>, name: Seq<char>, file: Seq<char>) -> Result<
    Seq<char>,
    ErrorView,
> {
    match region_text(content, name, file) {
        Ok(t) => Ok(dedented(t)),
        Err(e) => Err(e),
    }
}

/// Whether a result of text agrees with its model.
pub open spec fn text_result_is(r: Result<String, SnipsError>, m: Result<Seq<char>, ErrorView>) -> bool {
    match (r, m) {
        (Ok(s), Ok(t)) => s@ == t,
        (Err(e), Err(f)) => e@ == f,
        _ => false,
    }
}

/// Whether a result of characters agrees with its model.
pub open spec fn chars_result_is(r: Result<Vec<char>, SnipsError>, m: Result<Seq<char>, ErrorView>) -> bool {
    match (r, m) {
        (Ok(s), Ok(t)) => s@ == t,
        (Err(e), Err(f)) => e@ == f,
        _ => false,
    }
}

/// The end of the identifier that begins at `from`.
pub fn skip_id_chars(v: &Vec<char>, from: usize) -> (r: usize)
    requires
        from <= v.len(),
    ensures
        r == skip_id(v@, from as int),
        from <= r <= v.len(),
{
    let mut i: usize = from;
    while i < v.len() && char_is_id(v[i])
        invariant
            from <= i <= v.len(),
            skip_id(v@, from as int) == skip_id(v@, i as int),
        decreases v.len() - i,
    {
        i += 1;
    }
    i
}

/// The identifier that `v` spells from `from` to its end, if it spells one.
fn read_name_tail(v: &Vec<char>, from: usize) -> (r: Option<Vec<char>>)
    requires
        from <= v.len(),
    ensures
        match r {
            Some(n) => name_tail(v@, from as int) == Some(n@),
            None => name_tail(v@, from as int) is None,
        },
{
    let a = skip_ws(v, from);
    let b = skip_id_chars(v, a);
    if a < b && skip_ws(v, b) == v.len() {
        Some(slice_chars(v, a, b))
    } else {
        None
    }
}

/// The region name that `line` declares with a start marker.
pub fn start_marker_name(line: &Vec<char>) -> (r: Option<Vec<char>>)
    ensures
        match r {
            Some(n) => start_marker(line@) == Some(n@),
            None => start_marker(line@) is None,
        },
{
    let keyword = to_chars("snips-start:");
    let mut p: usize = 0;
    while p < line.len()
        invariant
            p <= line.len(),
            keyword@ == start_keyword(),
            start_marker(line@) == start_marker_from(line@, p as int),
        decreases line.len() - p,
    {
        if has_at(line, p, &keyword) {
            let found = read_name_tail(line, p + keyword.len());
            if found.is_some() {
                return found;
            }
        }
        p += 1;
    }
    None
}

/// What `line` says as an end marker.
pub fn end_marker_name(line: &Vec<char>) -> (r: Option<Option<Vec<char>>>)
    ensures
        match r {
            Some(Some(n)) => end_marker(line@) == Some(Some(n@)),
            Some(None) => end_marker(line@) == Some(None::<Seq<char>>),
            None => end_marker(line@) is None,
        },
{
    let keyword = to_chars("snips-end");
    let mut p: usize = 0;
    while p < line.len()
        invariant
            p <= line.len(),
            keyword@ == end_keyword(),
            end_marker(line@) == end_marker_from(line@, p as int),
        decreases line.len() - p,
    {
        if has_at(line, p, &keyword) {
            let q: usize = p + keyword.len();
            if skip_ws(line, q) == line.len() {
                return Some(None);
            }
            if line[q] == ':' {
                if skip_ws(line, q + 1) == line.len() {
                    return Some(None);
                }
                let found = read_name_tail(line, q + 1);
                if found.is_some() {
                    return Some(found);
                }
            }
        }
        p += 1;
    }
    None
}

/// Whether `line` opens the region `name`.
fn line_opens(line: &Vec<char>, name: &Vec<char>) -> (b: bool)
    ensures
        b == opens(line@, name@),
{
    match start_marker_name(line) {
        Some(n) => crate::text::same_chars(&n, name),
        None => false,
    }
}

/// Whether `line` closes the open region `name`.
fn line_closes(line: &Vec<char>, name: &Vec<char>) -> (b: bool)
    ensures
        b == closes(line@, name@),
{
    match end_marker_name(line) {
        Some(Some(n)) => crate::text::same_chars(&n, name),
        Some(None) => true,
        None => false,
    }
}

/// Removes the common indentation of a text.
///
/// Trusted: this is `textwrap::dedent`. Nothing is claimed of its result but
/// that it depends on the text alone; the contracts call it [`dedented`].
#[verifier::external_body]
fn dedent(s: &str) -> (r: String)
    ensures
        r@ == dedented(s@),
{
    textwrap::dedent(s)
}

/// The language hint for a file extension.
///
/// Trusted: this is `languages::from_extension`, a look-up in that crate's
/// fixed table, followed by the entry's `codemirror_mode` field. Nothing is
/// claimed of its result but that it depends on the extension alone; the
/// contracts call it [`codemirror_mode`].
#[verifier::external_body]
fn language_mode(ext: &str) -> (r: Option<String>)
    ensures
        text_of(r) == codemirror_mode(ext@),
{
    match languages::from_extension(ext) {
        Some(language) => match language.codemirror_mode {
            Some(mode) => Some(mode.to_string()),
            None => None,
        },
        None => None,
    }
}

/// The text `s` with its common indentation removed.
pub fn dedent_chars(s: &Vec<char>) -> (r: Vec<char>)
    ensures
        r@ == dedented(s@),
{
    let text = to_text(s);
    let out = dedent(text.as_str());
    to_chars(out.as_str())
}

/// Collects the names of all regions that `content` declares.
pub fn find_available_snippets(content: &str) -> (names: Vec<String>)
    ensures
        texts(names@) == declared_names(lines(content@)),
{
    let chars = to_chars(content);
    let ls = split_lines(&chars);
    let mut names: Vec<String> = Vec::new();
    let mut i: usize = 0;
    while i < ls.len()
        invariant
            i <= ls.len(),
            views(ls@) == lines(content@),
            texts(names@) == declared_names(views(ls@).take(i as int)),
        decreases ls.len() - i,
    {
        proof {
            let next = views(ls@).take(i + 1);
            assert(next.drop_last() == views(ls@).take(i as int));
            assert(next.last() == ls@[i as int]@);
        }
        match start_marker_name(&ls[i]) {
            Some(n) => {
                let name = to_text(&n);
                proof {
                    let ghost before = names@;
                    assert(texts(before.push(name)) == texts(before).push(name@));
                }
                names.push(name);
            },
            None => {},
        }
        i += 1;
    }
    assert(views(ls@).take(ls.len() as int) == views(ls@));
    names
}

/// How the region names that `content` declares read in a message.
fn available_display(content: &str) -> (r: String)
    ensures
        r@ == available_text(declared_names(lines(content@))),
{
    let names = find_available_snippets(content);
    if names.len() == 0 {
        String::from_str("none")
    } else {
        let mut out: Vec<char> = Vec::new();
        let mut i: usize = 0;
        while i < names.len()
            invariant
                i <= names.len(),
                out@ == join_with(texts(names@).take(i as int), ", "@),
            decreases names.len() - i,
        {
            if i > 0 {
                crate::text::push_str(&mut out, ", ");
            }
            crate::text::push_str(&mut out, names[i].as_str());
            proof {
                let next = texts(names@).take(i + 1);
                assert(next.drop_last() == texts(names@).take(i as int));
                assert(next.last() == names@[i as int]@);
            }
            i += 1;
        }
        assert(texts(names@).take(names.len() as int) == texts(names@));
        to_text(&out)
    }
}

/// Finds the region `name` in `content` and returns the text between its
/// markers as it stands in the file.
///
/// The region opens at the first line that declares `name` and closes at the
/// next line that holds an end marker for it. Without an opening line the
/// result is `SnippetNotFound`, which lists the names that the file does
/// declare; without a closing line it is `UnterminatedSnippet`.
pub fn find_region(content: &str, name: &str, path: &str) -> (r: Result<Vec<char>, SnipsError>)
    ensures
        chars_result_is(r, region_text(content@, name@, path@)),
{
    let chars = to_chars(content);
    let wanted = to_chars(name);
    let ls = split_lines(&chars);
    let mut i: usize = 0;
    while i < ls.len() && !line_opens(&ls[i], &wanted)
        invariant
            i <= ls.len(),
            first_opening(views(ls@), wanted@, 0) == first_opening(views(ls@), wanted@, i as int),
        decreases ls.len() - i,
    {
        i += 1;
    }
    if i >= ls.len() {
        return Err(
            SnipsError::SnippetNotFound {
                file: String::from_str(path),
                snippet_name: String::from_str(name),
                available_snippets: available_display(content),
            },
        );
    }
    let mut j: usize = i + 1;
    while j < ls.len() && !line_closes(&ls[j], &wanted)
        invariant
            i < j <= ls.len(),
            first_closing(views(ls@), wanted@, i + 1) == first_closing(views(ls@), wanted@, j as int),
        decreases ls.len() - j,
    {
        j += 1;
    }
    if j >= ls.len() {
        return Err(SnipsError::UnterminatedSnippet(String::from_str(path), String::from_str(name)));
    }
    let sep = newline_chars();
    Ok(join_range(&ls, i + 1, j, &sep))
}

/// Extracts the region `name` of `content`, with its common indentation
/// removed. It fails as [`find_region`] does.
pub fn extract_named_snippet(content: &str, name: &str, path: &str) -> (r: Result<
    String,
    SnipsError,
>)
    ensures
        text_result_is(r, extracted(content@, name@, path@)),
{
    match find_region(content, name, path) {
        Ok(raw) => Ok(to_text(&dedent_chars(&raw))),
        Err(e) => Err(e),
    }
}

/// What a [`TextFile`] holds.
pub struct FileView {
    pub path: Seq<char>,
    pub content: Seq<char>,
}

impl View for TextFile {
    type V = FileView;

    open spec fn view(&self) -> FileView {
        FileView { path: self.path@, content: self.content@ }
    }
}

/// What a sequence of files holds.
pub open spec fn file_views(v: Seq<TextFile>) -> Seq<FileView> {
    v.map_values(|f: TextFile| f@)
}

/// The index of the first of `files` from index `from` on whose path is
/// `path`.
pub open spec fn file_index_from(files: Seq<FileView>, path: Seq<char>, from: int) -> Option<int>
    decreases files.len() - from,
{
    if from < 0 || from >= files.len() {
        None
    } else if files[from].path == path {
        Some(from)
    } else {
        file_index_from(files, path, from + 1)
    }
}

/// The index of the first of `files` whose path is `path`.
pub open spec fn file_index(files: Seq<FileView>, path: Seq<char>) -> Option<int> {
    file_index_from(files, path, 0)
}

/// The text of the file `path` among `files`, if it is there. Where several
/// entries have that path, the first counts.
pub open spec fn source_text(files: Seq<FileView>, path: Seq<char>) -> Option<Seq<char>> {
    match file_index(files, path) {
        Some(k) => Some(files[k].content),
        None => None,
    }
}

/// The language hint for the file that `path` names.
pub open spec fn language_hint(path: Seq<char>) -> Option<Seq<char>> {
    match extension(path) {
        Some(ext) => codemirror_mode(ext),
        None => None,
    }
}

/// The content and the language hint that a reference to `path`, and to the
/// region `name` of it if one is given, resolves to among `sources`.
pub open spec fn resolution(sources: Seq<FileView>, path: Seq<char>, name: Option<Seq<char>>) -> Result<
    (Seq<char>, Option<Seq<char>>),
    ErrorView,
> {
    match source_text(sources, path) {
        None => Err(ErrorView::FileNotFound(path)),
        Some(content) => match name {
            Some(n) => match extracted(content, n, path) {
                Ok(code) => Ok((code, language_hint(path))),
                Err(e) => Err(e),
            },
            None => Ok((dedented(content), language_hint(path))),
        },
    }
}

/// Whether a resolved reference agrees with its model.
pub open spec fn resolved_is(
    r: Result<(String, Option<String>), SnipsError>,
    m: Result<(Seq<char>, Option<Seq<char>>), ErrorView>,
) -> bool {
    match (r, m) {
        (Ok(p), Ok(q)) => p.0@ == q.0 && text_of(p.1) == q.1,
        (Err(e), Err(f)) => e@ == f,
        _ => false,
    }
}

/// Looks the file `path` up among `files` and returns its index.
pub fn find_source(files: &Vec<TextFile>, path: &str) -> (r: Option<usize>)
    ensures
        match r {
            Some(k) => file_index(file_views(files@), path@) == Some(k as int) && k < files.len()
                && files@[k as int].path@ == path@,
            None => file_index(file_views(files@), path@) is None,
        },
{
    let wanted = to_chars(path);
    let mut i: usize = 0;
    while i < files.len()
        invariant
            i <= files.len(),
            wanted@ == path@,
            file_index(file_views(files@), path@) == file_index_from(
                file_views(files@),
                path@,
                i as int,
            ),
        decreases files.len() - i,
    {
        if crate::text::same_chars(&to_chars(files[i].path.as_str()), &wanted) {
            return Some(i);
        }
        i += 1;
    }
    None
}

/// Infers the language hint for the file that `path` names.
pub fn infer_language(path: &str) -> (r: Option<String>)
    ensures
        text_of(r) == language_hint(path@),
{
    let p = to_chars(path);
    match file_extension(&p) {
        Some(ext) => language_mode(to_text(&ext).as_str()),
        None => None,
    }
}

impl SnippetRef {
    /// Reads the referenced snippet content and infers a language hint.
    ///
    /// The file is looked up among `sources`; one that is missing there gives
    /// `FileNotFound` with its path. When `name` is `None`, the whole file is
    /// returned. Otherwise the named section between `snips-start` and
    /// `snips-end` markers is extracted. Either text has its common
    /// indentation removed.
    pub fn resolve(&self, sources: &Vec<TextFile>) -> (r: Result<
        (String, Option<String>),
        SnipsError,
    >)
        ensures
            resolved_is(r, resolution(file_views(sources@), self.path@, text_of(self.name))),
    {
        let content = match find_source(sources, self.path.as_str()) {
            Some(k) => &sources[k].content,
            None => {
                return Err(SnipsError::FileNotFound(self.path.clone()));
            },
        };
        let lang = infer_language(self.path.as_str());
        match &self.name {
            Some(name) => {
                match extract_named_snippet(content.as_str(), name.as_str(), self.path.as_str()) {
                    Ok(code) => Ok((code, lang)),
                    Err(e) => Err(e),
                }
            },
            None => Ok((dedent(content.as_str()), lang)),
        }
    }
}

} // verus!
