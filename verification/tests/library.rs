use snips::error::decimal_chars;
use snips::paths::{file_extension, is_markdown, parent_of, resolve_path};
use snips::marker::{parse_marker_line, parse_snippet_block};
use snips::processor::{
    apply_indentation, compute_diffs, inject_snippet_content, referenced_paths, render_file,
};
use snips::snippet::{
    end_marker_name, extract_named_snippet, find_available_snippets, infer_language,
    start_marker_name, SnippetRef,
};
use snips::text::{split_lines, to_chars, to_text, trimmed};
use snips::{
    check_files, diff_file, sync_snippets_in_file, sync_snippets_in_file_with_summary,
    SnippetDiff, SnippetLocator, SnippetReport, SnipsError, TextFile,
};

fn file(path: &str, content: &str) -> TextFile {
    TextFile { path: path.to_string(), content: content.to_string() }
}

fn chars(s: &str) -> Vec<char> {
    s.chars().collect()
}

fn text(v: Vec<char>) -> String {
    v.into_iter().collect()
}

fn opt_text(v: Option<Vec<char>>) -> Option<String> {
    v.map(text)
}

const STALE_DOC: &str = "<!-- snips: code.rs -->\n```\nold\n```\n";
const FRESH_DOC: &str = "<!-- snips: code.rs -->\n```rust\nfn main(){}\n\n```\n";

#[test]
fn whole_file_round_trip_is_exact() {
    let mut disk = vec![file("doc.md", STALE_DOC), file("code.rs", "fn main(){}\n")];
    let summary = sync_snippets_in_file_with_summary("doc.md", true, &mut disk).unwrap();
    assert!(summary.updated);
    assert_eq!(summary.rendered.as_deref(), Some(FRESH_DOC));
    assert_eq!(
        summary.snippets,
        vec![SnippetReport {
            locator: SnippetLocator { path: "code.rs".to_string(), name: None },
            updated: true,
        }]
    );
    assert_eq!(disk[0].content, FRESH_DOC);
    assert_eq!(disk[1].content, "fn main(){}\n");
}

#[test]
fn second_pass_changes_nothing() {
    let mut disk = vec![file("doc.md", STALE_DOC), file("code.rs", "fn main(){}\n")];
    let first = sync_snippets_in_file("doc.md", true, &mut disk).unwrap();
    assert_eq!(first.as_deref(), Some(FRESH_DOC));
    let second = sync_snippets_in_file_with_summary("doc.md", true, &mut disk).unwrap();
    assert!(!second.updated);
    assert_eq!(second.rendered, None);
    assert_eq!(second.snippets.len(), 1);
    assert!(!second.snippets[0].updated);
    assert_eq!(disk[0].content, FRESH_DOC);
}

#[test]
fn without_write_the_store_is_unchanged() {
    let mut disk = vec![file("doc.md", STALE_DOC), file("code.rs", "fn main(){}\n")];
    let rendered = sync_snippets_in_file("doc.md", false, &mut disk).unwrap();
    assert_eq!(rendered.as_deref(), Some(FRESH_DOC));
    assert_eq!(disk[0].content, STALE_DOC);
}

#[test]
fn diff_and_render_agree_on_stale_and_fresh_documents() {
    let mut disk = vec![file("doc.md", STALE_DOC), file("code.rs", "fn main(){}\n")];
    let diffs = diff_file("doc.md", &disk).unwrap();
    assert_eq!(
        diffs,
        vec![SnippetDiff {
            path: "code.rs".to_string(),
            name: None,
            old_content: "old".to_string(),
            new_content: "fn main(){}\n".to_string(),
        }]
    );
    let summary = render_file("doc.md", &disk).unwrap();
    assert!(summary.updated);
    assert_eq!(summary.snippets.iter().filter(|s| s.updated).count(), diffs.len());

    sync_snippets_in_file("doc.md", true, &mut disk).unwrap();
    assert!(diff_file("doc.md", &disk).unwrap().is_empty());
    assert!(!render_file("doc.md", &disk).unwrap().updated);
}

#[test]
fn named_region_is_extracted_and_dedented() {
    let source = "// snips-start: foo\n    fn a() {\n        println!(\"hi\");\n    }\n// snips-end: foo\n";
    let got = extract_named_snippet(source, "foo", "code.rs").unwrap();
    assert_eq!(got, "fn a() {\n    println!(\"hi\");\n}");
}

#[test]
fn region_not_found_lists_declared_names() {
    let source = "// snips-start: one\nx\n// snips-end\n// snips-start: two\ny\n// snips-end\n";
    let err = extract_named_snippet(source, "three", "src/code.rs").unwrap_err();
    assert_eq!(
        err,
        SnipsError::SnippetNotFound {
            file: "src/code.rs".to_string(),
            snippet_name: "three".to_string(),
            available_snippets: "one, two".to_string(),
        }
    );
    assert_eq!(
        err.message(),
        "snippet `three` not found in src/code.rs\nAvailable snippets: one, two"
    );
    assert_eq!(find_available_snippets(source), vec!["one".to_string(), "two".to_string()]);
}

#[test]
fn region_not_found_without_any_region_says_none() {
    let err = extract_named_snippet("fn main() {}\n", "foo", "code.rs").unwrap_err();
    assert_eq!(
        err,
        SnipsError::SnippetNotFound {
            file: "code.rs".to_string(),
            snippet_name: "foo".to_string(),
            available_snippets: "none".to_string(),
        }
    );
    assert_eq!(err.message(), "snippet `foo` not found in code.rs\nAvailable snippets: none");
}

#[test]
fn end_marker_of_another_region_does_not_close() {
    let source = "// snips-start: A\na\n// snips-start: B\nb\n// snips-end: B\n";
    let err = extract_named_snippet(source, "A", "code.rs").unwrap_err();
    assert_eq!(err, SnipsError::UnterminatedSnippet("code.rs".to_string(), "A".to_string()));
    assert_eq!(err.message(), "unterminated snippet `A` in code.rs");
    assert_eq!(extract_named_snippet(source, "B", "code.rs").unwrap(), "b");
}

#[test]
fn unnamed_end_marker_closes_the_open_region() {
    let source = "// snips-start: A\na\n// snips-end\nrest\n// snips-end: A\n";
    assert_eq!(extract_named_snippet(source, "A", "code.rs").unwrap(), "a");
}

#[test]
fn start_markers_are_recognised() {
    assert_eq!(opt_text(start_marker_name(&chars("// snips-start: foo"))), Some("foo".to_string()));
    assert_eq!(opt_text(start_marker_name(&chars("snips-start:my-name_2  "))), Some("my-name_2".to_string()));
    assert_eq!(
        opt_text(start_marker_name(&chars("snips-start: a snips-start: b"))),
        Some("b".to_string())
    );
    assert_eq!(start_marker_name(&chars("snips-start: foo bar")), None);
    assert_eq!(start_marker_name(&chars("snips-start:")), None);
    assert_eq!(start_marker_name(&chars("snips-start foo")), None);
    assert_eq!(start_marker_name(&chars("")), None);
}

#[test]
fn end_markers_are_recognised() {
    assert_eq!(end_marker_name(&chars("// snips-end")), Some(None));
    assert_eq!(end_marker_name(&chars("// snips-end:  ")), Some(None));
    assert_eq!(end_marker_name(&chars("// snips-end: foo")).map(opt_text), Some(Some("foo".to_string())));
    assert_eq!(
        end_marker_name(&chars("snips-end: snips-end")).map(opt_text),
        Some(Some("snips-end".to_string()))
    );
    assert_eq!(end_marker_name(&chars("// snips-end foo")), None);
    assert_eq!(end_marker_name(&chars("// snips-ending")), None);
    assert_eq!(end_marker_name(&chars("// snips-end: a b")), None);
}

#[test]
fn marker_lines_are_parsed() {
    let (indent, locator) = parse_marker_line(&chars("  <!-- snips: src/a.rs#my-part -->  ")).unwrap();
    assert_eq!(text(indent), "  ");
    assert_eq!(locator.path, "src/a.rs");
    assert_eq!(locator.name.as_deref(), Some("my-part"));

    let (indent, locator) = parse_marker_line(&chars("<!--snips:a.rs#b-->")).unwrap();
    assert_eq!(text(indent), "");
    assert_eq!(locator.path, "a.rs");
    assert_eq!(locator.name.as_deref(), Some("b"));

    let (_, locator) = parse_marker_line(&chars("\t<!-- snips: a--> -->")).unwrap();
    assert_eq!(locator.path, "a-->");
    assert_eq!(locator.name, None);
}

#[test]
fn malformed_marker_lines_are_refused() {
    assert_eq!(parse_marker_line(&chars("<!-- snips: -->")), None);
    assert_eq!(parse_marker_line(&chars("<!-- snips: #x -->")), None);
    assert_eq!(parse_marker_line(&chars("<!-- snips: a.rs# -->")), None);
    assert_eq!(parse_marker_line(&chars("<!-- snips: a.rs#bad name -->")), None);
    assert_eq!(parse_marker_line(&chars("<!-- snips: a.rs#b#c -->")), None);
    assert_eq!(parse_marker_line(&chars("<!-- snips: a b -->")), None);
    assert_eq!(parse_marker_line(&chars("<!-- snips: a.rs#\u{e9} -->")), None);
    assert_eq!(parse_marker_line(&chars("<!-- snips: a.rs --> x")), None);
    assert_eq!(parse_marker_line(&chars("<!-- snips: a.rs")), None);
    assert_eq!(parse_marker_line(&chars("x <!-- snips: a.rs -->")), None);
}

#[test]
fn invalid_marker_carries_file_line_and_text() {
    let doc = "intro\n<!-- snips: -->\n```\n```\n";
    let mut disk = vec![file("docs/doc.md", doc)];
    let err = sync_snippets_in_file("docs/doc.md", false, &mut disk).unwrap_err();
    assert_eq!(
        err,
        SnipsError::InvalidMarker {
            file: "docs/doc.md".to_string(),
            line: 2,
            content: "<!-- snips: -->".to_string(),
        }
    );
    assert_eq!(
        err.message(),
        "invalid marker format in docs/doc.md:2\n  <!-- snips: -->\n  Expected format: <!-- snips: path/to/file.ext --> or <!-- snips: path/to/file.ext#snippet_name -->"
    );
}

#[test]
fn missing_fence_carries_the_marker_line() {
    let mut disk = vec![
        file("a.md", "one\ntwo\n<!-- snips: code.rs -->\nnot a fence\n"),
        file("b.md", "<!-- snips: code.rs -->"),
        file("code.rs", "x\n"),
    ];
    let err = sync_snippets_in_file("a.md", false, &mut disk).unwrap_err();
    assert_eq!(err, SnipsError::MissingCodeFence(3));
    assert_eq!(err.message(), "marker not followed by code fence: line 3");
    let err = sync_snippets_in_file("b.md", false, &mut disk).unwrap_err();
    assert_eq!(err, SnipsError::MissingCodeFence(1));
}

#[test]
fn missing_source_names_the_resolved_path() {
    let mut disk = vec![
        file("docs/guide.md", "<!-- snips: ../src/lib.rs -->\n```\n```\n"),
        file("top.md", "<!-- snips: code.rs#part -->\n```\n```\n"),
        file("/abs/doc.md", "<!-- snips: /etc/code.rs -->\n```\n```\n"),
        file("src/lib.rs", "this is not the file that the marker in docs names\n"),
    ];
    let err = sync_snippets_in_file("docs/guide.md", false, &mut disk).unwrap_err();
    assert_eq!(err, SnipsError::FileNotFound("docs/../src/lib.rs".to_string()));
    assert_eq!(err.message(), "file not found: docs/../src/lib.rs");
    let err = diff_file("top.md", &disk).unwrap_err();
    assert_eq!(err, SnipsError::FileNotFound("code.rs".to_string()));
    let err = sync_snippets_in_file("/abs/doc.md", false, &mut disk).unwrap_err();
    assert_eq!(err, SnipsError::FileNotFound("/etc/code.rs".to_string()));
}

#[test]
fn missing_document_is_file_not_found() {
    let mut disk: Vec<TextFile> = Vec::new();
    assert_eq!(
        sync_snippets_in_file_with_summary("nope.md", true, &mut disk).unwrap_err(),
        SnipsError::FileNotFound("nope.md".to_string())
    );
    assert_eq!(
        diff_file("nope.md", &disk).unwrap_err(),
        SnipsError::FileNotFound("nope.md".to_string())
    );
    assert!(disk.is_empty());
}

#[test]
fn first_failing_marker_decides_the_error() {
    let doc = "<!-- snips: gone.rs -->\n```\n```\n<!-- snips: -->\n```\n```\n";
    let mut disk = vec![file("doc.md", doc)];
    assert_eq!(
        sync_snippets_in_file("doc.md", false, &mut disk).unwrap_err(),
        SnipsError::FileNotFound("gone.rs".to_string())
    );
    assert_eq!(referenced_paths("doc.md", doc), vec!["gone.rs".to_string()]);
}

#[test]
fn referenced_paths_are_resolved_in_order() {
    let doc = "<!-- snips: a.rs -->\n```\n```\ntext\n  <!-- snips: ../b.rs#x -->\n  ```\n  ```\n";
    assert_eq!(
        referenced_paths("docs/doc.md", doc),
        vec!["docs/a.rs".to_string(), "docs/../b.rs".to_string()]
    );
    assert_eq!(referenced_paths("doc.md", "no markers\n"), Vec::<String>::new());
}

#[test]
fn indentation_is_applied_to_non_blank_lines_only() {
    assert_eq!(apply_indentation("a\n\n  b\n", "  "), "  a\n\n    b");
    assert_eq!(apply_indentation("a\n   \nb", "\t"), "\ta\n   \n\tb");
    assert_eq!(apply_indentation("a\n\n  b\n", ""), "a\n\n  b\n");
    assert_eq!(apply_indentation("", "  "), "");
}

#[test]
fn indented_block_is_rendered_exactly() {
    let doc = "- item\n\n    <!-- snips: code.rs -->\n    ```\n    old\n    ```\n";
    let mut disk = vec![file("doc.md", doc), file("code.rs", "fn a() {\n\n    b();\n}\n")];
    let rendered = sync_snippets_in_file("doc.md", false, &mut disk).unwrap().unwrap();
    assert_eq!(
        rendered,
        "- item\n\n    <!-- snips: code.rs -->\n    ```rust\n    fn a() {\n\n        b();\n    }\n    ```\n"
    );
}

#[test]
fn marker_is_written_in_normal_form() {
    let doc = "<!-- snips:   code.rs#part   -->  \n```rust\nfn a() {}\n```\n";
    let mut disk = vec![
        file("doc.md", doc),
        file("code.rs", "// snips-start: part\nfn a() {}\n// snips-end\n"),
    ];
    let summary = sync_snippets_in_file_with_summary("doc.md", false, &mut disk).unwrap();
    assert_eq!(
        summary.rendered.as_deref(),
        Some("<!-- snips: code.rs#part -->\n```rust\nfn a() {}\n```\n")
    );
    assert!(summary.updated);
    assert!(!summary.snippets[0].updated);
    assert!(diff_file("doc.md", &disk).unwrap().is_empty());
}

#[test]
fn line_that_only_resembles_a_marker_is_text() {
    let doc = "<!--snips: code.rs -->\n<!-- snip: code.rs -->\n";
    let mut disk = vec![file("doc.md", doc)];
    let summary = sync_snippets_in_file_with_summary("doc.md", false, &mut disk).unwrap();
    assert!(!summary.updated);
    assert_eq!(summary.rendered, None);
    assert!(summary.snippets.is_empty());
}

#[test]
fn fence_of_one_backtick_opens_and_closes_a_block() {
    let doc = "<!-- snips: code.rs -->\n`\nold\n```\nstill old\n `  \nafter\n";
    let lines = split_lines(&chars(doc));
    let (parsed, next) = parse_snippet_block("doc.md", &lines, 0).ok().unwrap();
    assert_eq!(parsed.old_content, "old\n```\nstill old");
    assert_eq!(next, 6);
    let mut disk = vec![file("doc.md", doc), file("code.rs", "new\n")];
    let rendered = sync_snippets_in_file("doc.md", false, &mut disk).unwrap().unwrap();
    assert_eq!(rendered, "<!-- snips: code.rs -->\n```rust\nnew\n\n```\nafter\n");
}

#[test]
fn longer_fence_is_not_closed_by_a_shorter_one() {
    let doc = "<!-- snips: code.rs -->\n````md\nold\n```\nmore\n````\nafter";
    let lines = split_lines(&chars(doc));
    let (parsed, next) = parse_snippet_block("doc.md", &lines, 0).ok().unwrap();
    assert_eq!(parsed.indent, "");
    assert_eq!(parsed.locator, SnippetLocator { path: "code.rs".to_string(), name: None });
    assert_eq!(parsed.old_content, "old\n```\nmore");
    assert_eq!(next, 6);
}

#[test]
fn unclosed_fence_runs_to_the_end() {
    let doc = "<!-- snips: code.rs -->\n```\nold\nmore";
    let lines = split_lines(&chars(doc));
    let (parsed, next) = parse_snippet_block("doc.md", &lines, 0).ok().unwrap();
    assert_eq!(parsed.old_content, "old\nmore");
    assert_eq!(next, 4);
    let mut disk = vec![file("doc.md", doc), file("code.rs", "fn main(){}\n")];
    let rendered = sync_snippets_in_file("doc.md", false, &mut disk).unwrap().unwrap();
    assert_eq!(rendered, "<!-- snips: code.rs -->\n```rust\nfn main(){}\n\n```");
}

#[test]
fn carriage_returns_before_line_feeds_are_dropped() {
    let doc = "intro\r\n<!-- snips: code.rs -->\r\n```\r\nold\r\n```\r\n";
    let mut disk = vec![file("doc.md", doc), file("code.rs", "fn main(){}\n")];
    let rendered = sync_snippets_in_file("doc.md", false, &mut disk).unwrap().unwrap();
    assert_eq!(rendered, "intro\n<!-- snips: code.rs -->\n```rust\nfn main(){}\n\n```\n");
}

#[test]
fn lines_are_split_as_documented() {
    let got: Vec<String> = split_lines(&chars("a\r\nb\n\nc\r")).into_iter().map(text).collect();
    assert_eq!(got, vec!["a", "b", "", "c\r"]);
    assert!(split_lines(&chars("")).is_empty());
    let got: Vec<String> = split_lines(&chars("\n")).into_iter().map(text).collect();
    assert_eq!(got, vec![""]);
}

#[test]
fn unicode_white_space_is_trimmed() {
    assert_eq!(text(trimmed(&chars("\u{a0}\t x y \u{3000}\u{2003}"))), "x y");
    assert_eq!(text(trimmed(&chars(" \u{2028} "))), "");
    assert_eq!(text(trimmed(&chars("\u{200b}x"))), "\u{200b}x");
}

#[test]
fn strings_and_characters_convert_both_ways() {
    assert_eq!(to_chars("a\u{e9}\u{1f600}"), vec!['a', '\u{e9}', '\u{1f600}']);
    assert_eq!(to_text(&vec!['a', '\u{e9}', '\u{1f600}']), "a\u{e9}\u{1f600}");
}

#[test]
fn language_hint_comes_from_the_extension() {
    assert_eq!(infer_language("src/main.rs").as_deref(), Some("rust"));
    assert_eq!(infer_language("a/b/script.PY").as_deref(), Some("python"));
    assert_eq!(infer_language("code.data"), None);
    assert_eq!(infer_language("Makefile"), None);
    assert_eq!(infer_language("dir.rs/file"), None);
}

#[test]
fn resolve_returns_content_and_hint() {
    let disk = vec![file("src/a.py", "    x = 1\n    y = 2\n")];
    let whole = SnippetRef { path: "src/a.py".to_string(), name: None };
    assert_eq!(
        whole.resolve(&disk).unwrap(),
        ("x = 1\ny = 2\n".to_string(), Some("python".to_string()))
    );
    let missing = SnippetRef { path: "src/b.py".to_string(), name: None };
    assert_eq!(
        missing.resolve(&disk).unwrap_err(),
        SnipsError::FileNotFound("src/b.py".to_string())
    );
    let region = SnippetRef { path: "src/a.py".to_string(), name: Some("r".to_string()) };
    assert_eq!(
        region.resolve(&disk).unwrap_err(),
        SnipsError::SnippetNotFound {
            file: "src/a.py".to_string(),
            snippet_name: "r".to_string(),
            available_snippets: "none".to_string(),
        }
    );
}

#[test]
fn first_entry_of_a_path_counts() {
    let disk = vec![file("a.txt", "first\n"), file("a.txt", "second\n")];
    let r = SnippetRef { path: "a.txt".to_string(), name: None };
    assert_eq!(r.resolve(&disk).unwrap().0, "first\n");
}

#[test]
fn paths_are_joined_and_split() {
    assert_eq!(text(resolve_path("", "a.rs")), "a.rs");
    assert_eq!(text(resolve_path("docs", "a.rs")), "docs/a.rs");
    assert_eq!(text(resolve_path("docs/", "a.rs")), "docs/a.rs");
    assert_eq!(text(resolve_path("docs", "/abs/a.rs")), "/abs/a.rs");
    assert_eq!(text(resolve_path("/", "a.rs")), "/a.rs");
    assert_eq!(parent_of("a/b/c.md"), "a/b");
    assert_eq!(parent_of("c.md"), "");
    assert_eq!(parent_of("/c.md"), "/");
    assert_eq!(opt_text(file_extension(&chars("a/b.tar.gz"))), Some("gz".to_string()));
    assert_eq!(opt_text(file_extension(&chars("a/b."))), Some("".to_string()));
    assert_eq!(file_extension(&chars(".bashrc")), None);
    assert_eq!(file_extension(&chars("a.d/file")), None);
    assert_eq!(file_extension(&chars("a.d/.hidden")), None);
}

#[test]
fn markdown_files_are_told_by_extension() {
    assert!(is_markdown("README.md"));
    assert!(is_markdown("docs/Guide.MarkDown"));
    assert!(is_markdown("a.MD"));
    assert!(!is_markdown("a.md.txt"));
    assert!(!is_markdown("md"));
    assert!(!is_markdown(".md"));
    assert!(!is_markdown("a.mdx"));
}

#[test]
fn locator_in_marker_form() {
    let with = SnippetLocator { path: "a/b.rs".to_string(), name: Some("part".to_string()) };
    let without = SnippetLocator { path: "a/b.rs".to_string(), name: None };
    assert_eq!(with.marker(), "a/b.rs#part");
    assert_eq!(without.marker(), "a/b.rs");
}

#[test]
fn every_error_has_its_message() {
    assert_eq!(SnipsError::FileNotFound("x.md".to_string()).message(), "file not found: x.md");
    assert_eq!(
        SnipsError::MissingCodeFence(1204).message(),
        "marker not followed by code fence: line 1204"
    );
    assert_eq!(
        SnipsError::NoMarkdownFiles("/tmp/x".to_string()).message(),
        "no markdown files found in /tmp/x"
    );
    assert_eq!(SnipsError::Io("denied".to_string()).message(), "IO error: denied");
    assert_eq!(text(decimal_chars(0)), "0");
    assert_eq!(text(decimal_chars(9)), "9");
    assert_eq!(text(decimal_chars(10)), "10");
    assert_eq!(text(decimal_chars(usize::MAX)), usize::MAX.to_string());
}

#[test]
fn check_files_reports_whether_all_are_clean() {
    let mut disk = vec![
        file("stale.md", STALE_DOC),
        file("fresh.md", FRESH_DOC),
        file("plain.md", "no snippets\n"),
        file("code.rs", "fn main(){}\n"),
    ];
    let clean = vec!["fresh.md".to_string(), "plain.md".to_string()];
    let mixed = vec!["fresh.md".to_string(), "stale.md".to_string(), "plain.md".to_string()];
    let broken = vec!["stale.md".to_string(), "gone.md".to_string()];
    assert_eq!(check_files(&clean, &disk), Ok(true));
    assert_eq!(check_files(&mixed, &disk), Ok(false));
    assert_eq!(check_files(&Vec::new(), &disk), Ok(true));
    assert_eq!(check_files(&broken, &disk), Err(SnipsError::FileNotFound("gone.md".to_string())));
    sync_snippets_in_file("stale.md", true, &mut disk).unwrap();
    assert_eq!(check_files(&mixed, &disk), Ok(true));
}

#[test]
fn injection_and_diffs_take_the_base_directory() {
    let disk = vec![file("lib/code.rs", "fn main(){}\n")];
    let injected = inject_snippet_content(STALE_DOC, "lib", "anywhere/doc.md", &disk).unwrap();
    assert_eq!(injected.rendered, FRESH_DOC);
    assert_eq!(injected.snippets.len(), 1);
    assert!(injected.snippets[0].updated);
    let diffs = compute_diffs(STALE_DOC, "lib/", "anywhere/doc.md", &disk).unwrap();
    assert_eq!(diffs.len(), 1);
    assert_eq!(
        compute_diffs(STALE_DOC, "", "anywhere/doc.md", &disk).unwrap_err(),
        SnipsError::FileNotFound("code.rs".to_string())
    );
}

#[test]
fn only_stale_blocks_are_diffed() {
    let doc = "<!-- snips: a.rs -->\n```rust\nfn a(){}\n```\n\n<!-- snips: b.rs -->\n```rust\nold\n```\n";
    let disk = vec![file("doc.md", doc), file("a.rs", "fn a(){}\n"), file("b.rs", "fn b(){}\n")];
    let diffs = diff_file("doc.md", &disk).unwrap();
    assert_eq!(diffs.len(), 1);
    assert_eq!(diffs[0].path, "b.rs");
    assert_eq!(diffs[0].old_content, "old");
    assert_eq!(diffs[0].new_content, "fn b(){}\n");
    let summary = render_file("doc.md", &disk).unwrap();
    let flags: Vec<bool> = summary.snippets.iter().map(|s| s.updated).collect();
    assert_eq!(flags, vec![false, true]);
}

#[test]
fn diff_can_be_empty_while_render_rewrites() {
    let doc = "<!-- snips: code.rs -->\n```rust\nfn main(){}\n```\n";
    let disk = vec![file("doc.md", doc), file("code.rs", "fn main(){}\n")];
    assert!(diff_file("doc.md", &disk).unwrap().is_empty());
    let summary = render_file("doc.md", &disk).unwrap();
    assert!(summary.updated);
    assert_eq!(summary.rendered.as_deref(), Some(FRESH_DOC));
    assert!(!summary.snippets[0].updated);
}

#[test]
fn content_that_closes_its_own_fence_does_not_settle() {
    let doc = "<!-- snips: s.data -->\n```\nold\n```\n";
    let mut disk = vec![file("doc.md", doc), file("s.data", "a\n```\nb\n")];
    let first = sync_snippets_in_file("doc.md", true, &mut disk).unwrap().unwrap();
    assert_eq!(first, "<!-- snips: s.data -->\n```\na\n```\nb\n\n```\n");
    let second = sync_snippets_in_file("doc.md", true, &mut disk).unwrap().unwrap();
    assert_eq!(second, "<!-- snips: s.data -->\n```\na\n```\nb\n\n```\nb\n\n```\n");
}

#[test]
fn rendering_twice_gives_the_same_text() {
    let doc = "# Title\n\n  <!-- snips:  lib.rs#part -->\n  ````text\n  stale\n  ````\ntail";
    let source = "fn outer() {\n    // snips-start: part\n    let a = 1;\n\n    let b = 2;\n    // snips-end\n}\n";
    let mut disk = vec![file("docs/doc.md", doc), file("docs/lib.rs", source)];
    let first = sync_snippets_in_file("docs/doc.md", true, &mut disk).unwrap().unwrap();
    assert_eq!(
        first,
        "# Title\n\n  <!-- snips: lib.rs#part -->\n  ```rust\n  let a = 1;\n\n  let b = 2;\n  ```\ntail"
    );
    let second = sync_snippets_in_file_with_summary("docs/doc.md", true, &mut disk).unwrap();
    assert!(!second.updated);
    assert_eq!(second.rendered, None);
    assert_eq!(disk[0].content, first);
    assert!(diff_file("docs/doc.md", &disk).unwrap().is_empty());
}
