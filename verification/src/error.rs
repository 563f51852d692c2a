//! The errors that scanning a document or a source file can end in.

use crate::text::{push_all, push_str, to_text};
use vstd::prelude::*;

verus! {

/// Errors produced while processing snippets.
#[derive(Debug, Clone, PartialEq, Eq)]
pub enum SnipsError {
    /// A referenced file is not among the files at hand.
    FileNotFound(String),
    /// A marker was not followed by a fenced code block; holds the marker's
    /// one-based line number.
    MissingCodeFence(usize),
    /// A marker does not match the expected syntax.
    InvalidMarker {
        /// Document that holds the marker.
        file: String,
        /// One-based line number of the marker.
        line: usize,
        /// Full text of the offending line.
        content: String,
    },
    /// A requested snippet name is missing from the source file.
    SnippetNotFound {
        /// Source file that was scanned for the snippet.
        file: String,
        /// Name of the missing snippet.
        snippet_name: String,
        /// The snippet names the file declares, separated by commas, or `none`.
        available_snippets: String,
    },
    /// A snippet start marker was found without a matching end marker; holds
    /// the source file and the snippet name.
    UnterminatedSnippet(String, String),
    /// No markdown files were found in the named directory.
    NoMarkdownFiles(String),
    /// Any other failure of the file system, as its message.
    Io(String),
}

/// What a [`SnipsError`] holds, as mathematical values.
pub enum ErrorView {
    FileNotFound(Seq<char>),
    MissingCodeFence(nat),
    InvalidMarker { file: Seq<char>, line: nat, content: Seq<char> },
    SnippetNotFound { file: Seq<char>, snippet_name: Seq<char>, available_snippets: Seq<char> },
    UnterminatedSnippet(Seq<char>, Seq<char>),
    NoMarkdownFiles(Seq<char>),
    Io(Seq<char>),
}

impl View for SnipsError {
    type V = ErrorView;

    open spec fn view(&self) -> ErrorView {
        match self {
            SnipsError::FileNotFound(p) => ErrorView::FileNotFound(p@),
            SnipsError::MissingCodeFence(n) => ErrorView::MissingCodeFence(*n as nat),
            SnipsError::InvalidMarker { file, line, content } => ErrorView::InvalidMarker {
                file: file@,
                line: *line as nat,
                content: content@,
            },
            SnipsError::SnippetNotFound {
                file,
                snippet_name,
                available_snippets,
            } => ErrorView::SnippetNotFound {
                file: file@,
                snippet_name: snippet_name@,
                available_snippets: available_snippets@,
            },
            SnipsError::UnterminatedSnippet(f, n) => ErrorView::UnterminatedSnippet(f@, n@),
            SnipsError::NoMarkdownFiles(d) => ErrorView::NoMarkdownFiles(d@),
            SnipsError::Io(m) => ErrorView::Io(m@),
        }
    }
}

/// The decimal digit that stands for `d`.
pub open spec fn digit(d: nat) -> char {
    if d == 0 {
        '0'
    } else if d == 1 {
        '1'
    } else if d == 2 {
        '2'
    } else if d == 3 {
        '3'
    } else if d == 4 {
        '4'
    } else if d == 5 {
        '5'
    } else if d == 6 {
        '6'
    } else if d == 7 {
        '7'
    } else if d == 8 {
        '8'
    } else {
        '9'
    }
}

/// `n` written in decimal, without leading zeros.
pub open spec fn decimal(n: nat) -> Seq<char>
    decreases n,
{
    if n < 10 {
        seq![digit(n)]
    } else {
        decimal(n / 10).push(digit(n % 10))
    }
}

/// The message that describes `e`.
pub open spec fn message_text(e: ErrorView) -> Seq<char> {
    match e {
        ErrorView::FileNotFound(p) => "file not found: "@ + p,
        ErrorView::MissingCodeFence(n) => "marker not followed by code fence: line "@ + decimal(n),
        ErrorView::InvalidMarker { file, line, content } => "invalid marker format in "@ + file
            + ":"@ + decimal(line) + "\n  "@ + content
            + "\n  Expected format: <!-- snips: path/to/file.ext --> or <!-- snips: path/to/file.ext#snippet_name -->"@,
        ErrorView::SnippetNotFound { file, snippet_name, available_snippets } => "snippet `"@
            + snippet_name + "` not found in "@ + file + "\nAvailable snippets: "@
            + available_snippets,
        ErrorView::UnterminatedSnippet(f, n) => "unterminated snippet `"@ + n + "` in "@ + f,
        ErrorView::NoMarkdownFiles(d) => "no markdown files found in "@ + d,
        ErrorView::Io(m) => "IO error: "@ + m,
    }
}

/// The decimal digit that stands for `d`.
fn digit_char(d: usize) -> (c: char)
    requires
        d < 10,
    ensures
        c == digit(d as nat),
{
    if d == 0 {
        '0'
    } else if d == 1 {
        '1'
    } else if d == 2 {
        '2'
    } else if d == 3 {
        '3'
    } else if d == 4 {
        '4'
    } else if d == 5 {
        '5'
    } else if d == 6 {
        '6'
    } else if d == 7 {
        '7'
    } else if d == 8 {
        '8'
    } else {
        '9'
    }
}

/// The decimal digits of `n`.
pub fn decimal_chars(n: usize) -> (v: Vec<char>)
    ensures
        v@ == decimal(n as nat),
    decreases n,
{
    if n < 10 {
        let mut v: Vec<char> = Vec::new();
        v.push(digit_char(n));
        v
    } else {
        let mut v = decimal_chars(n / 10);
        v.push(digit_char(n % 10));
        v
    }
}

impl SnipsError {
    /// The message that describes this error.
    pub fn message(&self) -> (s: String)
        ensures
            s@ == message_text(self@),
    {
        let mut out: Vec<char> = Vec::new();
        match self {
            SnipsError::FileNotFound(p) => {
                push_str(&mut out, "file not found: ");
                push_str(&mut out, p.as_str());
            },
            SnipsError::MissingCodeFence(n) => {
                push_str(&mut out, "marker not followed by code fence: line ");
                push_all(&mut out, &decimal_chars(*n));
            },
            SnipsError::InvalidMarker { file, line, content } => {
                push_str(&mut out, "invalid marker format in ");
                push_str(&mut out, file.as_str());
                push_str(&mut out, ":");
                push_all(&mut out, &decimal_chars(*line));
                push_str(&mut out, "\n  ");
                push_str(&mut out, content.as_str());
                push_str(
                    &mut out,
                    "\n  Expected format: <!-- snips: path/to/file.ext --> or <!-- snips: path/to/file.ext#snippet_name -->",
                );
            },
            SnipsError::SnippetNotFound { file, snippet_name, available_snippets } => {
                push_str(&mut out, "snippet `");
                push_str(&mut out, snippet_name.as_str());
                push_str(&mut out, "` not found in ");
                push_str(&mut out, file.as_str());
                push_str(&mut out, "\nAvailable snippets: ");
                push_str(&mut out, available_snippets.as_str());
            },
            SnipsError::UnterminatedSnippet(f, n) => {
                push_str(&mut out, "unterminated snippet `");
                push_str(&mut out, n.as_str());
                push_str(&mut out, "` in ");
                push_str(&mut out, f.as_str());
            },
            SnipsError::NoMarkdownFiles(d) => {
                push_str(&mut out, "no markdown files found in ");
                push_str(&mut out, d.as_str());
            },
            SnipsError::Io(m) => {
                push_str(&mut out, "IO error: ");
                push_str(&mut out, m.as_str());
            },
        }
        to_text(&out)
    }
}

} // verus!
