//! Keeps fenced code blocks in documentation synchronized with the source
//! files they quote.
//!
//! A document names a source file, and optionally a region of it, in a marker
//! line; the fenced block that follows the marker holds a copy of that text.
//! This crate scans documents, extracts the quoted text and re-renders the
//! blocks. It works on text that is already in memory: callers read the files
//! and hand their contents over as [`TextFile`] values.

/// Error definitions used across the crate.
pub mod error;
/// Laws of rendering.
pub mod laws;
/// The marker grammar and the block behind a marker.
pub mod marker;
/// Paths as text.
pub mod paths;
/// Core processing logic for scanning and updating markdown files.
pub mod processor;
/// Helpers for locating and extracting snippets from source files.
pub mod snippet;
/// Characters, lines and trimming.
pub mod text;

pub use error::SnipsError;
pub use processor::{
    check_files, diff_file, sync_snippets_in_file, sync_snippets_in_file_with_summary,
    RenderSummary, SnippetDiff, SnippetLocator, SnippetReport,
};
pub use snippet::TextFile;
