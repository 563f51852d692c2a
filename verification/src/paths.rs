//! Paths as text: joining a marker's path to the directory of its document,
//! and reading a file name's extension.

use crate::text::{push_all, same_chars, slice_chars, to_chars, to_text};
use vstd::prelude::*;

verus! {

/// The last index below `to` at which `s` holds `c`, or -1.
pub open spec fn last_index_of(s: Seq<char>, c: char, to: int) -> int
    decreases to,
{
    if to <= 0 || to > s.len() {
        -1
    } else if s[to - 1] == c {
        to - 1
    } else {
        last_index_of(s, c, to - 1)
    }
}

/// The extension of the file that `path` names: what follows the last dot of
/// its last component, unless that dot is the component's first character.
pub open spec fn extension(path: Seq<char>) -> Option<Seq<char>> {
    let start = last_index_of(path, '/', path.len() as int) + 1;
    let dot = last_index_of(path, '.', path.len() as int);
    if dot > start {
        Some(path.subrange(dot + 1, path.len() as int))
    } else {
        None
    }
}

/// The path `rel` as seen from the directory `base`: `rel` itself when it is
/// absolute or `base` is empty, else `base`, one separator, and `rel`.
pub open spec fn joined_path(base: Seq<char>, rel: Seq<char>) -> Seq<char> {
    if (rel.len() > 0 && rel[0] == '/') || base.len() == 0 {
        rel
    } else if base.last() == '/' {
        base + rel
    } else {
        base + seq!['/'] + rel
    }
}

/// The directory that holds the file `path`: what stands before the last
/// separator of `path`; the root itself for a file directly under it; the
/// empty path, which stands for the current directory, when `path` holds no
/// separator.
pub open spec fn parent_dir(path: Seq<char>) -> Seq<char> {
    let k = last_index_of(path, '/', path.len() as int);
    if k < 0 {
        Seq::empty()
    } else if k == 0 {
        seq!['/']
    } else {
        path.subrange(0, k)
    }
}

/// The lower-case form of an ASCII letter, and any other character as it is.
pub open spec fn ascii_lower(c: char) -> char {
    if 'A' <= c && c <= 'Z' {
        ((c as u8) + 32) as char
    } else {
        c
    }
}

/// Whether `path` names a markdown file: its extension is `md` or
/// `markdown`, in any mix of upper and lower case.
pub open spec fn names_markdown(path: Seq<char>) -> bool {
    match extension(path) {
        Some(ext) => {
            let low = ext.map_values(|c: char| ascii_lower(c));
            low == "md"@ || low == "markdown"@
        },
        None => false,
    }
}

/// The last index at which `v` holds `c`.
fn find_last(v: &Vec<char>, c: char) -> (r: Option<usize>)
    ensures
        match r {
            Some(i) => i == last_index_of(v@, c, v.len() as int) && i < v.len(),
            None => last_index_of(v@, c, v.len() as int) == -1,
        },
{
    let mut to: usize = v.len();
    while to > 0
        invariant
            to <= v.len(),
            last_index_of(v@, c, v.len() as int) == last_index_of(v@, c, to as int),
        decreases to,
    {
        if v[to - 1] == c {
            return Some(to - 1);
        }
        to -= 1;
    }
    None
}

/// The extension of the file that `path` names.
pub fn file_extension(path: &Vec<char>) -> (r: Option<Vec<char>>)
    ensures
        match r {
            Some(e) => extension(path@) == Some(e@),
            None => extension(path@) is None,
        },
{
    let start: usize = match find_last(path, '/') {
        Some(i) => i + 1,
        None => 0,
    };
    match find_last(path, '.') {
        Some(dot) => {
            if dot > start {
                Some(slice_chars(path, dot + 1, path.len()))
            } else {
                None
            }
        },
        None => None,
    }
}

/// Resolves the path `rel` of a marker against `base`, the directory of the
/// document that holds the marker.
pub fn resolve_path(base: &str, rel: &str) -> (r: Vec<char>)
    ensures
        r@ == joined_path(base@, rel@),
{
    let b = to_chars(base);
    let p = to_chars(rel);
    if (p.len() > 0 && p[0] == '/') || b.len() == 0 {
        p
    } else {
        let mut out = b;
        if out[out.len() - 1] != '/' {
            out.push('/');
        }
        push_all(&mut out, &p);
        out
    }
}

/// The directory that holds the file `path`.
pub fn parent_of(path: &str) -> (r: String)
    ensures
        r@ == parent_dir(path@),
{
    let p = to_chars(path);
    match find_last(&p, '/') {
        None => String::new(),
        Some(k) => {
            if k == 0 {
                let mut root: Vec<char> = Vec::new();
                root.push('/');
                to_text(&root)
            } else {
                to_text(&slice_chars(&p, 0, k))
            }
        },
    }
}

/// The lower-case form of an ASCII letter, and any other character as it is.
fn lower(c: char) -> (r: char)
    ensures
        r == ascii_lower(c),
{
    if 'A' <= c && c <= 'Z' {
        ((c as u8) + 32) as char
    } else {
        c
    }
}

/// Determines whether `path` points to a markdown file.
pub fn is_markdown(path: &str) -> (b: bool)
    ensures
        b == names_markdown(path@),
{
    let p = to_chars(path);
    match file_extension(&p) {
        Some(ext) => {
            let mut low: Vec<char> = Vec::new();
            let mut i: usize = 0;
            while i < ext.len()
                invariant
                    i <= ext.len(),
                    low@ == ext@.take(i as int).map_values(|c: char| ascii_lower(c)),
                decreases ext.len() - i,
            {
                low.push(lower(ext[i]));
                assert(ext@.take(i + 1).map_values(|c: char| ascii_lower(c)) == ext@.take(
                    i as int,
                ).map_values(|c: char| ascii_lower(c)).push(ascii_lower(ext@[i as int])));
                i += 1;
            }
            assert(ext@.take(ext.len() as int) == ext@);
            let md = to_chars("md");
            let markdown = to_chars("markdown");
            same_chars(&low, &md) || same_chars(&low, &markdown)
        },
        None => false,
    }
}

} // verus!
