//! Characters, lines and trimming: the text primitives the scanners are built on.

use vstd::prelude::*;

verus! {

/// Whether `c` is white space in the sense of Unicode's `White_Space` property.
pub open spec fn is_whitespace(c: char) -> bool {
    let n = c as u32;
    (0x09 <= n && n <= 0x0D) || n == 0x20 || n == 0x85 || n == 0xA0 || n == 0x1680 || (0x2000 <= n
        && n <= 0x200A) || n == 0x2028 || n == 0x2029 || n == 0x202F || n == 0x205F || n == 0x3000
}

/// Whether `c` may occur in a region identifier: an ASCII letter or digit, `_` or `-`.
pub open spec fn is_id_char(c: char) -> bool {
    ('a' <= c && c <= 'z') || ('A' <= c && c <= 'Z') || ('0' <= c && c <= '9') || c == '_' || c
        == '-'
}

/// Tells whether `c` is white space.
pub fn char_is_whitespace(c: char) -> (b: bool)
    ensures
        b == is_whitespace(c),
{
    let n: u32 = c as u32;
    (0x09 <= n && n <= 0x0D) || n == 0x20 || n == 0x85 || n == 0xA0 || n == 0x1680 || (0x2000 <= n
        && n <= 0x200A) || n == 0x2028 || n == 0x2029 || n == 0x202F || n == 0x205F || n == 0x3000
}

/// Tells whether `c` may occur in a region identifier.
pub fn char_is_id(c: char) -> (b: bool)
    ensures
        b == is_id_char(c),
{
    ('a' <= c && c <= 'z') || ('A' <= c && c <= 'Z') || ('0' <= c && c <= '9') || c == '_' || c
        == '-'
}

/// The characters of `s`, in order.
pub fn to_chars(s: &str) -> (v: Vec<char>)
    ensures
        v@ == s@,
{
    let mut v: Vec<char> = Vec::new();
    for c in it: s.chars()
        invariant
            v@ == it.seq().take(it.index() as int),
            it.seq() == s@,
    {
        v.push(c);
    }
    v
}

/// Appends one character to a string.
///
/// Trusted: this is `String::push` of the standard library, which appends
/// the given character to the end of the string.
#[verifier::external_body]
fn push_char(s: &mut String, c: char)
    ensures
        final(s)@ == old(s)@.push(c),
{
    s.push(c);
}

/// The string made of the characters of `v`, in order.
pub fn to_text(v: &Vec<char>) -> (s: String)
    ensures
        s@ == v@,
{
    let mut s = String::new();
    let mut i: usize = 0;
    while i < v.len()
        invariant
            i <= v.len(),
            s@ == v@.take(i as int),
        decreases v.len() - i,
    {
        push_char(&mut s, v[i]);
        i += 1;
    }
    s
}

/// Appends the characters of `s` to `out`.
pub fn push_str(out: &mut Vec<char>, s: &str)
    ensures
        final(out)@ == old(out)@ + s@,
{
    let cs = to_chars(s);
    push_all(out, &cs);
}

/// Appends the characters of `more` to `out`.
pub fn push_all(out: &mut Vec<char>, more: &Vec<char>)
    ensures
        final(out)@ == old(out)@ + more@,
{
    let mut i: usize = 0;
    while i < more.len()
        invariant
            i <= more.len(),
            out@ == old(out)@ + more@.take(i as int),
        decreases more.len() - i,
    {
        out.push(more[i]);
        i += 1;
    }
}

/// A copy of the characters of `v` from `from` up to `to`.
pub fn slice_chars(v: &Vec<char>, from: usize, to: usize) -> (r: Vec<char>)
    requires
        from <= to <= v.len(),
    ensures
        r@ == v@.subrange(from as int, to as int),
{
    let mut r: Vec<char> = Vec::new();
    let mut i: usize = from;
    while i < to
        invariant
            from <= i <= to <= v.len(),
            r@ == v@.subrange(from as int, i as int),
        decreases to - i,
    {
        r.push(v[i]);
        i += 1;
    }
    r
}

/// The first index at or after `from` that holds no white space, or the
/// length of `s` when only white space follows.
pub open spec fn skip_whitespace(s: Seq<char>, from: int) -> int
    decreases s.len() - from,
{
    if 0 <= from < s.len() && is_whitespace(s[from]) {
        skip_whitespace(s, from + 1)
    } else {
        from
    }
}

/// The end of `s[..to]` once the white space at its end is cut off.
pub open spec fn trim_end_index(s: Seq<char>, to: int) -> int
    decreases to,
{
    if 0 < to <= s.len() && is_whitespace(s[to - 1]) {
        trim_end_index(s, to - 1)
    } else {
        to
    }
}

/// `s` without the white space at its start and at its end.
pub open spec fn trim(s: Seq<char>) -> Seq<char> {
    let a = skip_whitespace(s, 0);
    let b = trim_end_index(s, s.len() as int);
    if a < b {
        s.subrange(a, b)
    } else {
        Seq::empty()
    }
}

/// Whether `s` holds nothing but white space.
pub open spec fn is_blank(s: Seq<char>) -> bool {
    skip_whitespace(s, 0) == s.len()
}

/// Whether `pat` stands in `s` at index `at`.
pub open spec fn matches_at(s: Seq<char>, at: int, pat: Seq<char>) -> bool {
    0 <= at && at + pat.len() <= s.len() && s.subrange(at, at + pat.len()) == pat
}

/// The first index at or after `from` that holds no white space.
pub fn skip_ws(v: &Vec<char>, from: usize) -> (r: usize)
    requires
        from <= v.len(),
    ensures
        r == skip_whitespace(v@, from as int),
        from <= r <= v.len(),
{
    let mut i: usize = from;
    while i < v.len() && char_is_whitespace(v[i])
        invariant
            from <= i <= v.len(),
            skip_whitespace(v@, from as int) == skip_whitespace(v@, i as int),
        decreases v.len() - i,
    {
        i += 1;
    }
    i
}

/// The end of `v[..to]` once the white space at its end is cut off.
pub fn trim_end_at(v: &Vec<char>, to: usize) -> (r: usize)
    requires
        to <= v.len(),
    ensures
        r == trim_end_index(v@, to as int),
        r <= to,
{
    let mut i: usize = to;
    while i > 0 && char_is_whitespace(v[i - 1])
        invariant
            i <= to <= v.len(),
            trim_end_index(v@, to as int) == trim_end_index(v@, i as int),
        decreases i,
    {
        i -= 1;
    }
    i
}

/// The trimmed copy of `v`.
pub fn trimmed(v: &Vec<char>) -> (r: Vec<char>)
    ensures
        r@ == trim(v@),
{
    let a = skip_ws(v, 0);
    let b = trim_end_at(v, v.len());
    if a < b {
        slice_chars(v, a, b)
    } else {
        Vec::new()
    }
}

/// Tells whether `v` holds nothing but white space.
pub fn line_is_blank(v: &Vec<char>) -> (b: bool)
    ensures
        b == is_blank(v@),
{
    skip_ws(v, 0) == v.len()
}

/// Tells whether `pat` stands in `v` at index `at`.
pub fn has_at(v: &Vec<char>, at: usize, pat: &Vec<char>) -> (b: bool)
    requires
        at <= v.len(),
    ensures
        b == matches_at(v@, at as int, pat@),
{
    if pat.len() > v.len() - at {
        return false;
    }
    let mut i: usize = 0;
    while i < pat.len()
        invariant
            i <= pat.len(),
            at + pat.len() <= v.len(),
            v@.subrange(at as int, at + i) == pat@.take(i as int),
        decreases pat.len() - i,
    {
        if v[at + i] != pat[i] {
            assert(v@.subrange(at as int, at + pat.len())[i as int] != pat@[i as int]);
            return false;
        }
        assert(v@.subrange(at as int, at + i + 1) == v@.subrange(at as int, at + i).push(
            v@[at + i],
        ));
        assert(pat@.take(i + 1) == pat@.take(i as int).push(pat@[i as int]));
        i += 1;
    }
    assert(pat@.take(pat.len() as int) == pat@);
    true
}

/// Whether two texts hold the same characters.
pub fn same_chars(a: &Vec<char>, b: &Vec<char>) -> (r: bool)
    ensures
        r == (a@ == b@),
{
    if a.len() != b.len() {
        return false;
    }
    let r = has_at(a, 0, b);
    assert(a@.subrange(0, a.len() as int) == a@);
    r
}

/// `line` without a carriage return at its end.
pub open spec fn strip_cr(line: Seq<char>) -> Seq<char> {
    if line.len() > 0 && line.last() == '\r' {
        line.drop_last()
    } else {
        line
    }
}

/// The lines of `s` that are still to come when the current line began at
/// `start` and the scan stands at `i`.
pub open spec fn lines_scan(s: Seq<char>, start: int, i: int) -> Seq<Seq<char>>
    decreases s.len() - i,
{
    if i >= s.len() {
        if 0 <= start < s.len() {
            seq![s.subrange(start, s.len() as int)]
        } else {
            Seq::empty()
        }
    } else if i >= 0 && s[i] == '\n' {
        seq![strip_cr(s.subrange(start, i))] + lines_scan(s, i + 1, i + 1)
    } else {
        lines_scan(s, start, i + 1)
    }
}

/// The lines of `s`. A line ends at a line feed, or at a carriage return
/// directly followed by one; the line ending is not part of the line, and a
/// line ending at the very end of `s` opens no further line.
pub open spec fn lines(s: Seq<char>) -> Seq<Seq<char>> {
    lines_scan(s, 0, 0)
}

/// The texts that a sequence of character vectors holds.
pub open spec fn views(ls: Seq<Vec<char>>) -> Seq<Seq<char>> {
    ls.map_values(|l: Vec<char>| l@)
}

/// The texts of `ls`, with `sep` between each two neighbours.
pub open spec fn join_with(ls: Seq<Seq<char>>, sep: Seq<char>) -> Seq<char>
    decreases ls.len(),
{
    if ls.len() == 0 {
        Seq::empty()
    } else if ls.len() == 1 {
        ls[0]
    } else {
        join_with(ls.drop_last(), sep) + sep + ls.last()
    }
}

/// The one-character text that separates lines.
pub open spec fn newline() -> Seq<char> {
    seq!['\n']
}

/// Splits `v` into its lines.
pub fn split_lines(v: &Vec<char>) -> (out: Vec<Vec<char>>)
    ensures
        views(out@) == lines(v@),
{
    let mut out: Vec<Vec<char>> = Vec::new();
    let mut start: usize = 0;
    let mut i: usize = 0;
    while i < v.len()
        invariant
            start <= i <= v.len(),
            lines(v@) == views(out@) + lines_scan(v@, start as int, i as int),
        decreases v.len() - i,
    {
        if v[i] == '\n' {
            let end: usize = if i > start && v[i - 1] == '\r' {
                i - 1
            } else {
                i
            };
            let line = slice_chars(v, start, end);
            assert(line@ == strip_cr(v@.subrange(start as int, i as int)));
            proof {
                let ghost before = out@;
                assert(views(before.push(line)) == views(before) + seq![line@]);
            }
            out.push(line);
            start = i + 1;
        }
        i += 1;
    }
    if start < v.len() {
        let line = slice_chars(v, start, v.len());
        proof {
            let ghost before = out@;
            assert(views(before.push(line)) == views(before) + seq![line@]);
        }
        out.push(line);
    }
    out
}

/// Joins the lines `ls[from..to]` with `sep`.
pub fn join_range(ls: &Vec<Vec<char>>, from: usize, to: usize, sep: &Vec<char>) -> (out: Vec<char>)
    requires
        from <= to <= ls.len(),
    ensures
        out@ == join_with(views(ls@).subrange(from as int, to as int), sep@),
{
    let mut out: Vec<char> = Vec::new();
    let mut i: usize = from;
    while i < to
        invariant
            from <= i <= to <= ls.len(),
            out@ == join_with(views(ls@).subrange(from as int, i as int), sep@),
        decreases to - i,
    {
        if i > from {
            push_all(&mut out, sep);
        }
        push_all(&mut out, &ls[i]);
        proof {
            let next = views(ls@).subrange(from as int, i + 1);
            assert(next.drop_last() == views(ls@).subrange(from as int, i as int));
            assert(next.last() == ls@[i as int]@);
        }
        i += 1;
    }
    out
}

/// Joins all of `ls` with `sep`.
pub fn join_all(ls: &Vec<Vec<char>>, sep: &Vec<char>) -> (out: Vec<char>)
    ensures
        out@ == join_with(views(ls@), sep@),
{
    assert(views(ls@).subrange(0, ls.len() as int) == views(ls@));
    join_range(ls, 0, ls.len(), sep)
}

/// The line separator as characters.
pub fn newline_chars() -> (v: Vec<char>)
    ensures
        v@ == newline(),
{
    let mut v: Vec<char> = Vec::new();
    v.push('\n');
    v
}

} // verus!
