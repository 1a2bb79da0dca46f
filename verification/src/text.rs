//! Character sequences: conversion from and to strings, and the searches that
//! the parsers share.

use vstd::prelude::*;

verus! {

/// Specification of `String::push`: the character is appended to the string.
pub assume_specification[ String::push ](s: &mut String, c: char)
    ensures
        final(s)@ == old(s)@.push(c),
;

/// The view of a string that may be missing.
pub open spec fn optional_view(s: Option<String>) -> Option<Seq<char>> {
    match s {
        Some(t) => Some(t@),
        None => None,
    }
}

/// The view of a string slice that may be missing.
pub open spec fn optional_slice_view(s: Option<&str>) -> Option<Seq<char>> {
    match s {
        Some(t) => Some(t@),
        None => None,
    }
}

/// The characters of `s`, in order.
pub fn chars_of(s: &str) -> (v: Vec<char>)
    ensures
        v@ == s@,
{
    broadcast use vstd::string::axiom_spec_iter;

    let mut v: Vec<char> = Vec::new();
    for c in it: s.chars()
        invariant
            it.seq() == s@,
            v@ == it.seq().take(it.index()),
    {
        v.push(c);
    }
    v
}

/// The string made of `v[from..to]`.
pub fn string_of(v: &Vec<char>, from: usize, to: usize) -> (s: String)
    requires
        from <= to <= v.len(),
    ensures
        s@ == v@.subrange(from as int, to as int),
{
    let mut s = String::new();
    let mut i: usize = from;
    while i < to
        invariant
            from <= i <= to <= v.len(),
            s@ == v@.subrange(from as int, i as int),
        decreases to - i,
    {
        s.push(v[i]);
        i += 1;
    }
    s
}

/// The vector made of `v[from..to]`.
pub fn slice_of(v: &Vec<char>, from: usize, to: usize) -> (r: Vec<char>)
    requires
        from <= to <= v.len(),
    ensures
        r@ == v@.subrange(from as int, to as int),
{
    let mut r: Vec<char> = Vec::new();
    let mut i: usize = from;
    while i < to
        invariant
            from <= i <= to <= v.len(),
            r@ == v@.subrange(from as int, i as int),
        decreases to - i,
    {
        r.push(v[i]);
        i += 1;
    }
    r
}

/// Appends `v[from..to]` to `out`.
pub fn push_range(out: &mut Vec<char>, v: &Vec<char>, from: usize, to: usize)
    requires
        from <= to <= v.len(),
    ensures
        final(out)@ == old(out)@ + v@.subrange(from as int, to as int),
{
    let mut i: usize = from;
    while i < to
        invariant
            from <= i <= to <= v.len(),
            out@ == old(out)@ + v@.subrange(from as int, i as int),
        decreases to - i,
    {
        out.push(v[i]);
        i += 1;
    }
}

/// Whether `pattern` stands in `text` at index `at`.
pub open spec fn has_at(text: Seq<char>, at: int, pattern: Seq<char>) -> bool {
    &&& 0 <= at
    &&& at + pattern.len() <= text.len()
    &&& text.subrange(at, at + pattern.len()) == pattern
}

/// Decides [`has_at`].
pub fn starts_at(text: &Vec<char>, at: usize, pattern: &Vec<char>) -> (found: bool)
    ensures
        found == has_at(text@, at as int, pattern@),
{
    if pattern.len() > text.len() || at > text.len() - pattern.len() {
        return false;
    }
    let mut k: usize = 0;
    while k < pattern.len()
        invariant
            k <= pattern.len(),
            at + pattern.len() <= text.len(),
            forall|j: int| 0 <= j < k ==> text@[at + j] == pattern@[j],
        decreases pattern.len() - k,
    {
        if text[at + k] != pattern[k] {
            return false;
        }
        k += 1;
    }
    assert(text@.subrange(at as int, at + pattern@.len()) =~= pattern@);
    true
}

/// The first index at or after `from` at which `c` stands in `text`, or the
/// length of `text` if there is none.
pub open spec fn find_char(text: Seq<char>, from: int, c: char) -> int
    decreases text.len() - from,
{
    if from < 0 || from >= text.len() {
        text.len() as int
    } else if text[from] == c {
        from
    } else {
        find_char(text, from + 1, c)
    }
}

/// What [`find_char`] returns is the first occurrence.
pub proof fn lemma_find_char(text: Seq<char>, from: int, c: char)
    requires
        0 <= from <= text.len(),
    ensures
        from <= find_char(text, from, c) <= text.len(),
        find_char(text, from, c) < text.len() ==> text[find_char(text, from, c)] == c,
        forall|j: int| from <= j < find_char(text, from, c) ==> text[j] != c,
    decreases text.len() - from,
{
    if from < text.len() && text[from] != c {
        lemma_find_char(text, from + 1, c);
    }
}

/// Computes [`find_char`].
pub fn index_of(text: &Vec<char>, from: usize, c: char) -> (at: usize)
    requires
        from <= text.len(),
    ensures
        at == find_char(text@, from as int, c),
        from <= at <= text.len(),
{
    let mut i: usize = from;
    while i < text.len() && text[i] != c
        invariant
            from <= i <= text.len(),
            find_char(text@, from as int, c) == find_char(text@, i as int, c),
        decreases text.len() - i,
    {
        i += 1;
    }
    i
}

/// A line without the carriage return that ended it.
pub open spec fn without_return(line: Seq<char>) -> Seq<char> {
    if line.len() > 0 && line.last() == '\r' {
        line.drop_last()
    } else {
        line
    }
}

/// The lines of `text` from index `from` on. A line ends at a line feed, or
/// at a carriage return that a line feed follows; neither belongs to the line.
/// What follows the last line feed is a line if it is not empty.
pub open spec fn lines_from(text: Seq<char>, from: int) -> Seq<Seq<char>>
    decreases text.len() - from,
{
    if from < 0 || from >= text.len() {
        Seq::empty()
    } else {
        let end = find_char(text, from, '\n');
        if end >= text.len() {
            seq![text.subrange(from, text.len() as int)]
        } else {
            proof {
                lemma_find_char(text, from, '\n');
            }
            seq![without_return(text.subrange(from, end))] + lines_from(text, end + 1)
        }
    }
}

/// The lines of `text`.
pub open spec fn lines_of(text: Seq<char>) -> Seq<Seq<char>> {
    lines_from(text, 0)
}

/// The views of the vectors of `v`.
pub open spec fn views(v: Seq<Vec<char>>) -> Seq<Seq<char>> {
    Seq::new(v.len(), |i: int| v[i]@)
}

/// Splits `text` into its lines.
pub fn split_lines(text: &Vec<char>) -> (lines: Vec<Vec<char>>)
    ensures
        views(lines@) == lines_of(text@),
{
    let mut lines: Vec<Vec<char>> = Vec::new();
    let mut i: usize = 0;
    while i < text.len()
        invariant
            i <= text.len(),
            views(lines@) + lines_from(text@, i as int) == lines_of(text@),
        decreases text.len() - i,
    {
        let end = index_of(text, i, '\n');
        if end == text.len() {
            let line = slice_of(text, i, end);
            lines.push(line);
            i = end;
        } else {
            let mut stop: usize = end;
            if stop > i && text[stop - 1] == '\r' {
                stop = stop - 1;
            }
            let line = slice_of(text, i, stop);
            assert(line@ == without_return(text@.subrange(i as int, end as int)));
            lines.push(line);
            i = end + 1;
        }
    }
    lines
}

/// Whether two vectors hold the same characters.
pub fn same_chars(a: &Vec<char>, b: &Vec<char>) -> (same: bool)
    ensures
        same == (a@ == b@),
{
    if a.len() != b.len() {
        return false;
    }
    let mut i: usize = 0;
    while i < a.len()
        invariant
            i <= a.len() == b.len(),
            forall|j: int| 0 <= j < i ==> a@[j] == b@[j],
        decreases a.len() - i,
    {
        if a[i] != b[i] {
            return false;
        }
        i += 1;
    }
    assert(a@ =~= b@);
    true
}

/// The fields of `s` from index `from` on: the stretches between one
/// occurrence of `separator` and the next. There is always at least one field.
pub open spec fn fields_from(s: Seq<char>, from: int, separator: char) -> Seq<Seq<char>>
    decreases s.len() - from,
{
    let end = find_char(s, from, separator);
    if from < 0 || end >= s.len() {
        seq![s.subrange(from, s.len() as int)]
    } else {
        proof {
            lemma_find_char(s, from, separator);
        }
        seq![s.subrange(from, end)] + fields_from(s, end + 1, separator)
    }
}

/// The fields of `s`.
pub open spec fn fields_of(s: Seq<char>, separator: char) -> Seq<Seq<char>> {
    fields_from(s, 0, separator)
}

/// Splits `s` at each occurrence of `separator`.
pub fn split_fields(s: &Vec<char>, separator: char) -> (fields: Vec<Vec<char>>)
    ensures
        views(fields@) == fields_of(s@, separator),
        fields@.len() >= 1,
{
    let mut fields: Vec<Vec<char>> = Vec::new();
    let mut i: usize = 0;
    let mut done = false;
    while !done
        invariant
            i <= s.len(),
            !done ==> views(fields@) + fields_from(s@, i as int, separator) == fields_of(
                s@,
                separator,
            ),
            done ==> views(fields@) == fields_of(s@, separator) && fields@.len() >= 1,
        decreases s.len() - i + (if done { 0int } else { 1int }),
    {
        let end = index_of(s, i, separator);
        let field = slice_of(s, i, end);
        fields.push(field);
        if end == s.len() {
            done = true;
        } else {
            i = end + 1;
        }
    }
    fields
}

} // verus!
