//! Lines of a source text, and the joining of lines that end in a backslash.
//!
//! A physical line whose last character, white space at its end aside, is a
//! backslash is continued by the line after it. The lines joined this way are
//! the logical lines that the grammar is read from.

use vstd::prelude::*;
use crate::text::{
    append_chars,
    chars_of,
    copy_range,
    lemma_run_end,
    optional_view,
    run_end,
    scan,
    string_of,
    trim_end,
    trimmed_end,
    trimmed_length,
    CharClass,
};

verus! {

/// The views of a vector of lines.
pub open spec fn lines_view(v: Seq<Vec<char>>) -> Seq<Seq<char>> {
    v.map_values(|l: Vec<char>| l@)
}

/// `l` without a carriage return at its end.
pub open spec fn strip_carriage_return(l: Seq<char>) -> Seq<char> {
    if l.len() > 0 && l.last() == '\r' {
        l.drop_last()
    } else {
        l
    }
}

/// The lines of `s` from position `i` on. A line ends at a line feed; the
/// line feed, and a carriage return just before it, do not belong to the line.
/// What follows the last line feed is a line too, unless it is empty.
pub open spec fn lines_from(s: Seq<char>, i: int) -> Seq<Seq<char>>
    decreases s.len() - i,
{
    if i < 0 || i >= s.len() {
        Seq::empty()
    } else {
        let e = run_end(s, i, CharClass::Line);
        if e >= s.len() {
            seq![s.subrange(i, s.len() as int)]
        } else {
            proof {
                lemma_run_end(s, i, CharClass::Line);
            }
            seq![strip_carriage_return(s.subrange(i, e))] + lines_from(s, e + 1)
        }
    }
}

/// The lines of `s`.
pub open spec fn lines(s: Seq<char>) -> Seq<Seq<char>> {
    lines_from(s, 0)
}

/// Whether `s` ends in a backslash.
pub open spec fn ends_with_backslash(s: Seq<char>) -> bool {
    s.len() > 0 && s.last() == '\\'
}

/// The logical lines made of the physical lines from `i` on, where `buffer`
/// holds what the continued lines before `i` have gathered.
///
/// A line is first trimmed at its end. If it then ends in a backslash, the
/// backslash is dropped and the rest, with one space after it, is gathered.
/// Otherwise the line closes a logical line: what was gathered and the line
/// itself, trimmed at the end. What is still gathered after the last line
/// makes a logical line of its own.
pub open spec fn join_continued(lines: Seq<Seq<char>>, i: int, buffer: Seq<char>) -> Seq<Seq<char>>
    decreases lines.len() - i,
{
    if i < 0 || i >= lines.len() {
        if buffer.len() > 0 {
            seq![trim_end(buffer)]
        } else {
            Seq::empty()
        }
    } else {
        let t = trim_end(lines[i]);
        if ends_with_backslash(t) {
            join_continued(lines, i + 1, buffer + t.drop_last() + seq![' '])
        } else {
            seq![trim_end(buffer + t)] + join_continued(lines, i + 1, Seq::empty())
        }
    }
}

/// The logical lines of a source text.
pub open spec fn logical_lines(source: Seq<char>) -> Seq<Seq<char>> {
    join_continued(lines(source), 0, Seq::empty())
}

/// The text made of the given lines, each followed by a line feed.
pub open spec fn unlines(ls: Seq<Seq<char>>) -> Seq<char>
    decreases ls.len(),
{
    if ls.len() == 0 {
        Seq::empty()
    } else {
        unlines(ls.drop_last()) + ls.last() + seq!['\n']
    }
}

/// The source text with its continued lines joined.
pub open spec fn preprocess(source: Seq<char>) -> Seq<char> {
    unlines(logical_lines(source))
}

/// The line of `source` with the given number, counted from 1; 0 stands for
/// the first line too.
pub open spec fn line_at(source: Seq<char>, line_num: int) -> Option<Seq<char>> {
    let k = if line_num <= 0 {
        0
    } else {
        line_num - 1
    };
    if k < lines(source).len() {
        Some(lines(source)[k])
    } else {
        None
    }
}

/// Splits a text into its lines.
pub fn split_lines(s: &Vec<char>) -> (r: Vec<Vec<char>>)
    ensures
        lines_view(r@) == lines(s@),
{
    let mut out: Vec<Vec<char>> = Vec::new();
    let mut i: usize = 0;
    assert(lines_view(out@) + lines_from(s@, 0) =~= lines(s@));
    while i < s.len()
        invariant
            i <= s.len(),
            lines(s@) == lines_view(out@) + lines_from(s@, i as int),
        decreases s.len() - i,
    {
        let e: usize = scan(s, i, CharClass::Line);
        let ghost before = out@;
        if e >= s.len() {
            let line = copy_range(s, i, s.len());
            out.push(line);
            assert(lines_view(out@) =~= lines_view(before).push(line@));
            assert(lines_view(out@) + lines_from(s@, s@.len() as int) =~= lines_view(before)
                + lines_from(s@, i as int));
            i = s.len();
        } else {
            let end: usize = if e > i && s[e - 1] == '\r' {
                e - 1
            } else {
                e
            };
            let line = copy_range(s, i, end);
            assert(line@ =~= strip_carriage_return(s@.subrange(i as int, e as int)));
            out.push(line);
            assert(lines_view(out@) =~= lines_view(before).push(line@));
            assert(lines_view(out@) + lines_from(s@, e + 1) =~= lines_view(before) + lines_from(
                s@,
                i as int,
            ));
            i = e + 1;
        }
    }
    assert(lines_view(out@) + lines_from(s@, i as int) =~= lines_view(out@));
    out
}

/// Joins each line that ends in a backslash with the line after it.
pub fn join_continued_lines(lines: &Vec<Vec<char>>) -> (r: Vec<Vec<char>>)
    ensures
        lines_view(r@) == join_continued(lines_view(lines@), 0, Seq::empty()),
{
    let mut out: Vec<Vec<char>> = Vec::new();
    let mut buffer: Vec<char> = Vec::new();
    let mut i: usize = 0;
    let ghost all = lines_view(lines@);
    assert(lines_view(out@) + join_continued(all, 0, buffer@) =~= join_continued(
        all,
        0,
        Seq::empty(),
    ));
    while i < lines.len()
        invariant
            i <= lines.len(),
            all == lines_view(lines@),
            join_continued(all, 0, Seq::empty()) == lines_view(out@) + join_continued(
                all,
                i as int,
                buffer@,
            ),
        decreases lines.len() - i,
    {
        let line: &Vec<char> = &lines[i];
        let n: usize = trimmed_length(line);
        let ghost t = trim_end(all[i as int]);
        let ghost before = out@;
        let ghost gathered = buffer@;
        assert(all[i as int] == line@);
        if n > 0 && line[n - 1] == '\\' {
            let head = copy_range(line, 0, n - 1);
            assert(head@ =~= t.drop_last());
            append_chars(&mut buffer, &head);
            buffer.push(' ');
            assert(buffer@ =~= gathered + t.drop_last() + seq![' ']);
        } else {
            let whole = copy_range(line, 0, n);
            assert(whole@ =~= t);
            append_chars(&mut buffer, &whole);
            let joined = trimmed_end(&buffer);
            out.push(joined);
            buffer = Vec::new();
            assert(lines_view(out@) =~= lines_view(before).push(joined@));
            assert(lines_view(out@) + join_continued(all, i + 1, Seq::empty()) =~= lines_view(
                before,
            ) + join_continued(all, i as int, gathered));
        }
        i += 1;
    }
    if buffer.len() > 0 {
        let ghost before = out@;
        let joined = trimmed_end(&buffer);
        out.push(joined);
        assert(lines_view(out@) =~= lines_view(before).push(joined@));
        assert(lines_view(out@) =~= lines_view(before) + join_continued(
            all,
            i as int,
            buffer@,
        ));
    } else {
        assert(lines_view(out@) + join_continued(all, i as int, buffer@) =~= lines_view(out@));
    }
    out
}

/// The logical lines of a source text.
pub fn logical_lines_of(source: &str) -> (r: Vec<Vec<char>>)
    ensures
        lines_view(r@) == logical_lines(source@),
{
    let chars = chars_of(source);
    let physical = split_lines(&chars);
    join_continued_lines(&physical)
}

/// Joins the lines of `input` that end in a backslash with the lines after
/// them. Each logical line comes out trimmed at its end and followed by a
/// line feed.
pub fn preprocess_escaped_newlines(input: &str) -> (r: String)
    ensures
        r@ == preprocess(input@),
{
    let logical = logical_lines_of(input);
    let mut out: Vec<char> = Vec::new();
    let mut i: usize = 0;
    let ghost all = lines_view(logical@);
    while i < logical.len()
        invariant
            i <= logical.len(),
            all == lines_view(logical@),
            out@ == unlines(all.take(i as int)),
        decreases logical.len() - i,
    {
        let ghost before = out@;
        append_chars(&mut out, &logical[i]);
        out.push('\n');
        assert(all.take(i + 1).drop_last() =~= all.take(i as int));
        assert(all.take(i + 1).last() == logical@[i as int]@);
        i += 1;
    }
    assert(all.take(all.len() as int) =~= all);
    string_of(&out)
}

/// The line of `source` with the given number, counted from 1, if there is
/// one; 0 stands for the first line too.
pub fn get_line(source: &str, line_num: usize) -> (r: Option<String>)
    ensures
        optional_view(r) == line_at(source@, line_num as int),
{
    let chars = chars_of(source);
    let all = split_lines(&chars);
    let k: usize = if line_num == 0 {
        0
    } else {
        line_num - 1
    };
    if k < all.len() {
        assert(lines_view(all@)[k as int] == all@[k as int]@);
        Some(string_of(&all[k]))
    } else {
        assert(lines_view(all@).len() == all@.len());
        None
    }
}

} // verus!
