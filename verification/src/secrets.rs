//! Reading `.env`, and saying so when it will not read.
//!
//! `dotenvy` stops at the **first** line it cannot parse and hands back only
//! what was left of that line — the VALUE, never the name. This turns it back
//! into a line number and a name, which are safe to say out loud.

use vstd::prelude::*;

use crate::text::{
    chars_of, ends_with, ends_with_chars, index_of, lemma_index_of_is, lemma_next_line, lines,
    next_of, take_chars, text_of, trim, trim_end, trim_start, trimmed_end, trimmed_start,
    without_cr,
};

verus! {

/// A line that sets a value ending in `rest`.
pub open spec fn line_matches(line: Seq<char>, rest: Seq<char>) -> bool {
    line.contains('=') && ends_with(trim_end(line), trim_end(rest))
}

/// The part of a line before its first `=`.
pub open spec fn name_part(line: Seq<char>) -> Seq<char> {
    match index_of(line, '=') {
        Some(i) => line.take(i),
        None => line,
    }
}

/// Whether a line sets a value ending in `want` (already trimmed), and if
/// so the name it sets.
fn name_if_it_ends_in(line: &Vec<char>, want: &Vec<char>) -> (name: Option<Vec<char>>)
    ensures
        name matches Some(n) ==> line@.contains('=') && ends_with(trim_end(line@), want@) && n@
            == trim(name_part(line@)),
        name is None ==> !(line@.contains('=') && ends_with(trim_end(line@), want@)),
{
    let eq = next_of(line, '=', 0);
    if eq == line.len() {
        assert(!line@.contains('='));
        return None;
    }
    assert(line@.contains('=')) by {
        assert(line@[eq as int] == '=');
    }
    let kept = trimmed_end(line.as_slice());
    let trimmed = take_chars(line.as_slice(), 0, kept);
    assert(trimmed@ == trim_end(line@)) by {
        assert(line@.take(kept as int) == line@.subrange(0, kept as int));
    }
    if !ends_with_chars(trimmed.as_slice(), want.as_slice()) {
        return None;
    }
    proof {
        lemma_index_of_is(line@, '=', eq as int);
    }
    let before = take_chars(line.as_slice(), 0, eq);
    assert(before@ == name_part(line@));
    let end = trimmed_end(before.as_slice());
    let ended = take_chars(before.as_slice(), 0, end);
    assert(ended@ == trim_end(before@)) by {
        assert(before@.take(end as int) == before@.subrange(0, end as int));
    }
    let start = trimmed_start(ended.as_slice());
    let name = take_chars(ended.as_slice(), start, ended.len());
    assert(name@ == trim(before@)) by {
        assert(ended@.skip(start as int) == ended@.subrange(start as int, ended@.len() as int));
    }
    Some(name)
}

/// Which line ends with `rest`, and what that line is called.
///
/// The first line that sets something (it holds an `=`) and, with white
/// space trimmed from the ends of both, ends with `rest`. Its number counts
/// from one, and the name is what comes before its first `=`, trimmed.
///
/// **Only the name comes back, never the value.**
pub fn found_in(text: &str, rest: &str) -> (r: Option<(usize, String)>)
    ensures
        match r {
            None => forall|i: int|
                0 <= i < lines(text@).len() ==> !line_matches(#[trigger] lines(text@)[i], rest@),
            Some((n, name)) => {
                &&& 1 <= n <= lines(text@).len()
                &&& line_matches(lines(text@)[n - 1], rest@)
                &&& forall|i: int| 0 <= i < n - 1 ==> !line_matches(#[trigger] lines(text@)[i], rest@)
                &&& name@ == trim(name_part(lines(text@)[n - 1]))
            },
        },
{
    let chars = chars_of(text);
    let asked = chars_of(rest);
    let kept = trimmed_end(asked.as_slice());
    let want = take_chars(asked.as_slice(), 0, kept);
    assert(want@ == trim_end(rest@)) by {
        assert(asked@.take(kept as int) == asked@.subrange(0, kept as int));
    }

    let mut start: usize = 0;
    let mut n: usize = 0;
    let ghost mut seen: Seq<Seq<char>> = Seq::empty();
    assert(chars@.skip(0) == chars@);

    while start < chars.len()
        invariant
            chars@ == text@,
            want@ == trim_end(rest@),
            0 <= start <= chars@.len(),
            lines(chars@) == seen + lines(chars@.skip(start as int)),
            seen.len() == n,
            n <= start,
            forall|i: int| 0 <= i < n ==> !line_matches(#[trigger] seen[i], rest@),
        decreases chars@.len() - start,
    {
        let newline = next_of(&chars, '\n', start);
        let mut end = newline;
        if newline < chars.len() && end > start && chars[end - 1] == '\r' {
            end = end - 1;
        }
        let line = take_chars(chars.as_slice(), start, end);
        let next = if newline < chars.len() { newline + 1 } else { newline };
        proof {
            lemma_next_line(chars@, start as int, newline as int);
            if newline < chars@.len() {
                let whole = chars@.subrange(start as int, newline as int);
                if whole.len() > 0 && whole.last() == '\r' {
                    assert(whole.drop_last() == line@);
                } else {
                    assert(whole == line@);
                }
                assert(without_cr(whole) == line@);
            }
            assert(lines(chars@.skip(start as int)) == seq![line@] + lines(chars@.skip(next as int)));
            assert(lines(chars@) == seen.push(line@) + lines(chars@.skip(next as int)));
            assert(lines(chars@)[n as int] == line@);
        }
        match name_if_it_ends_in(&line, &want) {
            Some(name) => {
                return Some((n + 1, text_of(name.as_slice())));
            },
            None => {},
        }
        proof {
            seen = seen.push(line@);
        }
        n = n + 1;
        start = next;
    }
    assert(chars@.skip(start as int).len() == 0);
    assert(lines(chars@) == seen);
    None
}

} // verus!
