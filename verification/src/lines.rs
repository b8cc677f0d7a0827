//! The lines of a text.
//!
//! A line ends at a line feed, or at the end of the text. The line feed is not
//! part of the line, and neither is one carriage return that stands directly
//! before it. A text that ends in a line feed has no empty line after it, and
//! the empty text has no line at all. A carriage return that no line feed
//! follows is an ordinary character.

use vstd::prelude::*;
use crate::text::{chars_of, string_of};

verus! {

/// The position of the first line feed in `s`, or `s.len()` where `s` holds
/// none.
pub open spec fn first_line_feed(s: Seq<char>) -> nat
    decreases s.len(),
{
    if s.len() == 0 || s.first() == '\n' {
        0
    } else {
        1 + first_line_feed(s.drop_first())
    }
}

/// `line` without the carriage return at its end, if it has one.
pub open spec fn without_cr(line: Seq<char>) -> Seq<char> {
    if line.len() > 0 && line.last() == '\r' {
        line.drop_last()
    } else {
        line
    }
}

/// The lines of `s`, first to last.
pub open spec fn lines_of(s: Seq<char>) -> Seq<Seq<char>>
    decreases s.len(),
{
    let feed = first_line_feed(s) as int;
    if s.len() == 0 {
        Seq::empty()
    } else if feed >= s.len() {
        seq![s]
    } else {
        seq![without_cr(s.take(feed))] + lines_of(s.skip(feed + 1))
    }
}

/// The pieces of `text` that `spans` cuts out, each span a pair of a start and
/// an end position.
pub open spec fn pieces(text: Seq<char>, spans: Seq<(usize, usize)>) -> Seq<Seq<char>> {
    Seq::new(spans.len(), |k: int| text.subrange(spans[k].0 as int, spans[k].1 as int))
}

/// `first_line_feed` is the one position before which `s` has no line feed
/// and at which it has one, or ends.
pub proof fn lemma_first_line_feed(s: Seq<char>, at: int)
    requires
        0 <= at <= s.len(),
        forall|j: int| 0 <= j < at ==> s[j] != '\n',
        at < s.len() ==> s[at] == '\n',
    ensures
        first_line_feed(s) == at,
    decreases s.len(),
{
    if at > 0 {
        let tail = s.drop_first();
        assert forall|j: int| 0 <= j < at - 1 implies tail[j] != '\n' by {
            assert(tail[j] == s[j + 1]);
        }
        lemma_first_line_feed(tail, at - 1);
    }
}

/// Where the lines of `text` start and end: one span for each line, in order.
pub fn line_spans(text: &[char]) -> (spans: Vec<(usize, usize)>)
    ensures
        pieces(text@, spans@) == lines_of(text@),
        forall|k: int|
            0 <= k < spans@.len() ==> (#[trigger] spans@[k]).0 <= spans@[k].1 <= text@.len(),
{
    let len: usize = text.len();
    let mut spans: Vec<(usize, usize)> = Vec::new();
    let mut start: usize = 0;
    let mut i: usize = 0;
    proof {
        assert(text@.skip(0) =~= text@);
        assert(pieces(text@, spans@) + lines_of(text@) =~= lines_of(text@));
    }
    while i < len
        invariant
            start <= i <= len == text@.len(),
            forall|j: int| start <= j < i ==> text@[j] != '\n',
            forall|k: int|
                0 <= k < spans@.len() ==> (#[trigger] spans@[k]).0 <= spans@[k].1 <= text@.len(),
            lines_of(text@) == pieces(text@, spans@) + lines_of(text@.skip(start as int)),
        decreases len - i,
    {
        if text[i] == '\n' {
            let end: usize = if i > start && text[i - 1] == '\r' {
                i - 1
            } else {
                i
            };
            proof {
                let rest = text@.skip(start as int);
                let feed = i - start;
                lemma_first_line_feed(rest, feed);
                assert(rest.take(feed) =~= text@.subrange(start as int, i as int));
                assert(rest.skip(feed + 1) =~= text@.skip(i + 1));
                assert(without_cr(text@.subrange(start as int, i as int)) =~= text@.subrange(
                    start as int,
                    end as int,
                ));
                assert(pieces(text@, spans@.push((start, end))) =~= pieces(text@, spans@).push(
                    text@.subrange(start as int, end as int),
                ));
                assert(pieces(text@, spans@).push(text@.subrange(start as int, end as int))
                    + lines_of(text@.skip(i + 1)) =~= pieces(text@, spans@) + (seq![
                    text@.subrange(start as int, end as int),
                ] + lines_of(text@.skip(i + 1))));
            }
            spans.push((start, end));
            start = i + 1;
        }
        i += 1;
    }
    if start < len {
        proof {
            let rest = text@.skip(start as int);
            lemma_first_line_feed(rest, rest.len() as int);
            assert(rest =~= text@.subrange(start as int, len as int));
            assert(pieces(text@, spans@.push((start, len))) =~= pieces(text@, spans@) + seq![rest]);
        }
        spans.push((start, len));
    } else {
        assert(pieces(text@, spans@) + Seq::<Seq<char>>::empty() =~= pieces(text@, spans@));
    }
    spans
}

/// The lines of `contents`, first to last.
pub fn lines(contents: &str) -> (all: Vec<String>)
    ensures
        all@.len() == lines_of(contents@).len(),
        forall|k: int| 0 <= k < all@.len() ==> all@[k]@ == lines_of(contents@)[k],
{
    let text = chars_of(contents);
    let spans = line_spans(text.as_slice());
    let mut all: Vec<String> = Vec::new();
    let mut k: usize = 0;
    while k < spans.len()
        invariant
            k <= spans@.len(),
            all@.len() == k,
            pieces(text@, spans@) == lines_of(text@),
            forall|j: int|
                0 <= j < spans@.len() ==> (#[trigger] spans@[j]).0 <= spans@[j].1 <= text@.len(),
            forall|j: int| 0 <= j < k ==> all@[j]@ == lines_of(text@)[j],
        decreases spans@.len() - k,
    {
        let (start, end) = spans[k];
        assert(pieces(text@, spans@)[k as int] == text@.subrange(start as int, end as int));
        let line = string_of(&text.as_slice()[start..end]);
        all.push(line);
        k += 1;
    }
    all
}

} // verus!
