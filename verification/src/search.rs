//! The matcher: the lines of a text that contain a query.

use vstd::prelude::*;
use crate::fold::{lowercase, to_lowercase};
use crate::lines::{line_spans, lines_of, pieces};
use crate::text::{chars_of, is_substring, lemma_empty_is_substring, occurs_in, string_of};

verus! {

/// One matching line as the contracts see it: its position among the lines of
/// the text, counted from zero, and its characters.
pub struct MatchLine {
    pub line_number: nat,
    pub line_text: Seq<char>,
}

/// One matching line: its text, without the line ending, and its position
/// among the lines of the text, counted from zero.
#[derive(Debug)]
pub struct SearchResult {
    line_text: String,
    line_number: usize,
}

impl View for SearchResult {
    type V = MatchLine;

    closed spec fn view(&self) -> MatchLine {
        MatchLine { line_number: self.line_number as nat, line_text: self.line_text@ }
    }
}

impl DeepView for SearchResult {
    type V = MatchLine;

    open spec fn deep_view(&self) -> MatchLine {
        self@
    }
}

/// Whether `line` counts as a match for `query`: it contains the query as a
/// literal substring, both taken as they are or, with `ignore_case`, both in
/// their lowercase form.
pub open spec fn line_matches(query: Seq<char>, line: Seq<char>, ignore_case: bool) -> bool {
    if ignore_case {
        is_substring(lowercase(query), lowercase(line))
    } else {
        is_substring(query, line)
    }
}

/// The matching lines among `lines`, in order, each with its position in
/// `lines`.
pub open spec fn matching_among(query: Seq<char>, lines: Seq<Seq<char>>, ignore_case: bool) -> Seq<
    MatchLine,
>
    decreases lines.len(),
{
    if lines.len() == 0 {
        Seq::empty()
    } else {
        let before = matching_among(query, lines.drop_last(), ignore_case);
        if line_matches(query, lines.last(), ignore_case) {
            before.push(
                MatchLine { line_number: (lines.len() - 1) as nat, line_text: lines.last() },
            )
        } else {
            before
        }
    }
}

/// The matching lines of the text `contents`.
pub open spec fn matching_lines(query: Seq<char>, contents: Seq<char>, ignore_case: bool) -> Seq<
    MatchLine,
> {
    matching_among(query, lines_of(contents), ignore_case)
}

/// Every line of `lines`, each with its position.
pub open spec fn numbered(lines: Seq<Seq<char>>) -> Seq<MatchLine> {
    Seq::new(lines.len(), |k: int| MatchLine { line_number: k as nat, line_text: lines[k] })
}

/// What one more line adds to the matches of the lines before it.
proof fn lemma_matching_step(
    query: Seq<char>,
    lines: Seq<Seq<char>>,
    k: int,
    ignore_case: bool,
)
    requires
        0 <= k < lines.len(),
    ensures
        matching_among(query, lines.take(k + 1), ignore_case) == if line_matches(
            query,
            lines[k],
            ignore_case,
        ) {
            matching_among(query, lines.take(k), ignore_case).push(
                MatchLine { line_number: k as nat, line_text: lines[k] },
            )
        } else {
            matching_among(query, lines.take(k), ignore_case)
        },
{
    assert(lines.take(k + 1).drop_last() =~= lines.take(k));
}

/// Every reported line is the line of `lines` at the reported position, and
/// it matches the query.
pub proof fn lemma_matching_sound(query: Seq<char>, lines: Seq<Seq<char>>, ignore_case: bool)
    ensures
        forall|k: int|
            0 <= k < matching_among(query, lines, ignore_case).len() ==> {
                let hit = #[trigger] matching_among(query, lines, ignore_case)[k];
                &&& hit.line_number < lines.len()
                &&& hit.line_text == lines[hit.line_number as int]
                &&& line_matches(query, hit.line_text, ignore_case)
            },
    decreases lines.len(),
{
    if lines.len() > 0 {
        let before = lines.drop_last();
        let earlier = matching_among(query, before, ignore_case);
        let found = matching_among(query, lines, ignore_case);
        lemma_matching_sound(query, before, ignore_case);
        assert forall|k: int| 0 <= k < found.len() implies {
            let hit = #[trigger] found[k];
            &&& hit.line_number < lines.len()
            &&& hit.line_text == lines[hit.line_number as int]
            &&& line_matches(query, hit.line_text, ignore_case)
        } by {
            if k < earlier.len() {
                let hit = earlier[k];
                assert(found[k] == hit);
                assert(before[hit.line_number as int] == lines[hit.line_number as int]);
            }
        }
    }
}

/// Every line of `lines` that matches the query is reported, at its position.
pub proof fn lemma_matching_complete(query: Seq<char>, lines: Seq<Seq<char>>, ignore_case: bool)
    ensures
        forall|j: int|
            0 <= j < lines.len() && line_matches(query, #[trigger] lines[j], ignore_case)
                ==> matching_among(query, lines, ignore_case).contains(
                MatchLine { line_number: j as nat, line_text: lines[j] },
            ),
    decreases lines.len(),
{
    if lines.len() > 0 {
        let before = lines.drop_last();
        let found = matching_among(query, lines, ignore_case);
        lemma_matching_complete(query, before, ignore_case);
        assert forall|j: int|
            0 <= j < lines.len() && line_matches(
                query,
                #[trigger] lines[j],
                ignore_case,
            ) implies found.contains(MatchLine { line_number: j as nat, line_text: lines[j] }) by {
            let hit = MatchLine { line_number: j as nat, line_text: lines[j] };
            if j == lines.len() - 1 {
                assert(found.last() == hit);
            } else {
                assert(before[j] == lines[j]);
                let earlier = matching_among(query, before, ignore_case);
                let k = choose|k: int| 0 <= k < earlier.len() && earlier[k] == hit;
                assert(found[k] == hit);
            }
        }
    }
}

/// The reported positions rise strictly: no line is reported twice, and the
/// lines come in the order of the text.
pub proof fn lemma_matching_increasing(query: Seq<char>, lines: Seq<Seq<char>>, ignore_case: bool)
    ensures
        forall|a: int, b: int|
            0 <= a < b < matching_among(query, lines, ignore_case).len() ==> (
            #[trigger] matching_among(query, lines, ignore_case)[a]).line_number < (
            #[trigger] matching_among(query, lines, ignore_case)[b]).line_number,
    decreases lines.len(),
{
    if lines.len() > 0 {
        let before = lines.drop_last();
        let earlier = matching_among(query, before, ignore_case);
        let found = matching_among(query, lines, ignore_case);
        lemma_matching_increasing(query, before, ignore_case);
        lemma_matching_sound(query, before, ignore_case);
        assert forall|a: int, b: int| 0 <= a < b < found.len() implies (#[trigger] found[a]).line_number
            < (#[trigger] found[b]).line_number by {
            assert(found[a] == earlier[a]);
            if b < earlier.len() {
                assert(found[b] == earlier[b]);
            }
        }
    }
}

/// Where every line matches, every line is reported.
pub proof fn lemma_matching_all(query: Seq<char>, lines: Seq<Seq<char>>, ignore_case: bool)
    requires
        forall|j: int| 0 <= j < lines.len() ==> line_matches(query, #[trigger] lines[j], ignore_case),
    ensures
        matching_among(query, lines, ignore_case) == numbered(lines),
    decreases lines.len(),
{
    if lines.len() > 0 {
        let before = lines.drop_last();
        assert forall|j: int| 0 <= j < before.len() implies line_matches(
            query,
            #[trigger] before[j],
            ignore_case,
        ) by {
            assert(before[j] == lines[j]);
        }
        lemma_matching_all(query, before, ignore_case);
        assert(matching_among(query, lines, ignore_case) =~= numbered(lines));
    } else {
        assert(matching_among(query, lines, ignore_case) =~= numbered(lines));
    }
}

/// A case-sensitive search reports only lines of the text that contain the
/// query as a literal substring, each with its position among the lines of
/// the text, counted from zero.
pub proof fn lemma_search_reports_matching_lines(query: Seq<char>, contents: Seq<char>)
    ensures
        forall|k: int|
            0 <= k < matching_lines(query, contents, false).len() ==> {
                let hit = #[trigger] matching_lines(query, contents, false)[k];
                &&& hit.line_number < lines_of(contents).len()
                &&& hit.line_text == lines_of(contents)[hit.line_number as int]
                &&& is_substring(query, hit.line_text)
            },
{
    lemma_matching_sound(query, lines_of(contents), false);
}

/// A case-sensitive search for the empty query reports every line of the
/// text, empty lines too.
pub proof fn lemma_empty_query_matches_every_line(contents: Seq<char>)
    ensures
        matching_lines(Seq::empty(), contents, false) == numbered(lines_of(contents)),
{
    let lines = lines_of(contents);
    assert forall|j: int| 0 <= j < lines.len() implies line_matches(
        Seq::empty(),
        #[trigger] lines[j],
        false,
    ) by {
        lemma_empty_is_substring(lines[j]);
    }
    lemma_matching_all(Seq::empty(), lines, false);
}

/// Two searches with the same query, text and case rule report the same
/// lines: the result depends on nothing else.
pub proof fn lemma_search_repeats(
    query: Seq<char>,
    contents: Seq<char>,
    ignore_case: bool,
    first: Vec<SearchResult>,
    second: Vec<SearchResult>,
)
    requires
        first.deep_view() == matching_lines(query, contents, ignore_case),
        second.deep_view() == matching_lines(query, contents, ignore_case),
    ensures
        first.deep_view() == second.deep_view(),
        first@.len() == second@.len(),
        forall|k: int| 0 <= k < first@.len() ==> first@[k]@ == second@[k]@,
{
    assert(first.deep_view().len() == first@.len());
    assert(second.deep_view().len() == second@.len());
    assert forall|k: int| 0 <= k < first@.len() implies first@[k]@ == second@[k]@ by {
        assert(first.deep_view()[k] == first@[k]@);
        assert(second.deep_view()[k] == second@[k]@);
    }
}

impl SearchResult {
    /// The text of the line, without its line ending.
    pub fn line_text(&self) -> (text: &str)
        ensures
            text@ == self@.line_text,
    {
        self.line_text.as_str()
    }

    /// The position of the line among the lines of the text, from zero.
    pub fn line_number(&self) -> (number: usize)
        ensures
            number == self@.line_number,
    {
        self.line_number
    }
}

impl Default for SearchResult {
    /// The empty line at position zero.
    fn default() -> (result: SearchResult)
        ensures
            result@ == (MatchLine { line_number: 0, line_text: Seq::empty() }),
    {
        SearchResult { line_text: String::new(), line_number: 0 }
    }
}

/// The lines of `contents` that contain `query` as it is written, in the
/// order of the text. An empty query matches every line.
pub fn search(query: &str, contents: &str) -> (results: Vec<SearchResult>)
    ensures
        results.deep_view() == matching_lines(query@, contents@, false),
        query@.len() == 0 ==> results.deep_view() == numbered(lines_of(contents@)),
{
    let needle = chars_of(query);
    let text = chars_of(contents);
    let spans = line_spans(text.as_slice());
    let mut results: Vec<SearchResult> = Vec::new();
    let mut k: usize = 0;
    assert(results.deep_view() =~= matching_among(query@, lines_of(text@).take(0), false));
    while k < spans.len()
        invariant
            k <= spans@.len(),
            needle@ == query@,
            pieces(text@, spans@) == lines_of(text@),
            forall|j: int|
                0 <= j < spans@.len() ==> (#[trigger] spans@[j]).0 <= spans@[j].1 <= text@.len(),
            results.deep_view() == matching_among(query@, lines_of(text@).take(k as int), false),
        decreases spans@.len() - k,
    {
        let (start, end) = spans[k];
        let line = &text.as_slice()[start..end];
        let ghost found = results.deep_view();
        proof {
            assert(pieces(text@, spans@)[k as int] == line@);
            lemma_matching_step(query@, lines_of(text@), k as int, false);
        }
        if occurs_in(needle.as_slice(), line) {
            let hit = SearchResult { line_text: string_of(line), line_number: k };
            results.push(hit);
            assert(results.deep_view() =~= found.push(hit@));
        }
        k += 1;
    }
    proof {
        assert(lines_of(text@).take(k as int) =~= lines_of(text@));
        if query@.len() == 0 {
            assert(query@ =~= Seq::<char>::empty());
            lemma_empty_query_matches_every_line(contents@);
        }
    }
    results
}

/// The lines of `contents` whose lowercase form contains the lowercase form
/// of `query`, in the order of the text. Each line is reported as the text
/// has it, not folded. An empty query matches every line.
pub fn search_case_insensitive(query: &str, contents: &str) -> (results: Vec<SearchResult>)
    ensures
        results.deep_view() == matching_lines(query@, contents@, true),
        query@.len() == 0 ==> results.deep_view() == numbered(lines_of(contents@)),
{
    let folded_query = to_lowercase(query);
    let needle = chars_of(folded_query.as_str());
    let text = chars_of(contents);
    let spans = line_spans(text.as_slice());
    let mut results: Vec<SearchResult> = Vec::new();
    let mut k: usize = 0;
    assert(results.deep_view() =~= matching_among(query@, lines_of(text@).take(0), true));
    assert(results.deep_view() =~= numbered(lines_of(text@).take(0)));
    while k < spans.len()
        invariant
            k <= spans@.len(),
            needle@ == lowercase(query@),
            query@.len() == 0 ==> needle@.len() == 0,
            pieces(text@, spans@) == lines_of(text@),
            forall|j: int|
                0 <= j < spans@.len() ==> (#[trigger] spans@[j]).0 <= spans@[j].1 <= text@.len(),
            results.deep_view() == matching_among(query@, lines_of(text@).take(k as int), true),
            query@.len() == 0 ==> results.deep_view() == numbered(lines_of(text@).take(k as int)),
        decreases spans@.len() - k,
    {
        let (start, end) = spans[k];
        let line = string_of(&text.as_slice()[start..end]);
        let folded_line = to_lowercase(line.as_str());
        let key = chars_of(folded_line.as_str());
        let ghost found = results.deep_view();
        proof {
            assert(pieces(text@, spans@)[k as int] == line@);
            lemma_matching_step(query@, lines_of(text@), k as int, true);
            if needle@.len() == 0 {
                assert(needle@ =~= Seq::<char>::empty());
                lemma_empty_is_substring(key@);
            }
        }
        if occurs_in(needle.as_slice(), key.as_slice()) {
            let hit = SearchResult { line_text: line, line_number: k };
            results.push(hit);
            assert(results.deep_view() =~= found.push(hit@));
        }
        proof {
            if query@.len() == 0 {
                assert(results.deep_view() =~= numbered(lines_of(text@).take(k + 1)));
            }
        }
        k += 1;
    }
    assert(lines_of(text@).take(k as int) =~= lines_of(text@));
    results
}

} // verus!
