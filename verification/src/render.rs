//! The report: how the groups of matching lines are written out.
//!
//! Each group is a header line that names the file, then one line for each
//! match, made of the line number, a colon, a space and the text of the line,
//! then one empty line. Line numbers are written in decimal, without leading
//! zeros.

use vstd::prelude::*;
use vstd::string::StringExecFns;
use crate::scan::{FileResults, MatchGroup};
use crate::search::{MatchLine, SearchResult};

verus! {

/// The character of the decimal digit `d`.
pub open spec fn digit(d: nat) -> char
    recommends
        d < 10,
{
    ('0' as nat + d) as char
}

/// `n` in decimal.
pub open spec fn decimal(n: nat) -> Seq<char>
    decreases n,
{
    if n < 10 {
        seq![digit(n)]
    } else {
        decimal(n / 10).push(digit(n % 10))
    }
}

/// The text of one match: its line number, a colon, a space, and the line.
pub open spec fn rendered_match(hit: MatchLine) -> Seq<char> {
    decimal(hit.line_number) + ": "@ + hit.line_text
}

/// The texts of the matches, each followed by a line feed.
pub open spec fn rendered_matches(found: Seq<MatchLine>) -> Seq<char>
    decreases found.len(),
{
    if found.len() == 0 {
        Seq::empty()
    } else {
        rendered_matches(found.drop_last()) + rendered_match(found.last()) + "\n"@
    }
}

/// The text of one group: the header line, the lines of the matches, and an
/// empty line.
pub open spec fn rendered_group(group: MatchGroup) -> Seq<char> {
    "File: "@ + group.file_name + "\n"@ + rendered_matches(group.matches) + "\n"@
}

/// The texts of the groups, one after the other.
pub open spec fn rendered(groups: Seq<MatchGroup>) -> Seq<char>
    decreases groups.len(),
{
    if groups.len() == 0 {
        Seq::empty()
    } else {
        rendered(groups.drop_last()) + rendered_group(groups.last())
    }
}

/// Appends `n` in decimal to `out`.
fn push_decimal(out: &mut String, n: usize)
    ensures
        final(out)@ == old(out)@ + decimal(n as nat),
    decreases n,
{
    if n >= 10 {
        push_decimal(out, n / 10);
    }
    let d: u8 = (n % 10) as u8;
    out.push((48u8 + d) as char);
    assert(out@ =~= old(out)@ + decimal(n as nat));
}

/// The text of one match, without a line feed at its end.
pub fn render_match(hit: &SearchResult) -> (text: String)
    ensures
        text@ == rendered_match(hit@),
{
    let mut text = String::new();
    push_decimal(&mut text, hit.line_number());
    text.append(": ");
    text.append(hit.line_text());
    assert(text@ =~= rendered_match(hit@));
    text
}

/// The text of one group.
pub fn render_group(group: &FileResults) -> (text: String)
    ensures
        text@ == rendered_group(group@),
{
    let found = group.search_result();
    let mut text = String::new();
    text.append("File: ");
    text.append(group.file_name());
    text.append("\n");
    let ghost head = text@;
    let mut k: usize = 0;
    assert(text@ =~= head + rendered_matches(found.deep_view().take(0)));
    while k < found.len()
        invariant
            k <= found@.len(),
            text@ == head + rendered_matches(found.deep_view().take(k as int)),
        decreases found@.len() - k,
    {
        let line = render_match(&found[k]);
        proof {
            let shown = found.deep_view();
            assert(shown.take(k + 1).drop_last() =~= shown.take(k as int));
            assert(shown.take(k + 1).last() == found@[k as int]@);
        }
        text.append(line.as_str());
        text.append("\n");
        k += 1;
        assert(text@ =~= head + rendered_matches(found.deep_view().take(k as int)));
    }
    assert(found.deep_view().take(k as int) =~= found.deep_view());
    text.append("\n");
    assert(text@ =~= rendered_group(group@));
    text
}

/// The text of all groups, in their order.
pub fn render(groups: &Vec<FileResults>) -> (text: String)
    ensures
        text@ == rendered(groups.deep_view()),
{
    let mut text = String::new();
    let mut k: usize = 0;
    assert(text@ =~= rendered(groups.deep_view().take(0)));
    while k < groups.len()
        invariant
            k <= groups@.len(),
            text@ == rendered(groups.deep_view().take(k as int)),
        decreases groups@.len() - k,
    {
        let part = render_group(&groups[k]);
        proof {
            let shown = groups.deep_view();
            assert(shown.take(k + 1).drop_last() =~= shown.take(k as int));
            assert(shown.take(k + 1).last() == groups@[k as int]@);
        }
        text.append(part.as_str());
        k += 1;
    }
    assert(groups.deep_view().take(k as int) =~= groups.deep_view());
    text
}

} // verus!
