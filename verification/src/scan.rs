//! Scanning loaded files: one group of matching lines for each file that has
//! enough of them.
//!
//! Scanning one file is independent of scanning any other, so the files may
//! as well be scanned at the same time by whoever calls `scan_file`;
//! `scan_files` scans them one after the other.

use vstd::prelude::*;
use crate::filter::{
    filter_map,
    lemma_filter_map_contains,
    lemma_filter_map_order,
    lemma_filter_map_step,
};
use crate::lines::lines_of;
use crate::search::{
    lemma_empty_query_matches_every_line,
    lemma_matching_increasing,
    matching_lines,
    numbered,
    search,
    search_case_insensitive,
    MatchLine,
    SearchResult,
};

verus! {

/// A file is reported only if it has more matching lines than this: a file
/// with exactly one matching line is dropped like one with none.
pub const REPORT_ABOVE: usize = 1;

/// A loaded file as the contracts see it.
pub struct FileRecord {
    pub file_name: Seq<char>,
    pub contents: Seq<char>,
}

/// A file that was read: its path and all of its text.
pub struct FileMeta {
    file_name: String,
    file_contents: String,
}

/// The matching lines of one file as the contracts see them.
pub struct MatchGroup {
    pub file_name: Seq<char>,
    pub matches: Seq<MatchLine>,
}

/// The matching lines of one file. There are more than `REPORT_ABOVE` of
/// them, and their line numbers rise strictly.
pub struct FileResults {
    file_name: String,
    search_result: Vec<SearchResult>,
}

impl View for FileMeta {
    type V = FileRecord;

    closed spec fn view(&self) -> FileRecord {
        FileRecord { file_name: self.file_name@, contents: self.file_contents@ }
    }
}

impl DeepView for FileMeta {
    type V = FileRecord;

    open spec fn deep_view(&self) -> FileRecord {
        self@
    }
}

impl View for FileResults {
    type V = MatchGroup;

    closed spec fn view(&self) -> MatchGroup {
        MatchGroup { file_name: self.file_name@, matches: self.search_result.deep_view() }
    }
}

impl DeepView for FileResults {
    type V = MatchGroup;

    open spec fn deep_view(&self) -> MatchGroup {
        self@
    }
}

/// The line numbers of `found` rise strictly.
pub open spec fn rising(found: Seq<MatchLine>) -> bool {
    forall|a: int, b: int|
        0 <= a < b < found.len() ==> (#[trigger] found[a]).line_number < (
        #[trigger] found[b]).line_number
}

/// What holds of every group: enough matches, in rising order.
pub open spec fn well_formed(group: MatchGroup) -> bool {
    &&& group.matches.len() > REPORT_ABOVE
    &&& rising(group.matches)
}

/// The group that a file is reported with: all of its matching lines, if
/// there are more than `REPORT_ABOVE`, and no group otherwise.
pub open spec fn group_of(query: Seq<char>, ignore_case: bool, file: FileRecord) -> Option<
    MatchGroup,
> {
    let found = matching_lines(query, file.contents, ignore_case);
    if found.len() > REPORT_ABOVE {
        Some(MatchGroup { file_name: file.file_name, matches: found })
    } else {
        None
    }
}

/// The groups of the files that are reported, in the order of the files.
pub open spec fn groups_of(query: Seq<char>, ignore_case: bool, files: Seq<FileRecord>) -> Seq<
    MatchGroup,
> {
    filter_map(files, |file: FileRecord| group_of(query, ignore_case, file))
}

/// Every group of the result stems from one of the files: it bears the name
/// of that file and holds all of its matching lines, which are more than
/// `REPORT_ABOVE` and come by rising line number. So a file with no matching
/// line, or with exactly one, accounts for no group.
pub proof fn lemma_groups_stem_from_files(
    query: Seq<char>,
    ignore_case: bool,
    files: Seq<FileRecord>,
    k: int,
)
    requires
        0 <= k < groups_of(query, ignore_case, files).len(),
    ensures
        well_formed(groups_of(query, ignore_case, files)[k]),
        exists|i: int|
            0 <= i < files.len() && group_of(query, ignore_case, #[trigger] files[i]) == Some(
                groups_of(query, ignore_case, files)[k],
            ),
{
    let groups = groups_of(query, ignore_case, files);
    let pick = |file: FileRecord| group_of(query, ignore_case, file);
    assert(groups.contains(groups[k]));
    lemma_filter_map_contains(files, pick, groups[k]);
    let i = choose|i: int| 0 <= i < files.len() && pick(#[trigger] files[i]) == Some(groups[k]);
    assert(group_of(query, ignore_case, files[i]) == Some(groups[k]));
    lemma_matching_increasing(query, lines_of(files[i].contents), ignore_case);
}

/// A file with more than `REPORT_ABOVE` matching lines is reported, under its
/// name and with all of its matching lines.
pub proof fn lemma_file_with_matches_is_reported(
    query: Seq<char>,
    ignore_case: bool,
    files: Seq<FileRecord>,
    i: int,
)
    requires
        0 <= i < files.len(),
        matching_lines(query, files[i].contents, ignore_case).len() > REPORT_ABOVE,
    ensures
        groups_of(query, ignore_case, files).contains(
            MatchGroup {
                file_name: files[i].file_name,
                matches: matching_lines(query, files[i].contents, ignore_case),
            },
        ),
{
    let pick = |file: FileRecord| group_of(query, ignore_case, file);
    let group = MatchGroup {
        file_name: files[i].file_name,
        matches: matching_lines(query, files[i].contents, ignore_case),
    };
    assert(pick(files[i]) == Some(group));
    lemma_filter_map_contains(files, pick, group);
}

/// No group bears a name under which no file has more than `REPORT_ABOVE`
/// matching lines.
pub proof fn lemma_file_without_matches_is_dropped(
    query: Seq<char>,
    ignore_case: bool,
    files: Seq<FileRecord>,
    name: Seq<char>,
)
    requires
        forall|i: int|
            0 <= i < files.len() && (#[trigger] files[i]).file_name == name ==> matching_lines(
                query,
                files[i].contents,
                ignore_case,
            ).len() <= REPORT_ABOVE,
    ensures
        forall|k: int|
            0 <= k < groups_of(query, ignore_case, files).len() ==> (#[trigger] groups_of(
                query,
                ignore_case,
                files,
            )[k]).file_name != name,
{
    let groups = groups_of(query, ignore_case, files);
    assert forall|k: int| 0 <= k < groups.len() implies (#[trigger] groups[k]).file_name
        != name by {
        lemma_groups_stem_from_files(query, ignore_case, files, k);
    }
}

/// Where no two files bear the same name, no two groups do.
pub proof fn lemma_group_names_differ(query: Seq<char>, ignore_case: bool, files: Seq<FileRecord>)
    requires
        forall|i: int, j: int|
            0 <= i < j < files.len() ==> (#[trigger] files[i]).file_name != (
            #[trigger] files[j]).file_name,
    ensures
        forall|a: int, b: int|
            0 <= a < b < groups_of(query, ignore_case, files).len() ==> (#[trigger] groups_of(
                query,
                ignore_case,
                files,
            )[a]).file_name != (#[trigger] groups_of(query, ignore_case, files)[b]).file_name,
{
    let groups = groups_of(query, ignore_case, files);
    let pick = |file: FileRecord| group_of(query, ignore_case, file);
    assert forall|a: int, b: int| 0 <= a < b < groups.len() implies (#[trigger] groups[a]).file_name
        != (#[trigger] groups[b]).file_name by {
        lemma_filter_map_order(files, pick, a, b);
        let (i, j) = choose|i: int, j: int|
            0 <= i < j < files.len() && pick(#[trigger] files[i]) == Some(groups[a]) && pick(
                #[trigger] files[j],
            ) == Some(groups[b]);
        assert(groups[a].file_name == files[i].file_name);
        assert(groups[b].file_name == files[j].file_name);
    }
}

/// With the empty query and case observed, a file of more than `REPORT_ABOVE`
/// lines is reported with every one of its lines.
pub proof fn lemma_empty_query_reports_every_line(file: FileRecord)
    requires
        lines_of(file.contents).len() > REPORT_ABOVE,
    ensures
        group_of(Seq::empty(), false, file) == Some(
            MatchGroup { file_name: file.file_name, matches: numbered(lines_of(file.contents)) },
        ),
{
    lemma_empty_query_matches_every_line(file.contents);
}

impl FileMeta {
    /// A file with the path `file_name` and the text `file_contents`.
    pub fn new(file_name: String, file_contents: String) -> (file: FileMeta)
        ensures
            file@ == (FileRecord { file_name: file_name@, contents: file_contents@ }),
    {
        FileMeta { file_name, file_contents }
    }

    /// The path of the file.
    pub fn file_name(&self) -> (name: &str)
        ensures
            name@ == self@.file_name,
    {
        self.file_name.as_str()
    }

    /// The text of the file.
    pub fn file_contents(&self) -> (contents: &str)
        ensures
            contents@ == self@.contents,
    {
        self.file_contents.as_str()
    }
}

impl FileResults {
    #[verifier::type_invariant]
    spec fn holds(self) -> bool {
        well_formed(self@)
    }

    /// The path of the file.
    pub fn file_name(&self) -> (name: &str)
        ensures
            name@ == self@.file_name,
    {
        self.file_name.as_str()
    }

    /// The matching lines of the file, by rising line number.
    pub fn search_result(&self) -> (found: &Vec<SearchResult>)
        ensures
            found.deep_view() == self@.matches,
            well_formed(self@),
    {
        proof {
            use_type_invariant(self);
        }
        &self.search_result
    }
}

/// Scans one file: searches its text for `query`, ignoring case or not, and
/// reports the file with all of its matching lines if it has more than
/// `REPORT_ABOVE` of them.
pub fn scan_file(query: &str, ignore_case: bool, file: FileMeta) -> (group: Option<FileResults>)
    ensures
        group.deep_view() == group_of(query@, ignore_case, file@),
        group is Some ==> well_formed(group->0@),
        query@.len() == 0 && lines_of(file@.contents).len() > REPORT_ABOVE ==> group.deep_view()
            == Some(
            MatchGroup { file_name: file@.file_name, matches: numbered(lines_of(file@.contents)) },
        ),
{
    let found = if ignore_case {
        search_case_insensitive(query, file.file_contents.as_str())
    } else {
        search(query, file.file_contents.as_str())
    };
    if found.len() > REPORT_ABOVE {
        proof {
            lemma_matching_increasing(query@, lines_of(file@.contents), ignore_case);
        }
        Some(FileResults { file_name: file.file_name, search_result: found })
    } else {
        None
    }
}

/// Scans the files one after the other and collects the groups of those that
/// are reported, in the order of the files.
pub fn scan_files(query: &str, ignore_case: bool, files: Vec<FileMeta>) -> (groups: Vec<FileResults>)
    ensures
        groups.deep_view() == groups_of(query@, ignore_case, files.deep_view()),
{
    let ghost records = files.deep_view();
    let mut groups: Vec<FileResults> = Vec::new();
    assert(groups.deep_view() =~= groups_of(query@, ignore_case, records.take(0)));
    for file in it: files
        invariant
            it.seq() == files@,
            records == files.deep_view(),
            groups.deep_view() == groups_of(query@, ignore_case, records.take(it.index())),
    {
        let ghost found = groups.deep_view();
        proof {
            lemma_filter_map_step(
                records,
                |file: FileRecord| group_of(query@, ignore_case, file),
                it.index(),
            );
        }
        match scan_file(query, ignore_case, file) {
            Some(group) => {
                groups.push(group);
                assert(groups.deep_view() =~= found.push(group@));
            },
            None => {},
        }
    }
    assert(records.take(records.len() as int) =~= records);
    groups
}

} // verus!
