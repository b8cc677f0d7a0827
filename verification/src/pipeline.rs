//! One run, from what reading the files gave to the text of the report.

use vstd::prelude::*;
use crate::config::{Config, ConfigView, PathSource};
use crate::filter::lemma_filter_map_contains;
use crate::load::{load_files, load_outcome, loaded, readable, Failure, FileRead, IoError};
use crate::render::{render, rendered};
use crate::scan::{group_of, groups_of, lemma_file_with_matches_is_reported, scan_files, REPORT_ABOVE};
use crate::search::matching_lines;

verus! {

/// What a run gives: the failure that ended it, or the text of the report on
/// the files that were read, in the order of the reads.
pub open spec fn run_outcome(config: ConfigView, reads: Seq<FileRead>) -> Result<
    Seq<char>,
    Failure,
> {
    match load_outcome(config.source, reads) {
        Ok(files) => Ok(rendered(groups_of(config.query, config.ignore_case, files))),
        Err(failure) => Err(failure),
    }
}

/// Runs the search over what reading the files of `config` gave: decides
/// which of them are scanned, scans them one after the other, and writes the
/// report.
pub fn run(config: Config, reads: Vec<FileRead>) -> (report: Result<String, IoError>)
    ensures
        match report {
            Ok(text) => Ok::<Seq<char>, Failure>(text@),
            Err(error) => Err::<Seq<char>, Failure>(error@),
        } == run_outcome(config@, reads@),
{
    match load_files(&config, reads) {
        Ok(files) => {
            let groups = scan_files(config.query(), config.ignore_case(), files);
            Ok(render(&groups))
        },
        Err(error) => Err(error),
    }
}

/// With paths that a walk found, a read that fails ends nothing: the run
/// completes, every file that was read is scanned, and each of them that has
/// more than `REPORT_ABOVE` matching lines is reported.
pub proof fn lemma_failed_reads_are_skipped(config: ConfigView, reads: Seq<FileRead>, i: int)
    requires
        config.source == PathSource::Discovered,
        0 <= i < reads.len(),
        reads[i].outcome is Ok,
    ensures
        run_outcome(config, reads) == Ok::<Seq<char>, Failure>(
            rendered(groups_of(config.query, config.ignore_case, readable(reads))),
        ),
        readable(reads).contains(loaded(reads[i])->0),
        group_of(config.query, config.ignore_case, loaded(reads[i])->0) matches Some(group)
            ==> groups_of(config.query, config.ignore_case, readable(reads)).contains(group),
{
    let file = loaded(reads[i])->0;
    let files = readable(reads);
    lemma_filter_map_contains(reads, |read: FileRead| loaded(read), file);
    assert(files.contains(file));
    let j = choose|j: int| 0 <= j < files.len() && files[j] == file;
    if matching_lines(config.query, file.contents, config.ignore_case).len() > REPORT_ABOVE {
        lemma_file_with_matches_is_reported(config.query, config.ignore_case, files, j);
    }
}

} // verus!
