//! Loading: from what reading each file gave to the files that are scanned.
//!
//! Reading is the caller's part. What is decided here is what a failed read
//! means. Of a path that was named on the command line it is fatal: nothing
//! is scanned, and the failure is the result. Of a path that a walk found it
//! is not: the file may have vanished since, or may not be readable text, and
//! it is skipped without a word.

use vstd::prelude::*;
use crate::config::{Config, PathSource};
use crate::filter::{filter_map, lemma_filter_map_step};
use crate::scan::{FileMeta, FileRecord};

verus! {

/// What reading one file gave: its text, or the reason why there is none.
#[derive(Debug)]
pub struct FileRead {
    pub path: String,
    pub outcome: Result<String, String>,
}

/// A failed read as the contracts see it.
pub struct Failure {
    pub path: Seq<char>,
    pub reason: Seq<char>,
}

/// A read that failed and ended the run: the path of the file and the reason.
#[derive(Debug)]
pub struct IoError {
    path: String,
    reason: String,
}

impl View for IoError {
    type V = Failure;

    closed spec fn view(&self) -> Failure {
        Failure { path: self.path@, reason: self.reason@ }
    }
}

/// The file that a read gave, if it gave one.
pub open spec fn loaded(read: FileRead) -> Option<FileRecord> {
    match read.outcome {
        Ok(contents) => Some(FileRecord { file_name: read.path@, contents: contents@ }),
        Err(_) => None,
    }
}

/// The files that were read, in the order of the reads.
pub open spec fn readable(reads: Seq<FileRead>) -> Seq<FileRecord> {
    filter_map(reads, |read: FileRead| loaded(read))
}

/// The first read that failed, if any did.
pub open spec fn first_failure(reads: Seq<FileRead>) -> Option<Failure>
    decreases reads.len(),
{
    if reads.len() == 0 {
        None
    } else {
        match first_failure(reads.drop_last()) {
            Some(failure) => Some(failure),
            None => match reads.last().outcome {
                Ok(_) => None,
                Err(reason) => Some(Failure { path: reads.last().path@, reason: reason@ }),
            },
        }
    }
}

/// What loading gives: the failure that ends the run, or the files to scan.
pub open spec fn load_outcome(source: PathSource, reads: Seq<FileRead>) -> Result<
    Seq<FileRecord>,
    Failure,
> {
    match first_failure(reads) {
        Some(failure) if source == PathSource::Explicit => Err(failure),
        _ => Ok(readable(reads)),
    }
}

impl IoError {
    /// The path of the file that could not be read.
    pub fn path(&self) -> (path: &str)
        ensures
            path@ == self@.path,
    {
        self.path.as_str()
    }

    /// The reason that the failed read gave.
    pub fn message(&self) -> (reason: &str)
        ensures
            reason@ == self@.reason,
    {
        self.reason.as_str()
    }
}

/// Decides what is scanned. With paths that a walk found, every file that was
/// read is scanned and every failed read is skipped; this never fails. With a
/// path from the command line, the first failed read ends the run.
pub fn load_files(config: &Config, reads: Vec<FileRead>) -> (files: Result<Vec<FileMeta>, IoError>)
    ensures
        match files {
            Ok(files) => Ok::<Seq<FileRecord>, Failure>(files.deep_view()),
            Err(error) => Err::<Seq<FileRecord>, Failure>(error@),
        } == load_outcome(config@.source, reads@),
{
    let fatal = config.source() == PathSource::Explicit;
    let mut files: Vec<FileMeta> = Vec::new();
    assert(files.deep_view() =~= readable(reads@.take(0)));
    for read in it: reads
        invariant
            it.seq() == reads@,
            fatal == (config@.source == PathSource::Explicit),
            files.deep_view() == readable(reads@.take(it.index())),
            !fatal || first_failure(reads@.take(it.index())) is None,
    {
        let ghost kept = files.deep_view();
        proof {
            lemma_filter_map_step(reads@, |read: FileRead| loaded(read), it.index());
            assert(reads@.take(it.index() + 1).drop_last() =~= reads@.take(it.index()));
        }
        let FileRead { path, outcome } = read;
        match outcome {
            Ok(contents) => {
                let file = FileMeta::new(path, contents);
                files.push(file);
                assert(files.deep_view() =~= kept.push(file@));
            },
            Err(reason) => {
                if fatal {
                    proof {
                        lemma_first_failure_stays(reads@, it.index() + 1);
                    }
                    return Err(IoError { path, reason });
                }
            },
        }
    }
    assert(reads@.take(reads@.len() as int) =~= reads@);
    Ok(files)
}

/// A failure among the first `upto` reads is the first failure of all reads.
proof fn lemma_first_failure_stays(reads: Seq<FileRead>, upto: int)
    requires
        0 <= upto <= reads.len(),
        first_failure(reads.take(upto)) is Some,
    ensures
        first_failure(reads) == first_failure(reads.take(upto)),
    decreases reads.len() - upto,
{
    if upto < reads.len() {
        assert(reads.take(upto + 1).drop_last() =~= reads.take(upto));
        lemma_first_failure_stays(reads, upto + 1);
    } else {
        assert(reads.take(upto) =~= reads);
    }
}

} // verus!
