//! What one run searches for, in which files, and under which case rule.
//!
//! The files are either the one path named on the command line, or every
//! regular file that a walk of the working directory reported. This module
//! decides which of the two it is and turns what the walk reported into the
//! list of paths. It reads neither the arguments nor the file system itself:
//! both are handed in as plain values.

use vstd::prelude::*;
use crate::filter::{filter_map, lemma_filter_map_contains, lemma_filter_map_step};

verus! {

/// How the paths of a configuration came about.
#[derive(Debug, Clone, Copy, PartialEq, Eq, Structural)]
pub enum PathSource {
    /// The one path was named on the command line.
    Explicit,
    /// The paths were found by walking the working directory.
    Discovered,
}

/// Why no configuration could be built.
#[derive(Debug, Clone, Copy, PartialEq, Eq, Structural)]
pub enum ConfigError {
    /// The arguments hold no query.
    MissingQuery,
    /// The working directory could not be determined.
    WorkingDirUnknown,
    /// The path of the working directory is no valid text.
    WorkingDirNotText,
}

/// What the caller found out about the working directory of the process.
#[derive(Debug)]
pub enum WorkingDir {
    /// It could not be determined.
    Unknown,
    /// It is known, but its path is no valid text.
    NotText,
    /// Its path.
    At(String),
}

/// What a walk of a directory tree reported of one entry.
#[derive(Debug)]
pub enum WalkEntry {
    /// The entry could not be read.
    Unreadable,
    /// The entry was read: its path, where that is valid text, and whether it
    /// is a regular file.
    Found { path: Option<String>, is_file: bool },
}

/// A configuration as the contracts see it.
pub struct ConfigView {
    pub query: Seq<char>,
    pub file_paths: Seq<Seq<char>>,
    pub ignore_case: bool,
    pub source: PathSource,
}

/// The configuration of one run: the query, the files to scan, and whether
/// case is ignored.
#[derive(Debug)]
pub struct Config {
    query: String,
    file_paths: Vec<String>,
    ignore_case: bool,
    source: PathSource,
}

/// A configuration that still lacks its paths, as the contracts see it.
pub struct PendingView {
    pub query: Seq<char>,
    pub ignore_case: bool,
}

/// A configuration whose paths are still to be found by a walk of the
/// working directory.
#[derive(Debug)]
pub struct Pending {
    query: String,
    ignore_case: bool,
}

/// What the arguments alone settle.
#[derive(Debug)]
pub enum Resolution {
    /// A path was named: the configuration is complete, and nothing is walked.
    Ready(Config),
    /// No path was named: the working directory has to be walked.
    NeedsWalk(Pending),
}

impl View for Config {
    type V = ConfigView;

    closed spec fn view(&self) -> ConfigView {
        ConfigView {
            query: self.query@,
            file_paths: self.file_paths.deep_view(),
            ignore_case: self.ignore_case,
            source: self.source,
        }
    }
}

impl View for Pending {
    type V = PendingView;

    closed spec fn view(&self) -> PendingView {
        PendingView { query: self.query@, ignore_case: self.ignore_case }
    }
}

/// The path under which an entry of a walk is scanned: the path of a readable
/// entry that is a regular file and whose path is valid text. Directories,
/// unreadable entries and entries without a textual path have none.
pub open spec fn regular_file_path(entry: WalkEntry) -> Option<Seq<char>> {
    match entry {
        WalkEntry::Found { path: Some(path), is_file: true } => Some(path@),
        _ => None,
    }
}

/// The paths to scan among the entries of a walk, in the order of the walk.
pub open spec fn discovered_paths(entries: Seq<WalkEntry>) -> Seq<Seq<char>> {
    filter_map(entries, |entry: WalkEntry| regular_file_path(entry))
}

/// The paths to scan are exactly the paths of the regular files that the walk
/// reported: a path is among them if and only if some entry is a readable
/// regular file with that path.
pub proof fn lemma_discovered_paths_are_the_regular_files(entries: Seq<WalkEntry>, path: Seq<char>)
    ensures
        discovered_paths(entries).contains(path) <==> exists|i: int|
            0 <= i < entries.len() && regular_file_path(#[trigger] entries[i]) == Some(path),
{
    let pick = |entry: WalkEntry| regular_file_path(entry);
    lemma_filter_map_contains(entries, pick, path);
    if discovered_paths(entries).contains(path) {
        let i = choose|i: int| 0 <= i < entries.len() && pick(#[trigger] entries[i]) == Some(path);
        assert(regular_file_path(entries[i]) == Some(path));
    }
    if exists|i: int|
        0 <= i < entries.len() && regular_file_path(#[trigger] entries[i]) == Some(path) {
        let i = choose|i: int|
            0 <= i < entries.len() && regular_file_path(#[trigger] entries[i]) == Some(path);
        assert(pick(entries[i]) == Some(path));
    }
}

impl ConfigError {
    /// The message shown to the user.
    pub fn message(&self) -> (text: &'static str)
        ensures
            text@ == match *self {
                ConfigError::MissingQuery => "Didn't get a query"@,
                ConfigError::WorkingDirUnknown => "Error getting the current directory"@,
                ConfigError::WorkingDirNotText => "Could not convert Path"@,
            },
    {
        match self {
            ConfigError::MissingQuery => "Didn't get a query",
            ConfigError::WorkingDirUnknown => "Error getting the current directory",
            ConfigError::WorkingDirNotText => "Could not convert Path",
        }
    }
}

/// The directory at which the walk starts, or the reason why there is none.
pub fn walk_root(dir: WorkingDir) -> (root: Result<String, ConfigError>)
    ensures
        match dir {
            WorkingDir::Unknown => root == Err::<String, ConfigError>(
                ConfigError::WorkingDirUnknown,
            ),
            WorkingDir::NotText => root == Err::<String, ConfigError>(
                ConfigError::WorkingDirNotText,
            ),
            WorkingDir::At(path) => root == Ok::<String, ConfigError>(path),
        },
{
    match dir {
        WorkingDir::Unknown => Err(ConfigError::WorkingDirUnknown),
        WorkingDir::NotText => Err(ConfigError::WorkingDirNotText),
        WorkingDir::At(path) => Ok(path),
    }
}

impl Config {
    /// Reads the arguments of the program: its name, the query, and
    /// optionally one path; further arguments are ignored. Without a query
    /// there is no configuration. With a path the configuration is complete
    /// and holds that path alone, whether or not a file exists there. Without
    /// one, the paths remain to be found by a walk.
    pub fn build(args: Vec<String>, ignore_case: bool) -> (outcome: Result<Resolution, ConfigError>)
        ensures
            match outcome {
                Err(error) => args@.len() < 2 && error == ConfigError::MissingQuery,
                Ok(Resolution::Ready(config)) => args@.len() >= 3 && config@ == (ConfigView {
                    query: args@[1]@,
                    file_paths: seq![args@[2]@],
                    ignore_case,
                    source: PathSource::Explicit,
                }),
                Ok(Resolution::NeedsWalk(pending)) => args@.len() == 2 && pending@ == (PendingView {
                    query: args@[1]@,
                    ignore_case,
                }),
            },
    {
        if args.len() < 2 {
            return Err(ConfigError::MissingQuery);
        }
        let query = args[1].clone();
        if args.len() >= 3 {
            let mut file_paths: Vec<String> = Vec::new();
            file_paths.push(args[2].clone());
            assert(file_paths.deep_view() =~= seq![args@[2]@]);
            Ok(
                Resolution::Ready(
                    Config { query, file_paths, ignore_case, source: PathSource::Explicit },
                ),
            )
        } else {
            Ok(Resolution::NeedsWalk(Pending { query, ignore_case }))
        }
    }

    /// The query.
    pub fn query(&self) -> (query: &str)
        ensures
            query@ == self@.query,
    {
        self.query.as_str()
    }

    /// The paths of the files to scan.
    pub fn file_paths(&self) -> (paths: &Vec<String>)
        ensures
            paths.deep_view() == self@.file_paths,
    {
        &self.file_paths
    }

    /// Whether case is ignored.
    pub fn ignore_case(&self) -> (ignore_case: bool)
        ensures
            ignore_case == self@.ignore_case,
    {
        self.ignore_case
    }

    /// How the paths came about.
    pub fn source(&self) -> (source: PathSource)
        ensures
            source == self@.source,
    {
        self.source
    }
}

impl Default for Config {
    /// The empty query, no paths, case observed.
    fn default() -> (config: Config)
        ensures
            config@ == (ConfigView {
                query: Seq::empty(),
                file_paths: Seq::empty(),
                ignore_case: false,
                source: PathSource::Discovered,
            }),
    {
        let file_paths: Vec<String> = Vec::new();
        assert(file_paths.deep_view() =~= Seq::<Seq<char>>::empty());
        Config { query: String::new(), file_paths, ignore_case: false, source: PathSource::Discovered }
    }
}

impl Pending {
    /// Completes the configuration with what the walk reported: the paths of
    /// the regular files among the entries, in the order of the walk. An
    /// entry that could not be read, or that is no regular file, or whose
    /// path is no valid text, is left out and fails nothing.
    pub fn finish(self, entries: Vec<WalkEntry>) -> (config: Config)
        ensures
            config@ == (ConfigView {
                query: self@.query,
                file_paths: discovered_paths(entries@),
                ignore_case: self@.ignore_case,
                source: PathSource::Discovered,
            }),
    {
        let mut file_paths: Vec<String> = Vec::new();
        let mut i: usize = 0;
        assert(file_paths.deep_view() =~= discovered_paths(entries@.take(0)));
        while i < entries.len()
            invariant
                i <= entries@.len(),
                file_paths.deep_view() == discovered_paths(entries@.take(i as int)),
            decreases entries@.len() - i,
        {
            let ghost found = file_paths.deep_view();
            proof {
                lemma_filter_map_step(
                    entries@,
                    |entry: WalkEntry| regular_file_path(entry),
                    i as int,
                );
            }
            match &entries[i] {
                WalkEntry::Found { path: Some(path), is_file: true } => {
                    file_paths.push(path.clone());
                    assert(file_paths.deep_view() =~= found.push(path@));
                },
                _ => {},
            }
            i += 1;
        }
        assert(entries@.take(i as int) =~= entries@);
        Config {
            query: self.query,
            file_paths,
            ignore_case: self.ignore_case,
            source: PathSource::Discovered,
        }
    }
}

} // verus!
