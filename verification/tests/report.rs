use minigrep::load::load_files;
use minigrep::render::{render, render_group, render_match};
use minigrep::scan::{scan_file, scan_files};
use minigrep::{
    run, search, Config, FileMeta, FileRead, PathSource, Resolution, WalkEntry,
};

fn args(words: &[&str]) -> Vec<String> {
    words.iter().map(|word| word.to_string()).collect()
}

fn explicit(query: &str, path: &str, ignore_case: bool) -> Config {
    match Config::build(args(&["minigrep", query, path]), ignore_case) {
        Ok(Resolution::Ready(config)) => config,
        other => panic!("{:?}", other),
    }
}

fn discovered(query: &str, paths: &[&str], ignore_case: bool) -> Config {
    let entries = paths
        .iter()
        .map(|path| WalkEntry::Found { path: Some(path.to_string()), is_file: true })
        .collect();
    match Config::build(args(&["minigrep", query]), ignore_case) {
        Ok(Resolution::NeedsWalk(pending)) => pending.finish(entries),
        other => panic!("{:?}", other),
    }
}

fn read(path: &str, contents: &str) -> FileRead {
    FileRead { path: path.to_string(), outcome: Ok(contents.to_string()) }
}

fn failed(path: &str, reason: &str) -> FileRead {
    FileRead { path: path.to_string(), outcome: Err(reason.to_string()) }
}

fn file(name: &str, contents: &str) -> FileMeta {
    FileMeta::new(name.to_string(), contents.to_string())
}

#[test]
fn match_is_number_colon_space_text() {
    let found = search("b", "a\nb c\nd");
    assert_eq!(render_match(&found[0]), "1: b c");
}

#[test]
fn line_numbers_are_written_in_decimal() {
    let mut contents = String::new();
    for k in 0..1235 {
        contents.push_str(if k % 5 == 0 { "x\n" } else { "y\n" });
    }
    let found = search("x", &contents);
    assert_eq!(found.len(), 247);
    assert_eq!(render_match(&found[0]), "0: x");
    assert_eq!(render_match(&found[1]), "5: x");
    assert_eq!(render_match(&found[2]), "10: x");
    assert_eq!(render_match(&found[20]), "100: x");
    assert_eq!(render_match(&found[21]), "105: x");
    assert_eq!(render_match(&found[200]), "1000: x");
    assert_eq!(render_match(&found[246]), "1230: x");
    for hit in &found {
        assert_eq!(render_match(hit), format!("{}: {}", hit.line_number(), hit.line_text()));
    }
}

#[test]
fn empty_line_is_rendered_with_its_number() {
    let found = search("", "\n\n");
    assert_eq!(render_match(&found[1]), "1: ");
}

#[test]
fn group_is_header_matches_and_an_empty_line() {
    let group = scan_file("the", false, file("poem.txt", "the one\nnone\nthe other")).unwrap();
    assert_eq!(render_group(&group), "File: poem.txt\n0: the one\n2: the other\n\n");
}

#[test]
fn groups_are_rendered_one_after_the_other() {
    let groups = scan_files(
        "a",
        false,
        vec![file("x.txt", "a\na"), file("y.txt", "b"), file("z.txt", "b\nab\nba")],
    );
    assert_eq!(render(&groups), "File: x.txt\n0: a\n1: a\n\nFile: z.txt\n1: ab\n2: ba\n\n");
}

#[test]
fn no_groups_render_as_nothing() {
    assert_eq!(render(&Vec::new()), "");
}

#[test]
fn explicit_file_is_loaded() {
    let config = explicit("a", "x.txt", false);
    let files = load_files(&config, vec![read("x.txt", "a\nb")]).unwrap();
    assert_eq!(files.len(), 1);
    assert_eq!(files[0].file_name(), "x.txt");
    assert_eq!(files[0].file_contents(), "a\nb");
}

#[test]
fn failed_read_of_an_explicit_file_is_fatal() {
    let config = explicit("a", "gone.txt", false);
    assert_eq!(config.source(), PathSource::Explicit);
    let error = load_files(&config, vec![failed("gone.txt", "No such file or directory")])
        .err()
        .unwrap();
    assert_eq!(error.path(), "gone.txt");
    assert_eq!(error.message(), "No such file or directory");
}

#[test]
fn first_failed_read_is_the_one_reported() {
    let config = explicit("a", "x.txt", false);
    let reads = vec![
        read("x.txt", "a"),
        failed("y.txt", "permission denied"),
        failed("z.txt", "invalid data"),
    ];
    let error = load_files(&config, reads).err().unwrap();
    assert_eq!(error.path(), "y.txt");
    assert_eq!(error.message(), "permission denied");
}

#[test]
fn failed_read_of_a_discovered_file_is_skipped() {
    let config = discovered("a", &["x.txt", "y.txt", "z.txt"], false);
    let reads = vec![
        read("x.txt", "a"),
        failed("y.txt", "permission denied"),
        read("z.txt", "b"),
    ];
    let files = load_files(&config, reads).unwrap();
    assert_eq!(files.len(), 2);
    assert_eq!(files[0].file_name(), "x.txt");
    assert_eq!(files[1].file_name(), "z.txt");
    assert_eq!(files[1].file_contents(), "b");
}

#[test]
fn discovery_where_every_read_fails_loads_nothing() {
    let config = discovered("a", &["x.txt", "y.txt"], false);
    let reads = vec![failed("x.txt", "gone"), failed("y.txt", "gone")];
    assert!(load_files(&config, reads).unwrap().is_empty());
}

#[test]
fn run_reports_the_files_with_two_matches_or_more() {
    let config = discovered("rust", &["a.txt", "b.txt", "c.txt", "d.txt"], false);
    let reads = vec![
        read("a.txt", "rust\ntrust\ndust"),
        read("b.txt", "rust\ndust"),
        read("c.txt", "dust\nmust"),
        read("d.txt", "dust\nrusty\ncrust\nrust"),
    ];
    assert_eq!(
        run(config, reads).unwrap(),
        "File: a.txt\n0: rust\n1: trust\n\nFile: d.txt\n1: rusty\n2: crust\n3: rust\n\n"
    );
}

#[test]
fn run_survives_an_unreadable_file_among_discovered_ones() {
    let config = discovered("x", &["a.txt", "b.txt", "c.txt"], false);
    let reads = vec![
        read("a.txt", "x\nx"),
        failed("b.txt", "No such file or directory"),
        read("c.txt", "y\nx\nxx"),
    ];
    assert_eq!(run(config, reads).unwrap(), "File: a.txt\n0: x\n1: x\n\nFile: c.txt\n1: x\n2: xx\n\n");
}

#[test]
fn run_fails_when_the_explicit_file_is_unreadable() {
    let config = explicit("x", "a.txt", false);
    let error = run(config, vec![failed("a.txt", "stream did not contain valid UTF-8")])
        .err()
        .unwrap();
    assert_eq!(error.path(), "a.txt");
    assert_eq!(error.message(), "stream did not contain valid UTF-8");
}

#[test]
fn run_without_matches_reports_nothing() {
    let config = explicit("zebra", "a.txt", false);
    assert_eq!(run(config, vec![read("a.txt", "x\ny")]).unwrap(), "");
    let config = discovered("zebra", &[], false);
    assert_eq!(run(config, Vec::new()).unwrap(), "");
}

#[test]
fn run_observes_the_case_rule() {
    let reads = || vec![read("a.txt", "Rust\nrust\nRUST")];
    assert_eq!(run(explicit("rust", "a.txt", false), reads()).unwrap(), "");
    assert_eq!(
        run(explicit("rust", "a.txt", true), reads()).unwrap(),
        "File: a.txt\n0: Rust\n1: rust\n2: RUST\n\n"
    );
}

#[test]
fn run_with_the_empty_query_reports_every_line() {
    let config = discovered("", &["a.txt", "b.txt"], false);
    let reads = vec![read("a.txt", "one\n\nthree\n"), read("b.txt", "single")];
    assert_eq!(run(config, reads).unwrap(), "File: a.txt\n0: one\n1: \n2: three\n\n");
}

#[test]
fn run_twice_gives_the_same_report() {
    let reads = || vec![read("a.txt", "x\ny\nx"), read("b.txt", "x\nx")];
    let first = run(discovered("x", &["a.txt", "b.txt"], false), reads()).unwrap();
    let second = run(discovered("x", &["a.txt", "b.txt"], false), reads()).unwrap();
    assert_eq!(first, second);
}
