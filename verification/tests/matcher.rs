use minigrep::{search, search_case_insensitive, SearchResult};

fn texts(results: &[SearchResult]) -> Vec<String> {
    results.iter().map(|hit| hit.line_text().to_string()).collect()
}

fn numbers(results: &[SearchResult]) -> Vec<usize> {
    results.iter().map(|hit| hit.line_number()).collect()
}

#[test]
fn one_result() {
    let query = "duct";
    let contains = "\
Rust:
safe, fast, productive.
Pick three.";

    assert_eq!(vec!["safe, fast, productive."], texts(&search(query, contains)));
}

#[test]
fn case_insensitive() {
    let query = "rUsT";
    let contents = "\
Rust:
safe, fast, productive,
Pick three.
Trust me.";

    assert_eq!(
        vec!["Rust:", "Trust me."],
        texts(&search_case_insensitive(query, contents))
    );
}

#[test]
fn one_result_is_line_one() {
    let found = search("duct", "Rust:\nsafe, fast, productive.\nPick three.");
    assert_eq!(found.len(), 1);
    assert_eq!(found[0].line_number(), 1);
    assert_eq!(found[0].line_text(), "safe, fast, productive.");
}

#[test]
fn case_insensitive_reports_lines_zero_and_three() {
    let contents = "Rust:\nsafe, fast, productive,\nPick three.\nTrust me.";
    let found = search_case_insensitive("rUsT", contents);
    assert_eq!(numbers(&found), vec![0, 3]);
    assert_eq!(texts(&found), vec!["Rust:", "Trust me."]);
}

#[test]
fn case_sensitive_needs_the_exact_case() {
    let contents = "Rust:\nsafe, fast, productive,\nPick three.\nTrust me.";
    assert!(search("rUsT", contents).is_empty());
}

#[test]
fn folding_applies_to_query_and_line_alike() {
    assert_eq!(numbers(&search_case_insensitive("RUST", "rust")), vec![0]);
    assert_eq!(numbers(&search_case_insensitive("rust", "RUST")), vec![0]);
    assert_eq!(numbers(&search_case_insensitive("RuSt", "rUsT")), vec![0]);
}

#[test]
fn case_insensitive_reports_the_line_as_written() {
    let found = search_case_insensitive("trust", "In Rust We TRUST");
    assert_eq!(texts(&found), vec!["In Rust We TRUST"]);
}

#[test]
fn no_match_gives_nothing() {
    assert!(search("zebra", "Rust:\nsafe, fast, productive.").is_empty());
    assert!(search_case_insensitive("zebra", "Rust:\nsafe, fast, productive.").is_empty());
    assert!(search("a", "").is_empty());
    assert!(search_case_insensitive("a", "").is_empty());
}

#[test]
fn every_reported_line_contains_the_query_at_its_position() {
    let contents = "alpha\nbeta\n\ngamma alpha\r\ndelta\nalphabet";
    let all: Vec<&str> = contents.lines().collect();
    let found = search("alpha", contents);
    assert_eq!(numbers(&found), vec![0, 3, 5]);
    for hit in &found {
        assert_eq!(hit.line_text(), all[hit.line_number()]);
        assert!(hit.line_text().contains("alpha"));
    }
}

#[test]
fn line_numbers_rise() {
    let found = search("a", "a\nb\na\na\nc\nba");
    assert_eq!(numbers(&found), vec![0, 2, 3, 5]);
}

#[test]
fn query_is_taken_literally() {
    let contents = "a.c\nabc\n[x]+\nx\n^start$\n\\d";
    assert_eq!(numbers(&search("a.c", contents)), vec![0]);
    assert_eq!(numbers(&search("[x]+", contents)), vec![2]);
    assert_eq!(numbers(&search("^start$", contents)), vec![4]);
    assert_eq!(numbers(&search("\\d", contents)), vec![5]);
    assert_eq!(numbers(&search(".", contents)), vec![0]);
}

#[test]
fn query_may_stand_inside_a_word() {
    assert_eq!(numbers(&search("duct", "productive")), vec![0]);
    assert_eq!(numbers(&search("rust", "trusty\nfrustrated")), vec![0, 1]);
}

#[test]
fn query_does_not_match_across_lines() {
    assert!(search("ab", "a\nb").is_empty());
    assert!(search("a\nb", "a\nb").is_empty());
}

#[test]
fn query_longer_than_line_does_not_match() {
    assert!(search("abcd", "abc").is_empty());
    assert_eq!(numbers(&search("abc", "abc")), vec![0]);
}

#[test]
fn empty_query_matches_every_line() {
    let contents = "one\n\nthree\n   \nfive";
    let found = search("", contents);
    assert_eq!(numbers(&found), vec![0, 1, 2, 3, 4]);
    assert_eq!(texts(&found), vec!["one", "", "three", "   ", "five"]);
    let folded = search_case_insensitive("", contents);
    assert_eq!(numbers(&folded), vec![0, 1, 2, 3, 4]);
    assert_eq!(texts(&folded), vec!["one", "", "three", "   ", "five"]);
}

#[test]
fn empty_query_on_empty_text_matches_nothing() {
    assert!(search("", "").is_empty());
    assert!(search_case_insensitive("", "").is_empty());
}

#[test]
fn searching_twice_gives_the_same() {
    let contents = "Rust:\nsafe, fast, productive,\nPick three.\nTrust me.";
    let first = search("st", contents);
    let second = search("st", contents);
    assert_eq!(numbers(&first), numbers(&second));
    assert_eq!(texts(&first), texts(&second));
    let first = search_case_insensitive("RUST", contents);
    let second = search_case_insensitive("RUST", contents);
    assert_eq!(numbers(&first), numbers(&second));
    assert_eq!(texts(&first), texts(&second));
}

#[test]
fn folding_reaches_letters_beyond_ascii() {
    let contents = "école\nECOLE\nÉCOLE\nstraße";
    assert_eq!(numbers(&search_case_insensitive("ÉCOLE", contents)), vec![0, 2]);
    assert_eq!(numbers(&search_case_insensitive("école", contents)), vec![0, 2]);
    assert_eq!(numbers(&search("ÉCOLE", contents)), vec![2]);
    assert_eq!(numbers(&search_case_insensitive("STRASSE", contents)), Vec::<usize>::new());
    assert_eq!(numbers(&search_case_insensitive("ΣΟΦΌΣ", "σοφός είναι")), vec![0]);
    assert_eq!(numbers(&search_case_insensitive("ЖУК", "майский жук")), vec![0]);
}

#[test]
fn folding_agrees_with_the_standard_library() {
    let lines = ["Rust", "ÉCOLE", "İstanbul", "ΟΔΥΣΣΕΥΣ", "straße", "ǅ", "123 ABC"];
    let queries = ["rust", "École", "i", "İ", "σ", "ς", "SS", "ß", "ǆ", "", "abc", "ΟΔΥΣΣΕΥΣ"];
    for line in lines {
        for query in queries {
            let expected = line.to_lowercase().contains(&query.to_lowercase());
            let found = search_case_insensitive(query, line);
            assert_eq!(!found.is_empty(), expected);
        }
    }
}

#[test]
fn multi_byte_text_is_matched_by_character() {
    let contents = "日本語のテキスト\nテキスト\n語";
    assert_eq!(numbers(&search("テキスト", contents)), vec![0, 1]);
    assert_eq!(numbers(&search("語", contents)), vec![0, 2]);
    assert_eq!(texts(&search("本語", contents)), vec!["日本語のテキスト"]);
}

#[test]
fn line_endings_are_not_part_of_the_line() {
    let found = search("end", "the end\r\nno end\nend\r");
    assert_eq!(texts(&found), vec!["the end", "no end", "end\r"]);
    assert!(search("\n", "a\nb\n").is_empty());
    assert!(search("\r", "a\r\nb\r\n").is_empty());
    assert_eq!(numbers(&search("\r", "a\r\r\nb")), vec![0]);
}

#[test]
fn default_result_is_the_empty_line_at_zero() {
    let hit = SearchResult::default();
    assert_eq!(hit.line_number(), 0);
    assert_eq!(hit.line_text(), "");
}
