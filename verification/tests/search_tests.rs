use minigrep::search::{search, split_lines};

#[test]
fn one_result_case_sensitive() {
    let contents = "Rust:\nsafe, fast, productive.\nPick three.";
    assert_eq!(search(contents, "duct", false), vec!["safe, fast, productive.".to_string()]);
}

#[test]
fn case_sensitive_distinguishes_case() {
    let contents = "Rust:\nsafe, fast, productive.\nPick three.";
    assert_eq!(search(contents, "Pick", false), vec!["Pick three.".to_string()]);
    assert_eq!(search(contents, "pick", false), Vec::<String>::new());
}

#[test]
fn case_insensitive_folds_both_sides() {
    let contents = "Rust:\nsafe, fast, productive.";
    assert_eq!(search(contents, "duct", true), vec!["safe, fast, productive.".to_string()]);
}

#[test]
fn case_insensitive_matches_mixed_case() {
    let contents = "Rust:\nsafe, fast, productive.\nTrust me.";
    assert_eq!(
        search(contents, "rUsT", true),
        vec!["Rust:".to_string(), "Trust me.".to_string()]
    );
}

#[test]
fn empty_query_returns_every_line() {
    let contents = "Rust:\nsafe, fast, productive.\nPick three.";
    assert_eq!(
        search(contents, "", false),
        vec![
            "Rust:".to_string(),
            "safe, fast, productive.".to_string(),
            "Pick three.".to_string()
        ]
    );
}

#[test]
fn search_twice_yields_identical_output() {
    let contents = "Rust:\nsafe, fast, productive.\nPick three.";
    assert_eq!(search(contents, "t", false), search(contents, "t", false));
    assert_eq!(search(contents, "T", true), search(contents, "T", true));
}

#[test]
fn empty_contents_yield_no_lines() {
    assert_eq!(search("", "anything", false), Vec::<String>::new());
    assert_eq!(search("", "anything", true), Vec::<String>::new());
    assert_eq!(search("", "", false), Vec::<String>::new());
}

#[test]
fn every_returned_line_contains_the_query() {
    let contents = "one fish\ntwo fish\nred herring\nblue fish";
    let query = "fish";
    let found = search(contents, query, false);
    assert_eq!(found.len(), 3);
    for line in &found {
        assert!(line.contains(query));
    }
}

#[test]
fn query_longer_than_any_line_matches_nothing() {
    let contents = "ab\ncd";
    assert_eq!(search(contents, "abcde", false), Vec::<String>::new());
}

#[test]
fn crlf_separators_are_not_part_of_lines() {
    let contents = "alpha\r\nbeta\r\ngamma";
    assert_eq!(
        search(contents, "", false),
        vec!["alpha".to_string(), "beta".to_string(), "gamma".to_string()]
    );
    assert_eq!(search(contents, "beta", false), vec!["beta".to_string()]);
}

#[test]
fn lone_carriage_return_stays_in_the_line() {
    let contents = "al\rpha\nbeta";
    assert_eq!(
        search(contents, "", false),
        vec!["al\rpha".to_string(), "beta".to_string()]
    );
}

#[test]
fn final_newline_opens_no_empty_line() {
    assert_eq!(search("last\n", "", false), vec!["last".to_string()]);
    assert_eq!(split_lines("last\n"), vec!["last".to_string()]);
}

#[test]
fn split_lines_on_empty_and_blank_input() {
    assert_eq!(split_lines(""), Vec::<String>::new());
    assert_eq!(split_lines("\n"), vec!["".to_string()]);
    assert_eq!(split_lines("\r\n"), vec!["".to_string()]);
    assert_eq!(split_lines("a\n\nb"), vec!["a".to_string(), "".to_string(), "b".to_string()]);
}

#[test]
fn case_folding_is_ascii_only() {
    // Non-ASCII letters are not folded: a match must be exact.
    let contents = "CAFÉ\n";
    assert_eq!(search(contents, "café", true), Vec::<String>::new());
    assert_eq!(search(contents, "caf", true), vec!["CAFÉ".to_string()]);
}

#[test]
fn matching_lines_keep_their_original_order() {
    let contents = "b first\na second\nb third";
    assert_eq!(
        search(contents, "b", false),
        vec!["b first".to_string(), "b third".to_string()]
    );
}
