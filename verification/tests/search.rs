use minigrep::search;
use minigrep::search_case_insensitive;
use minigrep::split_lines;

#[test]
fn case_sensitive() {
    let query = "duct";
    let content = "\n\nRust:\nsafe, fast, productive.\nPick three.";
    assert_eq!(vec!["safe, fast, productive."], search(query, content));
}

#[test]
fn case_insensitive() {
    let query = "rUsT";
    let contents = "Rust:\nsafe, fast, productive.\nPick three.\nTrust me.";
    assert_eq!(
        vec!["Rust:", "Trust me."],
        search_case_insensitive(query, contents)
    );
}

#[test]
fn case_insensitive_lowercase_query() {
    let query = "safe";
    let content = "\n\nRust:\nsafe, fast, productive.\nPick three.";
    assert_eq!(
        vec!["safe, fast, productive."],
        search_case_insensitive(query, content)
    );
}

#[test]
fn case_insensitive_uppercase_query_lowercase_text() {
    // Fails unless the query is really lowercased before the containment test.
    let query = "RUST";
    let content = "trust me\nnothing here";
    assert_eq!(vec!["trust me"], search_case_insensitive(query, content));
}

#[test]
fn line_containing_query_verbatim_is_included() {
    let content = "alpha\nbeta gamma\ndelta";
    let result = search("gamma", content);
    assert!(result.contains(&"beta gamma"));
}

#[test]
fn sensitive_matches_also_match_insensitively() {
    let query = "Rust";
    let content = "Rust:\nrust is fine\nnothing";
    let sensitive = search(query, content);
    let insensitive = search_case_insensitive(query, content);
    assert_eq!(vec!["Rust:"], sensitive);
    assert_eq!(vec!["Rust:", "rust is fine"], insensitive);
    for line in sensitive {
        assert!(insensitive.contains(&line));
    }
}

#[test]
fn empty_query_matches_every_line() {
    let content = "first\nsecond\nthird";
    assert_eq!(vec!["first", "second", "third"], search("", content));
}

#[test]
fn empty_text_matches_nothing() {
    let empty: Vec<&str> = Vec::new();
    assert_eq!(empty, search("query", ""));
}

#[test]
fn no_match_yields_empty_sequence() {
    let empty: Vec<&str> = Vec::new();
    assert_eq!(empty, search("zzz", "one\ntwo\nthree"));
}

#[test]
fn query_longer_than_line() {
    let empty: Vec<&str> = Vec::new();
    assert_eq!(empty, search("abcdef", "abc\nde"));
}

#[test]
fn line_with_repeated_occurrences_appears_once() {
    let content = "aaa bb aa\nbbb";
    assert_eq!(vec!["aaa bb aa"], search("aa", content));
}

#[test]
fn search_is_idempotent() {
    let query = "duct";
    let content = "\n\nRust:\nsafe, fast, productive.\nPick three.";
    assert_eq!(search(query, content), search(query, content));
}

#[test]
fn search_case_insensitive_is_idempotent() {
    let query = "rUsT";
    let content = "Rust:\nsafe, fast, productive.\nPick three.\nTrust me.";
    assert_eq!(
        search_case_insensitive(query, content),
        search_case_insensitive(query, content)
    );
}

#[test]
fn split_lines_drops_trailing_newline() {
    assert_eq!(vec!["a", "b"], split_lines("a\nb\n"));
}

#[test]
fn split_lines_keeps_empty_lines_between_separators() {
    assert_eq!(vec!["", "", "x"], split_lines("\n\nx"));
}

#[test]
fn split_lines_of_empty_text() {
    let empty: Vec<&str> = Vec::new();
    assert_eq!(empty, split_lines(""));
}

#[test]
fn split_lines_of_single_newline() {
    assert_eq!(vec![""], split_lines("\n"));
}
