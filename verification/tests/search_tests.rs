use file_tools::search::contains_substr;
use file_tools::search::match_at;
use file_tools::search::search;
use file_tools::search::Config;

fn owned(v: &[&str]) -> Vec<String> {
    v.iter().map(|s| s.to_string()).collect()
}

#[test]
fn search_keeps_exactly_the_matching_lines() {
    let result = search("apple", "apple\nbanana\napplepie");
    assert_eq!(result, owned(&["apple", "applepie"]));
}

#[test]
fn empty_query_returns_every_line() {
    let result = search("", "first\nsecond\nthird");
    assert_eq!(result, owned(&["first", "second", "third"]));
}

#[test]
fn empty_text_has_no_lines() {
    let result = search("anything", "");
    assert_eq!(result, Vec::<String>::new());
    let result = search("", "");
    assert_eq!(result, Vec::<String>::new());
}

#[test]
fn trailing_line_without_terminator_is_still_searched() {
    let result = search("b", "ab\ncd\neb");
    assert_eq!(result, owned(&["ab", "eb"]));
}

#[test]
fn trailing_newline_adds_no_extra_line() {
    let result = search("a", "a\n");
    assert_eq!(result, owned(&["a"]));
}

#[test]
fn lone_newline_is_one_empty_line() {
    let result = search("", "\n");
    assert_eq!(result, owned(&[""]));
}

#[test]
fn empty_lines_between_others_are_kept() {
    let result = search("", "a\n\nb");
    assert_eq!(result, owned(&["a", "", "b"]));
}

#[test]
fn matching_is_case_sensitive() {
    let result = search("Apple", "apple\nApple pie");
    assert_eq!(result, owned(&["Apple pie"]));
}

#[test]
fn matches_keep_the_order_of_the_text() {
    let result = search("o", "two\nthree\nfour\nfive\none");
    assert_eq!(result, owned(&["two", "four", "one"]));
}

#[test]
fn contains_substr_finds_inner_text() {
    assert!(contains_substr("hello world", "lo wo"));
    assert!(contains_substr("hello", "hello"));
    assert!(contains_substr("hello", ""));
    assert!(contains_substr("", ""));
    assert!(!contains_substr("hello", "world"));
    assert!(!contains_substr("", "x"));
    assert!(!contains_substr("abc", "abcd"));
}

#[test]
fn match_at_checks_one_position() {
    assert!(match_at("abcabc", "bc", 1));
    assert!(match_at("abcabc", "bc", 4));
    assert!(!match_at("abcabc", "bc", 2));
    assert!(!match_at("abc", "bc", 2));
    assert!(match_at("abc", "", 0));
}

#[test]
fn config_build_needs_two_positional_arguments() {
    let args = vec![
        "prog".to_string(),
        "notes.txt".to_string(),
        "needle".to_string(),
    ];
    let config = Config::build(&args).unwrap();
    assert_eq!(config.file, "notes.txt");
    assert_eq!(config.query, "needle");

    let too_few = vec!["prog".to_string(), "notes.txt".to_string()];
    match Config::build(&too_few) {
        Ok(_) => panic!("too few arguments were accepted"),
        Err(m) => assert_eq!(m, "Not enough arguments"),
    }
}
