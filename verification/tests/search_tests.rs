use minigrep::search;
use minigrep::search_case_insensitive;
use minigrep::search_with_case;

#[test]
fn case_sensitive() {
    let query = "duct";
    let contents = "\
Rust:
safe, fast, productive.
Pick three.
Duct tape.";

    assert_eq!(vec!["safe, fast, productive."], search(query, contents));
}

#[test]
fn case_insensitive() {
    let query = "rUsT";
    let contents = "\
Rust:
safe, fast, productive.
Pick three.
Trust me.";

    assert_eq!(
        vec!["Rust:", "Trust me."],
        search_case_insensitive(query, contents)
    );
}

#[test]
fn empty_query_returns_every_line() {
    let contents = "Rust:\nsafe, fast, productive.\nPick three.";
    assert_eq!(
        vec!["Rust:", "safe, fast, productive.", "Pick three."],
        search("", contents)
    );
    assert_eq!(vec!["a", "b"], search("", "a\nb\n"));
}

#[test]
fn empty_corpus_returns_nothing() {
    assert_eq!(Vec::<&str>::new(), search("duct", ""));
    assert_eq!(Vec::<&str>::new(), search("", ""));
    assert_eq!(Vec::<&str>::new(), search_case_insensitive("duct", ""));
}

#[test]
fn final_line_without_newline_is_scanned() {
    let query = "duct";
    let contents = "Rust:\nsafe, fast, productive.\nPick three.";
    assert_eq!(vec!["safe, fast, productive."], search(query, contents));
}

#[test]
fn crlf_terminators_are_stripped() {
    assert_eq!(vec!["two"], search("two", "one\r\ntwo\r\nthree"));
    assert_eq!(vec!["one", "two"], search("", "one\r\ntwo\r\n"));
}

#[test]
fn trailing_cr_kept_on_unterminated_final_line() {
    assert_eq!(vec!["baz\r"], search("baz", "foo\r\nbar\n\nbaz\r"));
}

#[test]
fn corpus_of_only_newlines_yields_empty_lines() {
    assert_eq!(vec!["", "", ""], search("", "\n\n\n"));
    assert_eq!(Vec::<&str>::new(), search("x", "\n\n"));
}

#[test]
fn duplicate_matching_lines_are_kept() {
    assert_eq!(vec!["dup", "dup"], search("dup", "dup\ndup"));
}

#[test]
fn line_with_several_occurrences_appears_once() {
    assert_eq!(vec!["aaaa"], search("aa", "aaaa\nb"));
}

#[test]
fn searching_twice_gives_identical_results() {
    let query = "rUsT";
    let contents = "Rust:\nsafe, fast, productive.\nPick three.\nTrust me.";
    assert_eq!(search(query, contents), search(query, contents));
    assert_eq!(
        search_case_insensitive(query, contents),
        search_case_insensitive(query, contents)
    );
}

#[test]
fn insensitive_search_includes_sensitive_matches() {
    let query = "Rust";
    let contents = "Rust:\nsafe, fast, productive.\ntrust me.";
    assert_eq!(vec!["Rust:"], search(query, contents));
    assert_eq!(
        vec!["Rust:", "trust me."],
        search_case_insensitive(query, contents)
    );
}

#[test]
fn insensitive_search_folds_the_query() {
    let contents = "Rust:\nsafe, fast, productive.\nPick three.\nDuct tape.";
    assert_eq!(
        vec!["safe, fast, productive.", "Duct tape."],
        search_case_insensitive("DUCT", contents)
    );
    assert_eq!(
        vec!["rust is here"],
        search_case_insensitive("RUST", "rust is here")
    );
}

#[test]
fn search_with_case_selects_the_variant() {
    let query = "rUsT";
    let contents = "Rust:\nTrust me.";
    assert_eq!(Vec::<&str>::new(), search_with_case(query, contents, true));
    assert_eq!(
        vec!["Rust:", "Trust me."],
        search_with_case(query, contents, false)
    );
    assert_eq!(vec!["Rust:"], search_with_case("Rust", contents, true));
}
