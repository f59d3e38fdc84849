use minigrep::search;
use minigrep::search_case_insensitive;

#[test]
fn case_sensitive() {
    let query = "duct";
    let contents = "\
Rust:
safe, fast, productive.
Pick three.
Duct tape.";
    assert_eq!(vec!["safe, fast, productive."], search(query, contents));
}

#[test]
fn case_insensitive() {
    let query = "rUsT";
    let contents = "\
Rust:
safe, fast, productive.
Pick three.
Trust me.";

    assert_eq!(
        vec!["Rust:", "Trust me."],
        search_case_insensitive(query, contents)
    );
}

#[test]
fn empty_query_returns_every_line() {
    let contents = "Rust:\nsafe, fast, productive.\nPick three.";
    assert_eq!(
        vec!["Rust:", "safe, fast, productive.", "Pick three."],
        search("", contents)
    );
}

#[test]
fn searching_twice_gives_identical_results() {
    let query = "st";
    let contents = "Rust:\nsafe, fast, productive.\nPick three.\nTrust me.";
    assert_eq!(search(query, contents), search(query, contents));
}

#[test]
fn case_insensitive_finds_at_least_as_much() {
    let query = "Rust";
    let contents = "Rust:\nrust is great\nRUST\nno match here";
    let sensitive = search(query, contents);
    let insensitive = search_case_insensitive(query, contents);
    assert_eq!(vec!["Rust:"], sensitive);
    assert_eq!(vec!["Rust:", "rust is great", "RUST"], insensitive);
    assert!(sensitive.len() <= insensitive.len());
    for line in &sensitive {
        assert!(insensitive.contains(line));
    }
}

#[test]
fn no_match_returns_empty() {
    let result = search("monomorphization", "one\ntwo\nthree");
    assert!(result.is_empty());
}

#[test]
fn empty_content_has_no_lines() {
    assert!(search("x", "").is_empty());
    assert!(search("", "").is_empty());
}

#[test]
fn trailing_newline_does_not_add_a_line() {
    assert_eq!(vec!["a", "b"], search("", "a\nb\n"));
}

#[test]
fn carriage_return_line_breaks_are_trimmed() {
    assert_eq!(vec!["ab", "cd"], search("", "ab\r\ncd"));
}

#[test]
fn lone_carriage_return_stays_in_the_line() {
    assert_eq!(vec!["a\rb"], search("", "a\rb"));
}

#[test]
fn blank_lines_are_kept() {
    assert_eq!(vec!["a", "", "b"], search("", "a\n\nb"));
}

#[test]
fn query_longer_than_line_does_not_match() {
    assert!(search("abcdef", "abc\nabcde").is_empty());
}

#[test]
fn match_at_line_ends() {
    assert_eq!(vec!["xyz", "zzz"], search("z", "xyz\nabc\nzzz"));
}

#[test]
fn search_is_exact_about_case() {
    assert!(search("Duct", "duct tape").is_empty());
    assert_eq!(vec!["Duct tape"], search("Duct", "Duct tape"));
}

#[test]
fn fold_applies_to_query_and_line() {
    assert_eq!(
        vec!["with hey", "Hey"],
        search_case_insensitive("hey", "my string\nwith hey\nHey")
    );
    assert_eq!(
        vec!["ABC inside"],
        search_case_insensitive("abc", "ABC inside\nno hit")
    );
}

#[test]
fn non_ascii_characters_match_exactly() {
    assert_eq!(vec!["café au lait"], search("café", "café au lait\ncoffee"));
    assert_eq!(
        vec!["café au lait"],
        search_case_insensitive("CAFé", "café au lait\ncoffee")
    );
}

#[test]
fn non_ascii_uppercase_in_query_is_folded() {
    assert_eq!(
        vec!["café au lait"],
        search_case_insensitive("cafÉ", "café au lait\ncoffee")
    );
    assert_eq!(vec!["é"], search_case_insensitive("É", "é"));
}

#[test]
fn lowercasing_is_not_full_case_folding() {
    // Uppercasing the sharp s gives "SS", but lowercasing "SS" gives "ss",
    // not the sharp s back: lowercase conversion is not case folding, so
    // these two do not meet.
    assert!(search_case_insensitive("straße", "STRASSE").is_empty());
}

#[test]
fn lowercasing_the_query_first_changes_nothing() {
    let contents = "Rust:\nsafe, fast, productive.\nPick three.\nTrust me.";
    assert_eq!(
        search_case_insensitive("rUsT", contents),
        search_case_insensitive("rust", contents)
    );
    assert_eq!(
        search_case_insensitive("CAFé", "café au lait\ncoffee"),
        search_case_insensitive("café", "café au lait\ncoffee")
    );
}
