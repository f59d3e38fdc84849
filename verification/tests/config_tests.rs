use minigrep::matching_lines;
use minigrep::Config;

fn args(list: &[&str]) -> Vec<String> {
    list.iter().map(|s| s.to_string()).collect()
}

#[test]
fn missing_query_is_a_configuration_error() {
    assert_eq!(
        Err("Didn't get a query string"),
        Config::new(args(&["minigrep"]), false).map(|c| c.query)
    );
    assert_eq!(
        Err("Didn't get a query string"),
        Config::new(args(&[]), false).map(|c| c.query)
    );
}

#[test]
fn missing_filename_is_a_configuration_error() {
    assert_eq!(
        Err("Didn't get a file name"),
        Config::new(args(&["minigrep", "duct"]), false).map(|c| c.query)
    );
}

#[test]
fn both_arguments_build_the_config() {
    let config = Config::new(args(&["minigrep", "duct", "poem.txt"]), false).unwrap();
    assert_eq!("duct", config.query);
    assert_eq!("poem.txt", config.filename);
    assert!(config.case_sensitive);
}

#[test]
fn environment_flag_selects_case_insensitive_mode() {
    let config = Config::new(args(&["minigrep", "duct", "poem.txt"]), true).unwrap();
    assert!(!config.case_sensitive);
}

#[test]
fn extra_arguments_are_ignored() {
    let config = Config::new(args(&["minigrep", "q", "f", "extra"]), false).unwrap();
    assert_eq!("q", config.query);
    assert_eq!("f", config.filename);
}

#[test]
fn matching_lines_follows_the_case_mode() {
    let contents = "Rust:\nsafe, fast, productive.\nPick three.\nTrust me.";
    let sensitive = Config::new(args(&["minigrep", "rUsT", "poem.txt"]), false).unwrap();
    assert!(matching_lines(&sensitive, contents).is_empty());
    let insensitive = Config::new(args(&["minigrep", "rUsT", "poem.txt"]), true).unwrap();
    assert_eq!(
        vec!["Rust:", "Trust me."],
        matching_lines(&insensitive, contents)
    );
}
