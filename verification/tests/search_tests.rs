use minigrep::run_search;
use minigrep::search;
use minigrep::search_case_insensitive;
use minigrep::Config;
use minigrep::RunError;

#[test]
fn case_sensitive() {
    let query = "duct";
    let contents = "\
Rust:
safe, fast, productive.
Pick three.
Duct tape.";

    assert_eq!(vec!["safe, fast, productive."], search(query, contents));
}

#[test]
fn case_insensitive() {
    let query = "rUsT";
    let contents = "\
Rust:
safe, fast, productive.
Pick three.
Trust me.";

    assert_eq!(
        vec!["Rust:", "Trust me."],
        search_case_insensitive(query, contents)
    );
}

#[test]
fn empty_contents_gives_empty_result() {
    assert!(search("anything", "").is_empty());
    assert!(search_case_insensitive("anything", "").is_empty());
}

#[test]
fn empty_query_matches_every_line() {
    let contents = "alpha\nbeta\ngamma";
    let all = vec!["alpha", "beta", "gamma"];
    assert_eq!(all, search("", contents));
    assert_eq!(all, search_case_insensitive("", contents));
}

#[test]
fn trailing_newline_adds_no_empty_line() {
    let contents = "alpha\nbeta\n";
    assert_eq!(vec!["alpha", "beta"], search("", contents));
}

#[test]
fn blank_lines_between_text_are_kept() {
    let contents = "alpha\n\nbeta";
    assert_eq!(vec!["alpha", "", "beta"], search("", contents));
}

#[test]
fn search_is_idempotent() {
    let query = "st";
    let contents = "Rust:\nsafe, fast, productive.\nPick three.\nTrust me.";
    assert_eq!(search(query, contents), search(query, contents));
    assert_eq!(
        search_case_insensitive(query, contents),
        search_case_insensitive(query, contents)
    );
}

#[test]
fn folding_lowers_both_sides() {
    assert_eq!(vec!["rust"], search_case_insensitive("RUST", "rust"));
    assert_eq!(vec!["RUST"], search_case_insensitive("rust", "RUST"));
    assert!(search("RUST", "rust").is_empty());
}

#[test]
fn folding_is_applied_to_each_line() {
    let contents = "MiXeD\nmixed\nMIXED\nother";
    assert_eq!(
        vec!["MiXeD", "mixed", "MIXED"],
        search_case_insensitive("mIxEd", contents)
    );
}

#[test]
fn match_in_middle_of_line() {
    assert_eq!(vec!["abcde"], search("bcd", "abcde\nxyz"));
    assert!(search("bcx", "abcde\nxyz").is_empty());
}

#[test]
fn config_resolves_all_fields() {
    let config = Config::new(
        Some(String::from("needle")),
        Some(String::from("haystack.txt")),
        false,
        false,
    )
    .unwrap();
    assert_eq!("needle", config.query);
    assert_eq!("haystack.txt", config.filename);
    assert!(config.case_sensitive);
}

#[test]
fn config_flag_requests_insensitivity() {
    let config = Config::new(
        Some(String::from("q")),
        Some(String::from("f")),
        true,
        false,
    )
    .unwrap();
    assert!(!config.case_sensitive);
}

#[test]
fn config_env_override_requests_insensitivity() {
    let config = Config::new(
        Some(String::from("q")),
        Some(String::from("f")),
        false,
        true,
    )
    .unwrap();
    assert!(!config.case_sensitive);

    let both = Config::new(Some(String::from("q")), Some(String::from("f")), true, true).unwrap();
    assert!(!both.case_sensitive);
}

#[test]
fn config_missing_arguments_fail() {
    assert!(matches!(
        Config::new(None, None, false, false),
        Err(RunError::MissingArgument)
    ));
    assert!(matches!(
        Config::new(Some(String::from("q")), None, false, false),
        Err(RunError::MissingArgument)
    ));
    assert!(matches!(
        Config::new(None, Some(String::from("f")), false, false),
        Err(RunError::MissingArgument)
    ));
}

#[test]
fn run_search_dispatches_on_case_sensitivity() {
    let contents = "Rust:\nsafe, fast, productive.\nPick three.\nTrust me.";
    let sensitive = Config::new(
        Some(String::from("rUsT")),
        Some(String::from("f")),
        false,
        false,
    )
    .unwrap();
    let insensitive = Config::new(
        Some(String::from("rUsT")),
        Some(String::from("f")),
        true,
        false,
    )
    .unwrap();
    assert!(run_search(&sensitive, contents).is_empty());
    assert_eq!(
        vec!["Rust:", "Trust me."],
        run_search(&insensitive, contents)
    );
}

#[test]
fn error_messages_describe_the_failure() {
    assert_eq!(
        "a required argument was not supplied",
        RunError::MissingArgument.message()
    );
    let read = RunError::ReadError {
        cause: String::from("file not found"),
    };
    assert_eq!("file not found", read.message());
}
