use minigrep::Config;

#[test]
fn config_from_both_arguments() {
    let config = Config::new(
        Some(String::from("needle")),
        Some(String::from("haystack.txt")),
        true,
    )
    .unwrap();
    assert_eq!("needle", config.query);
    assert_eq!("haystack.txt", config.filename);
    assert!(config.case_sensitive);
}

#[test]
fn config_keeps_case_choice() {
    let config = Config::new(
        Some(String::from("q")),
        Some(String::from("f")),
        false,
    )
    .unwrap();
    assert!(!config.case_sensitive);
}

#[test]
fn config_missing_query_is_rejected() {
    let result = Config::new(None, Some(String::from("haystack.txt")), true);
    assert_eq!(Err("Didn't get a query string"), result.map(|_| ()));
}

#[test]
fn config_missing_filename_is_rejected() {
    let result = Config::new(Some(String::from("needle")), None, true);
    assert_eq!(Err("Didnt get a file name"), result.map(|_| ()));
}
