use rgrep::config::{
    check_flags, nth_not_starting_with_dash, pattern_of, source_of, starts_with_dash, Options,
    Source,
};
use rgrep::error::ConfigError;

fn args(list: &[&str]) -> Vec<String> {
    list.iter().map(|s| s.to_string()).collect()
}

fn options(unicode: bool, whole_words: bool) -> Options {
    Options { read_binary: false, case_sensitive: false, unicode, whole_words }
}

#[test]
fn dash_is_recognised_at_the_front_only() {
    assert!(starts_with_dash("-b"));
    assert!(starts_with_dash("--read-binary"));
    assert!(starts_with_dash("-"));
    assert!(!starts_with_dash("a-b"));
    assert!(!starts_with_dash(""));
}

#[test]
fn positionals_are_counted_behind_the_program_name() {
    let a = args(&["prog", "hello", "dir"]);
    assert_eq!(nth_not_starting_with_dash(0, &a), Some(&"hello".to_string()));
    assert_eq!(nth_not_starting_with_dash(1, &a), Some(&"dir".to_string()));
    assert_eq!(nth_not_starting_with_dash(2, &a), None);
}

#[test]
fn flags_may_stand_anywhere() {
    let a = args(&["prog", "-b", "hello", "--whole-words", "dir", "-c"]);
    assert_eq!(nth_not_starting_with_dash(0, &a), Some(&"hello".to_string()));
    assert_eq!(nth_not_starting_with_dash(1, &a), Some(&"dir".to_string()));
    assert_eq!(nth_not_starting_with_dash(2, &a), None);
}

#[test]
fn program_name_is_no_positional() {
    assert_eq!(nth_not_starting_with_dash(0, &args(&["prog"])), None);
    assert_eq!(nth_not_starting_with_dash(0, &args(&[])), None);
    assert_eq!(nth_not_starting_with_dash(0, &args(&["prog", "-h"])), None);
}

#[test]
fn unicode_with_whole_words_is_refused() {
    assert_eq!(check_flags(&options(true, true)), Err(ConfigError::UnicodeWholeWords));
    assert_eq!(check_flags(&options(true, false)), Ok(()));
    assert_eq!(check_flags(&options(false, true)), Ok(()));
    assert_eq!(check_flags(&options(false, false)), Ok(()));
}

#[test]
fn pattern_is_the_first_positional() {
    let a = args(&["prog", "-w", "needle", "dir"]);
    assert_eq!(pattern_of(&a, &options(false, true)), Ok(&"needle".to_string()));
}

#[test]
fn missing_pattern_is_refused() {
    assert_eq!(pattern_of(&args(&["prog", "-b"]), &options(false, false)), Err(ConfigError::MissingPattern));
}

#[test]
fn non_ascii_pattern_needs_unicode() {
    let a = args(&["prog", "naïve", "dir"]);
    assert_eq!(pattern_of(&a, &options(false, false)), Err(ConfigError::NonAsciiPattern));
    assert_eq!(pattern_of(&a, &options(true, false)), Ok(&"naïve".to_string()));
}

#[test]
fn root_path_selects_the_tree() {
    let a = args(&["prog", "needle", "some/dir"]);
    assert!(matches!(source_of(&a, false), Ok(Source::Tree(root)) if root == "some/dir"));
    assert!(matches!(source_of(&a, true), Ok(Source::Tree(root)) if root == "some/dir"));
}

#[test]
fn without_root_path_standard_input_is_read_if_ready() {
    let a = args(&["prog", "needle"]);
    assert!(matches!(source_of(&a, true), Ok(Source::StandardInput)));
}

#[test]
fn without_root_path_and_input_the_run_is_refused() {
    let a = args(&["prog", "needle"]);
    assert!(matches!(source_of(&a, false), Err(ConfigError::MissingRoot)));
}

#[test]
fn every_config_error_has_its_message() {
    assert_eq!(
        ConfigError::UnicodeWholeWords.message(),
        "you can not match whole words with unicode support enabled"
    );
    assert_eq!(ConfigError::MissingPattern.message(), "no pattern was given");
    assert_eq!(
        ConfigError::NonAsciiPattern.message(),
        "if you want to match over unicode, enable unicode support with `-u` flag"
    );
    assert_eq!(
        ConfigError::MissingRoot.message(),
        "no directory was given and standard input holds no data"
    );
}
