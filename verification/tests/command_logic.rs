use yoroolbot::CharCategory;
use yoroolbot::EmptyArg;
use yoroolbot::command::callback_data_needs_storage;
use yoroolbot::command::is_storage_reference;
use yoroolbot::command::to_command_string;
use yoroolbot::scan::classify;
use yoroolbot::screen_spaces;
use yoroolbot::split_with_screened_spaces;

#[test]
fn split_on_unescaped_spaces() {
    assert_eq!(split_with_screened_spaces("a b"), vec!["a", "b"]);
    assert_eq!(split_with_screened_spaces("  a  b  "), vec!["a", "b"]);
    assert_eq!(split_with_screened_spaces(""), Vec::<String>::new());
}

#[test]
fn split_honours_screened_spaces() {
    assert_eq!(split_with_screened_spaces("a\\ b"), vec!["a b"]);
    assert_eq!(split_with_screened_spaces("a\\\\ b"), vec!["a\\", "b"]);
    assert_eq!(split_with_screened_spaces("a\\x"), vec!["a\\x"]);
    assert_eq!(split_with_screened_spaces("a\\"), vec!["a\\"]);
}

#[test]
fn split_reads_only_the_first_line() {
    assert_eq!(split_with_screened_spaces("a b\nc d"), vec!["a", "b"]);
    assert_eq!(split_with_screened_spaces("a b\r\nc d"), vec!["a", "b"]);
}

#[test]
fn screen_spaces_escapes_them() {
    assert_eq!(screen_spaces("a b\\c"), "a\\ b\\\\c");
    assert_eq!(screen_spaces("plain"), "plain");
}

#[test]
fn screen_then_split_round_trip() {
    for arg in ["hello world", "a\\b c", "  spaced  "] {
        let screened = screen_spaces(arg);
        assert_eq!(split_with_screened_spaces(&screened), vec![arg]);
    }
}

#[test]
fn command_string_stops_at_last_present_parameter() {
    let params: Vec<Option<String>> = vec![
        Some("a".to_string()),
        Some("b c".to_string()),
        None,
        None,
        None,
        None,
        None,
        None,
        None,
    ];
    let placeholders: Vec<String> = vec!["X".to_string(), "Y".to_string(), "Z".to_string()];
    let partial = to_command_string("cmd", &params, &placeholders, false);
    assert_eq!(partial, "/cmd a b\\ c ");
}

#[test]
fn command_string_complete_emits_placeholders() {
    let params: Vec<Option<String>> = vec![
        Some("a".to_string()),
        Some("b c".to_string()),
        None,
        None,
        None,
        None,
        None,
        None,
        None,
    ];
    let placeholders: Vec<String> = vec!["X".to_string(), "Y".to_string(), "Z".to_string()];
    let complete = to_command_string("cmd", &params, &placeholders, true);
    assert_eq!(complete, "/cmd a b\\ c Z");
}

#[test]
fn command_string_without_parameters() {
    let params: Vec<Option<String>> = vec![None, None, None];
    let none: Vec<String> = vec![];
    assert_eq!(to_command_string("noop", &params, &none, false), "/noop");
    assert_eq!(to_command_string("noop", &params, &none, true), "/noop");

    let one: Vec<String> = vec!["P".to_string()];
    assert_eq!(to_command_string("cmd", &params, &one, false), "/cmd ");
    assert_eq!(to_command_string("cmd", &params, &one, true), "/cmd P");
}

#[test]
fn empty_arg_parses_only_empty() {
    assert!(EmptyArg::parse_command_arg("").is_some());
    assert!(EmptyArg::parse_command_arg("x").is_none());
}

#[test]
fn callback_storage_decision() {
    assert!(!callback_data_needs_storage("short"));
    assert!(callback_data_needs_storage(&"x".repeat(65)));
    assert!(!callback_data_needs_storage(&"x".repeat(64)));
    assert!(callback_data_needs_storage("héllo"));
}

#[test]
fn storage_reference_prefix() {
    assert!(is_storage_reference("cb:1:2:3"));
    assert!(is_storage_reference("cb:"));
    assert!(!is_storage_reference("cb"));
    assert!(!is_storage_reference("data"));
    assert!(!is_storage_reference(""));
}

#[test]
fn classifier_categories() {
    for c in ['!', '.', '-', '+', '=', '>', '#', '{', '}'] {
        assert_eq!(classify(c), CharCategory::Reserved);
    }
    for c in ['*', '_', '~', '|'] {
        assert_eq!(classify(c), CharCategory::Toggle);
    }
    assert_eq!(classify('`'), CharCategory::CodeFence);
    assert_eq!(classify('['), CharCategory::LinkOpen);
    assert_eq!(classify(']'), CharCategory::LinkClose);
    assert_eq!(classify('('), CharCategory::UrlOpen);
    assert_eq!(classify(')'), CharCategory::UrlClose);
    assert_eq!(classify('\\'), CharCategory::Backslash);
    assert_eq!(classify('a'), CharCategory::Ordinary);
}
