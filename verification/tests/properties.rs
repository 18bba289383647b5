use yoroolbot::FormatArg;
use yoroolbot::MarkdownError;
use yoroolbot::MarkdownString;
use yoroolbot::markdown_format;
use yoroolbot::markdown_string;
use yoroolbot::validate_markdownv2_format;

#[test]
fn escape_constructor_behaviour() {
    let markdown = MarkdownString::escape("Hello world");
    assert_eq!(markdown.as_str(), "Hello world");

    let markdown = MarkdownString::escape("Hello! *bold* _italic_ `code`");
    assert_eq!(
        markdown.as_str(),
        "Hello\\! \\*bold\\* \\_italic\\_ \\`code\\`"
    );

    let markdown = MarkdownString::escape("!.-+=>#{}[]()~|");
    assert_eq!(
        markdown.as_str(),
        "\\!\\.\\-\\+\\=\\>\\#\\{\\}\\[\\]\\(\\)\\~\\|"
    );
}

#[test]
fn escape_output_always_validates() {
    // Escaped text passes the validator, whatever went in.
    for input in [
        "plain",
        "Hello! *bold* _italic_ `code`",
        "!.-+=>#{}[]()~|",
        "back\\slash",
        "]stray[ brackets(",
        "``` fences ```",
    ] {
        let escaped = MarkdownString::escape(input);
        assert!(
            validate_markdownv2_format(escaped.as_str()).is_ok(),
            "escape({:?}) should validate",
            input
        );
    }
}

#[test]
fn escape_double_escapes_by_design() {
    // Re-escaping an escaped payload escapes its backslashes again:
    // escaping is not a round trip.
    let once = MarkdownString::escape("a!");
    assert_eq!(once.as_str(), "a\\!");
    let twice = MarkdownString::escape(once.as_str());
    assert_eq!(twice.as_str(), "a\\\\\\!");
}

#[test]
fn empty_values() {
    let markdown = MarkdownString::new();
    assert_eq!(markdown.as_str(), "");
    assert!(!markdown.is_truncated());
    assert_eq!(MarkdownString::escape("").as_str(), "");
    assert_eq!(MarkdownString::default().as_str(), "");
}

#[test]
fn into_string_returns_payload() {
    let markdown = MarkdownString::escape("Hello!");
    let s: String = markdown.into_string();
    assert_eq!(s, "Hello\\!");
}

#[test]
fn push_combines_values() {
    let mut combined = MarkdownString::escape("Hello ");
    combined.push(&MarkdownString::escape("world!"));
    assert_eq!(combined.as_str(), "Hello world\\!");
    assert!(!combined.is_truncated());
}

#[test]
fn truncation_is_deterministic_and_final() {
    // An addition that would pass the ceiling is dropped whole; the
    // value gains exactly the marker, stays under the ceiling, and
    // never changes again.
    let long = "a".repeat(4000);
    let mut value = MarkdownString::escape(&long);
    assert!(!value.is_truncated());
    value.push(&MarkdownString::escape(&"b".repeat(200)));
    assert!(value.is_truncated());
    assert!(value.as_str().chars().count() <= 4096);
    assert!(value.as_str().ends_with("\\.\\.\\."));
    assert_eq!(value.as_str().chars().count(), 4006);

    let before = value.as_str().to_string();
    value.push(&MarkdownString::escape("more"));
    assert_eq!(value.as_str(), before);
    assert!(value.is_truncated());
}

#[test]
fn oversized_construction_keeps_only_marker() {
    // When even the first addition cannot fit under the ceiling the
    // guard keeps the bare marker.
    let huge = "x".repeat(5000);
    let value = MarkdownString::escape(&huge);
    assert!(value.is_truncated());
    assert_eq!(value.as_str(), "\\.\\.\\.");

    let template = MarkdownString::from_validated_string(&huge);
    assert!(template.is_truncated());
    assert_eq!(template.as_str(), "\\.\\.\\.");
}

#[test]
fn substitution_escaping_difference() {
    // An escaped binding is escaped; a raw binding is spliced as is.
    let template = markdown_string("Value: {}").unwrap();
    let escaped = markdown_format(&template, vec![FormatArg::Escape("a!b".to_string())]);
    assert!(escaped.as_str().contains("a\\!b"));
    assert_eq!(escaped.as_str(), "Value: a\\!b");

    let already_valid = markdown_string("*x*").unwrap();
    let raw = markdown_format(&template, vec![FormatArg::Raw(already_valid)]);
    assert!(raw.as_str().contains("*x*"));
    assert_eq!(raw.as_str(), "Value: *x*");
}

#[test]
fn code_policy_inserts_verbatim() {
    let template = markdown_string("{}").unwrap();
    let result = markdown_format(&template, vec![FormatArg::Code(None, "a.b(c)".to_string())]);
    assert_eq!(result.as_str(), "```\na.b(c)\n```");
}

#[test]
fn end_to_end_scenario() {
    let template = markdown_string("*User:* {} \n*Amount:* {}").unwrap();

    let plain = markdown_format(
        &template,
        vec![
            FormatArg::Escape("Alice".to_string()),
            FormatArg::Escape(100.to_string()),
        ],
    );
    assert_eq!(plain.as_str(), "*User:* Alice \n*Amount:* 100");

    let reserved = markdown_format(
        &template,
        vec![
            FormatArg::Escape("Alice!".to_string()),
            FormatArg::Escape("10.50".to_string()),
        ],
    );
    assert_eq!(reserved.as_str(), "*User:* Alice\\! \n*Amount:* 10\\.50");
}

#[test]
fn markdown_string_reports_diagnosis() {
    assert_eq!(
        markdown_string("Hello!").unwrap_err(),
        MarkdownError::UnescapedReserved('!')
    );
    assert_eq!(
        markdown_string("*open").unwrap_err(),
        MarkdownError::UnbalancedToggle('*')
    );
    let ok = markdown_string("Hello *world*\\!").unwrap();
    assert_eq!(ok.as_str(), "Hello *world*\\!");
    assert!(!ok.is_truncated());
}

#[test]
fn extra_placeholders_stay_unfilled() {
    let template = markdown_string("{} and {}").unwrap();
    let result = markdown_format(&template, vec![FormatArg::Escape("one".to_string())]);
    assert_eq!(result.as_str(), "one and {}");
}

#[test]
fn extra_bindings_are_ignored() {
    let template = markdown_string("only {}").unwrap();
    let result = markdown_format(
        &template,
        vec![
            FormatArg::Escape("one".to_string()),
            FormatArg::Escape("two".to_string()),
        ],
    );
    assert_eq!(result.as_str(), "only one");
}
