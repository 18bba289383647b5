use yoroolbot::MarkdownError;
use yoroolbot::validate_markdownv2_format;

#[test]
fn test_compile_time_validation() {
    // The template used by the startup self-check compiles cleanly.
    let format_str = "Hello *{}*";
    assert!(
        validate_markdownv2_format(format_str).is_ok(),
        "Unmatched asterisks in markdown format string"
    );
}

#[test]
fn test_markdownv2_format_patterns() {
    // Test various valid MarkdownV2 patterns
    let valid_patterns = [
        "Simple text",
        "With *bold* text",
        "With _italic_ text",
        "With `code` text",
        "With ~strikethrough~ text",
        "With ||spoiler|| text",
        "*{}* and _{}_ and `{}`",
        "**Bold** text",
        "__Italic__ text",
        "~~Strikethrough~~ text",
        "Link: [text](url)",
        "Code block: ```code```",
        "Mixed: *bold* and `code`",
        "Escaped \\! exclamation",
        "Escaped \\. period",
        "Escaped \\- dash",
        "Escaped \\+ plus",
        "Escaped \\= equals",
        "Format placeholder: {}",
    ];

    for pattern in valid_patterns {
        let r = validate_markdownv2_format(pattern);
        assert!(
            r != Err(MarkdownError::UnbalancedToggle('*')),
            "Pattern '{}' has unmatched asterisks",
            pattern
        );
        assert!(
            r != Err(MarkdownError::UnbalancedToggle('_')),
            "Pattern '{}' has unmatched underscores",
            pattern
        );
        assert!(
            r != Err(MarkdownError::UnbalancedToggle('`')),
            "Pattern '{}' has unmatched backticks",
            pattern
        );
        assert!(
            r != Err(MarkdownError::UnbalancedToggle('~')),
            "Pattern '{}' has unmatched tildes",
            pattern
        );
        assert!(
            r != Err(MarkdownError::UnbalancedToggle('|')),
            "Pattern '{}' has unmatched pipes",
            pattern
        );
        assert!(
            r != Err(MarkdownError::UnmatchedBrackets),
            "Pattern '{}' has unmatched square brackets",
            pattern
        );
        assert!(
            r != Err(MarkdownError::UnmatchedParentheses),
            "Pattern '{}' has unmatched parentheses",
            pattern
        );
        assert!(r.is_ok(), "Pattern '{}' should validate", pattern);
    }
}

#[test]
fn test_escape_detection() {
    // The period in this string stands behind a live backslash, so
    // the validator must not reject it as unescaped.
    let test_string = "text\\.more";
    assert!(
        validate_markdownv2_format(test_string).is_ok(),
        "Period at position {} should be escaped in '{}'",
        5,
        test_string
    );
}

#[test]
fn balanced_markers_accepted() {
    assert!(validate_markdownv2_format("*{}*").is_ok());
    assert!(validate_markdownv2_format("_{}_").is_ok());
    assert!(validate_markdownv2_format("`{}`").is_ok());
    assert_eq!(
        validate_markdownv2_format("*unmatched"),
        Err(MarkdownError::UnbalancedToggle('*'))
    );
}

#[test]
fn reserved_characters_rejected() {
    assert_eq!(
        validate_markdownv2_format("Hello!"),
        Err(MarkdownError::UnescapedReserved('!'))
    );
    assert!(validate_markdownv2_format("Hello\\!").is_ok());
}

#[test]
fn placeholder_braces_exempt() {
    assert!(validate_markdownv2_format("Use {} here").is_ok());
    assert_eq!(
        validate_markdownv2_format("lone { brace"),
        Err(MarkdownError::UnescapedReserved('{'))
    );
    assert_eq!(
        validate_markdownv2_format("lone } brace"),
        Err(MarkdownError::UnescapedReserved('}'))
    );
}

#[test]
fn each_reserved_character_diagnosed() {
    for c in ['!', '.', '-', '+', '=', '>', '#'] {
        let s = format!("x{}y", c);
        assert_eq!(
            validate_markdownv2_format(&s),
            Err(MarkdownError::UnescapedReserved(c)),
            "'{}' should be rejected",
            c
        );
    }
}

#[test]
fn reserved_characters_allowed_in_code() {
    assert!(validate_markdownv2_format("`a.b!c`").is_ok());
    assert!(validate_markdownv2_format("```\na.b!c\n```").is_ok());
}

#[test]
fn unbalanced_toggles_diagnosed() {
    assert_eq!(
        validate_markdownv2_format("_x"),
        Err(MarkdownError::UnbalancedToggle('_'))
    );
    assert_eq!(
        validate_markdownv2_format("~x"),
        Err(MarkdownError::UnbalancedToggle('~'))
    );
    assert_eq!(
        validate_markdownv2_format("|x"),
        Err(MarkdownError::UnbalancedToggle('|'))
    );
    assert_eq!(
        validate_markdownv2_format("`x"),
        Err(MarkdownError::UnbalancedToggle('`'))
    );
}

#[test]
fn link_bracket_diagnoses() {
    assert_eq!(
        validate_markdownv2_format("]x"),
        Err(MarkdownError::UnmatchedClosingBracket)
    );
    assert_eq!(
        validate_markdownv2_format("[x"),
        Err(MarkdownError::UnmatchedBrackets)
    );
    assert_eq!(
        validate_markdownv2_format("[x](y"),
        Err(MarkdownError::UnmatchedParentheses)
    );
}

#[test]
fn unclosed_code_diagnosed() {
    // Four backticks where the first three open a fence: the inline
    // toggle never closes.
    assert_eq!(
        validate_markdownv2_format("```x`"),
        Err(MarkdownError::UnclosedCode)
    );
}

#[test]
fn parens_not_after_bracket_ignored() {
    // A parenthesis that does not follow `]` is not a URL span.
    assert!(validate_markdownv2_format("just )" ).is_ok());
    assert!(validate_markdownv2_format("a ( b").is_ok());
}
