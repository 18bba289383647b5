use yoroolbot::FormatArg;
use yoroolbot::markdown_format;
use yoroolbot::markdown_string;

#[test]
fn test_markdown_format_code_modifier_basic() {
    // A code binding without a language
    let table = "Name    Amount\nFood      10.50\nTotal     10.50";
    let template = markdown_string("{}").unwrap();
    let result = markdown_format(&template, vec![FormatArg::Code(None, table.to_string())]);

    assert_eq!(
        result.as_str(),
        "```\nName    Amount\nFood      10.50\nTotal     10.50\n```"
    );
}

#[test]
fn test_markdown_format_code_modifier_with_language() {
    // A code binding with a language tag
    let code = "fn main() { println!(\"Hello\"); }";
    let template = markdown_string("{}").unwrap();
    let result = markdown_format(
        &template,
        vec![FormatArg::Code(Some("rust".to_string()), code.to_string())],
    );

    assert_eq!(
        result.as_str(),
        "```rust\nfn main() { println!(\"Hello\"); }\n```"
    );
}

#[test]
fn test_markdown_format_code_modifier_with_prefix() {
    // A code binding after a markdown prefix
    let table = "Category  Amount\nFood        8.50\nOther      25.00";
    let template = markdown_string("*Report*:\n{}").unwrap();
    let result = markdown_format(&template, vec![FormatArg::Code(None, table.to_string())]);

    assert_eq!(
        result.as_str(),
        "*Report*:\n```\nCategory  Amount\nFood        8.50\nOther      25.00\n```"
    );
}

#[test]
fn test_markdown_format_code_modifier_mixed_args() {
    // A code binding mixed with an escaped one
    let category = "Food";
    let table = "Item    Amount\nCoffee    5.50\nTea       3.00";
    let template = markdown_string("*{}*:\n{}").unwrap();
    let result = markdown_format(
        &template,
        vec![
            FormatArg::Escape(category.to_string()),
            FormatArg::Code(None, table.to_string()),
        ],
    );

    assert_eq!(
        result.as_str(),
        "*Food*:\n```\nItem    Amount\nCoffee    5.50\nTea       3.00\n```"
    );
}

#[test]
fn test_markdown_format_code_modifier_no_escaping() {
    // Content inside a code binding is not escaped
    let content = "Amount: $10.50 (10%)";
    let template = markdown_string("{}").unwrap();
    let result = markdown_format(&template, vec![FormatArg::Code(None, content.to_string())]);

    // Periods, parentheses, and dollar signs should NOT be escaped inside code blocks
    assert_eq!(result.as_str(), "```\nAmount: $10.50 (10%)\n```");
    assert!(!result.as_str().contains("\\.")); // Should not contain escaped period
    assert!(!result.as_str().contains("\\(")); // Should not contain escaped parenthesis
}

#[test]
fn test_markdown_format_code_modifier_multiple_separate() {
    // Multiple code blocks created separately and combined
    let table1 = "Item1   Value1";
    let single = markdown_string("{}").unwrap();
    let block1 = markdown_format(&single, vec![FormatArg::Code(None, table1.to_string())]);
    assert_eq!(block1.as_str(), "```\nItem1   Value1\n```");

    let table2 = "Item2   Value2";
    let block2 = markdown_format(&single, vec![FormatArg::Code(None, table2.to_string())]);
    assert_eq!(block2.as_str(), "```\nItem2   Value2\n```");

    let template = markdown_string("First:\n{}\n\nSecond:\n{}").unwrap();
    let result = markdown_format(
        &template,
        vec![FormatArg::Raw(block1), FormatArg::Raw(block2)],
    );
    assert_eq!(
        result.as_str(),
        "First:\n```\nItem1   Value1\n```\n\nSecond:\n```\nItem2   Value2\n```"
    );
}

#[test]
fn test_markdown_format_code_modifier_with_raw() {
    // Code and raw bindings together
    let bold_text = markdown_string("*Important*").unwrap();
    let table = "Name   Value\nTest     123";
    let template = markdown_string("{}: {}").unwrap();
    let result = markdown_format(
        &template,
        vec![
            FormatArg::Raw(bold_text),
            FormatArg::Code(None, table.to_string()),
        ],
    );

    assert_eq!(
        result.as_str(),
        "*Important*: ```\nName   Value\nTest     123\n```"
    );
}
