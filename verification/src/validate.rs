//! Executable MarkdownV2 template validator.

use vstd::prelude::*;
use vstd::string::StrSliceExecFns;

use crate::scan::MarkdownError;
use crate::scan::ScanState;
use crate::scan::is_reserved_basic;
use crate::scan::lemma_scan_counts;
use crate::scan::lemma_scan_frozen;
use crate::scan::scan;
use crate::scan::spec_validate;

verus! {

/// Checks a format template for MarkdownV2 well-formedness: balanced
/// toggle markers, balanced link brackets and URL parentheses,
/// reserved characters escaped outside code contexts (with `{}`
/// exempt as a placeholder), and no code context left open.  Returns
/// the first violation as a diagnosis.
pub fn validate_markdownv2_format(format_str: &str) -> (r: Result<(), MarkdownError>)
    ensures
        r == spec_validate(format_str@),
{
    let ghost s = format_str@;
    let n = format_str.unicode_len();
    let mut i: usize = 0;
    let mut asterisk: usize = 0;
    let mut underscore: usize = 0;
    let mut tilde: usize = 0;
    let mut pipe: usize = 0;
    let mut backtick: usize = 0;
    let mut bracket: usize = 0;
    let mut paren: usize = 0;
    let mut in_code = false;
    let mut in_pre = false;
    let mut prev_live = false;
    let mut prev_char = ' ';
    while i < n
        invariant
            n == s.len(),
            s == format_str@,
            0 <= i <= n,
            scan(s, i as int) == (ScanState {
                asterisk: asterisk as nat,
                underscore: underscore as nat,
                tilde: tilde as nat,
                pipe: pipe as nat,
                backtick: backtick as nat,
                bracket: bracket as nat,
                paren: paren as nat,
                in_code: in_code,
                in_pre: in_pre,
                prev_live: prev_live,
                err: None,
            }),
            i > 0 ==> prev_char == s[i - 1],
        decreases n - i,
    {
        proof {
            lemma_scan_counts(s, i as int);
        }
        let c = format_str.get_char(i);
        let escaped = prev_live;
        prev_live = c == '\\' && !escaped;
        if !escaped {
            if c == '*' {
                asterisk = asterisk + 1;
            } else if c == '_' {
                underscore = underscore + 1;
            } else if c == '~' {
                tilde = tilde + 1;
            } else if c == '|' {
                pipe = pipe + 1;
            } else if c == '`' {
                backtick = backtick + 1;
                if n - i > 2 && format_str.get_char(i + 1) == '`' && format_str.get_char(i + 2)
                    == '`' {
                    in_pre = !in_pre;
                } else {
                    in_code = !in_code;
                }
            } else if c == '[' {
                bracket = bracket + 1;
            } else if c == ']' {
                if bracket > 0 {
                    bracket = bracket - 1;
                } else {
                    proof {
                        lemma_scan_frozen(s, i + 1, s.len() as int);
                    }
                    return Err(MarkdownError::UnmatchedClosingBracket);
                }
            } else if c == '(' {
                if i > 0 && prev_char == ']' {
                    paren = paren + 1;
                }
            } else if c == ')' {
                if paren > 0 {
                    paren = paren - 1;
                }
            } else if c == '!' || c == '.' || c == '-' || c == '+' || c == '=' || c == '>' || c
                == '#' {
                proof {
                    assert(is_reserved_basic(c));
                }
                if !in_code && !in_pre {
                    proof {
                        lemma_scan_frozen(s, i + 1, s.len() as int);
                    }
                    return Err(MarkdownError::UnescapedReserved(c));
                }
            } else if c == '{' {
                let placeholder = n - i > 1 && format_str.get_char(i + 1) == '}';
                if !in_code && !in_pre && !placeholder {
                    proof {
                        lemma_scan_frozen(s, i + 1, s.len() as int);
                    }
                    return Err(MarkdownError::UnescapedReserved('{'));
                }
            } else if c == '}' {
                let placeholder = i > 0 && prev_char == '{';
                if !in_code && !in_pre && !placeholder {
                    proof {
                        lemma_scan_frozen(s, i + 1, s.len() as int);
                    }
                    return Err(MarkdownError::UnescapedReserved('}'));
                }
            }
        }
        prev_char = c;
        i = i + 1;
    }
    if asterisk % 2 != 0 {
        Err(MarkdownError::UnbalancedToggle('*'))
    } else if underscore % 2 != 0 {
        Err(MarkdownError::UnbalancedToggle('_'))
    } else if backtick % 2 != 0 {
        Err(MarkdownError::UnbalancedToggle('`'))
    } else if tilde % 2 != 0 {
        Err(MarkdownError::UnbalancedToggle('~'))
    } else if pipe % 2 != 0 {
        Err(MarkdownError::UnbalancedToggle('|'))
    } else if bracket != 0 {
        Err(MarkdownError::UnmatchedBrackets)
    } else if paren != 0 {
        Err(MarkdownError::UnmatchedParentheses)
    } else if in_code {
        Err(MarkdownError::UnclosedCode)
    } else if in_pre {
        Err(MarkdownError::UnclosedPre)
    } else {
        Ok(())
    }
}

} // verus!
