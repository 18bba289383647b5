//! Specification model of the MarkdownV2 template scan.
//!
//! A template is checked by a single left-to-right pass that keeps
//! parity counters for the toggle markers, nesting counters for link
//! brackets and URL parentheses, the two code-context flags, and a
//! one-step look-back that resolves escape sequences.  The spec
//! functions here describe that pass over a `Seq<char>`; the
//! executable validator in `validate` is proved to follow them
//! exactly.

use vstd::prelude::*;

verus! {

/// Diagnosis for a template that breaks one of the dialect's rules.
#[derive(Clone, Copy, Debug, PartialEq, Eq, Structural)]
pub enum MarkdownError {
    /// A reserved character appeared unescaped outside a code context.
    UnescapedReserved(char),
    /// A `]` appeared with no `[` still open.
    UnmatchedClosingBracket,
    /// A toggle marker (`*`, `_`, `` ` ``, `~` or `|`) appeared an odd
    /// number of times.
    UnbalancedToggle(char),
    /// Link brackets did not resolve to zero by the end of the scan.
    UnmatchedBrackets,
    /// Link-URL parentheses did not resolve to zero by the end.
    UnmatchedParentheses,
    /// An inline-code span was still open at the end.
    UnclosedCode,
    /// A fenced code block was still open at the end.
    UnclosedPre,
}

/// Syntactic category of one character of the dialect.
#[derive(Clone, Copy, Debug, PartialEq, Eq, Structural)]
pub enum CharCategory {
    /// Must be escaped to appear literally outside a code context.
    Reserved,
    /// Opens or closes an inline style span; must occur an even
    /// number of times.
    Toggle,
    /// A backtick: toggles inline code, or a fenced block when tripled.
    CodeFence,
    /// `[`, opening a link text span.
    LinkOpen,
    /// `]`, closing a link text span.
    LinkClose,
    /// `(`, counted only right after a completed `]`.
    UrlOpen,
    /// `)`, closing a URL span.
    UrlClose,
    /// The backslash that escapes the next character.
    Backslash,
    /// Everything else; no constraint.
    Ordinary,
}

/// The reserved characters other than the braces: `! . - + = > #`.
pub open spec fn is_reserved_basic(c: char) -> bool {
    c == '!' || c == '.' || c == '-' || c == '+' || c == '=' || c == '>' || c == '#'
}

/// All reserved characters, braces included.
pub open spec fn is_reserved(c: char) -> bool {
    is_reserved_basic(c) || c == '{' || c == '}'
}

/// The toggle markers whose count must be even.
pub open spec fn is_toggle(c: char) -> bool {
    c == '*' || c == '_' || c == '~' || c == '|'
}

/// Spec-level classifier.
pub open spec fn spec_classify(c: char) -> CharCategory {
    if is_reserved(c) {
        CharCategory::Reserved
    } else if is_toggle(c) {
        CharCategory::Toggle
    } else if c == '`' {
        CharCategory::CodeFence
    } else if c == '[' {
        CharCategory::LinkOpen
    } else if c == ']' {
        CharCategory::LinkClose
    } else if c == '(' {
        CharCategory::UrlOpen
    } else if c == ')' {
        CharCategory::UrlClose
    } else if c == '\\' {
        CharCategory::Backslash
    } else {
        CharCategory::Ordinary
    }
}

/// Classifies one character of the dialect.
pub fn classify(c: char) -> (r: CharCategory)
    ensures
        r == spec_classify(c),
{
    if c == '!' || c == '.' || c == '-' || c == '+' || c == '=' || c == '>' || c == '#' || c == '{'
        || c == '}' {
        CharCategory::Reserved
    } else if c == '*' || c == '_' || c == '~' || c == '|' {
        CharCategory::Toggle
    } else if c == '`' {
        CharCategory::CodeFence
    } else if c == '[' {
        CharCategory::LinkOpen
    } else if c == ']' {
        CharCategory::LinkClose
    } else if c == '(' {
        CharCategory::UrlOpen
    } else if c == ')' {
        CharCategory::UrlClose
    } else if c == '\\' {
        CharCategory::Backslash
    } else {
        CharCategory::Ordinary
    }
}

/// State of the scan after some prefix of the template.
pub struct ScanState {
    /// Parity counter for `*`.
    pub asterisk: nat,
    /// Parity counter for `_`.
    pub underscore: nat,
    /// Parity counter for `~`.
    pub tilde: nat,
    /// Parity counter for `|`.
    pub pipe: nat,
    /// Parity counter for `` ` ``.
    pub backtick: nat,
    /// Open link brackets; never allowed to go negative.
    pub bracket: nat,
    /// Open link-URL parentheses.
    pub paren: nat,
    /// Inside an inline-code span.
    pub in_code: bool,
    /// Inside a fenced code block.
    pub in_pre: bool,
    /// The previous character was a live (itself unescaped) backslash.
    pub prev_live: bool,
    /// First rule broken so far, if any; once set the state is frozen.
    pub err: Option<MarkdownError>,
}

/// State before any character has been read.
pub open spec fn scan_init() -> ScanState {
    ScanState {
        asterisk: 0,
        underscore: 0,
        tilde: 0,
        pipe: 0,
        backtick: 0,
        bracket: 0,
        paren: 0,
        in_code: false,
        in_pre: false,
        prev_live: false,
        err: None,
    }
}

/// One step of the scan, reading `s[i]`.  The braces consult the
/// neighbouring characters for the placeholder exemption, a backtick
/// looks two characters ahead for a fence, and `(` looks one back for
/// a completed `]`; all other decisions use the state alone.
pub open spec fn scan_step(st: ScanState, s: Seq<char>, i: int) -> ScanState {
    if st.err is Some {
        st
    } else {
        let c = s[i];
        let escaped = st.prev_live;
        let st1 = ScanState { prev_live: c == '\\' && !escaped, ..st };
        if escaped {
            st1
        } else if c == '*' {
            ScanState { asterisk: st.asterisk + 1, ..st1 }
        } else if c == '_' {
            ScanState { underscore: st.underscore + 1, ..st1 }
        } else if c == '~' {
            ScanState { tilde: st.tilde + 1, ..st1 }
        } else if c == '|' {
            ScanState { pipe: st.pipe + 1, ..st1 }
        } else if c == '`' {
            if i + 2 < s.len() && s[i + 1] == '`' && s[i + 2] == '`' {
                ScanState { backtick: st.backtick + 1, in_pre: !st.in_pre, ..st1 }
            } else {
                ScanState { backtick: st.backtick + 1, in_code: !st.in_code, ..st1 }
            }
        } else if c == '[' {
            ScanState { bracket: st.bracket + 1, ..st1 }
        } else if c == ']' {
            if st.bracket > 0 {
                ScanState { bracket: (st.bracket - 1) as nat, ..st1 }
            } else {
                ScanState { err: Some(MarkdownError::UnmatchedClosingBracket), ..st1 }
            }
        } else if c == '(' {
            if i > 0 && s[i - 1] == ']' {
                ScanState { paren: st.paren + 1, ..st1 }
            } else {
                st1
            }
        } else if c == ')' {
            if st.paren > 0 {
                ScanState { paren: (st.paren - 1) as nat, ..st1 }
            } else {
                st1
            }
        } else if is_reserved_basic(c) {
            if !st.in_code && !st.in_pre {
                ScanState { err: Some(MarkdownError::UnescapedReserved(c)), ..st1 }
            } else {
                st1
            }
        } else if c == '{' {
            if !st.in_code && !st.in_pre && !(i + 1 < s.len() && s[i + 1] == '}') {
                ScanState { err: Some(MarkdownError::UnescapedReserved('{')), ..st1 }
            } else {
                st1
            }
        } else if c == '}' {
            if !st.in_code && !st.in_pre && !(i > 0 && s[i - 1] == '{') {
                ScanState { err: Some(MarkdownError::UnescapedReserved('}')), ..st1 }
            } else {
                st1
            }
        } else {
            st1
        }
    }
}

/// State of the scan after the first `n` characters of `s`.
pub open spec fn scan(s: Seq<char>, n: int) -> ScanState
    decreases n,
{
    if n <= 0 {
        scan_init()
    } else {
        scan_step(scan(s, n - 1), s, n - 1)
    }
}

/// Verdict of the validator on the whole of `s`: the first rule the
/// scan broke, or the first end-of-scan balance check that fails.
pub open spec fn spec_validate(s: Seq<char>) -> Result<(), MarkdownError> {
    let st = scan(s, s.len() as int);
    match st.err {
        Some(e) => Err(e),
        None => {
            if st.asterisk % 2 != 0 {
                Err(MarkdownError::UnbalancedToggle('*'))
            } else if st.underscore % 2 != 0 {
                Err(MarkdownError::UnbalancedToggle('_'))
            } else if st.backtick % 2 != 0 {
                Err(MarkdownError::UnbalancedToggle('`'))
            } else if st.tilde % 2 != 0 {
                Err(MarkdownError::UnbalancedToggle('~'))
            } else if st.pipe % 2 != 0 {
                Err(MarkdownError::UnbalancedToggle('|'))
            } else if st.bracket != 0 {
                Err(MarkdownError::UnmatchedBrackets)
            } else if st.paren != 0 {
                Err(MarkdownError::UnmatchedParentheses)
            } else if st.in_code {
                Err(MarkdownError::UnclosedCode)
            } else if st.in_pre {
                Err(MarkdownError::UnclosedPre)
            } else {
                Ok(())
            }
        },
    }
}

/// No unescaped reserved character outside a code context, and no
/// stray `]`: the scan finds nothing to reject outright.
pub open spec fn markdown_safe(s: Seq<char>) -> bool {
    scan(s, s.len() as int).err is None
}

/// Once the scan has recorded an error the state never changes again.
pub proof fn lemma_scan_frozen(s: Seq<char>, n: int, m: int)
    requires
        0 <= n <= m,
        scan(s, n).err is Some,
    ensures
        scan(s, m) == scan(s, n),
    decreases m - n,
{
    if m > n {
        lemma_scan_frozen(s, n, m - 1);
    }
}

/// Every counter is bounded by the number of characters scanned.
pub proof fn lemma_scan_counts(s: Seq<char>, n: int)
    requires
        0 <= n,
    ensures
        scan(s, n).asterisk <= n,
        scan(s, n).underscore <= n,
        scan(s, n).tilde <= n,
        scan(s, n).pipe <= n,
        scan(s, n).backtick <= n,
        scan(s, n).bracket <= n,
        scan(s, n).paren <= n,
    decreases n,
{
    if n > 0 {
        lemma_scan_counts(s, n - 1);
    }
}

/// A template the validator accepts holds no unescaped reserved
/// character outside a code context.
pub proof fn lemma_validated_safe(s: Seq<char>)
    requires
        spec_validate(s) is Ok,
    ensures
        markdown_safe(s),
{
}

/// The characters that escaping prefixes with a backslash: every
/// character the dialect gives a syntactic meaning, the backslash
/// itself included so that escaping stays reversible.
pub open spec fn needs_escape(c: char) -> bool {
    c == '_' || c == '*' || c == '[' || c == ']' || c == '(' || c == ')' || c == '~' || c == '`'
        || c == '>' || c == '#' || c == '+' || c == '-' || c == '=' || c == '|' || c == '{'
        || c == '}' || c == '.' || c == '!' || c == '\\'
}

/// What escaping emits for one character.
pub open spec fn escape_char(c: char) -> Seq<char> {
    if needs_escape(c) {
        seq!['\\', c]
    } else {
        seq![c]
    }
}

/// The escaped form of the first `n` characters of `s`.
pub open spec fn escape_prefix(s: Seq<char>, n: int) -> Seq<char>
    decreases n,
{
    if n <= 0 {
        Seq::empty()
    } else {
        escape_prefix(s, n - 1) + escape_char(s[n - 1])
    }
}

/// The escaped form of `s`: each syntactically meaningful character
/// prefixed with a backslash, every other character kept as it is.
pub open spec fn escape_seq(s: Seq<char>) -> Seq<char> {
    escape_prefix(s, s.len() as int)
}

/// A character the scanner acts on when it is unescaped: everything
/// in the escape set except the backslash, which has no arm of its
/// own in the scan.
spec fn is_active(c: char) -> bool {
    needs_escape(c) && c != '\\'
}

/// The character at position `n` of `s` stands behind a live
/// backslash: `s[n - 1]` is a backslash that itself is not escaped.
pub open spec fn live(s: Seq<char>, n: int) -> bool
    decreases n,
{
    n > 0 && s[n - 1] == '\\' && !live(s, n - 1)
}

/// `live` at a position inside `a` ignores anything appended after `a`.
proof fn lemma_live_prefix(a: Seq<char>, b: Seq<char>, j: int)
    requires
        0 <= j <= a.len(),
    ensures
        live(a + b, j) == live(a, j),
    decreases j,
{
    if j > 0 {
        lemma_live_prefix(a, b, j - 1);
    }
}

/// In escaped text every active character stands behind a live
/// backslash, and the text never ends in a live backslash.
proof fn lemma_escape_structure(s: Seq<char>, n: int)
    requires
        0 <= n <= s.len(),
    ensures
        !live(escape_prefix(s, n), escape_prefix(s, n).len() as int),
        forall|j: int|
            0 <= j < escape_prefix(s, n).len() && is_active(#[trigger] escape_prefix(s, n)[j])
                ==> live(escape_prefix(s, n), j),
    decreases n,
{
    if n > 0 {
        lemma_escape_structure(s, n - 1);
        let prev = escape_prefix(s, n - 1);
        let block = escape_char(s[n - 1]);
        let cur = escape_prefix(s, n);
        assert(cur == prev + block);
        assert forall|j: int| 0 <= j <= prev.len() implies live(cur, j) == live(prev, j) by {
            lemma_live_prefix(prev, block, j);
        }
        let p = prev.len() as int;
        if needs_escape(s[n - 1]) {
            assert(cur[p] == '\\');
            assert(live(cur, p + 1));
            assert(!live(cur, p + 2));
        } else {
            assert(cur[p] == s[n - 1]);
            assert(!is_active(cur[p]));
            assert(!live(cur, p + 1));
        }
    }
}

/// The scan of escaped text stays in the clean state: no error, no
/// open context, every counter at zero.
proof fn lemma_escape_scan_clean(s: Seq<char>, k: int)
    requires
        0 <= k <= escape_seq(s).len(),
    ensures
        scan(escape_seq(s), k) == (ScanState {
            asterisk: 0,
            underscore: 0,
            tilde: 0,
            pipe: 0,
            backtick: 0,
            bracket: 0,
            paren: 0,
            in_code: false,
            in_pre: false,
            prev_live: live(escape_seq(s), k),
            err: None,
        }),
    decreases k,
{
    let e = escape_seq(s);
    if k > 0 {
        lemma_escape_scan_clean(s, k - 1);
        lemma_escape_structure(s, s.len() as int);
        let c = e[k - 1];
        if !live(e, k - 1) {
            assert(!is_active(c));
        }
    }
}

/// Escaped text holds no unescaped reserved character and no stray
/// `]`: escaping always produces a safe payload.  More: it passes
/// the whole validator, since every marker in it is escaped and so
/// no counter ever moves.
pub proof fn lemma_escape_seq_safe(s: Seq<char>)
    ensures
        markdown_safe(escape_seq(s)),
        spec_validate(escape_seq(s)) is Ok,
{
    lemma_escape_scan_clean(s, escape_seq(s).len() as int);
}

} // verus!
