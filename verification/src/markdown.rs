//! The invariant-bearing MarkdownV2 string value.
//!
//! A `MarkdownString` is an already-valid MarkdownV2 payload together
//! with a truncation flag.  It is produced by escaping arbitrary text,
//! by accepting a validator-approved template, or by combining two
//! existing values; every construction passes through the same length
//! guard, which enforces the payload ceiling and appends the
//! truncation marker exactly once.

use vstd::prelude::*;
use vstd::string::StrSliceExecFns;
use vstd::string::StringExecFns;

use crate::scan::MarkdownError;
use crate::scan::escape_prefix;
use crate::scan::escape_seq;
use crate::scan::lemma_escape_seq_safe;
use crate::scan::markdown_safe;
use crate::scan::needs_escape;
use crate::scan::spec_validate;
use crate::validate::validate_markdownv2_format;

verus! {

/// Ceiling on a payload, in characters: the longest message the
/// downstream transport accepts.
pub const MAX_MESSAGE_LENGTH: usize = 4096;

/// Length in characters of the escaped truncation marker.
pub const TRUNCATION_MARKER_LEN: usize = 6;

/// The escaped form of three periods, appended when content is cut.
pub open spec fn marker_text() -> Seq<char> {
    seq!['\\', '.', '\\', '.', '\\', '.']
}

/// The escaped truncation marker as text.
pub fn truncation_marker() -> (r: &'static str)
    ensures
        r@ == marker_text(),
{
    let r = "\\.\\.\\.";
    proof {
        reveal_strlit("\\.\\.\\.");
        assert(r@ =~= marker_text());
    }
    r
}

/// The marker is the escaped form of three periods, so it is itself a
/// safe payload and passes the validator.
pub proof fn lemma_marker_safe()
    ensures
        markdown_safe(marker_text()),
        spec_validate(marker_text()) is Ok,
{
    let dots = seq!['.', '.', '.'];
    assert(escape_prefix(dots, 0) =~= Seq::<char>::empty());
    assert(escape_prefix(dots, 1) =~= seq!['\\', '.']);
    assert(escape_prefix(dots, 2) =~= seq!['\\', '.', '\\', '.']);
    assert(escape_prefix(dots, 3) =~= marker_text());
    lemma_escape_seq_safe(dots);
}

/// The length guard, shared by every construction: appends `addition`
/// whole when it fits under the ceiling together with the marker;
/// otherwise appends the marker alone, or nothing when even the
/// marker cannot fit, and freezes the value.
pub open spec fn spec_push(text: Seq<char>, truncated: bool, addition: Seq<char>) -> (Seq<
    char,
>, bool) {
    if truncated {
        (text, true)
    } else if text.len() + addition.len() + marker_text().len() <= MAX_MESSAGE_LENGTH as int {
        (text + addition, false)
    } else if text.len() + marker_text().len() <= MAX_MESSAGE_LENGTH as int {
        (text + marker_text(), true)
    } else {
        (text, true)
    }
}

/// The guard keeps every payload under the ceiling, and leaves room
/// for the marker in every value it has not frozen.
pub proof fn lemma_push_bounds(text: Seq<char>, truncated: bool, addition: Seq<char>)
    requires
        text.len() <= MAX_MESSAGE_LENGTH as int,
    ensures
        spec_push(text, truncated, addition).0.len() <= MAX_MESSAGE_LENGTH as int,
        !spec_push(text, truncated, addition).1 ==> spec_push(text, truncated, addition).0.len()
            + marker_text().len() <= MAX_MESSAGE_LENGTH as int,
{
}

/// Truncation is deterministic and final: when an addition would push
/// the payload past the ceiling, the value gains exactly the marker,
/// stays under the ceiling, is flagged, and every later addition
/// leaves it unchanged.
pub proof fn lemma_truncation_determinism(text: Seq<char>, addition: Seq<char>, later: Seq<char>)
    requires
        text.len() + marker_text().len() <= MAX_MESSAGE_LENGTH as int,
        text.len() + addition.len() + marker_text().len() > MAX_MESSAGE_LENGTH as int,
    ensures
        spec_push(text, false, addition).1 == true,
        spec_push(text, false, addition).0 == text + marker_text(),
        spec_push(text, false, addition).0.len() <= MAX_MESSAGE_LENGTH as int,
        spec_push(
            spec_push(text, false, addition).0,
            spec_push(text, false, addition).1,
            later,
        ) == spec_push(text, false, addition),
{
}

/// Relies on alloc's `String::push`: appends exactly the given
/// character to the end of the string.
#[verifier::external_body]
pub(crate) fn push_char(s: &mut String, c: char)
    ensures
        final(s)@ == old(s)@.push(c),
{
    s.push(c);
}

/// Returns `input` with every syntactically meaningful character
/// prefixed by a backslash.
fn escape_text(input: &str) -> (r: String)
    ensures
        r@ == escape_seq(input@),
{
    let n = input.unicode_len();
    let mut out = String::new();
    let mut i: usize = 0;
    while i < n
        invariant
            n == input@.len(),
            0 <= i <= n,
            out@ == escape_prefix(input@, i as int),
        decreases n - i,
    {
        let c = input.get_char(i);
        if c == '_' || c == '*' || c == '[' || c == ']' || c == '(' || c == ')' || c == '~' || c
            == '`' || c == '>' || c == '#' || c == '+' || c == '-' || c == '=' || c == '|' || c
            == '{' || c == '}' || c == '.' || c == '!' || c == '\\' {
            proof {
                assert(needs_escape(c));
            }
            push_char(&mut out, '\\');
            push_char(&mut out, c);
        } else {
            push_char(&mut out, c);
        }
        proof {
            assert(out@ =~= escape_prefix(input@, i + 1));
        }
        i = i + 1;
    }
    out
}

/// A wrapper around `String` that ensures safe MarkdownV2 formatting.
///
/// The value can only be produced through escaping, through a
/// validator-approved template, or by combining existing values, so
/// arbitrary untrusted text can never become a payload without going
/// through one of those paths.
#[derive(Debug, Clone, PartialEq, Eq)]
pub struct MarkdownString {
    payload: String,
    truncated: bool,
}

impl View for MarkdownString {
    type V = Seq<char>;

    closed spec fn view(&self) -> Seq<char> {
        self.payload@
    }
}

impl MarkdownString {
    /// Whether the length guard has frozen this value.
    pub closed spec fn spec_truncated(&self) -> bool {
        self.truncated
    }

    /// Creates an empty `MarkdownString`.
    pub fn new() -> (r: MarkdownString)
        ensures
            r@ == Seq::<char>::empty(),
            !r.spec_truncated(),
    {
        MarkdownString { payload: String::new(), truncated: false }
    }

    /// Creates a `MarkdownString` by escaping every MarkdownV2
    /// special character in the input, then applying the length
    /// guard.  Safe for any input: the payload never holds an
    /// unescaped reserved character.  Escaping an already-escaped
    /// payload escapes its backslashes again; that double escape is
    /// intended, not a round trip.
    pub fn escape(input: &str) -> (r: MarkdownString)
        ensures
            r@ == spec_push(Seq::<char>::empty(), false, escape_seq(input@)).0,
            r.spec_truncated() == spec_push(Seq::<char>::empty(), false, escape_seq(input@)).1,
            markdown_safe(r@),
            spec_validate(r@) is Ok,
    {
        let escaped = escape_text(input);
        let mut r = MarkdownString::new();
        let piece = MarkdownString { payload: escaped, truncated: false };
        r.push(&piece);
        proof {
            lemma_escape_seq_safe(input@);
            lemma_marker_safe();
            assert(Seq::<char>::empty() + escape_seq(input@) =~= escape_seq(input@));
            assert(Seq::<char>::empty() + marker_text() =~= marker_text());
        }
        r
    }

    /// Accepts text that the validator has already certified (or that
    /// a trusted caller vouches for) and applies the length guard to
    /// it, without escaping anything.
    pub fn from_validated_string(s: &str) -> (r: MarkdownString)
        ensures
            r@ == spec_push(Seq::<char>::empty(), false, s@).0,
            r.spec_truncated() == spec_push(Seq::<char>::empty(), false, s@).1,
    {
        let mut r = MarkdownString::new();
        let piece = MarkdownString { payload: s.to_owned(), truncated: false };
        r.push(&piece);
        r
    }

    /// Unchecked constructor for tests: takes the text as the payload
    /// with no validation, no escaping and no length guard.
    pub fn test_template(s: &str) -> (r: MarkdownString)
        ensures
            r@ == s@,
            !r.spec_truncated(),
    {
        MarkdownString { payload: s.to_owned(), truncated: false }
    }

    /// Read-only view of the payload.
    pub fn as_str(&self) -> (r: &str)
        ensures
            r@ == self@,
    {
        self.payload.as_str()
    }

    /// Consumes the value and returns the payload.
    pub fn into_string(self) -> (r: String)
        ensures
            r@ == self@,
    {
        self.payload
    }

    /// Whether the length guard has cut content from this value.
    pub fn is_truncated(&self) -> (r: bool)
        ensures
            r == self.spec_truncated(),
    {
        self.truncated
    }

    /// Appends `other`'s payload under the length guard: the whole
    /// payload when it fits under the ceiling with room for the
    /// marker, else the marker alone, and freezes the value once
    /// anything was cut.  A frozen value never changes again.
    pub fn push(&mut self, other: &MarkdownString)
        ensures
            final(self)@ == spec_push(old(self)@, old(self).spec_truncated(), other@).0,
            final(self).spec_truncated() == spec_push(
                old(self)@,
                old(self).spec_truncated(),
                other@,
            ).1,
    {
        if self.truncated {
            return ;
        }
        let len = self.payload.as_str().unicode_len();
        let olen = other.payload.as_str().unicode_len();
        if len <= MAX_MESSAGE_LENGTH && olen <= MAX_MESSAGE_LENGTH && len + olen
            + TRUNCATION_MARKER_LEN <= MAX_MESSAGE_LENGTH {
            self.payload.append(other.payload.as_str());
        } else if len <= MAX_MESSAGE_LENGTH && len + TRUNCATION_MARKER_LEN
            <= MAX_MESSAGE_LENGTH {
            self.payload.append(truncation_marker());
            self.truncated = true;
        } else {
            self.truncated = true;
        }
    }
}

impl Default for MarkdownString {
    /// An empty, unfrozen value.
    fn default() -> (r: MarkdownString)
        ensures
            r@ == Seq::<char>::empty(),
            !r.spec_truncated(),
    {
        MarkdownString::new()
    }
}

impl From<String> for MarkdownString {
    /// Escapes the input, as `MarkdownString::escape` does.
    fn from(s: String) -> (r: MarkdownString) {
        MarkdownString::escape(s.as_str())
    }
}

impl vstd::std_specs::convert::FromSpecImpl<String> for MarkdownString {
    closed spec fn obeys_from_spec() -> bool {
        false
    }

    closed spec fn from_spec(s: String) -> MarkdownString {
        MarkdownString { payload: s, truncated: false }
    }
}

impl From<&str> for MarkdownString {
    /// Escapes the input, as `MarkdownString::escape` does.
    fn from(s: &str) -> (r: MarkdownString) {
        MarkdownString::escape(s)
    }
}

impl vstd::std_specs::convert::FromSpecImpl<&str> for MarkdownString {
    closed spec fn obeys_from_spec() -> bool {
        false
    }

    closed spec fn from_spec(s: &str) -> MarkdownString {
        arbitrary()
    }
}

/// Validates a format template and, when it is well-formed, turns it
/// into a `MarkdownString` under the length guard; otherwise returns
/// the validator's diagnosis.
pub fn markdown_string(format_str: &str) -> (r: Result<MarkdownString, MarkdownError>)
    ensures
        r is Ok <==> spec_validate(format_str@) is Ok,
        r is Ok ==> r->Ok_0@ == spec_push(Seq::<char>::empty(), false, format_str@).0
            && r->Ok_0.spec_truncated() == spec_push(Seq::<char>::empty(), false, format_str@).1,
        r is Ok ==> spec_validate(r->Ok_0@) is Ok,
        r is Err ==> r->Err_0 == spec_validate(format_str@)->Err_0,
{
    match validate_markdownv2_format(format_str) {
        Ok(()) => {
            let m = MarkdownString::from_validated_string(format_str);
            proof {
                lemma_marker_safe();
                assert(Seq::<char>::empty() + format_str@ =~= format_str@);
                assert(Seq::<char>::empty() + marker_text() =~= marker_text());
            }
            Ok(m)
        },
        Err(e) => Err(e),
    }
}

} // verus!
