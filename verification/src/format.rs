//! Placeholder substitution for validated templates.
//!
//! A template's `{}` markers are filled left to right from an ordered
//! list of bindings, each carrying the policy that decides how its
//! value enters the payload: escaped, spliced raw, or wrapped in a
//! fenced code block.  Markers beyond the bindings stay unfilled, and
//! bindings beyond the markers are ignored.  The result passes
//! through the same length guard as every other construction.

use vstd::prelude::*;
use vstd::string::StrSliceExecFns;
use vstd::string::StringExecFns;

use crate::markdown::MarkdownString;
use crate::markdown::push_char;
use crate::markdown::spec_push;
use crate::scan::escape_seq;

verus! {

/// One substitution binding: the policy together with the value.
#[derive(Debug, Clone)]
pub enum FormatArg {
    /// The value is escaped before it is spliced in.
    Escape(String),
    /// The value is an already-safe payload, spliced in verbatim.
    Raw(MarkdownString),
    /// The value is wrapped in a fenced code block, with an optional
    /// language tag in the fence opener; nothing inside is escaped.
    Code(Option<String>, String),
}

/// A fenced code block around `body`, with the optional language tag
/// in the opening fence.
pub open spec fn code_block_text(lang: Option<String>, body: Seq<char>) -> Seq<char> {
    seq!['`', '`', '`'] + (match lang {
        Some(l) => l@,
        None => Seq::<char>::empty(),
    }) + seq!['\n'] + body + seq!['\n', '`', '`', '`']
}

/// The text one binding splices into the template: its value escaped
/// and length-guarded, its payload verbatim, or a fenced code block.
pub open spec fn spec_render(arg: FormatArg) -> Seq<char> {
    match arg {
        FormatArg::Escape(s) => spec_push(Seq::<char>::empty(), false, escape_seq(s@)).0,
        FormatArg::Raw(m) => m@,
        FormatArg::Code(lang, body) => code_block_text(lang, body@),
    }
}

/// Position of the leftmost `{}` marker at or after `i`, or -1.
pub open spec fn first_placeholder_from(s: Seq<char>, i: int) -> int
    decreases s.len() - i,
{
    if i + 1 >= s.len() {
        -1
    } else if s[i] == '{' && s[i + 1] == '}' {
        i
    } else {
        first_placeholder_from(s, i + 1)
    }
}

/// Replaces the leftmost `{}` marker of `s` with `r`; `s` unchanged
/// when it has no marker.
pub open spec fn splice_first(s: Seq<char>, r: Seq<char>) -> Seq<char> {
    let i = first_placeholder_from(s, 0);
    if i >= 0 {
        s.subrange(0, i) + r + s.subrange(i + 2, s.len() as int)
    } else {
        s
    }
}

/// Fills markers left to right, one binding at a time: each binding
/// replaces the leftmost marker of the text produced so far.
pub open spec fn apply_args(s: Seq<char>, args: Seq<FormatArg>) -> Seq<char>
    decreases args.len(),
{
    if args.len() == 0 {
        s
    } else {
        apply_args(splice_first(s, spec_render(args[0])), args.drop_first())
    }
}

/// Finds the leftmost `{}` marker of `s`.
fn find_placeholder(s: &str) -> (r: Option<usize>)
    ensures
        match r {
            Some(i) => first_placeholder_from(s@, 0) == i as int && i + 1 < s@.len()
                && s@[i as int] == '{' && s@[i as int + 1] == '}',
            None => first_placeholder_from(s@, 0) == -1,
        },
{
    let n = s.unicode_len();
    let mut i: usize = 0;
    while n - i > 1
        invariant
            n == s@.len(),
            0 <= i <= n,
            first_placeholder_from(s@, 0) == first_placeholder_from(s@, i as int),
        decreases n - i,
    {
        let c1 = s.get_char(i);
        let c2 = s.get_char(i + 1);
        if c1 == '{' && c2 == '}' {
            return Some(i);
        }
        i = i + 1;
    }
    None
}

/// Replaces the marker at `i` with `r`.
fn splice_at(s: &str, i: usize, r: &str) -> (out: String)
    requires
        i + 1 < s@.len(),
    ensures
        out@ == s@.subrange(0, i as int) + r@ + s@.subrange(i as int + 2, s@.len() as int),
{
    let n = s.unicode_len();
    let pre = s.substring_char(0, i);
    let post = s.substring_char(i + 2, n);
    let mut out = pre.to_owned();
    out.append(r);
    out.append(post);
    out
}

/// Renders one binding per its policy.
fn render_arg(arg: &FormatArg) -> (r: String)
    ensures
        r@ == spec_render(*arg),
{
    match arg {
        FormatArg::Escape(s) => MarkdownString::escape(s.as_str()).into_string(),
        FormatArg::Raw(m) => m.as_str().to_owned(),
        FormatArg::Code(lang, body) => {
            let mut out = String::new();
            out.append("```");
            match lang {
                Some(l) => out.append(l.as_str()),
                None => (),
            }
            push_char(&mut out, '\n');
            out.append(body.as_str());
            push_char(&mut out, '\n');
            out.append("```");
            proof {
                reveal_strlit("```");
                assert("```"@ =~= seq!['`', '`', '`']);
                assert(out@ =~= spec_render(*arg));
            }
            out
        },
    }
}

/// Fills the template's `{}` markers left to right from `args`, each
/// binding rendered per its policy, and passes the outcome through
/// the length guard.  Markers beyond the bindings stay unfilled;
/// bindings beyond the markers are ignored.  The template's payload
/// alone is read: its truncation flag does not carry over.
pub fn markdown_format(template: &MarkdownString, args: Vec<FormatArg>) -> (r: MarkdownString)
    ensures
        r@ == spec_push(Seq::<char>::empty(), false, apply_args(template@, args@)).0,
        r.spec_truncated() == spec_push(Seq::<char>::empty(), false, apply_args(template@, args@)).1,
{
    let mut result: String = template.as_str().to_owned();
    let n = args.len();
    let mut k: usize = 0;
    proof {
        assert(args@.skip(0) =~= args@);
    }
    while k < n
        invariant
            n == args@.len(),
            0 <= k <= n,
            apply_args(template@, args@) == apply_args(result@, args@.skip(k as int)),
        decreases n - k,
    {
        let ghost pre_text = result@;
        let rendered = render_arg(&args[k]);
        match find_placeholder(result.as_str()) {
            Some(i) => {
                result = splice_at(result.as_str(), i, rendered.as_str());
            },
            None => (),
        }
        proof {
            assert(args@.skip(k as int)[0] == args@[k as int]);
            assert(args@.skip(k as int).drop_first() =~= args@.skip(k as int + 1));
            assert(result@ == splice_first(pre_text, spec_render(args@[k as int])));
        }
        k = k + 1;
    }
    proof {
        assert(args@.skip(n as int) =~= Seq::<FormatArg>::empty());
    }
    MarkdownString::from_validated_string(result.as_str())
}

} // verus!
